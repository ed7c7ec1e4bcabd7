//! A fixed-capacity UTF-8 string held entirely inline, with no heap allocation.

pub mod buffer;
pub mod conversions;
pub mod equality;
pub mod errors;
pub mod inline_string;
pub mod laws;
pub mod model;
pub mod scalar;
pub mod std_calls;

pub use errors::NotEnoughCapacityError;
pub use errors::NotEnoughSpaceError;
pub use inline_string::InlineString;
pub use inline_string::INLINE_STRING_CAPACITY;

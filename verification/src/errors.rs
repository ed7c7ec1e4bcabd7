//! Error values reported when text does not fit into inline storage.

use vstd::prelude::*;
use vstd::std_specs::convert::FromSpecImpl;
use std::convert::Infallible;

verus! {

/// Returned by a mutation that would grow an inline string past its capacity.
/// The string is left exactly as it was.
#[derive(Debug, Clone, Copy, PartialEq, Eq, Structural)]
pub struct NotEnoughSpaceError;

/// Returned when a string is too long to be converted into an inline string.
#[derive(Debug, Clone, Copy, PartialEq, Eq, Structural)]
pub struct NotEnoughCapacityError;

impl NotEnoughCapacityError {
    /// The text that describes this error.
    pub fn message(&self) -> (text: &'static str)
        ensures
            text@ == "the length of the string is bigger than maximum capacity of `InlineString`"@,
    {
        "the length of the string is bigger than maximum capacity of `InlineString`"
    }
}

impl From<Infallible> for NotEnoughCapacityError {
    /// A conversion that cannot fail has no error to convert: no value of
    /// `Infallible` exists, so this is never reached.
    fn from(x: Infallible) -> (e: NotEnoughCapacityError) {
        NotEnoughCapacityError
    }
}

impl FromSpecImpl<Infallible> for NotEnoughCapacityError {
    open spec fn obeys_from_spec() -> bool {
        true
    }

    open spec fn from_spec(x: Infallible) -> NotEnoughCapacityError {
        NotEnoughCapacityError
    }
}

} // verus!

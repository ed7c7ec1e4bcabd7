//! Contracts for the few standard-library items that the library uses and
//! that `vstd` does not specify. Verus takes these contracts on trust.

use vstd::prelude::*;
use vstd::utf8::*;
use vstd::string::StringSliceAdditionalSpecFns;

verus! {

/// The error of `core::str::from_utf8`. Nothing is read from it.
#[verifier::external_type_specification]
#[verifier::external_body]
pub struct ExUtf8Error(core::str::Utf8Error);

/// The error that a formatting sink reports. It carries no information.
#[verifier::external_type_specification]
#[verifier::external_body]
pub struct ExFmtError(core::fmt::Error);

/// `char::from_u32` gives the character with the scalar value `value`, and
/// `None` exactly when `value` is a surrogate or lies above `0x10FFFF`.
pub assume_specification[ char::from_u32 ](value: u32) -> (converted: Option<char>)
    ensures
        is_scalar(value) ==> converted == Some(value as char),
        !is_scalar(value) ==> converted is None,
;

/// `core::str::from_utf8` succeeds exactly on valid UTF-8, and the string it
/// returns is made of the very bytes it was given.
pub assume_specification<'a>[ core::str::from_utf8 ](bytes: &'a [u8]) -> (text: Result<
    &'a str,
    core::str::Utf8Error,
>)
    ensures
        text is Ok <==> valid_utf8(bytes@),
        text is Ok ==> text->Ok_0.spec_bytes() == bytes@,
;

/// Calls `<str as core::hash::Hash>::hash`, which feeds the bytes of `text`
/// to `hasher`. Nothing is claimed of what the hasher then holds.
#[verifier::external_body]
pub(crate) fn hash_text<H: core::hash::Hasher>(text: &str, hasher: &mut H) {
    core::hash::Hash::hash(text, hasher)
}

/// Makes the one value of `core::fmt::Error`.
#[verifier::external_body]
pub(crate) fn sink_failed() -> core::fmt::Error {
    core::fmt::Error
}

} // verus!

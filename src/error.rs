//! Errors surfaced by the codec and the association.
use vstd::prelude::*;

verus! {

#[derive(Clone, Copy, Debug, PartialEq, Eq, Structural)]
pub enum Error {
    /// Fewer bytes remain than a parameter header needs.
    ErrParamHeaderTooShort,
    /// The header's length field does not fit the buffer, or the value
    /// length does not fit the parameter's type.
    ErrParamHeaderLengthInvalid,
    /// A parameter type whose action bits ask for rejection.
    ErrParamTypeUnhandled,
    /// An outgoing SSN reset request shorter than its fixed fields.
    ErrSsnResetRequestParamTooShort,
    /// A reconfig response shorter than its fixed fields.
    ErrReconfigRespParamTooShort,
    /// A value too long for the 16-bit length field.
    ErrParamValueTooLong,
}

} // verus!

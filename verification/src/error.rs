use vstd::prelude::*;

verus! {

/// Why a decode was refused. Every variant carries the piece of input or
/// schema it is about: the expected descriptor name for shape and range
/// errors, the undeclared name for unknown members, the expected and found
/// cardinality for arity errors, and the offending key for positional keys
/// that do not parse or are out of bounds. Encoding never fails: a
/// mistyped value cannot be built, so there is no encode error type.
#[derive(Debug, PartialEq, Eq)]
pub enum DecodeError {
    TypeMismatch(String),
    UnknownCase(String),
    UnknownField(String),
    UnknownFlag(String),
    ArityMismatch(usize, usize),
    OutOfRange(String),
    MalformedKey(String),
}

/// Mathematical image of `DecodeError`.
#[verifier::ext_equal]
pub enum DecodeErrorS {
    TypeMismatch(Seq<char>),
    UnknownCase(Seq<char>),
    UnknownField(Seq<char>),
    UnknownFlag(Seq<char>),
    ArityMismatch(usize, usize),
    OutOfRange(Seq<char>),
    MalformedKey(Seq<char>),
}

impl DeepView for DecodeError {
    type V = DecodeErrorS;

    open spec fn deep_view(&self) -> DecodeErrorS {
        match self {
            DecodeError::TypeMismatch(s) => DecodeErrorS::TypeMismatch(s@),
            DecodeError::UnknownCase(s) => DecodeErrorS::UnknownCase(s@),
            DecodeError::UnknownField(s) => DecodeErrorS::UnknownField(s@),
            DecodeError::UnknownFlag(s) => DecodeErrorS::UnknownFlag(s@),
            DecodeError::ArityMismatch(want, got) => DecodeErrorS::ArityMismatch(*want, *got),
            DecodeError::OutOfRange(s) => DecodeErrorS::OutOfRange(s@),
            DecodeError::MalformedKey(s) => DecodeErrorS::MalformedKey(s@),
        }
    }
}

} // verus!

use crate::lengths::invalid_len_message;
use crate::text::{decimal_text, push_decimal};
use vstd::prelude::*;
use vstd::string::StringExecFns;

verus! {

/// What a failure says, over mathematical values.
pub enum Failure {
    UnexpectedEof,
    VarintTooLong,
    InvalidLength { field: Seq<char>, len: int },
    NullField { field: Seq<char> },
    TagNotAscending { tag: int, previous: int },
    TagNotAboveKnown { tag: int, max_known: int },
}

/// Why an encode or a decode failed.
#[derive(Clone, PartialEq, Eq, Debug)]
pub enum CodecError {
    /// The source ended before the value did.
    UnexpectedEof,
    /// A variable-length integer went on past its fifth byte.
    VarintTooLong,
    /// A length below the null marker or above the range of its prefix.
    InvalidLength { field: String, len: i64 },
    /// A null on the wire where the field must be present.
    NullField { field: String },
    /// A tag that follows `previous` in its list without being higher.
    TagNotAscending { tag: i32, previous: i32 },
    /// An unknown tag that is not higher than every known tag.
    TagNotAboveKnown { tag: i32, max_known: i32 },
}

impl View for CodecError {
    type V = Failure;

    open spec fn view(&self) -> Failure {
        match *self {
            CodecError::UnexpectedEof => Failure::UnexpectedEof,
            CodecError::VarintTooLong => Failure::VarintTooLong,
            CodecError::InvalidLength { field, len } => Failure::InvalidLength {
                field: field@,
                len: len as int,
            },
            CodecError::NullField { field } => Failure::NullField { field: field@ },
            CodecError::TagNotAscending { tag, previous } => Failure::TagNotAscending {
                tag: tag as int,
                previous: previous as int,
            },
            CodecError::TagNotAboveKnown { tag, max_known } => Failure::TagNotAboveKnown {
                tag: tag as int,
                max_known: max_known as int,
            },
        }
    }
}

} // verus!

verus! {

/// The message of a length out of range.
pub open spec fn invalid_len_text(field: Seq<char>, len: int) -> Seq<char> {
    "string field "@ + field + " had invalid length "@ + decimal_text(len)
}

/// The message of a null where none may be.
pub open spec fn null_field_text(field: Seq<char>) -> Seq<char> {
    "non-nullable field "@ + field + " was serialized as null"@
}

/// The message of a tag that does not rise above the one before it.
pub open spec fn tag_not_ascending_text(tag: int, previous: int) -> Seq<char> {
    "Invalid raw tag field list: tag "@ + decimal_text(tag) + " comes after tag "@ + decimal_text(
        previous,
    ) + ", but is not higher than it."@
}

/// The message of an unknown tag among or below the known ones.
pub open spec fn tag_not_above_known_text(tag: int, max_known: int) -> Seq<char> {
    "Invalid raw tag field list: tag "@ + decimal_text(tag)
        + " is not higher than the maximum known tag "@ + decimal_text(max_known) + "."@
}

impl Failure {
    /// The message that describes the failure.
    pub open spec fn text(self) -> Seq<char> {
        match self {
            Failure::UnexpectedEof => "failed to fill whole buffer"@,
            Failure::VarintTooLong => "variable-length integer is longer than five bytes"@,
            Failure::InvalidLength { field, len } => invalid_len_text(field, len),
            Failure::NullField { field } => null_field_text(field),
            Failure::TagNotAscending { tag, previous } => tag_not_ascending_text(tag, previous),
            Failure::TagNotAboveKnown { tag, max_known } => tag_not_above_known_text(
                tag,
                max_known,
            ),
        }
    }
}

fn null_field_message(field: &str) -> (r: String)
    ensures
        r@ == null_field_text(field@),
{
    let mut out = String::from_str("non-nullable field ");
    out.append(field);
    out.append(" was serialized as null");
    out
}

fn tag_not_ascending_message(tag: i32, previous: i32) -> (r: String)
    ensures
        r@ == tag_not_ascending_text(tag as int, previous as int),
{
    let mut out = String::from_str("Invalid raw tag field list: tag ");
    push_decimal(&mut out, tag as i64);
    out.append(" comes after tag ");
    push_decimal(&mut out, previous as i64);
    out.append(", but is not higher than it.");
    out
}

fn tag_not_above_known_message(tag: i32, max_known: i32) -> (r: String)
    ensures
        r@ == tag_not_above_known_text(tag as int, max_known as int),
{
    let mut out = String::from_str("Invalid raw tag field list: tag ");
    push_decimal(&mut out, tag as i64);
    out.append(" is not higher than the maximum known tag ");
    push_decimal(&mut out, max_known as i64);
    out.append(".");
    out
}

impl CodecError {
    /// The message that describes the error.
    pub fn message(&self) -> (r: String)
        ensures
            r@ == self@.text(),
    {
        match self {
            CodecError::UnexpectedEof => String::from_str("failed to fill whole buffer"),
            CodecError::VarintTooLong => String::from_str(
                "variable-length integer is longer than five bytes",
            ),
            CodecError::InvalidLength { field, len } => invalid_len_message(field.as_str(), *len),
            CodecError::NullField { field } => null_field_message(field.as_str()),
            CodecError::TagNotAscending { tag, previous } => tag_not_ascending_message(
                *tag,
                *previous,
            ),
            CodecError::TagNotAboveKnown { tag, max_known } => tag_not_above_known_message(
                *tag,
                *max_known,
            ),
        }
    }
}

} // verus!

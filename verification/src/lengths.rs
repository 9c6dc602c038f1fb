//! The length that stands before a string or an array: fixed width in
//! legacy mode, a variable-length integer of the length plus one in compact
//! mode, and in either a marker for null.

use crate::endian::{
    be_bytes, be_value, bits_i16, bits_i32, i16_bits, i32_bits, read_i16_be, read_i32_be,
    write_i16_be, write_i32_be,
};
use crate::error::{invalid_len_text, CodecError, Failure};
use crate::reader::ByteReader;
use crate::text::push_decimal;
use crate::varint::{parse_varint, read_varint, varint_bytes, write_varint};
use vstd::prelude::*;
use vstd::string::StringExecFns;

verus! {

/// The message of a length out of range: the field's name and the length.
pub fn invalid_len_message(field_name: &str, len: i64) -> (r: String)
    ensures
        r@ == invalid_len_text(field_name@, len as int),
{
    let mut out = String::from_str("string field ");
    out.append(field_name);
    out.append(" had invalid length ");
    push_decimal(&mut out, len);
    out
}

/// A length as the signed number that errors carry.
pub open spec fn len_as_i64(len: nat) -> int {
    if len > i64::MAX {
        i64::MAX as int
    } else {
        len as int
    }
}

/// The length as the signed number that an error carries.
pub(crate) fn len_i64(len: u128) -> (r: i64)
    ensures
        r == len_as_i64(len as nat),
{
    if len > i64::MAX as u128 {
        i64::MAX
    } else {
        len as i64
    }
}

/// The prefix that gives a 16-bit length: two bytes in legacy mode, the
/// length plus one as a variable-length integer in compact mode.
pub open spec fn len_wire_i16(len: i16, compact: bool) -> Seq<u8> {
    if compact {
        varint_bytes((len + 1) as nat)
    } else {
        be_bytes(i16_bits(len), 2)
    }
}

/// The prefix that gives a 32-bit length: four bytes in legacy mode, the
/// length plus one as a variable-length integer in compact mode.
pub open spec fn len_wire_i32(len: i32, compact: bool) -> Seq<u8> {
    if compact {
        varint_bytes((len + 1) as nat)
    } else {
        be_bytes(i32_bits(len), 4)
    }
}

/// What a decode of a 16-bit length gives: the length, -1 for null, and the
/// bytes it took; a length outside -1 ..= 32767 is refused.
pub open spec fn parse_len_i16(bytes: Seq<u8>, field_name: Seq<char>, compact: bool) -> Result<
    (i16, nat),
    Failure,
> {
    if compact {
        match parse_varint(bytes) {
            Err(e) => Err(e),
            Ok((raw, n)) => if raw - 1 > i16::MAX {
                Err(Failure::InvalidLength { field: field_name, len: raw - 1 })
            } else {
                Ok(((raw - 1) as i16, n))
            },
        }
    } else if bytes.len() < 2 {
        Err(Failure::UnexpectedEof)
    } else {
        let len = bits_i16(be_value(bytes.take(2)));
        if len < -1 {
            Err(Failure::InvalidLength { field: field_name, len: len as int })
        } else {
            Ok((len, 2nat))
        }
    }
}

/// What a decode of a 32-bit length gives: the length, -1 for null, and the
/// bytes it took; a length outside -1 ..= 2147483647 is refused.
pub open spec fn parse_len_i32(bytes: Seq<u8>, field_name: Seq<char>, compact: bool) -> Result<
    (i32, nat),
    Failure,
> {
    if compact {
        match parse_varint(bytes) {
            Err(e) => Err(e),
            Ok((raw, n)) => if raw - 1 > i32::MAX {
                Err(Failure::InvalidLength { field: field_name, len: raw - 1 })
            } else {
                Ok(((raw - 1) as i32, n))
            },
        }
    } else if bytes.len() < 4 {
        Err(Failure::UnexpectedEof)
    } else {
        let len = bits_i32(be_value(bytes.take(4)));
        if len < -1 {
            Err(Failure::InvalidLength { field: field_name, len: len as int })
        } else {
            Ok((len, 4nat))
        }
    }
}

/// Reads the length of a string.
pub fn read_len_i16(input: &mut ByteReader, field_name: &str, compact: bool) -> (r: Result<
    i16,
    CodecError,
>)
    ensures
        final(input).bytes() == old(input).bytes(),
        final(input).offset() >= old(input).offset(),
        match parse_len_i16(old(input).remaining(), field_name@, compact) {
            Ok((len, n)) => r == Ok::<i16, CodecError>(len) && final(input).offset() == old(
                input,
            ).offset() + n,
            Err(e) => r matches Err(x) && x@ == e,
        },
{
    if compact {
        match read_varint(input) {
            Err(e) => Err(e),
            Ok(raw) => {
                let len: i64 = raw as i64 - 1;
                if len > i16::MAX as i64 {
                    Err(CodecError::InvalidLength { field: field_name.to_owned(), len })
                } else {
                    Ok(len as i16)
                }
            },
        }
    } else {
        match read_i16_be(input.rest()) {
            None => Err(CodecError::UnexpectedEof),
            Some(len) => {
                input.advance(2);
                if len < -1 {
                    Err(CodecError::InvalidLength { field: field_name.to_owned(), len: len as i64 })
                } else {
                    Ok(len)
                }
            },
        }
    }
}

/// Reads the length of an array.
pub fn read_len_i32(input: &mut ByteReader, field_name: &str, compact: bool) -> (r: Result<
    i32,
    CodecError,
>)
    ensures
        final(input).bytes() == old(input).bytes(),
        final(input).offset() >= old(input).offset(),
        match parse_len_i32(old(input).remaining(), field_name@, compact) {
            Ok((len, n)) => r == Ok::<i32, CodecError>(len) && final(input).offset() == old(
                input,
            ).offset() + n,
            Err(e) => r matches Err(x) && x@ == e,
        },
{
    if compact {
        match read_varint(input) {
            Err(e) => Err(e),
            Ok(raw) => {
                let len: i64 = raw as i64 - 1;
                if len > i32::MAX as i64 {
                    Err(CodecError::InvalidLength { field: field_name.to_owned(), len })
                } else {
                    Ok(len as i32)
                }
            },
        }
    } else {
        match read_i32_be(input.rest()) {
            None => Err(CodecError::UnexpectedEof),
            Some(len) => {
                input.advance(4);
                if len < -1 {
                    Err(CodecError::InvalidLength { field: field_name.to_owned(), len: len as i64 })
                } else {
                    Ok(len)
                }
            },
        }
    }
}

/// Writes the length of a string, -1 for null; a length below -1 is refused
/// and nothing is written.
pub fn write_len_i16(output: &mut Vec<u8>, field_name: &str, len: i16, compact: bool) -> (r: Result<
    (),
    CodecError,
>)
    ensures
        len >= -1 ==> r is Ok && final(output)@ == old(output)@ + len_wire_i16(len, compact),
        len < -1 ==> final(output)@ == old(output)@ && (r matches Err(e) && e@
            == Failure::InvalidLength { field: field_name@, len: len as int }),
{
    if len < -1 {
        Err(CodecError::InvalidLength { field: field_name.to_owned(), len: len as i64 })
    } else {
        if compact {
            write_varint(output, (len as i32 + 1) as u32);
        } else {
            write_i16_be(output, len);
        }
        Ok(())
    }
}

/// Writes the length of an array, -1 for null; a length below -1 is refused
/// and nothing is written.
pub fn write_len_i32(output: &mut Vec<u8>, field_name: &str, len: i32, compact: bool) -> (r: Result<
    (),
    CodecError,
>)
    ensures
        len >= -1 ==> r is Ok && final(output)@ == old(output)@ + len_wire_i32(len, compact),
        len < -1 ==> final(output)@ == old(output)@ && (r matches Err(e) && e@
            == Failure::InvalidLength { field: field_name@, len: len as int }),
{
    if len < -1 {
        Err(CodecError::InvalidLength { field: field_name.to_owned(), len: len as i64 })
    } else {
        if compact {
            write_varint(output, (len as i64 + 1) as u32);
        } else {
            write_i32_be(output, len);
        }
        Ok(())
    }
}

} // verus!

//! Strings on the wire: a 16-bit length, then that many bytes of UTF-8; and
//! strings that may be null, with the null marker for a length.

use crate::error::{CodecError, Failure};
use crate::lengths::{
    len_as_i64, len_i64, len_wire_i16, parse_len_i16, read_len_i16, write_len_i16,
};
use crate::readable_writable::{append_bytes, Readable, Writable};
use crate::reader::ByteReader;
use vstd::prelude::*;
use vstd::utf8::{decode_utf8, encode_utf8, valid_utf8};

verus! {

/// The text that `String::from_utf8_lossy` makes of `bytes` that are not
/// valid UTF-8, with a replacement character for what it cannot decode.
pub uninterp spec fn lossy_text(bytes: Seq<u8>) -> Seq<char>;

/// The text of `bytes`: their decoding where they are valid UTF-8, and else
/// what the lossy conversion makes of them.
pub open spec fn text_of(bytes: Seq<u8>) -> Seq<char> {
    if valid_utf8(bytes) {
        decode_utf8(bytes)
    } else {
        lossy_text(bytes)
    }
}

/// `String::from_utf8_lossy`, as an owned string: valid UTF-8 is decoded as
/// it is, anything else goes through the lossy conversion.
#[verifier::external_body]
fn utf8_lossy(bytes: &[u8]) -> (r: String)
    ensures
        r@ == (if valid_utf8(bytes@) {
            decode_utf8(bytes@)
        } else {
            lossy_text(bytes@)
        }),
{
    String::from_utf8_lossy(bytes).into_owned()
}

/// What a decode of `len` bytes of text gives: invalid UTF-8 is replaced,
/// not refused.
pub open spec fn parse_text(bytes: Seq<u8>, len: nat) -> Result<(Seq<char>, nat), Failure> {
    if bytes.len() < len {
        Err(Failure::UnexpectedEof)
    } else {
        Ok((text_of(bytes.take(len as int)), len))
    }
}

/// What a decode of a string that may be null gives.
pub open spec fn parse_nullable_string(
    bytes: Seq<u8>,
    field_name: Seq<char>,
    compact: bool,
) -> Result<(Option<Seq<char>>, nat), Failure> {
    match parse_len_i16(bytes, field_name, compact) {
        Err(e) => Err(e),
        Ok((len, n)) => if len < 0 {
            Ok((None, n))
        } else {
            match parse_text(bytes.skip(n as int), len as nat) {
                Err(e) => Err(e),
                Ok((text, k)) => Ok((Some(text), n + k)),
            }
        },
    }
}

/// The bytes of a string on the wire: its length in bytes, then its UTF-8
/// bytes.
pub open spec fn string_wire(text: Seq<char>, compact: bool) -> Seq<u8> {
    len_wire_i16(encode_utf8(text).len() as i16, compact) + encode_utf8(text)
}

/// A string of more than 32767 bytes cannot be written.
pub open spec fn string_failure(text: Seq<char>, field_name: Seq<char>) -> Option<Failure> {
    if encode_utf8(text).len() > i16::MAX {
        Some(Failure::InvalidLength { field: field_name, len: len_as_i64(encode_utf8(text).len()) })
    } else {
        None
    }
}

/// Reads the `str_len` bytes of a string's text.
pub fn read_string(input: &mut ByteReader, str_len: i16) -> (r: Result<String, CodecError>)
    requires
        str_len >= 0,
    ensures
        final(input).bytes() == old(input).bytes(),
        final(input).offset() >= old(input).offset(),
        match parse_text(old(input).remaining(), str_len as nat) {
            Ok((text, n)) => r matches Ok(s) && s@ == text && final(input).offset() == old(
                input,
            ).offset() + n,
            Err(e) => r matches Err(x) && x@ == e,
        },
{
    match input.read_exact(str_len as usize) {
        Err(e) => Err(e),
        Ok(buffer) => Ok(utf8_lossy(buffer.as_slice())),
    }
}

impl Writable for String {
    open spec fn plain_write() -> bool {
        false
    }

    open spec fn wire(&self, compact: bool) -> Seq<u8> {
        string_wire(self@, compact)
    }

    open spec fn write_failure(&self, field_name: Seq<char>, compact: bool) -> Option<Failure> {
        string_failure(self@, field_name)
    }

    proof fn plain_wire(&self, field_name: Seq<char>, compact: bool) {
    }

    /// A string has no wire form without a mode: this is never called.
    fn write(&self, output: &mut Vec<u8>) -> (r: Result<(), CodecError>) {
        unreached()
    }

    fn write_ext(&self, output: &mut Vec<u8>, field_name: &str, compact: bool) -> (r: Result<
        (),
        CodecError,
    >) {
        let bytes = self.as_str().as_bytes();
        let len: usize = bytes.len();
        assert(bytes@ == encode_utf8(self@));
        if len > i16::MAX as usize {
            let error = CodecError::InvalidLength {
                field: field_name.to_owned(),
                len: len_i64(len as u128),
            };
            assert(self.write_failure(field_name@, compact) == Some(error@));
            Err(error)
        } else {
            assert(self.write_failure(field_name@, compact) is None);
            match write_len_i16(output, field_name, len as i16, compact) {
                Err(e) => Err(e),
                Ok(()) => {
                    append_bytes(output, bytes);
                    assert(output@ =~= old(output)@ + self.wire(compact));
                    Ok(())
                },
            }
        }
    }
}

impl Readable for String {
    type Model = Seq<char>;

    open spec fn model(&self) -> Seq<char> {
        self@
    }

    open spec fn plain_read() -> bool {
        false
    }

    /// A string that must be present: a null on the wire is refused.
    open spec fn parse(bytes: Seq<u8>, field_name: Seq<char>, compact: bool) -> Result<
        (Seq<char>, nat),
        Failure,
    > {
        match parse_nullable_string(bytes, field_name, compact) {
            Err(e) => Err(e),
            Ok((None, n)) => Err(Failure::NullField { field: field_name }),
            Ok((Some(text), n)) => Ok((text, n)),
        }
    }

    proof fn plain_parse(bytes: Seq<u8>, field_name: Seq<char>, compact: bool) {
    }

    /// A string has no wire form without a mode: this is never called.
    fn read(input: &mut ByteReader) -> (r: Result<Self, CodecError>) {
        unreached()
    }

    fn read_ext(input: &mut ByteReader, field_name: &str, compact: bool) -> (r: Result<
        Self,
        CodecError,
    >) {
        match Option::<String>::read_ext(input, field_name, compact) {
            Err(e) => Err(e),
            Ok(None) => Err(CodecError::NullField { field: field_name.to_owned() }),
            Ok(Some(s)) => Ok(s),
        }
    }
}

impl Readable for Option<String> {
    type Model = Option<Seq<char>>;

    open spec fn model(&self) -> Option<Seq<char>> {
        match *self {
            Some(s) => Some(s@),
            None => None,
        }
    }

    open spec fn plain_read() -> bool {
        false
    }

    open spec fn parse(bytes: Seq<u8>, field_name: Seq<char>, compact: bool) -> Result<
        (Option<Seq<char>>, nat),
        Failure,
    > {
        parse_nullable_string(bytes, field_name, compact)
    }

    proof fn plain_parse(bytes: Seq<u8>, field_name: Seq<char>, compact: bool) {
    }

    /// A string has no wire form without a mode: this is never called.
    fn read(input: &mut ByteReader) -> (r: Result<Self, CodecError>) {
        unreached()
    }

    fn read_ext(input: &mut ByteReader, field_name: &str, compact: bool) -> (r: Result<
        Self,
        CodecError,
    >) {
        match read_len_i16(input, field_name, compact) {
            Err(e) => Err(e),
            Ok(len) => if len < 0 {
                Ok(None)
            } else {
                proof {
                    use_type_invariant(&*input);
                    let n = parse_len_i16(old(input).remaining(), field_name@, compact)->Ok_0.1;
                    old(input).lemma_remaining_skip(*input, n);
                }
                match read_string(input, len) {
                    Err(e) => Err(e),
                    Ok(s) => Ok(Some(s)),
                }
            },
        }
    }
}

impl Writable for Option<String> {
    open spec fn plain_write() -> bool {
        false
    }

    /// The string's own bytes where there is one, else the null length.
    open spec fn wire(&self, compact: bool) -> Seq<u8> {
        match *self {
            Some(s) => string_wire(s@, compact),
            None => len_wire_i16(-1i16, compact),
        }
    }

    open spec fn write_failure(&self, field_name: Seq<char>, compact: bool) -> Option<Failure> {
        match *self {
            Some(s) => string_failure(s@, field_name),
            None => None,
        }
    }

    proof fn plain_wire(&self, field_name: Seq<char>, compact: bool) {
    }

    /// A string has no wire form without a mode: this is never called.
    fn write(&self, output: &mut Vec<u8>) -> (r: Result<(), CodecError>) {
        unreached()
    }

    fn write_ext(&self, output: &mut Vec<u8>, field_name: &str, compact: bool) -> (r: Result<
        (),
        CodecError,
    >) {
        match self {
            Some(string) => string.write_ext(output, field_name, compact),
            None => write_len_i16(output, field_name, -1, compact),
        }
    }
}

} // verus!

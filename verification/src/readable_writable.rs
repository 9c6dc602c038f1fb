//! The two capabilities, reading and writing, and the values of fixed size
//! that have them: booleans and 128-bit identifiers.

use crate::endian::{be_bytes, be_value, read_i8_be, read_u128_be, write_i8_be, write_u128_be};
use crate::error::{CodecError, Failure};
use crate::reader::ByteReader;
use uuid::Uuid;
use vstd::prelude::*;

verus! {

/// `uuid::Uuid`, carried as a value that is not looked into.
#[verifier::external_type_specification]
#[verifier::external_body]
pub struct ExUuid(Uuid);

/// The 128 bits of an identifier, as `uuid::Uuid::as_u128` gives them.
pub uninterp spec fn uuid_bits(id: Uuid) -> u128;

/// `uuid::Uuid::from_u128` makes the identifier whose 128 bits are `v`.
pub assume_specification[ Uuid::from_u128 ](v: u128) -> (id: Uuid)
    ensures
        uuid_bits(id) == v,
;

/// `uuid::Uuid::as_u128` gives the 128 bits of the identifier.
pub assume_specification[ Uuid::as_u128 ](id: &Uuid) -> (v: u128)
    ensures
        v == uuid_bits(*id),
;

/// `Clone::clone` of `uuid::Uuid`, which is `Copy`: the copy has the same
/// bits.
pub assume_specification[ <Uuid as Clone>::clone ](id: &Uuid) -> (copy: Uuid)
    ensures
        uuid_bits(copy) == uuid_bits(*id),
;

/// A value that can be decoded from a byte source.
///
/// `read` is the form that needs no context; `read_ext` takes the name of
/// the field, for errors, and the mode of the wire. A type whose wire form
/// depends on the mode has only the second: its `plain_read` is false, and
/// its `read` cannot be called.
pub trait Readable: Sized {
    /// What a value of the type is, mathematically.
    type Model;

    /// The model of this value.
    spec fn model(&self) -> Self::Model;

    /// Whether the type can be decoded without a field name and a mode.
    spec fn plain_read() -> bool;

    /// What a decode of the bytes gives: the value and the number of bytes
    /// it took, or the failure.
    spec fn parse(bytes: Seq<u8>, field_name: Seq<char>, compact: bool) -> Result<
        (Self::Model, nat),
        Failure,
    >;

    /// Where the plain form exists, name and mode have no bearing.
    proof fn plain_parse(bytes: Seq<u8>, field_name: Seq<char>, compact: bool)
        ensures
            Self::plain_read() ==> Self::parse(bytes, field_name, compact) == Self::parse(
                bytes,
                Seq::empty(),
                false,
            ),
    ;

    /// Decodes a value that needs no context. The source moves on by the
    /// bytes that the value took; after a failure it stands where the read
    /// stopped.
    fn read(input: &mut ByteReader) -> (r: Result<Self, CodecError>)
        requires
            Self::plain_read(),
        ensures
            final(input).bytes() == old(input).bytes(),
            final(input).offset() >= old(input).offset(),
            match Self::parse(old(input).remaining(), Seq::empty(), false) {
                Ok((m, n)) => r matches Ok(v) && v.model() == m && final(input).offset() == old(
                    input,
                ).offset() + n,
                Err(e) => r matches Err(x) && x@ == e,
            },
    ;

    /// Decodes a value of the field `field_name`, in compact or in legacy
    /// mode.
    fn read_ext(input: &mut ByteReader, field_name: &str, compact: bool) -> (r: Result<
        Self,
        CodecError,
    >)
        ensures
            final(input).bytes() == old(input).bytes(),
            final(input).offset() >= old(input).offset(),
            match Self::parse(old(input).remaining(), field_name@, compact) {
                Ok((m, n)) => r matches Ok(v) && v.model() == m && final(input).offset() == old(
                    input,
                ).offset() + n,
                Err(e) => r matches Err(x) && x@ == e,
            },
    ;
}

/// A value that can be encoded to a byte sink.
///
/// `write` is the form that needs no context; `write_ext` takes the name of
/// the field, for errors, and the mode of the wire. A type whose wire form
/// depends on the mode has only the second: its `plain_write` is false, and
/// its `write` cannot be called.
pub trait Writable {
    /// Whether the type can be encoded without a field name and a mode.
    spec fn plain_write() -> bool;

    /// The bytes of the value on the wire.
    spec fn wire(&self, compact: bool) -> Seq<u8>;

    /// Why the value cannot be encoded, if it cannot.
    spec fn write_failure(&self, field_name: Seq<char>, compact: bool) -> Option<Failure>;

    /// Where the plain form exists, name and mode have no bearing.
    proof fn plain_wire(&self, field_name: Seq<char>, compact: bool)
        ensures
            Self::plain_write() ==> self.wire(compact) == self.wire(false),
            Self::plain_write() ==> self.write_failure(field_name, compact) == self.write_failure(
                Seq::empty(),
                false,
            ),
    ;

    /// Encodes a value that needs no context, at the end of `output`. After
    /// a failure `output` holds what it held, and what was written before
    /// the failure.
    fn write(&self, output: &mut Vec<u8>) -> (r: Result<(), CodecError>)
        requires
            Self::plain_write(),
        ensures
            old(output)@.is_prefix_of(final(output)@),
            match self.write_failure(Seq::empty(), false) {
                None => r is Ok && final(output)@ == old(output)@ + self.wire(false),
                Some(e) => r matches Err(x) && x@ == e,
            },
    ;

    /// Encodes the value of the field `field_name`, in compact or in legacy
    /// mode, at the end of `output`.
    fn write_ext(&self, output: &mut Vec<u8>, field_name: &str, compact: bool) -> (r: Result<
        (),
        CodecError,
    >)
        ensures
            old(output)@.is_prefix_of(final(output)@),
            match self.write_failure(field_name@, compact) {
                None => r is Ok && final(output)@ == old(output)@ + self.wire(compact),
                Some(e) => r matches Err(x) && x@ == e,
            },
    ;
}

/// Appends `bytes` to `output`.
pub fn append_bytes(output: &mut Vec<u8>, bytes: &[u8])
    ensures
        final(output)@ == old(output)@ + bytes@,
{
    let mut i: usize = 0;
    while i < bytes.len()
        invariant
            i <= bytes@.len(),
            output@ == old(output)@ + bytes@.take(i as int),
        decreases bytes@.len() - i,
    {
        output.push(bytes[i]);
        i = i + 1;
        assert(bytes@.take(i as int) =~= bytes@.take(i - 1).push(bytes@[i - 1]));
    }
    assert(bytes@.take(i as int) =~= bytes@);
}

impl Readable for bool {
    type Model = bool;

    open spec fn model(&self) -> bool {
        *self
    }

    open spec fn plain_read() -> bool {
        true
    }

    /// One byte: zero is false, anything else is true.
    open spec fn parse(bytes: Seq<u8>, field_name: Seq<char>, compact: bool) -> Result<
        (bool, nat),
        Failure,
    > {
        if bytes.len() == 0 {
            Err(Failure::UnexpectedEof)
        } else {
            Ok((bytes[0] != 0, 1nat))
        }
    }

    proof fn plain_parse(bytes: Seq<u8>, field_name: Seq<char>, compact: bool) {
    }

    fn read(input: &mut ByteReader) -> (r: Result<Self, CodecError>) {
        match read_i8_be(input.rest()) {
            Some(v) => {
                input.advance(1);
                Ok(v != 0)
            },
            None => Err(CodecError::UnexpectedEof),
        }
    }

    fn read_ext(input: &mut ByteReader, field_name: &str, compact: bool) -> (r: Result<
        Self,
        CodecError,
    >) {
        Self::read(input)
    }
}

impl Writable for bool {
    open spec fn plain_write() -> bool {
        true
    }

    /// One byte: 0 for false, 1 for true.
    open spec fn wire(&self, compact: bool) -> Seq<u8> {
        if *self {
            seq![1u8]
        } else {
            seq![0u8]
        }
    }

    open spec fn write_failure(&self, field_name: Seq<char>, compact: bool) -> Option<Failure> {
        None
    }

    proof fn plain_wire(&self, field_name: Seq<char>, compact: bool) {
    }

    fn write(&self, output: &mut Vec<u8>) -> (r: Result<(), CodecError>) {
        if *self {
            write_i8_be(output, 1);
        } else {
            write_i8_be(output, 0);
        }
        assert(output@ =~= old(output)@ + self.wire(false));
        Ok(())
    }

    fn write_ext(&self, output: &mut Vec<u8>, field_name: &str, compact: bool) -> (r: Result<
        (),
        CodecError,
    >) {
        self.write(output)
    }
}

impl Readable for Uuid {
    type Model = u128;

    open spec fn model(&self) -> u128 {
        uuid_bits(*self)
    }

    open spec fn plain_read() -> bool {
        true
    }

    /// Sixteen bytes, most significant first.
    open spec fn parse(bytes: Seq<u8>, field_name: Seq<char>, compact: bool) -> Result<
        (u128, nat),
        Failure,
    > {
        if bytes.len() < 16 {
            Err(Failure::UnexpectedEof)
        } else {
            Ok((be_value(bytes.take(16)) as u128, 16nat))
        }
    }

    proof fn plain_parse(bytes: Seq<u8>, field_name: Seq<char>, compact: bool) {
    }

    fn read(input: &mut ByteReader) -> (r: Result<Self, CodecError>) {
        match read_u128_be(input.rest()) {
            Some(v) => {
                input.advance(16);
                Ok(Uuid::from_u128(v))
            },
            None => Err(CodecError::UnexpectedEof),
        }
    }

    fn read_ext(input: &mut ByteReader, field_name: &str, compact: bool) -> (r: Result<
        Self,
        CodecError,
    >) {
        Self::read(input)
    }
}

impl Writable for Uuid {
    open spec fn plain_write() -> bool {
        true
    }

    /// Sixteen bytes, most significant first.
    open spec fn wire(&self, compact: bool) -> Seq<u8> {
        be_bytes(uuid_bits(*self) as nat, 16)
    }

    open spec fn write_failure(&self, field_name: Seq<char>, compact: bool) -> Option<Failure> {
        None
    }

    proof fn plain_wire(&self, field_name: Seq<char>, compact: bool) {
    }

    fn write(&self, output: &mut Vec<u8>) -> (r: Result<(), CodecError>) {
        write_u128_be(output, self.as_u128());
        Ok(())
    }

    fn write_ext(&self, output: &mut Vec<u8>, field_name: &str, compact: bool) -> (r: Result<
        (),
        CodecError,
    >) {
        self.write(output)
    }
}

} // verus!

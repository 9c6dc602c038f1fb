//! Fixed-width integers in network byte order.

use byteorder::{BigEndian, ReadBytesExt, WriteBytesExt};
use vstd::prelude::*;

verus! {

/// The number that `bytes` spell, most significant byte first.
pub open spec fn be_value(bytes: Seq<u8>) -> nat
    decreases bytes.len(),
{
    if bytes.len() == 0 {
        0
    } else {
        be_value(bytes.drop_last()) * 256 + bytes.last() as nat
    }
}

/// The `width` low-order bytes of `value`, most significant byte first.
pub open spec fn be_bytes(value: nat, width: nat) -> Seq<u8>
    decreases width,
{
    if width == 0 {
        Seq::empty()
    } else {
        be_bytes(value / 256, (width - 1) as nat).push((value % 256) as u8)
    }
}

/// Whether `value` can be written in `width` bytes.
pub open spec fn fits_in(value: nat, width: nat) -> bool
    decreases width,
{
    if width == 0 {
        value == 0
    } else {
        fits_in(value / 256, (width - 1) as nat)
    }
}

/// The unsigned number with the bit pattern of `v`.
pub open spec fn i8_bits(v: i8) -> nat {
    if v < 0 {
        (v + 0x100) as nat
    } else {
        v as nat
    }
}

/// The signed number with the bit pattern `bits`, for `bits` below 2^8.
pub open spec fn bits_i8(bits: nat) -> i8 {
    if bits >= 0x80 {
        (bits - 0x100) as i8
    } else {
        bits as i8
    }
}

/// The unsigned number with the bit pattern of `v`.
pub open spec fn i16_bits(v: i16) -> nat {
    if v < 0 {
        (v + 0x1_0000) as nat
    } else {
        v as nat
    }
}

/// The signed number with the bit pattern `bits`, for `bits` below 2^16.
pub open spec fn bits_i16(bits: nat) -> i16 {
    if bits >= 0x8000 {
        (bits - 0x1_0000) as i16
    } else {
        bits as i16
    }
}

/// The unsigned number with the bit pattern of `v`.
pub open spec fn i32_bits(v: i32) -> nat {
    if v < 0 {
        (v + 0x1_0000_0000) as nat
    } else {
        v as nat
    }
}

/// The signed number with the bit pattern `bits`, for `bits` below 2^32.
pub open spec fn bits_i32(bits: nat) -> i32 {
    if bits >= 0x8000_0000 {
        (bits - 0x1_0000_0000) as i32
    } else {
        bits as i32
    }
}

/// `be_bytes` gives as many bytes as it is asked for.
pub proof fn lemma_be_bytes_len(value: nat, width: nat)
    ensures
        be_bytes(value, width).len() == width,
    decreases width,
{
    if width > 0 {
        lemma_be_bytes_len(value / 256, (width - 1) as nat);
    }
}

/// Reading back what `be_bytes` wrote gives the number, if it fitted.
pub proof fn lemma_be_round_trip(value: nat, width: nat)
    requires
        fits_in(value, width),
    ensures
        be_value(be_bytes(value, width)) == value,
    decreases width,
{
    if width > 0 {
        lemma_be_round_trip(value / 256, (width - 1) as nat);
        let head = be_bytes(value / 256, (width - 1) as nat);
        let all = head.push((value % 256) as u8);
        assert(all.drop_last() =~= head);
        assert(all.last() == (value % 256) as u8);
    }
}

/// Every `u8`, `u16`, `u32` and `u128` fits in its own width.
pub proof fn lemma_fits(value: nat, width: nat)
    requires
        (width == 1 && value < 0x100) || (width == 2 && value < 0x1_0000) || (width == 4 && value
            < 0x1_0000_0000) || (width == 16 && value <= u128::MAX),
    ensures
        fits_in(value, width),
{
    reveal_with_fuel(fits_in, 17);
}

/// What `byteorder::ReadBytesExt::read_i8` gives on a byte slice: the first
/// byte read as a signed number, or nothing where the slice is empty.
#[verifier::external_body]
pub(crate) fn read_i8_be(bytes: &[u8]) -> (r: Option<i8>)
    ensures
        r == if bytes@.len() >= 1 {
            Some(bits_i8(bytes@[0] as nat))
        } else {
            None
        },
{
    let mut source: &[u8] = bytes;
    source.read_i8().ok()
}

/// What `byteorder::ReadBytesExt::read_i16::<BigEndian>` gives on a byte
/// slice: the first two bytes as a signed big-endian number, or nothing where
/// the slice is shorter.
#[verifier::external_body]
pub(crate) fn read_i16_be(bytes: &[u8]) -> (r: Option<i16>)
    ensures
        r == if bytes@.len() >= 2 {
            Some(bits_i16(be_value(bytes@.take(2))))
        } else {
            None
        },
{
    let mut source: &[u8] = bytes;
    source.read_i16::<BigEndian>().ok()
}

/// What `byteorder::ReadBytesExt::read_i32::<BigEndian>` gives on a byte
/// slice: the first four bytes as a signed big-endian number, or nothing
/// where the slice is shorter.
#[verifier::external_body]
pub(crate) fn read_i32_be(bytes: &[u8]) -> (r: Option<i32>)
    ensures
        r == if bytes@.len() >= 4 {
            Some(bits_i32(be_value(bytes@.take(4))))
        } else {
            None
        },
{
    let mut source: &[u8] = bytes;
    source.read_i32::<BigEndian>().ok()
}

/// What `byteorder::ReadBytesExt::read_u128::<BigEndian>` gives on a byte
/// slice: the first sixteen bytes as a big-endian number, or nothing where
/// the slice is shorter.
#[verifier::external_body]
pub(crate) fn read_u128_be(bytes: &[u8]) -> (r: Option<u128>)
    ensures
        r == if bytes@.len() >= 16 {
            Some(be_value(bytes@.take(16)) as u128)
        } else {
            None
        },
{
    let mut source: &[u8] = bytes;
    source.read_u128::<BigEndian>().ok()
}

/// `byteorder::WriteBytesExt::write_i8` on a vector: it appends the one byte
/// with the bit pattern of `v`.
#[verifier::external_body]
pub(crate) fn write_i8_be(output: &mut Vec<u8>, v: i8)
    ensures
        final(output)@ == old(output)@.push(i8_bits(v) as u8),
{
    let _ = output.write_i8(v);
}

/// `byteorder::WriteBytesExt::write_i16::<BigEndian>` on a vector: it appends
/// the two bytes of `v`, most significant first.
#[verifier::external_body]
pub(crate) fn write_i16_be(output: &mut Vec<u8>, v: i16)
    ensures
        final(output)@ == old(output)@ + be_bytes(i16_bits(v), 2),
{
    let _ = output.write_i16::<BigEndian>(v);
}

/// `byteorder::WriteBytesExt::write_i32::<BigEndian>` on a vector: it appends
/// the four bytes of `v`, most significant first.
#[verifier::external_body]
pub(crate) fn write_i32_be(output: &mut Vec<u8>, v: i32)
    ensures
        final(output)@ == old(output)@ + be_bytes(i32_bits(v), 4),
{
    let _ = output.write_i32::<BigEndian>(v);
}

/// `byteorder::WriteBytesExt::write_u128::<BigEndian>` on a vector: it
/// appends the sixteen bytes of `v`, most significant first.
#[verifier::external_body]
pub(crate) fn write_u128_be(output: &mut Vec<u8>, v: u128)
    ensures
        final(output)@ == old(output)@ + be_bytes(v as nat, 16),
{
    let _ = output.write_u128::<BigEndian>(v);
}

} // verus!

verus! {

/// The signed number with the bit pattern of `raw`.
pub fn u32_to_i32(raw: u32) -> (r: i32)
    ensures
        r == bits_i32(raw as nat),
{
    if raw >= 0x8000_0000 {
        (raw as i64 - 0x1_0000_0000) as i32
    } else {
        raw as i32
    }
}

/// The unsigned number with the bit pattern of `v`.
pub fn i32_to_u32(v: i32) -> (r: u32)
    ensures
        r == i32_bits(v),
{
    if v < 0 {
        (v as i64 + 0x1_0000_0000) as u32
    } else {
        v as u32
    }
}

} // verus!

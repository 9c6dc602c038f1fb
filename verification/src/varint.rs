//! Unsigned variable-length integers: seven bits to a byte, least
//! significant group first, the high bit set on every byte but the last.

use crate::error::{CodecError, Failure};
use crate::reader::ByteReader;
use varint_rs::{VarintReader, VarintWriter};
use vstd::prelude::*;
use vstd::slice::slice_subrange;

verus! {

/// The bytes that `value` is written as.
pub open spec fn varint_bytes(value: nat) -> Seq<u8>
    decreases value,
{
    if value < 128 {
        seq![value as u8]
    } else {
        seq![(value % 128 + 128) as u8] + varint_bytes(value / 128)
    }
}

/// Whether `bytes` is one whole integer: continuation bytes, then one byte
/// with the high bit clear.
pub open spec fn is_varint(bytes: Seq<u8>) -> bool {
    &&& bytes.len() >= 1
    &&& bytes.last() < 128
    &&& forall|i: int| 0 <= i < bytes.len() - 1 ==> bytes[i] >= 128
}

/// The number that the seven-bit groups of `bytes` spell.
pub open spec fn varint_value(bytes: Seq<u8>) -> nat
    decreases bytes.len(),
{
    if bytes.len() == 0 {
        0
    } else {
        (bytes[0] % 128) as nat + 128 * varint_value(bytes.drop_first())
    }
}

/// How many bytes the integer at the start of `bytes` takes, if it ends
/// within the first `limit` of them.
pub open spec fn varint_len(bytes: Seq<u8>, limit: nat) -> Option<nat>
    decreases limit,
{
    if limit == 0 || bytes.len() == 0 {
        None
    } else if bytes[0] < 128 {
        Some(1)
    } else {
        match varint_len(bytes.drop_first(), (limit - 1) as nat) {
            Some(n) => Some(n + 1),
            None => None,
        }
    }
}

/// What a decode of a 32-bit integer at the start of `bytes` gives: the
/// number and how many bytes it took. An integer of five bytes loses what
/// does not fit in 32 bits; one that goes on past five bytes is refused.
pub open spec fn parse_varint(bytes: Seq<u8>) -> Result<(u32, nat), Failure> {
    match varint_len(bytes, 5) {
        Some(n) => Ok(((varint_value(bytes.take(n as int)) % 0x1_0000_0000) as u32, n)),
        None => if bytes.len() >= 5 {
            Err(Failure::VarintTooLong)
        } else {
            Err(Failure::UnexpectedEof)
        },
    }
}

/// `varint_rs::VarintReader::read_u32_varint` on a slice that holds one whole
/// integer of at most five bytes: the groups of seven bits, joined from the
/// least significant one up and cut to 32 bits.
#[verifier::external_body]
fn decode_u32_varint(bytes: &[u8]) -> (r: Option<u32>)
    requires
        is_varint(bytes@),
        bytes@.len() <= 5,
    ensures
        r == Some((varint_value(bytes@) % 0x1_0000_0000) as u32),
{
    let mut source: &[u8] = bytes;
    source.read_u32_varint().ok()
}

/// `varint_rs::VarintWriter::write_u32_varint` on a vector: it appends the
/// bytes of `value`.
#[verifier::external_body]
fn encode_u32_varint(output: &mut Vec<u8>, value: u32)
    ensures
        final(output)@ == old(output)@ + varint_bytes(value as nat),
{
    let _ = output.write_u32_varint(value);
}

proof fn lemma_scan(bytes: Seq<u8>, limit: nat, i: nat)
    requires
        i <= limit,
        i <= bytes.len(),
        forall|j: int| 0 <= j < i ==> bytes[j] >= 128,
    ensures
        i < limit && i < bytes.len() && bytes[i as int] < 128 ==> varint_len(bytes, limit) == Some(
            i + 1,
        ),
        i == limit || i == bytes.len() ==> varint_len(bytes, limit) is None,
    decreases i,
{
    if i > 0 {
        let tail = bytes.drop_first();
        assert forall|j: int| 0 <= j < i - 1 implies tail[j] >= 128 by {
            assert(tail[j] == bytes[j + 1]);
        }
        lemma_scan(tail, (limit - 1) as nat, (i - 1) as nat);
        if i < bytes.len() {
            assert(tail[i - 1] == bytes[i as int]);
        }
    }
}

/// Appends `value` as a variable-length integer.
pub fn write_varint(output: &mut Vec<u8>, value: u32)
    ensures
        final(output)@ == old(output)@ + varint_bytes(value as nat),
{
    encode_u32_varint(output, value);
}

/// Reads one variable-length integer of 32 bits.
pub fn read_varint(input: &mut ByteReader) -> (r: Result<u32, CodecError>)
    ensures
        final(input).bytes() == old(input).bytes(),
        match parse_varint(old(input).remaining()) {
            Ok((value, n)) => r == Ok::<u32, CodecError>(value) && final(input).offset() == old(
                input,
            ).offset() + n,
            Err(e) => r matches Err(x) && x@ == e && final(input).offset() == old(input).offset(),
        },
{
    let rest = input.rest();
    let mut i: usize = 0;
    let mut found: bool = false;
    while !found && i < 5 && i < rest.len()
        invariant
            i <= 5,
            i <= rest@.len(),
            forall|j: int| 0 <= j < i ==> rest@[j] >= 128,
            found ==> i < 5 && i < rest@.len() && rest@[i as int] < 128,
        decreases 5 - i + (if found { 0int } else { 1int }),
    {
        if rest[i] < 128 {
            found = true;
        } else {
            i = i + 1;
        }
    }
    proof {
        lemma_scan(rest@, 5, i as nat);
    }
    if found {
        let n: usize = i + 1;
        let group = slice_subrange(rest, 0, n);
        assert(group@ =~= rest@.take(n as int));
        match decode_u32_varint(group) {
            Some(value) => {
                input.advance(n);
                Ok(value)
            },
            None => Err(CodecError::UnexpectedEof),
        }
    } else if rest.len() >= 5 {
        Err(CodecError::VarintTooLong)
    } else {
        Err(CodecError::UnexpectedEof)
    }
}

proof fn lemma_written_shape(value: nat, groups: nat)
    requires
        groups >= 1,
        groups == 1 ==> value < 0x80,
        groups == 2 ==> value < 0x4000,
        groups == 3 ==> value < 0x20_0000,
        groups == 4 ==> value < 0x1000_0000,
        groups == 5 ==> value < 0x8_0000_0000,
        groups <= 5,
    ensures
        is_varint(varint_bytes(value)),
        varint_bytes(value).len() <= groups,
        varint_value(varint_bytes(value)) == value,
    decreases groups,
{
    let b = varint_bytes(value);
    if value >= 128 {
        let tail = varint_bytes(value / 128);
        lemma_written_shape(value / 128, (groups - 1) as nat);
        assert(b.drop_first() =~= tail);
        assert(b.last() == tail.last());
        assert forall|i: int| 0 <= i < b.len() - 1 implies b[i] >= 128 by {
            if i > 0 {
                assert(b[i] == tail[i - 1]);
            }
        }
        assert(b[0] % 128 == value % 128);
    } else {
        assert(b.drop_first() =~= Seq::<u8>::empty());
        assert(varint_value(b.drop_first()) == 0);
    }
}

proof fn lemma_len_of_whole(bytes: Seq<u8>, rest: Seq<u8>, limit: nat)
    requires
        is_varint(bytes),
        bytes.len() <= limit,
    ensures
        varint_len(bytes + rest, limit) == Some(bytes.len()),
    decreases bytes.len(),
{
    let all = bytes + rest;
    assert(all[0] == bytes[0]);
    if bytes.len() > 1 {
        let tail = bytes.drop_first();
        assert(tail.last() == bytes.last());
        assert forall|i: int| 0 <= i < tail.len() - 1 implies tail[i] >= 128 by {
            assert(tail[i] == bytes[i + 1]);
        }
        lemma_len_of_whole(tail, rest, (limit - 1) as nat);
        assert(all.drop_first() =~= tail + rest);
    }
}

/// A 32-bit integer that was written is read back as it was, whatever
/// follows it, and the read takes exactly the bytes that were written.
pub proof fn lemma_varint_round_trip(value: u32, rest: Seq<u8>)
    ensures
        parse_varint(varint_bytes(value as nat) + rest) == Ok::<(u32, nat), Failure>(
            (value, varint_bytes(value as nat).len()),
        ),
        1 <= varint_bytes(value as nat).len() <= 5,
{
    let b = varint_bytes(value as nat);
    lemma_written_shape(value as nat, 5);
    lemma_len_of_whole(b, rest, 5);
    assert((b + rest).take(b.len() as int) =~= b);
}

} // verus!

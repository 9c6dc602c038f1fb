//! Arrays that may be null: a 32-bit length, then the items one after the
//! other, each in the mode and under the field name of the array.

use crate::error::{CodecError, Failure};
use crate::lengths::{
    len_as_i64, len_i64, len_wire_i32, parse_len_i32, read_len_i32, write_len_i32,
};
use crate::readable_writable::{Readable, Writable};
use crate::reader::ByteReader;
use vstd::prelude::*;

verus! {

/// The bytes of the items of an array, one after the other.
pub open spec fn items_wire<T: Writable>(items: Seq<T>, compact: bool) -> Seq<u8>
    decreases items.len(),
{
    if items.len() == 0 {
        Seq::empty()
    } else {
        items_wire(items.drop_last(), compact) + items.last().wire(compact)
    }
}

/// Why the items cannot be written: the failure of the first that fails.
pub open spec fn items_failure<T: Writable>(
    items: Seq<T>,
    field_name: Seq<char>,
    compact: bool,
) -> Option<Failure>
    decreases items.len(),
{
    if items.len() == 0 {
        None
    } else {
        match items_failure(items.drop_last(), field_name, compact) {
            Some(e) => Some(e),
            None => items.last().write_failure(field_name, compact),
        }
    }
}

/// The bytes of an array that may be null: its length, -1 for null, then
/// its items.
#[verifier::opaque]
pub open spec fn array_wire<T: Writable>(array: Option<Seq<T>>, compact: bool) -> Seq<u8> {
    match array {
        Some(items) => len_wire_i32(items.len() as i32, compact) + items_wire(items, compact),
        None => len_wire_i32(-1i32, compact),
    }
}

/// Why the array cannot be written: it has more than 2147483647 items, or
/// one of them cannot be written.
#[verifier::opaque]
pub open spec fn array_failure<T: Writable>(
    array: Option<Seq<T>>,
    field_name: Seq<char>,
    compact: bool,
) -> Option<Failure> {
    match array {
        Some(items) => if items.len() > i32::MAX {
            Some(Failure::InvalidLength { field: field_name, len: len_as_i64(items.len()) })
        } else {
            items_failure(items, field_name, compact)
        },
        None => None,
    }
}

/// What the items of an array are, mathematically.
pub open spec fn models<T: Readable>(items: Seq<T>) -> Seq<T::Model> {
    items.map_values(|item: T| item.model())
}

/// What an array that was read is, mathematically.
pub open spec fn array_model<T: Readable>(array: Option<Vec<T>>) -> Option<Seq<T::Model>> {
    match array {
        Some(items) => Some(models(items@)),
        None => None,
    }
}

/// The items of a slice that may be absent.
pub open spec fn slice_items<T>(array: Option<&[T]>) -> Option<Seq<T>> {
    match array {
        Some(items) => Some(items@),
        None => None,
    }
}

/// The items of a vector that may be absent.
pub open spec fn vec_items<T>(array: Option<Vec<T>>) -> Option<Seq<T>> {
    match array {
        Some(items) => Some(items@),
        None => None,
    }
}

/// What a decode of `count` items gives, each read where the one before it
/// ended: the items in the order read, and the bytes they took together.
pub open spec fn parse_items<T: Readable>(
    bytes: Seq<u8>,
    field_name: Seq<char>,
    compact: bool,
    count: nat,
) -> Result<(Seq<T::Model>, nat), Failure>
    decreases count,
{
    if count == 0 {
        Ok((Seq::empty(), 0nat))
    } else {
        match parse_items::<T>(bytes, field_name, compact, (count - 1) as nat) {
            Err(e) => Err(e),
            Ok((items, n)) => match T::parse(bytes.skip(n as int), field_name, compact) {
                Err(e) => Err(e),
                Ok((item, k)) => Ok((items.push(item), n + k)),
            },
        }
    }
}

/// What a decode of an array that may be null gives.
#[verifier::opaque]
pub open spec fn parse_nullable_array<T: Readable>(
    bytes: Seq<u8>,
    field_name: Seq<char>,
    compact: bool,
) -> Result<(Option<Seq<T::Model>>, nat), Failure> {
    match parse_len_i32(bytes, field_name, compact) {
        Err(e) => Err(e),
        Ok((len, n)) => if len < 0 {
            Ok((None, n))
        } else {
            match parse_items::<T>(bytes.skip(n as int), field_name, compact, len as nat) {
                Err(e) => Err(e),
                Ok((items, k)) => Ok((Some(items), n + k)),
            }
        },
    }
}

/// Once an item has failed to decode, the array fails in the same way.
pub proof fn lemma_parse_items_failed<T: Readable>(
    bytes: Seq<u8>,
    field_name: Seq<char>,
    compact: bool,
    failed: nat,
    count: nat,
)
    requires
        failed <= count,
        parse_items::<T>(bytes, field_name, compact, failed) is Err,
    ensures
        parse_items::<T>(bytes, field_name, compact, count) == parse_items::<T>(
            bytes,
            field_name,
            compact,
            failed,
        ),
    decreases count,
{
    if failed < count {
        lemma_parse_items_failed::<T>(bytes, field_name, compact, failed, (count - 1) as nat);
    }
}

/// Once an item has failed to encode, the array fails in the same way.
pub proof fn lemma_items_failure_kept<T: Writable>(
    items: Seq<T>,
    field_name: Seq<char>,
    compact: bool,
    failed: nat,
)
    requires
        failed <= items.len(),
        items_failure(items.take(failed as int), field_name, compact) is Some,
    ensures
        items_failure(items, field_name, compact) == items_failure(
            items.take(failed as int),
            field_name,
            compact,
        ),
    decreases items.len(),
{
    if failed < items.len() {
        assert(items.drop_last().take(failed as int) =~= items.take(failed as int));
        lemma_items_failure_kept(items.drop_last(), field_name, compact, failed);
    } else {
        assert(items.take(failed as int) =~= items);
    }
}

/// Writes the items of `array`, one after the other.
pub fn write_array_inner<T: Writable>(
    output: &mut Vec<u8>,
    array: &[T],
    field_name: &str,
    compact: bool,
) -> (r: Result<(), CodecError>)
    ensures
        old(output)@.is_prefix_of(final(output)@),
        match items_failure(array@, field_name@, compact) {
            None => r is Ok && final(output)@ == old(output)@ + items_wire(array@, compact),
            Some(e) => r matches Err(x) && x@ == e,
        },
{
    let mut i: usize = 0;
    while i < array.len()
        invariant
            i <= array@.len(),
            items_failure(array@.take(i as int), field_name@, compact) is None,
            output@ == old(output)@ + items_wire(array@.take(i as int), compact),
        decreases array@.len() - i,
    {
        let written = array[i].write_ext(output, field_name, compact);
        proof {
            let next = array@.take(i + 1);
            assert(next.drop_last() =~= array@.take(i as int));
            assert(next.last() == array@[i as int]);
        }
        match written {
            Err(e) => {
                proof {
                    lemma_items_failure_kept(array@, field_name@, compact, (i + 1) as nat);
                }
                return Err(e);
            },
            Ok(()) => {
                assert(output@ =~= old(output)@ + items_wire(array@.take(i + 1), compact));
            },
        }
        i = i + 1;
    }
    assert(array@.take(i as int) =~= array@);
    Ok(())
}

/// Writes an array that may be null: its length, then its items.
pub fn write_nullable_array<T: Writable>(
    output: &mut Vec<u8>,
    field_name: &str,
    array: Option<&[T]>,
    compact: bool,
) -> (r: Result<(), CodecError>)
    ensures
        old(output)@.is_prefix_of(final(output)@),
        match array_failure(slice_items(array), field_name@, compact) {
            None => r is Ok && final(output)@ == old(output)@ + array_wire(
                slice_items(array),
                compact,
            ),
            Some(e) => r matches Err(x) && x@ == e,
        },
{
    reveal(array_wire);
    reveal(array_failure);
    match array {
        Some(items) => {
            let len: usize = items.len();
            if len > i32::MAX as usize {
                Err(
                    CodecError::InvalidLength {
                        field: field_name.to_owned(),
                        len: len_i64(len as u128),
                    },
                )
            } else {
                match write_len_i32(output, field_name, len as i32, compact) {
                    Err(e) => Err(e),
                    Ok(()) => {
                        let r = write_array_inner(output, items, field_name, compact);
                        assert(r is Ok ==> output@ =~= old(output)@ + array_wire(
                            slice_items(array),
                            compact,
                        ));
                        r
                    },
                }
            }
        },
        None => write_len_i32(output, field_name, -1, compact),
    }
}

/// Reads `len` items, one after the other.
pub fn read_array_inner<T: Readable>(
    input: &mut ByteReader,
    len: i32,
    field_name: &str,
    compact: bool,
) -> (r: Result<Vec<T>, CodecError>)
    requires
        len >= 0,
    ensures
        final(input).bytes() == old(input).bytes(),
        final(input).offset() >= old(input).offset(),
        match parse_items::<T>(old(input).remaining(), field_name@, compact, len as nat) {
            Ok((items, n)) => r matches Ok(v) && models(v@) == items && final(input).offset()
                == old(input).offset() + n,
            Err(e) => r matches Err(x) && x@ == e,
        },
{
    let mut vec: Vec<T> = Vec::new();
    let mut i: i32 = 0;
    let ghost start = *input;
    let ghost mut taken: nat = 0;
    assert(models(vec@) =~= Seq::<T::Model>::empty());
    while i < len
        invariant
            0 <= i <= len,
            start == *old(input),
            input.bytes() == start.bytes(),
            input.offset() == start.offset() + taken,
            vec@.len() == i,
            parse_items::<T>(start.remaining(), field_name@, compact, i as nat) == Ok::<
                (Seq<T::Model>, nat),
                Failure,
            >((models(vec@), taken)),
        decreases len - i,
    {
        proof {
            use_type_invariant(&*input);
            start.lemma_remaining_skip(*input, taken);
        }
        let ghost here = *input;
        match T::read_ext(input, field_name, compact) {
            Err(e) => {
                proof {
                    lemma_parse_items_failed::<T>(
                        start.remaining(),
                        field_name@,
                        compact,
                        (i + 1) as nat,
                        len as nat,
                    );
                }
                return Err(e);
            },
            Ok(item) => {
                proof {
                    let k = T::parse(here.remaining(), field_name@, compact)->Ok_0.1;
                    assert(models(vec@.push(item)) =~= models(vec@).push(item.model()));
                    taken = taken + k;
                }
                vec.push(item);
            },
        }
        i = i + 1;
    }
    Ok(vec)
}

/// Reads an array that may be null: its length, then its items.
pub fn read_nullable_array<T: Readable>(
    input: &mut ByteReader,
    field_name: &str,
    compact: bool,
) -> (r: Result<Option<Vec<T>>, CodecError>)
    ensures
        final(input).bytes() == old(input).bytes(),
        final(input).offset() >= old(input).offset(),
        match parse_nullable_array::<T>(old(input).remaining(), field_name@, compact) {
            Ok((items, n)) => r matches Ok(v) && array_model(v) == items && final(input).offset()
                == old(input).offset() + n,
            Err(e) => r matches Err(x) && x@ == e,
        },
{
    reveal(parse_nullable_array);
    match read_len_i32(input, field_name, compact) {
        Err(e) => Err(e),
        Ok(len) => if len < 0 {
            Ok(None)
        } else {
            proof {
                use_type_invariant(&*input);
                let n = parse_len_i32(old(input).remaining(), field_name@, compact)->Ok_0.1;
                old(input).lemma_remaining_skip(*input, n);
            }
            match read_array_inner(input, len, field_name, compact) {
                Err(e) => Err(e),
                Ok(items) => Ok(Some(items)),
            }
        },
    }
}

} // verus!

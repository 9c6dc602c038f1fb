//! What is written is read back as it was: the law of every value of the
//! wire, proved type by type.

use crate::endian::{
    be_bytes, i16_bits, i32_bits, lemma_be_bytes_len, lemma_be_round_trip, lemma_fits,
};
use crate::error::Failure;
use crate::metadata_request::{MetadataRequest, MetadataRequestTopic};
use crate::arrays::{
    array_failure, array_model, array_wire, items_failure, items_wire, models, parse_items,
    parse_nullable_array, vec_items,
};
use crate::lengths::{len_wire_i16, len_wire_i32, parse_len_i16, parse_len_i32};
use crate::readable_writable::{uuid_bits, Readable, Writable};
use crate::strings::string_failure;
use crate::tagged_fields::{
    parse_section, section_failure, section_wire, RawTaggedField, TaggedField,
};
use crate::varint::{lemma_varint_round_trip, varint_bytes};
use uuid::Uuid;
use vstd::prelude::*;
use vstd::utf8::{encode_utf8, encode_utf8_decode_utf8, encode_utf8_valid_utf8};

verus! {

/// Whether `value`, written under `field_name` in the given mode, is read
/// back as it was, whatever follows it, by a read that takes exactly the
/// bytes that were written. A value that cannot be written has nothing to
/// read back.
#[verifier::opaque]
pub open spec fn round_trips<T: Readable + Writable>(
    value: T,
    field_name: Seq<char>,
    compact: bool,
) -> bool {
    value.write_failure(field_name, compact) is None ==> forall|rest: Seq<u8>|
        #[trigger] T::parse(value.wire(compact) + rest, field_name, compact) == Ok::<
            (T::Model, nat),
            Failure,
        >((value.model(), value.wire(compact).len()))
}

/// A boolean is read back as it was written.
pub proof fn lemma_bool_round_trip(value: bool, field_name: Seq<char>, compact: bool)
    ensures
        round_trips(value, field_name, compact),
{
    reveal(round_trips);
}

/// An identifier is read back as it was written.
pub proof fn lemma_uuid_round_trip(value: Uuid, field_name: Seq<char>, compact: bool)
    ensures
        round_trips(value, field_name, compact),
{
    reveal(round_trips);
    let bits = uuid_bits(value) as nat;
    let wire = value.wire(compact);
    lemma_fits(bits, 16);
    lemma_be_bytes_len(bits, 16);
    lemma_be_round_trip(bits, 16);
    assert forall|rest: Seq<u8>| #[trigger]
        Uuid::parse(wire + rest, field_name, compact) == Ok::<(u128, nat), Failure>(
            (value.model(), wire.len()),
        ) by {
        assert((wire + rest).take(16) =~= wire);
    }
}

/// The length of a string is read back as it was written, in either mode.
pub proof fn lemma_len_i16_round_trip(
    len: i16,
    field_name: Seq<char>,
    compact: bool,
    rest: Seq<u8>,
)
    requires
        len >= -1,
    ensures
        parse_len_i16(len_wire_i16(len, compact) + rest, field_name, compact) == Ok::<
            (i16, nat),
            Failure,
        >((len, len_wire_i16(len, compact).len())),
{
    let wire = len_wire_i16(len, compact);
    if compact {
        lemma_varint_round_trip((len + 1) as u32, rest);
    } else {
        lemma_fits(i16_bits(len), 2);
        lemma_be_bytes_len(i16_bits(len), 2);
        lemma_be_round_trip(i16_bits(len), 2);
        assert((wire + rest).take(2) =~= wire);
    }
}

/// The length of an array is read back as it was written, in either mode.
pub proof fn lemma_len_i32_round_trip(
    len: i32,
    field_name: Seq<char>,
    compact: bool,
    rest: Seq<u8>,
)
    requires
        len >= -1,
    ensures
        parse_len_i32(len_wire_i32(len, compact) + rest, field_name, compact) == Ok::<
            (i32, nat),
            Failure,
        >((len, len_wire_i32(len, compact).len())),
{
    let wire = len_wire_i32(len, compact);
    if compact {
        lemma_varint_round_trip((len + 1) as u32, rest);
    } else {
        lemma_fits(i32_bits(len), 4);
        lemma_be_bytes_len(i32_bits(len), 4);
        lemma_be_round_trip(i32_bits(len), 4);
        assert((wire + rest).take(4) =~= wire);
    }
}

/// In compact mode the length is the integer on the wire less one: 0 is
/// read as null, 1 as the length 0, 6 as the length 5; and an integer above
/// 2147483648 is refused.
pub proof fn lemma_compact_length(raw: u32, field_name: Seq<char>, rest: Seq<u8>)
    ensures
        parse_len_i32(varint_bytes(raw as nat) + rest, field_name, true) == if raw - 1
            > i32::MAX {
            Err::<(i32, nat), Failure>(Failure::InvalidLength { field: field_name, len: raw - 1 })
        } else {
            Ok::<(i32, nat), Failure>(((raw - 1) as i32, varint_bytes(raw as nat).len()))
        },
{
    lemma_varint_round_trip(raw, rest);
}

/// A string can be written exactly when its UTF-8 form has at most 32767
/// bytes, in either mode.
pub proof fn lemma_string_boundary(value: String, field_name: Seq<char>, compact: bool)
    ensures
        value.write_failure(field_name, compact) is None <==> encode_utf8(value@).len() <= 32767,
        encode_utf8(value@).len() == 32768 ==> value.write_failure(field_name, compact) == Some(
            Failure::InvalidLength { field: field_name, len: 32768 },
        ),
{
}

/// A string that may be null is read back as it was written: a null as a
/// null, a text as the same text.
pub proof fn lemma_nullable_string_round_trip(
    value: Option<String>,
    field_name: Seq<char>,
    compact: bool,
)
    ensures
        round_trips(value, field_name, compact),
{
    reveal(round_trips);
    if value.write_failure(field_name, compact) is None {
        let wire = value.wire(compact);
        assert forall|rest: Seq<u8>| #[trigger]
            Option::<String>::parse(wire + rest, field_name, compact) == Ok::<
                (Option<Seq<char>>, nat),
                Failure,
            >((value.model(), wire.len())) by {
            match value {
                None => {
                    lemma_len_i16_round_trip(-1i16, field_name, compact, rest);
                },
                Some(s) => {
                    let text = encode_utf8(s@);
                    let len = text.len() as i16;
                    let head = len_wire_i16(len, compact);
                    encode_utf8_valid_utf8(s@);
                    encode_utf8_decode_utf8(s@);
                    lemma_len_i16_round_trip(len, field_name, compact, text + rest);
                    assert(wire + rest =~= head + (text + rest));
                    assert((wire + rest).skip(head.len() as int) =~= text + rest);
                    assert((text + rest).take(len as int) =~= text);
                },
            }
        }
    }
}

/// A string is read back as it was written.
pub proof fn lemma_string_round_trip(value: String, field_name: Seq<char>, compact: bool)
    ensures
        round_trips(value, field_name, compact),
{
    reveal(round_trips);
    lemma_nullable_string_round_trip(Some(value), field_name, compact);
    if value.write_failure(field_name, compact) is None {
        let wire = value.wire(compact);
        assert forall|rest: Seq<u8>| #[trigger]
            String::parse(wire + rest, field_name, compact) == Ok::<(Seq<char>, nat), Failure>(
                (value.model(), wire.len()),
            ) by {
            assert(Option::<String>::parse(wire + rest, field_name, compact) == Ok::<
                (Option<Seq<char>>, nat),
                Failure,
            >((Some(value).model(), wire.len())));
        }
    }
}

/// Items that are each read back as written are read back as written
/// together, in their order.
pub proof fn lemma_items_round_trip<T: Readable + Writable>(
    items: Seq<T>,
    field_name: Seq<char>,
    compact: bool,
    rest: Seq<u8>,
)
    requires
        forall|i: int|
            0 <= i < items.len() ==> round_trips(#[trigger] items[i], field_name, compact),
        items_failure(items, field_name, compact) is None,
    ensures
        parse_items::<T>(items_wire(items, compact) + rest, field_name, compact, items.len())
            == Ok::<(Seq<T::Model>, nat), Failure>(
            (models(items), items_wire(items, compact).len()),
        ),
    decreases items.len(),
{
    reveal(round_trips);
    if items.len() == 0 {
        assert(models(items) =~= Seq::<T::Model>::empty());
    } else {
        let front = items.drop_last();
        let last = items.last();
        let head = items_wire(front, compact);
        let all = items_wire(items, compact) + rest;
        assert forall|i: int| 0 <= i < front.len() implies round_trips(
            #[trigger] front[i],
            field_name,
            compact,
        ) by {
            assert(front[i] == items[i]);
        }
        lemma_items_round_trip(front, field_name, compact, last.wire(compact) + rest);
        assert(all =~= head + (last.wire(compact) + rest));
        assert(all.skip(head.len() as int) =~= last.wire(compact) + rest);
        assert(round_trips(items[items.len() - 1], field_name, compact));
        assert(T::parse(last.wire(compact) + rest, field_name, compact) == Ok::<
            (T::Model, nat),
            Failure,
        >((last.model(), last.wire(compact).len())));
        assert(models(items) =~= models(front).push(last.model()));
    }
}

/// An array that may be null, of items that are each read back as written,
/// is read back as it was written: a null as a null, an empty array as an
/// empty array, and any other item by item.
pub proof fn lemma_array_round_trip<T: Readable + Writable>(
    array: Option<Seq<T>>,
    field_name: Seq<char>,
    compact: bool,
    rest: Seq<u8>,
)
    requires
        array matches Some(items) ==> forall|i: int|
            0 <= i < items.len() ==> round_trips(#[trigger] items[i], field_name, compact),
        array_failure(array, field_name, compact) is None,
    ensures
        parse_nullable_array::<T>(array_wire(array, compact) + rest, field_name, compact) == Ok::<
            (Option<Seq<T::Model>>, nat),
            Failure,
        >(
            (
                match array {
                    Some(items) => Some(models(items)),
                    None => None,
                },
                array_wire(array, compact).len(),
            ),
        ),
{
    reveal(array_wire);
    reveal(array_failure);
    reveal(parse_nullable_array);
    match array {
        None => {
            lemma_len_i32_round_trip(-1i32, field_name, compact, rest);
        },
        Some(items) => {
            let len = items.len() as i32;
            let head = len_wire_i32(len, compact);
            let body = items_wire(items, compact);
            lemma_len_i32_round_trip(len, field_name, compact, body + rest);
            lemma_items_round_trip(items, field_name, compact, rest);
            assert(array_wire(array, compact) + rest =~= head + (body + rest));
            assert((head + (body + rest)).skip(head.len() as int) =~= body + rest);
        },
    }
}

/// A null array is read back as a null, and an empty array as an empty
/// array, whatever the type of the items.
pub proof fn lemma_null_and_empty_read_back<T: Readable + Writable>(
    field_name: Seq<char>,
    compact: bool,
    rest: Seq<u8>,
)
    ensures
        parse_nullable_array::<T>(array_wire::<T>(None, compact) + rest, field_name, compact)
            == Ok::<(Option<Seq<T::Model>>, nat), Failure>(
            (None, array_wire::<T>(None, compact).len()),
        ),
        parse_nullable_array::<T>(
            array_wire::<T>(Some(Seq::empty()), compact) + rest,
            field_name,
            compact,
        ) == Ok::<(Option<Seq<T::Model>>, nat), Failure>(
            (Some(Seq::empty()), array_wire::<T>(Some(Seq::empty()), compact).len()),
        ),
{
    reveal(array_failure);
    lemma_array_round_trip::<T>(None, field_name, compact, rest);
    lemma_array_round_trip::<T>(Some(Seq::empty()), field_name, compact, rest);
    assert(models::<T>(Seq::empty()) =~= Seq::<T::Model>::empty());
}

/// A null array and an empty array are different bytes on the wire, in
/// either mode.
pub proof fn lemma_null_is_not_empty<T: Writable>(compact: bool)
    ensures
        array_wire::<T>(None, compact) != array_wire::<T>(Some(Seq::empty()), compact),
{
    reveal(array_wire);
    let null = array_wire::<T>(None, compact);
    let empty = array_wire::<T>(Some(Seq::empty()), compact);
    assert(items_wire::<T>(Seq::empty(), compact) =~= Seq::<u8>::empty());
    assert(empty =~= len_wire_i32(0, compact));
    if compact {
        assert(null[0] == 0);
        assert(empty[0] == 1);
    } else {
        reveal_with_fuel(be_bytes, 5);
        assert(null[3] == 255);
        assert(empty[3] == 0);
    }
}

/// A tagged field is read back as it was written.
pub proof fn lemma_field_round_trip(value: RawTaggedField, field_name: Seq<char>, compact: bool)
    ensures
        round_trips(value, field_name, compact),
{
    reveal(round_trips);
    if value.write_failure(field_name, compact) is None {
        let wire = value.wire(compact);
        let tag = varint_bytes(i32_bits(value.tag));
        let len = varint_bytes(value.data@.len());
        let data = value.data@;
        assert forall|rest: Seq<u8>| #[trigger]
            RawTaggedField::parse(wire + rest, field_name, compact) == Ok::<
                (TaggedField, nat),
                Failure,
            >((value.model(), wire.len())) by {
            lemma_varint_round_trip(i32_bits(value.tag) as u32, len + data + rest);
            lemma_varint_round_trip(data.len() as u32, data + rest);
            assert(wire + rest =~= tag + (len + data + rest));
            assert((wire + rest).skip(tag.len() as int) =~= len + (data + rest));
            assert(len + data + rest =~= len + (data + rest));
            assert((len + (data + rest)).skip(len.len() as int) =~= data + rest);
            assert((data + rest).take(data.len() as int) =~= data);
        }
    }
}

proof fn lemma_items_wire_joined<T: Writable>(
    first: Seq<T>,
    second: Seq<T>,
    field_name: Seq<char>,
    compact: bool,
)
    ensures
        items_wire(first + second, compact) == items_wire(first, compact) + items_wire(
            second,
            compact,
        ),
        items_failure(first, field_name, compact) is None && items_failure(
            second,
            field_name,
            compact,
        ) is None ==> items_failure(first + second, field_name, compact) is None,
    decreases second.len(),
{
    if second.len() == 0 {
        assert(first + second =~= first);
        assert(items_wire(first, compact) + items_wire(second, compact) =~= items_wire(
            first,
            compact,
        ));
    } else {
        lemma_items_wire_joined(first, second.drop_last(), field_name, compact);
        assert((first + second).drop_last() =~= first + second.drop_last());
        assert((first + second).last() == second.last());
        assert(items_wire(first + second, compact) =~= items_wire(first, compact) + items_wire(
            second,
            compact,
        ));
    }
}

/// A section of tagged fields is read back as it was written: the known
/// fields, then the unknown ones, each with its tag and its data.
pub proof fn lemma_section_round_trip(
    known: Seq<RawTaggedField>,
    unknown: Seq<RawTaggedField>,
    rest: Seq<u8>,
)
    requires
        section_failure(known, unknown) is None,
    ensures
        parse_section(section_wire(known, unknown) + rest) == Ok::<
            (Seq<TaggedField>, nat),
            Failure,
        >((models(known + unknown), section_wire(known, unknown).len())),
{
    let all = known + unknown;
    let count = varint_bytes(all.len());
    let body = items_wire(all, false);
    lemma_items_wire_joined(known, unknown, Seq::empty(), false);
    assert forall|i: int| 0 <= i < all.len() implies round_trips(
        #[trigger] all[i],
        Seq::empty(),
        false,
    ) by {
        lemma_field_round_trip(all[i], Seq::empty(), false);
    }
    lemma_items_round_trip(all, Seq::empty(), false, rest);
    lemma_varint_round_trip(all.len() as u32, body + rest);
    assert(section_wire(known, unknown) + rest =~= count + (body + rest));
    assert((count + (body + rest)).skip(count.len() as int) =~= body + rest);
    assert(section_wire(known, unknown).len() == count.len() + body.len());
}

/// A topic of a request is read back as it was written.
pub proof fn lemma_topic_round_trip(
    value: MetadataRequestTopic,
    field_name: Seq<char>,
    compact: bool,
)
    ensures
        round_trips(value, field_name, compact),
{
    reveal(round_trips);
    if value.write_failure(field_name, compact) is None {
        let wire = value.wire(compact);
        let id = value.topic_id.wire(false);
        let name = value.name.wire(true);
        lemma_uuid_round_trip(value.topic_id, Seq::empty(), false);
        lemma_nullable_string_round_trip(value.name, "name"@, true);
        assert forall|rest: Seq<u8>| #[trigger]
            MetadataRequestTopic::parse(wire + rest, field_name, compact) == Ok::<
                (<MetadataRequestTopic as Readable>::Model, nat),
                Failure,
            >((value.model(), wire.len())) by {
            assert(wire + rest =~= id + (name + rest));
            assert(Uuid::parse(id + (name + rest), Seq::empty(), false) == Ok::<
                (u128, nat),
                Failure,
            >((value.topic_id.model(), id.len())));
            assert((id + (name + rest)).skip(id.len() as int) =~= name + rest);
            assert(Option::<String>::parse(name + rest, "name"@, true) == Ok::<
                (Option<Seq<char>>, nat),
                Failure,
            >((value.name.model(), name.len())));
        }
    }
}

proof fn lemma_topics_read_back(topics: Option<Vec<MetadataRequestTopic>>, rest: Seq<u8>)
    requires
        array_failure(vec_items(topics), "topics"@, true) is None,
    ensures
        parse_nullable_array::<MetadataRequestTopic>(
            array_wire(vec_items(topics), true) + rest,
            "topics"@,
            true,
        ) == Ok::<(Option<Seq<<MetadataRequestTopic as Readable>::Model>>, nat), Failure>(
            (array_model(topics), array_wire(vec_items(topics), true).len()),
        ),
{
    match topics {
        Some(items) => {
            assert forall|i: int| 0 <= i < items@.len() implies round_trips(
                #[trigger] items@[i],
                "topics"@,
                true,
            ) by {
                lemma_topic_round_trip(items@[i], "topics"@, true);
            }
        },
        None => {},
    }
    lemma_array_round_trip(vec_items(topics), "topics"@, true, rest);
}

proof fn lemma_flags_read_back(first: bool, second: bool, rest: Seq<u8>)
    ensures
        bool::parse(first.wire(false) + second.wire(false) + rest, Seq::empty(), false) == Ok::<
            (bool, nat),
            Failure,
        >((first, 1)),
        bool::parse(
            (first.wire(false) + second.wire(false) + rest).skip(1),
            Seq::empty(),
            false,
        ) == Ok::<(bool, nat), Failure>((second, 1)),
{
    let tail = first.wire(false) + second.wire(false) + rest;
    assert(tail[0] == first.wire(false)[0]);
    assert(tail.skip(1) =~= second.wire(false) + rest);
    assert((second.wire(false) + rest)[0] == second.wire(false)[0]);
}

proof fn lemma_request_read_back(value: MetadataRequest, rest: Seq<u8>)
    requires
        value.write_failure(Seq::empty(), false) is None,
    ensures
        MetadataRequest::parse(value.wire(false) + rest, Seq::empty(), false) == Ok::<
            (<MetadataRequest as Readable>::Model, nat),
            Failure,
        >((value.model(), value.wire(false).len())),
{
    let wire = value.wire(false);
    let topics = array_wire(vec_items(value.topics), true);
    let allow = value.allow_auto_topic_creation.wire(false);
    let operations = value.include_topic_authorized_operations.wire(false);
    let tail = allow + operations + rest;
    lemma_topics_read_back(value.topics, tail);
    lemma_flags_read_back(
        value.allow_auto_topic_creation,
        value.include_topic_authorized_operations,
        rest,
    );
    assert(wire + rest =~= topics + tail);
    assert((topics + tail).skip(topics.len() as int) =~= tail);
    assert(wire.len() == topics.len() + 2);
}

/// A request is read back as it was written: the same topics, with a null
/// name where the name was null, and the same flags.
pub proof fn lemma_request_round_trip(value: MetadataRequest, field_name: Seq<char>, compact: bool)
    ensures
        round_trips(value, field_name, compact),
{
    reveal(round_trips);
    if value.write_failure(field_name, compact) is None {
        assert forall|rest: Seq<u8>| #[trigger]
            MetadataRequest::parse(value.wire(compact) + rest, field_name, compact) == Ok::<
                (<MetadataRequest as Readable>::Model, nat),
                Failure,
            >((value.model(), value.wire(compact).len())) by {
            lemma_request_read_back(value, rest);
        }
    }
}

} // verus!

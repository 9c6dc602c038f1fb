//! The section of tagged fields that ends a message of a flexible version:
//! a count, then each field as its tag, the length of its data, and the data.

use crate::arrays::{
    items_failure, items_wire, lemma_parse_items_failed, models, parse_items, write_array_inner,
};
use crate::endian::{bits_i32, i32_bits, i32_to_u32, u32_to_i32};
use crate::error::{CodecError, Failure};
use crate::lengths::{len_as_i64, len_i64};
use crate::readable_writable::{append_bytes, Readable, Writable};
use crate::reader::ByteReader;
use crate::varint::{parse_varint, read_varint, varint_bytes, write_varint};
use vstd::prelude::*;

verus! {

/// One field of the section: a tag, and data that is not looked into.
#[derive(Clone, PartialEq, Debug)]
pub struct RawTaggedField {
    pub tag: i32,
    pub data: Vec<u8>,
}

/// What a field is, mathematically.
pub struct TaggedField {
    pub tag: i32,
    pub data: Seq<u8>,
}

impl View for RawTaggedField {
    type V = TaggedField;

    open spec fn view(&self) -> TaggedField {
        TaggedField { tag: self.tag, data: self.data@ }
    }
}

/// The bytes of a field: its tag and the length of its data as
/// variable-length integers, then the data as it is.
pub open spec fn field_wire(field: TaggedField) -> Seq<u8> {
    varint_bytes(i32_bits(field.tag)) + varint_bytes(field.data.len()) + field.data
}

/// What a decode of one field gives.
pub open spec fn parse_field(bytes: Seq<u8>) -> Result<(TaggedField, nat), Failure> {
    match parse_varint(bytes) {
        Err(e) => Err(e),
        Ok((raw_tag, n)) => match parse_varint(bytes.skip(n as int)) {
            Err(e) => Err(e),
            Ok((len, k)) => if bytes.skip(n as int).skip(k as int).len() < len {
                Err(Failure::UnexpectedEof)
            } else {
                Ok(
                    (
                        TaggedField {
                            tag: bits_i32(raw_tag as nat),
                            data: bytes.skip(n as int).skip(k as int).take(len as int),
                        },
                        n + k + len as nat,
                    ),
                )
            },
        },
    }
}

impl Readable for RawTaggedField {
    type Model = TaggedField;

    open spec fn model(&self) -> TaggedField {
        self@
    }

    open spec fn plain_read() -> bool {
        true
    }

    open spec fn parse(bytes: Seq<u8>, field_name: Seq<char>, compact: bool) -> Result<
        (TaggedField, nat),
        Failure,
    > {
        parse_field(bytes)
    }

    proof fn plain_parse(bytes: Seq<u8>, field_name: Seq<char>, compact: bool) {
    }

    fn read(input: &mut ByteReader) -> (r: Result<Self, CodecError>) {
        let raw_tag = match read_varint(input) {
            Err(e) => { return Err(e); },
            Ok(raw) => raw,
        };
        proof {
            use_type_invariant(&*input);
            let n = parse_varint(old(input).remaining())->Ok_0.1;
            old(input).lemma_remaining_skip(*input, n);
        }
        let ghost at_len = *input;
        let data_len = match read_varint(input) {
            Err(e) => { return Err(e); },
            Ok(len) => len,
        };
        proof {
            use_type_invariant(&*input);
            let k = parse_varint(at_len.remaining())->Ok_0.1;
            at_len.lemma_remaining_skip(*input, k);
        }
        match input.read_exact(data_len as usize) {
            Err(e) => Err(e),
            Ok(data) => Ok(RawTaggedField { tag: u32_to_i32(raw_tag), data }),
        }
    }

    fn read_ext(input: &mut ByteReader, field_name: &str, compact: bool) -> (r: Result<
        Self,
        CodecError,
    >) {
        Self::read(input)
    }
}

impl Writable for RawTaggedField {
    open spec fn plain_write() -> bool {
        true
    }

    open spec fn wire(&self, compact: bool) -> Seq<u8> {
        field_wire(self@)
    }

    /// Data of more than 4294967295 bytes cannot be written.
    open spec fn write_failure(&self, field_name: Seq<char>, compact: bool) -> Option<Failure> {
        if self.data@.len() > u32::MAX {
            Some(Failure::InvalidLength { field: "data"@, len: len_as_i64(self.data@.len()) })
        } else {
            None
        }
    }

    proof fn plain_wire(&self, field_name: Seq<char>, compact: bool) {
    }

    fn write(&self, output: &mut Vec<u8>) -> (r: Result<(), CodecError>) {
        let len: usize = self.data.len();
        if len as u64 > u32::MAX as u64 {
            return Err(
                CodecError::InvalidLength { field: "data".to_owned(), len: len_i64(len as u128) },
            );
        }
        write_varint(output, i32_to_u32(self.tag));
        write_varint(output, len as u32);
        append_bytes(output, self.data.as_slice());
        assert(output@ =~= old(output)@ + field_wire(self@));
        Ok(())
    }

    fn write_ext(&self, output: &mut Vec<u8>, field_name: &str, compact: bool) -> (r: Result<
        (),
        CodecError,
    >) {
        self.write(output)
    }
}

} // verus!

verus! {

/// The tags of a list of fields, in its order.
pub open spec fn tags_of(fields: Seq<RawTaggedField>) -> Seq<i32> {
    fields.map_values(|field: RawTaggedField| field.tag)
}

/// Whether each tag is higher than the one before it.
pub open spec fn ascending(tags: Seq<i32>) -> bool {
    forall|i: int| 0 <= i < tags.len() - 1 ==> tags[i] < #[trigger] tags[i + 1]
}

/// The highest of the known tags, and -1 where there is none that high.
pub open spec fn max_known_tag(known: Seq<i32>) -> i32
    decreases known.len(),
{
    if known.len() == 0 {
        -1i32
    } else if known.last() > max_known_tag(known.drop_last()) {
        known.last()
    } else {
        max_known_tag(known.drop_last())
    }
}

/// The rule of the section: the known tags ascend, the unknown tags ascend,
/// and every unknown tag is higher than every known one.
pub open spec fn tags_valid(known: Seq<i32>, unknown: Seq<i32>) -> bool {
    &&& ascending(known)
    &&& ascending(unknown)
    &&& forall|i: int| 0 <= i < unknown.len() ==> #[trigger] unknown[i] > max_known_tag(known)
}

/// What is wrong with the known tag at `i`: the tag after it is not higher.
pub open spec fn known_fault(known: Seq<i32>, i: int) -> Option<Failure> {
    if i + 1 < known.len() && known[i] >= known[i + 1] {
        Some(Failure::TagNotAscending { tag: known[i + 1] as int, previous: known[i] as int })
    } else {
        None
    }
}

/// What is wrong with the unknown tag at `i`: the tag after it is not
/// higher, or it is itself not higher than the known tags.
pub open spec fn unknown_fault(unknown: Seq<i32>, max_known: i32, i: int) -> Option<Failure> {
    if i + 1 < unknown.len() && unknown[i] >= unknown[i + 1] {
        Some(Failure::TagNotAscending { tag: unknown[i + 1] as int, previous: unknown[i] as int })
    } else if unknown[i] <= max_known {
        Some(Failure::TagNotAboveKnown { tag: unknown[i] as int, max_known: max_known as int })
    } else {
        None
    }
}

/// The first fault of a list of faults.
pub open spec fn first_fault(faults: Seq<Option<Failure>>) -> Option<Failure>
    decreases faults.len(),
{
    if faults.len() == 0 {
        None
    } else {
        match first_fault(faults.drop_last()) {
            Some(e) => Some(e),
            None => faults.last(),
        }
    }
}

/// The faults of the known tags, position by position.
pub open spec fn known_faults(known: Seq<i32>) -> Seq<Option<Failure>> {
    Seq::new(known.len(), |i: int| known_fault(known, i))
}

/// The faults of the unknown tags, position by position.
pub open spec fn unknown_faults(known: Seq<i32>, unknown: Seq<i32>) -> Seq<Option<Failure>> {
    Seq::new(unknown.len(), |i: int| unknown_fault(unknown, max_known_tag(known), i))
}

/// Why the tags break the rule of the section: the first fault among the
/// known tags, else the first among the unknown ones.
pub open spec fn order_failure(known: Seq<i32>, unknown: Seq<i32>) -> Option<Failure> {
    first_fault(known_faults(known) + unknown_faults(known, unknown))
}

/// The bytes of a section: the count of all its fields, then the known
/// fields, then the unknown ones.
pub open spec fn section_wire(known: Seq<RawTaggedField>, unknown: Seq<RawTaggedField>) -> Seq<
    u8,
> {
    varint_bytes(known.len() + unknown.len()) + items_wire(known, false) + items_wire(
        unknown,
        false,
    )
}

/// Why a section cannot be written: its tags break the rule, or it has more
/// than 4294967295 fields, or one of its fields cannot be written.
pub open spec fn section_failure(
    known: Seq<RawTaggedField>,
    unknown: Seq<RawTaggedField>,
) -> Option<Failure> {
    if order_failure(tags_of(known), tags_of(unknown)) is Some {
        order_failure(tags_of(known), tags_of(unknown))
    } else if known.len() + unknown.len() > u32::MAX {
        Some(
            Failure::InvalidLength {
                field: "tagged fields"@,
                len: len_as_i64(known.len() + unknown.len()),
            },
        )
    } else if items_failure(known, Seq::empty(), false) is Some {
        items_failure(known, Seq::empty(), false)
    } else {
        items_failure(unknown, Seq::empty(), false)
    }
}

/// What a decode of a section gives: all its fields, in their order.
pub open spec fn parse_section(bytes: Seq<u8>) -> Result<(Seq<TaggedField>, nat), Failure> {
    match parse_varint(bytes) {
        Err(e) => Err(e),
        Ok((count, n)) => match parse_items::<RawTaggedField>(
            bytes.skip(n as int),
            Seq::empty(),
            false,
            count as nat,
        ) {
            Err(e) => Err(e),
            Ok((fields, k)) => Ok((fields, n + k)),
        },
    }
}

/// The fields that were not handled, in their order.
pub open spec fn unhandled(fields: Seq<TaggedField>, handled: Seq<bool>) -> Seq<TaggedField>
    decreases fields.len(),
{
    if fields.len() == 0 {
        Seq::empty()
    } else if handled.last() {
        unhandled(fields.drop_last(), handled.drop_last())
    } else {
        unhandled(fields.drop_last(), handled.drop_last()).push(fields.last())
    }
}

/// Whether `verdict` is what the callback may have said of `field`.
pub open spec fn said_of<F: FnMut(i32, &[u8]) -> Result<bool, CodecError>>(
    callback: F,
    field: TaggedField,
    verdict: Result<bool, CodecError>,
) -> bool {
    exists|data: &[u8]| data@ == field.data && call_ensures(callback, (field.tag, data), verdict)
}

proof fn lemma_first_fault_kept(faults: Seq<Option<Failure>>, at: int)
    requires
        0 <= at < faults.len(),
        first_fault(faults.take(at)) is None,
        faults[at] is Some,
    ensures
        first_fault(faults) == faults[at],
    decreases faults.len(),
{
    if at + 1 < faults.len() {
        assert(faults.drop_last().take(at) =~= faults.take(at));
        lemma_first_fault_kept(faults.drop_last(), at);
    } else {
        assert(faults.drop_last() =~= faults.take(at));
    }
}

proof fn lemma_first_fault_none(faults: Seq<Option<Failure>>)
    ensures
        first_fault(faults) is None <==> forall|i: int| 0 <= i < faults.len() ==> faults[i] is None,
    decreases faults.len(),
{
    if faults.len() > 0 {
        lemma_first_fault_none(faults.drop_last());
        if first_fault(faults) is None {
            assert forall|i: int| 0 <= i < faults.len() implies faults[i] is None by {
                if i < faults.len() - 1 {
                    assert(faults.drop_last()[i] is None);
                }
            }
        } else {
            if first_fault(faults.drop_last()) is Some {
                let i = choose|i: int| 0 <= i < faults.len() - 1 && faults.drop_last()[i] is Some;
                assert(faults[i] is Some);
            }
        }
    }
}

/// The tags break no rule exactly when they are valid.
pub proof fn lemma_order_failure_none(known: Seq<i32>, unknown: Seq<i32>)
    ensures
        order_failure(known, unknown) is None <==> tags_valid(known, unknown),
{
    let faults = known_faults(known) + unknown_faults(known, unknown);
    lemma_first_fault_none(faults);
    if order_failure(known, unknown) is None {
        assert forall|i: int| 0 <= i < known.len() - 1 implies known[i] < #[trigger] known[i
            + 1] by {
            assert(faults[i] == known_fault(known, i));
        }
        assert forall|i: int| 0 <= i < unknown.len() - 1 implies unknown[i] < #[trigger] unknown[i
            + 1] by {
            assert(faults[known.len() + i] == unknown_fault(unknown, max_known_tag(known), i));
        }
        assert forall|i: int| 0 <= i < unknown.len() implies #[trigger] unknown[i] > max_known_tag(
            known,
        ) by {
            assert(faults[known.len() + i] == unknown_fault(unknown, max_known_tag(known), i));
        }
    }
    if tags_valid(known, unknown) {
        assert forall|i: int| 0 <= i < faults.len() implies faults[i] is None by {
            if i < known.len() {
                assert(faults[i] == known_fault(known, i));
                if i + 1 < known.len() {
                    assert(known[i] < known[i + 1]);
                }
            } else {
                let j = i - known.len();
                assert(faults[i] == unknown_fault(unknown, max_known_tag(known), j));
                assert(unknown[j] > max_known_tag(known));
                if j + 1 < unknown.len() {
                    assert(unknown[j] < unknown[j + 1]);
                }
            }
        }
    }
}

/// No known tag is higher than the highest.
pub proof fn lemma_max_known_tag(known: Seq<i32>, i: int)
    requires
        0 <= i < known.len(),
    ensures
        known[i] <= max_known_tag(known),
        -1 <= max_known_tag(known),
    decreases known.len(),
{
    if i < known.len() - 1 {
        lemma_max_known_tag(known.drop_last(), i);
    } else if known.len() > 1 {
        lemma_max_known_tag(known.drop_last(), 0);
    }
}

/// Valid tags, the known ones followed by the unknown ones, ascend as one
/// list: the order in which the section holds them.
pub proof fn lemma_valid_tags_ascend(known: Seq<i32>, unknown: Seq<i32>)
    requires
        tags_valid(known, unknown),
    ensures
        ascending(known + unknown),
{
    let all = known + unknown;
    assert forall|i: int| 0 <= i < all.len() - 1 implies all[i] < #[trigger] all[i + 1] by {
        if i + 1 < known.len() {
            assert(known[i] < known[i + 1]);
        } else if i < known.len() {
            lemma_max_known_tag(known, i);
            assert(unknown[0] > max_known_tag(known));
        } else {
            assert(unknown[i - known.len()] < unknown[i - known.len() + 1]);
        }
    }
}

/// Checks the tags of a section against its rule and names the first fault.
pub fn check_tag_order(known: &[RawTaggedField], unknown: &[RawTaggedField]) -> (r: Result<
    (),
    CodecError,
>)
    ensures
        match order_failure(tags_of(known@), tags_of(unknown@)) {
            None => r is Ok,
            Some(e) => r matches Err(x) && x@ == e,
        },
{
    let ghost known_tags = tags_of(known@);
    let ghost unknown_tags = tags_of(unknown@);
    let ghost faults = known_faults(known_tags) + unknown_faults(known_tags, unknown_tags);
    let mut max_known: i32 = -1;
    let mut i: usize = 0;
    while i < known.len()
        invariant
            i <= known@.len(),
            known_tags == tags_of(known@),
            unknown_tags == tags_of(unknown@),
            faults == known_faults(known_tags) + unknown_faults(known_tags, unknown_tags),
            first_fault(faults.take(i as int)) is None,
            max_known == max_known_tag(known_tags.take(i as int)),
        decreases known@.len() - i,
    {
        let tag0: i32 = known[i].tag;
        assert(faults[i as int] == known_fault(known_tags, i as int));
        if i + 1 < known.len() {
            let tag1: i32 = known[i + 1].tag;
            if tag0 >= tag1 {
                proof {
                    lemma_first_fault_kept(faults, i as int);
                }
                return Err(CodecError::TagNotAscending { tag: tag1, previous: tag0 });
            }
        }
        if tag0 > max_known {
            max_known = tag0;
        }
        proof {
            assert(faults.take(i + 1).drop_last() =~= faults.take(i as int));
            assert(known_tags.take(i + 1).drop_last() =~= known_tags.take(i as int));
        }
        i = i + 1;
    }
    assert(known_tags.take(i as int) =~= known_tags);
    let mut j: usize = 0;
    while j < unknown.len()
        invariant
            i == known@.len(),
            j <= unknown@.len(),
            known_tags == tags_of(known@),
            unknown_tags == tags_of(unknown@),
            faults == known_faults(known_tags) + unknown_faults(known_tags, unknown_tags),
            first_fault(faults.take(i + j)) is None,
            max_known == max_known_tag(known_tags),
        decreases unknown@.len() - j,
    {
        let tag0: i32 = unknown[j].tag;
        assert(faults[i + j] == unknown_fault(unknown_tags, max_known, j as int));
        if j + 1 < unknown.len() {
            let tag1: i32 = unknown[j + 1].tag;
            if tag0 >= tag1 {
                proof {
                    lemma_first_fault_kept(faults, i + j);
                }
                return Err(CodecError::TagNotAscending { tag: tag1, previous: tag0 });
            }
        }
        if tag0 <= max_known {
            proof {
                lemma_first_fault_kept(faults, i + j);
            }
            return Err(CodecError::TagNotAboveKnown { tag: tag0, max_known });
        }
        proof {
            assert(faults.take(i + j + 1).drop_last() =~= faults.take(i + j));
        }
        j = j + 1;
    }
    assert(faults.take(i + j) =~= faults);
    Ok(())
}

/// Writes a section: the count of its fields, the known fields, the unknown
/// fields. Where the tags break the rule nothing is written.
pub fn write_tagged_fields(
    output: &mut Vec<u8>,
    known_tagged_fields: &[RawTaggedField],
    unknown_tagged_fields: &[RawTaggedField],
) -> (r: Result<(), CodecError>)
    ensures
        old(output)@.is_prefix_of(final(output)@),
        match section_failure(known_tagged_fields@, unknown_tagged_fields@) {
            None => r is Ok && final(output)@ == old(output)@ + section_wire(
                known_tagged_fields@,
                unknown_tagged_fields@,
            ),
            Some(e) => r matches Err(x) && x@ == e,
        },
        !tags_valid(tags_of(known_tagged_fields@), tags_of(unknown_tagged_fields@)) ==> r is Err
            && final(output)@ == old(output)@,
{
    proof {
        lemma_order_failure_none(tags_of(known_tagged_fields@), tags_of(unknown_tagged_fields@));
    }
    match check_tag_order(known_tagged_fields, unknown_tagged_fields) {
        Err(e) => { return Err(e); },
        Ok(()) => {},
    }
    let count: u128 = known_tagged_fields.len() as u128 + unknown_tagged_fields.len() as u128;
    if count > u32::MAX as u128 {
        return Err(
            CodecError::InvalidLength { field: "tagged fields".to_owned(), len: len_i64(count) },
        );
    }
    proof {
        reveal_strlit("");
        assert(""@ =~= Seq::<char>::empty());
    }
    write_varint(output, count as u32);
    match write_array_inner(output, known_tagged_fields, "", false) {
        Err(e) => { return Err(e); },
        Ok(()) => {},
    }
    match write_array_inner(output, unknown_tagged_fields, "", false) {
        Err(e) => { return Err(e); },
        Ok(()) => {},
    }
    assert(output@ =~= old(output)@ + section_wire(known_tagged_fields@, unknown_tagged_fields@));
    Ok(())
}

} // verus!

verus! {

/// Keeps a field that the callback did not handle.
pub fn keep_unless_handled(unknown: &mut Vec<RawTaggedField>, field: RawTaggedField, handled: bool)
    ensures
        final(unknown)@ == if handled {
            old(unknown)@
        } else {
            old(unknown)@.push(field)
        },
{
    if !handled {
        unknown.push(field);
    }
}

/// The field at position `k` of the section that `bytes` start with, where
/// the section can be decoded that far.
pub open spec fn field_at(bytes: Seq<u8>, k: nat) -> Option<TaggedField> {
    match parse_varint(bytes) {
        Err(e) => None,
        Ok((count, n)) => if k < count {
            match parse_items::<RawTaggedField>(bytes.skip(n as int), Seq::empty(), false, k + 1) {
                Err(e) => None,
                Ok((fields, taken)) => Some(fields.last()),
            }
        } else {
            None
        },
    }
}

/// Where nothing is handled, every field is left.
pub proof fn lemma_nothing_handled(fields: Seq<TaggedField>, handled: Seq<bool>)
    requires
        handled.len() == fields.len(),
        forall|i: int| 0 <= i < handled.len() ==> !handled[i],
    ensures
        unhandled(fields, handled) == fields,
    decreases fields.len(),
{
    if fields.len() > 0 {
        lemma_nothing_handled(fields.drop_last(), handled.drop_last());
        assert(fields.drop_last().push(fields.last()) =~= fields);
    }
}

/// Whether `unknown` is what a read leaves of `fields`: those of which the
/// callback said `false`, in their order.
pub open spec fn left_by<F: FnMut(i32, &[u8]) -> Result<bool, CodecError>>(
    callback: F,
    fields: Seq<TaggedField>,
    unknown: Seq<TaggedField>,
) -> bool {
    exists|handled: Seq<bool>|
        {
            &&& handled.len() == fields.len()
            &&& forall|i: int|
                0 <= i < fields.len() ==> said_of(callback, #[trigger] fields[i], Ok(handled[i]))
            &&& unknown == unhandled(fields, handled)
        }
}

/// Where the callback handles nothing, a read leaves every field of the
/// section.
pub proof fn lemma_left_by_one_that_handles_nothing<
    F: FnMut(i32, &[u8]) -> Result<bool, CodecError>,
>(callback: F, fields: Seq<TaggedField>, unknown: Seq<TaggedField>)
    requires
        left_by(callback, fields, unknown),
        forall|tag: i32, data: &[u8], handled: bool|
            call_ensures(callback, (tag, data), Ok(handled)) ==> !handled,
    ensures
        unknown == fields,
{
    let handled = choose|handled: Seq<bool>|
        {
            &&& handled.len() == fields.len()
            &&& forall|i: int|
                0 <= i < fields.len() ==> said_of(callback, #[trigger] fields[i], Ok(handled[i]))
            &&& unknown == unhandled(fields, handled)
        };
    assert forall|i: int| 0 <= i < handled.len() implies !handled[i] by {
        assert(said_of(callback, fields[i], Ok(handled[i])));
    }
    lemma_nothing_handled(fields, handled);
}

proof fn lemma_one_more_item(
    bytes: Seq<u8>,
    count: nat,
    fields: Seq<TaggedField>,
    taken: nat,
    field: TaggedField,
    size: nat,
)
    requires
        parse_items::<RawTaggedField>(bytes, Seq::empty(), false, count) == Ok::<
            (Seq<TaggedField>, nat),
            Failure,
        >((fields, taken)),
        parse_field(bytes.skip(taken as int)) == Ok::<(TaggedField, nat), Failure>((field, size)),
    ensures
        parse_items::<RawTaggedField>(bytes, Seq::empty(), false, count + 1) == Ok::<
            (Seq<TaggedField>, nat),
            Failure,
        >((fields.push(field), taken + size)),
{
}

proof fn lemma_one_more_verdict(
    fields: Seq<TaggedField>,
    handled: Seq<bool>,
    field: TaggedField,
    verdict: bool,
)
    ensures
        unhandled(fields.push(field), handled.push(verdict)) == if verdict {
            unhandled(fields, handled)
        } else {
            unhandled(fields, handled).push(field)
        },
{
    assert(fields.push(field).drop_last() =~= fields);
    assert(handled.push(verdict).drop_last() =~= handled);
}

/// Reads a section. Each field is shown to the callback, tag and data, in
/// the order of the wire; the fields of which it says `false` are returned,
/// in that order. An error of the callback ends the read and is returned.
pub fn read_tagged_fields(
    input: &mut ByteReader,
    callback: impl FnMut(i32, &[u8]) -> Result<bool, CodecError>,
) -> (r: Result<Vec<RawTaggedField>, CodecError>)
    requires
        forall|tag: i32, data: &[u8]| call_requires(callback, (tag, data)),
    ensures
        final(input).bytes() == old(input).bytes(),
        final(input).offset() >= old(input).offset(),
        parse_section(old(input).remaining()) is Err ==> r is Err,
        parse_section(old(input).remaining()) matches Ok((fields, n)) ==> (fields.len() == 0 ==> (
        r matches Ok(unknown) && unknown@.len() == 0)),
        r matches Ok(unknown) ==> (parse_section(old(input).remaining()) matches Ok((fields, n))
            && final(input).offset() == old(input).offset() + n && left_by(
            callback,
            fields,
            models(unknown@),
        )),
        r matches Err(x) ==> (parse_section(old(input).remaining()) matches Err(e) && x@ == e)
            || exists|k: nat|
            #[trigger] field_at(old(input).remaining(), k) matches Some(field) && said_of(
                callback,
                field,
                Err(x),
            ),
{
    broadcast use vstd::function::group_function_axioms;

    let mut dispatch = callback;
    let count: u32 = match read_varint(input) {
        Err(e) => { return Err(e); },
        Ok(count) => count,
    };
    let ghost head = parse_varint(old(input).remaining())->Ok_0.1;
    proof {
        use_type_invariant(&*input);
        old(input).lemma_remaining_skip(*input, head);
    }
    let ghost start = *input;
    let ghost mut taken: nat = 0;
    let ghost mut fields: Seq<TaggedField> = Seq::empty();
    let ghost mut handled: Seq<bool> = Seq::empty();
    let mut unknown_tagged_fields: Vec<RawTaggedField> = Vec::new();
    let mut i: u32 = 0;
    assert(models(unknown_tagged_fields@) =~= unhandled(fields, handled));
    while i < count
        invariant
            i <= count,
            dispatch == callback,
            forall|tag: i32, data: &[u8]| call_requires(callback, (tag, data)),
            start.wf(),
            start.bytes() == old(input).bytes(),
            start.offset() == old(input).offset() + head,
            start.remaining() == old(input).remaining().skip(head as int),
            parse_varint(old(input).remaining()) == Ok::<(u32, nat), Failure>((count, head)),
            input.bytes() == start.bytes(),
            input.offset() == start.offset() + taken,
            fields.len() == i,
            handled.len() == i,
            parse_items::<RawTaggedField>(start.remaining(), Seq::empty(), false, i as nat) == Ok::<
                (Seq<TaggedField>, nat),
                Failure,
            >((fields, taken)),
            forall|j: int| 0 <= j < i ==> said_of(callback, #[trigger] fields[j], Ok(handled[j])),
            models(unknown_tagged_fields@) == unhandled(fields, handled),
        decreases count - i,
    {
        proof {
            use_type_invariant(&*input);
            start.lemma_remaining_skip(*input, taken);
        }
        let ghost here = *input;
        let field = match RawTaggedField::read(input) {
            Err(e) => {
                proof {
                    lemma_parse_items_failed::<RawTaggedField>(
                        start.remaining(),
                        Seq::empty(),
                        false,
                        (i + 1) as nat,
                        count as nat,
                    );
                }
                return Err(e);
            },
            Ok(field) => field,
        };
        let verdict = dispatch(field.tag, field.data.as_slice());
        assert(said_of(callback, field@, verdict));
        match verdict {
            Err(e) => {
                proof {
                    let size = parse_field(here.remaining())->Ok_0.1;
                    lemma_one_more_item(
                        start.remaining(),
                        i as nat,
                        fields,
                        taken,
                        field@,
                        size,
                    );
                    assert(field_at(old(input).remaining(), i as nat) == Some(field@));
                    assert(said_of(callback, field@, Err(e)));
                }
                return Err(e);
            },
            Ok(was_handled) => {
                proof {
                    let size = parse_field(here.remaining())->Ok_0.1;
                    lemma_one_more_item(
                        start.remaining(),
                        i as nat,
                        fields,
                        taken,
                        field@,
                        size,
                    );
                    lemma_one_more_verdict(fields, handled, field@, was_handled);
                    assert(models(unknown_tagged_fields@.push(field)) =~= models(
                        unknown_tagged_fields@,
                    ).push(field@));
                    taken = taken + size;
                    fields = fields.push(field@);
                    handled = handled.push(was_handled);
                }
                keep_unless_handled(&mut unknown_tagged_fields, field, was_handled);
            },
        }
        i = i + 1;
    }
    assert(left_by(callback, fields, models(unknown_tagged_fields@)));
    assert(parse_section(old(input).remaining()) == Ok::<(Seq<TaggedField>, nat), Failure>(
        (fields, head + taken),
    ));
    Ok(unknown_tagged_fields)
}

} // verus!

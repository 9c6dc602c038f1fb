use kafka_wire::error::CodecError;
use kafka_wire::reader::ByteReader;
use kafka_wire::readable_writable::{Readable, Writable};
use kafka_wire::tagged_fields::{
    check_tag_order, keep_unless_handled, read_tagged_fields, write_tagged_fields, RawTaggedField,
};
use proptest::arbitrary::any;
use proptest::collection;
use proptest::strategy::{Just, Strategy, Union};
use proptest::test_runner::{Config, TestCaseError, TestRunner};

fn field(tag: i32, data: &[u8]) -> RawTaggedField {
    RawTaggedField { tag, data: data.to_vec() }
}

fn fields(tags: &[i32]) -> Vec<RawTaggedField> {
    tags.iter().map(|tag| field(*tag, &[*tag as u8, 0xEE])).collect()
}

fn section(known: &[RawTaggedField], unknown: &[RawTaggedField]) -> Vec<u8> {
    let mut output = Vec::new();
    write_tagged_fields(&mut output, known, unknown).unwrap();
    output
}

#[test]
fn raw_field_is_tag_length_data() {
    let mut output = Vec::new();
    field(300, &[9, 8, 7]).write(&mut output).unwrap();
    assert_eq!(output, vec![0xAC, 0x02, 0x03, 9, 8, 7]);
    let mut output = Vec::new();
    field(0, &[]).write(&mut output).unwrap();
    assert_eq!(output, vec![0x00, 0x00]);
}

#[test]
fn raw_field_is_read_as_written() {
    let mut input = ByteReader::new(vec![0xAC, 0x02, 0x03, 9, 8, 7, 0x55]);
    assert_eq!(RawTaggedField::read(&mut input), Ok(field(300, &[9, 8, 7])));
    assert_eq!(input.position(), 6);
}

#[test]
fn raw_field_round_trips() {
    let long = vec![0xABu8; 200];
    for value in [field(0, &[]), field(1, &[0]), field(i32::MAX, &[1, 2, 3]), field(999, &long), field(-1, &[4]), field(i32::MIN, &[])] {
        for compact in [true, false] {
            let mut output = Vec::new();
            value.write_ext(&mut output, "ignored", compact).unwrap();
            let len = output.len();
            let mut input = ByteReader::new(output);
            assert_eq!(RawTaggedField::read_ext(&mut input, "ignored", compact), Ok(value.clone()));
            assert_eq!(input.position(), len);
        }
    }
}

#[test]
fn raw_field_with_short_data_is_truncated() {
    let mut input = ByteReader::new(vec![0x01, 0x0A, 1, 2, 3]);
    assert_eq!(RawTaggedField::read(&mut input), Err(CodecError::UnexpectedEof));
    let mut input = ByteReader::new(vec![0x01]);
    assert_eq!(RawTaggedField::read(&mut input), Err(CodecError::UnexpectedEof));
    let mut input = ByteReader::new(vec![0x01, 0xFF, 0xFF, 0xFF, 0xFF, 0x0F, 1, 2]);
    assert_eq!(RawTaggedField::read(&mut input), Err(CodecError::UnexpectedEof));
}

#[test]
fn ordered_tags_are_written_with_their_count() {
    let bytes = section(&fields(&[2, 5]), &fields(&[7, 9]));
    assert_eq!(bytes[0], 4);
    assert_eq!(bytes, vec![4, 2, 2, 2, 0xEE, 5, 2, 5, 0xEE, 7, 2, 7, 0xEE, 9, 2, 9, 0xEE]);
}

#[test]
fn known_tags_out_of_order_are_refused() {
    let mut output = vec![1u8];
    let error = write_tagged_fields(&mut output, &fields(&[5, 2]), &[]).unwrap_err();
    assert_eq!(error, CodecError::TagNotAscending { tag: 2, previous: 5 });
    assert_eq!(
        error.message(),
        "Invalid raw tag field list: tag 2 comes after tag 5, but is not higher than it."
    );
    assert_eq!(output, vec![1u8]);
}

#[test]
fn unknown_tag_not_above_known_is_refused() {
    let mut output = Vec::new();
    let error = write_tagged_fields(&mut output, &fields(&[2, 5]), &fields(&[3])).unwrap_err();
    assert_eq!(error, CodecError::TagNotAboveKnown { tag: 3, max_known: 5 });
    assert_eq!(
        error.message(),
        "Invalid raw tag field list: tag 3 is not higher than the maximum known tag 5."
    );
    assert!(output.is_empty());
}

#[test]
fn unknown_tag_equal_to_known_maximum_is_refused() {
    let mut output = Vec::new();
    assert_eq!(
        write_tagged_fields(&mut output, &fields(&[5]), &fields(&[5, 6])),
        Err(CodecError::TagNotAboveKnown { tag: 5, max_known: 5 })
    );
    assert_eq!(
        write_tagged_fields(&mut output, &fields(&[1, 5]), &fields(&[6, 7])),
        Ok(())
    );
}

#[test]
fn equal_neighbours_are_not_ascending() {
    assert_eq!(
        check_tag_order(&fields(&[1, 3, 3]), &[]),
        Err(CodecError::TagNotAscending { tag: 3, previous: 3 })
    );
    assert_eq!(
        check_tag_order(&[], &fields(&[4, 4])),
        Err(CodecError::TagNotAscending { tag: 4, previous: 4 })
    );
}

#[test]
fn unknown_tags_out_of_order_are_refused() {
    assert_eq!(
        check_tag_order(&fields(&[1]), &fields(&[9, 7])),
        Err(CodecError::TagNotAscending { tag: 7, previous: 9 })
    );
}

#[test]
fn first_fault_is_the_one_reported() {
    assert_eq!(
        check_tag_order(&fields(&[1, 5, 4, 3]), &fields(&[2, 1])),
        Err(CodecError::TagNotAscending { tag: 4, previous: 5 })
    );
    assert_eq!(
        check_tag_order(&fields(&[1, 5]), &fields(&[6, 3, 2])),
        Err(CodecError::TagNotAscending { tag: 3, previous: 6 })
    );
    assert_eq!(
        check_tag_order(&fields(&[1, 5]), &fields(&[4, 8, 7])),
        Err(CodecError::TagNotAboveKnown { tag: 4, max_known: 5 })
    );
}

#[test]
fn without_known_tags_unknown_must_not_be_negative() {
    assert_eq!(check_tag_order(&[], &fields(&[0, 1])), Ok(()));
    assert_eq!(
        check_tag_order(&[], &[field(-1, &[])]),
        Err(CodecError::TagNotAboveKnown { tag: -1, max_known: -1 })
    );
}

#[test]
fn empty_lists_are_in_order() {
    assert_eq!(check_tag_order(&[], &[]), Ok(()));
    assert_eq!(section(&[], &[]), vec![0]);
    assert_eq!(check_tag_order(&fields(&[3]), &[]), Ok(()));
    assert_eq!(check_tag_order(&[], &fields(&[3])), Ok(()));
}

#[test]
fn unhandled_fields_are_kept_in_order() {
    let bytes = section(&[], &[field(1, &[0xA1]), field(2, &[0xB1, 0xB2]), field(3, &[])]);
    let mut input = ByteReader::new(bytes);
    let unknown = read_tagged_fields(&mut input, |tag, _data| Ok(tag == 2)).unwrap();
    assert_eq!(unknown, vec![field(1, &[0xA1]), field(3, &[])]);
}

#[test]
fn callback_sees_every_field_in_wire_order() {
    let bytes = section(&fields(&[2, 5]), &fields(&[7, 9]));
    let len = bytes.len();
    let mut input = ByteReader::new(bytes);
    let mut seen: Vec<(i32, Vec<u8>)> = Vec::new();
    let unknown = read_tagged_fields(&mut input, |tag, data| {
        seen.push((tag, data.to_vec()));
        Ok(tag < 6)
    })
    .unwrap();
    assert_eq!(seen, vec![(2, vec![2, 0xEE]), (5, vec![5, 0xEE]), (7, vec![7, 0xEE]), (9, vec![9, 0xEE])]);
    assert_eq!(unknown, fields(&[7, 9]));
    assert_eq!(input.position(), len);
}

#[test]
fn section_round_trips_when_nothing_is_handled() {
    let known = fields(&[0, 4]);
    let unknown = vec![field(999, &[1, 2, 3, 4, 5, 6, 7, 8, 9])];
    let mut input = ByteReader::new(section(&known, &unknown));
    let read = read_tagged_fields(&mut input, |_, _| Ok(false)).unwrap();
    let mut all = known.clone();
    all.extend(unknown.clone());
    assert_eq!(read, all);
    let mut input = ByteReader::new(section(&[], &unknown));
    assert_eq!(read_tagged_fields(&mut input, |_, _| Ok(false)), Ok(unknown));
}

#[test]
fn empty_section_never_asks_the_callback() {
    let mut input = ByteReader::new(vec![0x00, 0x42]);
    let unknown = read_tagged_fields(&mut input, |_, _| panic!("no field to show")).unwrap();
    assert!(unknown.is_empty());
    assert_eq!(input.position(), 1);
}

#[test]
fn callback_error_ends_the_read() {
    let bytes = section(&[], &fields(&[1, 2, 3]));
    let mut input = ByteReader::new(bytes);
    let mut calls = 0;
    let result = read_tagged_fields(&mut input, |tag, _| {
        calls += 1;
        if tag == 2 {
            Err(CodecError::NullField { field: String::from("payload") })
        } else {
            Ok(false)
        }
    });
    assert_eq!(result, Err(CodecError::NullField { field: String::from("payload") }));
    assert_eq!(calls, 2);
}

#[test]
fn section_with_fewer_fields_than_counted_is_truncated() {
    let mut input = ByteReader::new(vec![0x02, 0x01, 0x01, 0xAA]);
    assert_eq!(read_tagged_fields(&mut input, |_, _| Ok(false)), Err(CodecError::UnexpectedEof));
    let mut input = ByteReader::new(vec![]);
    assert_eq!(read_tagged_fields(&mut input, |_, _| Ok(false)), Err(CodecError::UnexpectedEof));
}

#[test]
fn keep_unless_handled_pushes_only_unhandled() {
    let mut unknown = fields(&[1]);
    keep_unless_handled(&mut unknown, field(2, &[2]), true);
    assert_eq!(unknown, fields(&[1]));
    keep_unless_handled(&mut unknown, field(3, &[3]), false);
    assert_eq!(unknown, vec![field(1, &[1, 0xEE]), field(3, &[3])]);
}

#[test]
fn random_unknown_fields_round_trip() {
    let bytes = collection::vec(any::<u8>(), 0..10);
    let unknown_tagged_fields = Union::new([
        Just(Vec::<RawTaggedField>::new()).boxed(),
        bytes.prop_map(|data| vec![RawTaggedField { tag: 999, data }]).boxed(),
    ]);
    let mut runner = TestRunner::new(Config { failure_persistence: None, ..Config::default() });
    let outcome = runner.run(&unknown_tagged_fields, |unknown| {
        let mut input = ByteReader::new(section(&[], &unknown));
        match read_tagged_fields(&mut input, |_, _| Ok(false)) {
            Ok(read) if read == unknown => Ok(()),
            other => Err(TestCaseError::fail(format!("read {:?}, wrote {:?}", other, unknown))),
        }
    });
    assert!(outcome.is_ok(), "{:?}", outcome);
}

#[test]
fn random_fields_round_trip() {
    let one = (any::<i32>(), collection::vec(any::<u8>(), 0..300))
        .prop_map(|(tag, data)| RawTaggedField { tag, data });
    let mut runner = TestRunner::new(Config { failure_persistence: None, ..Config::default() });
    let outcome = runner.run(&one, |value| {
        let mut output = Vec::new();
        value.write(&mut output).unwrap();
        let mut input = ByteReader::new(output);
        match RawTaggedField::read(&mut input) {
            Ok(read) if read == value => Ok(()),
            other => Err(TestCaseError::fail(format!("read {:?}, wrote {:?}", other, value))),
        }
    });
    assert!(outcome.is_ok(), "{:?}", outcome);
}

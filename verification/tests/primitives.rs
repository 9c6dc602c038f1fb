use kafka_wire::error::CodecError;
use kafka_wire::reader::ByteReader;
use kafka_wire::readable_writable::{Readable, Writable};
use kafka_wire::strings::read_string;
use uuid::Uuid;

fn written<T: Writable>(value: &T, field_name: &str, compact: bool) -> Vec<u8> {
    let mut output = Vec::new();
    value.write_ext(&mut output, field_name, compact).unwrap();
    output
}

#[test]
fn bool_is_written_as_one_canonical_byte() {
    let mut output = vec![0xAAu8];
    true.write(&mut output).unwrap();
    false.write(&mut output).unwrap();
    assert_eq!(output, vec![0xAA, 0x01, 0x00]);
}

#[test]
fn bool_is_read_leniently() {
    let mut input = ByteReader::new(vec![0x00, 0x01, 0x02, 0x80, 0xFF]);
    assert_eq!(bool::read(&mut input), Ok(false));
    assert_eq!(bool::read(&mut input), Ok(true));
    assert_eq!(bool::read(&mut input), Ok(true));
    assert_eq!(bool::read(&mut input), Ok(true));
    assert_eq!(bool::read(&mut input), Ok(true));
    assert_eq!(input.position(), 5);
    assert_eq!(bool::read(&mut input), Err(CodecError::UnexpectedEof));
}

#[test]
fn bool_round_trips_in_both_forms() {
    for value in [true, false] {
        for compact in [true, false] {
            let bytes = written(&value, "flag", compact);
            assert_eq!(bytes.len(), 1);
            let mut input = ByteReader::new(bytes);
            assert_eq!(bool::read_ext(&mut input, "flag", compact), Ok(value));
        }
    }
}

#[test]
fn uuid_is_sixteen_bytes_in_network_order() {
    let id = Uuid::from_u128(0x0102_0304_0506_0708_090A_0B0C_0D0E_0F10);
    let mut output = Vec::new();
    id.write(&mut output).unwrap();
    assert_eq!(output, (1u8..=16).collect::<Vec<u8>>());
}

#[test]
fn uuid_is_read_from_sixteen_bytes() {
    let mut bytes: Vec<u8> = (1u8..=16).collect();
    bytes.push(0x77);
    let mut input = ByteReader::new(bytes);
    let id = Uuid::read(&mut input).unwrap();
    assert_eq!(id.as_u128(), 0x0102_0304_0506_0708_090A_0B0C_0D0E_0F10);
    assert_eq!(input.position(), 16);
}

#[test]
fn uuid_of_fifteen_bytes_is_truncated() {
    let mut input = ByteReader::new(vec![0u8; 15]);
    assert_eq!(Uuid::read(&mut input), Err(CodecError::UnexpectedEof));
}

#[test]
fn uuid_round_trips() {
    for bits in [0u128, 1, u128::MAX, 0x8000_0000_0000_0000_0000_0000_0000_0000, 0xDEAD_BEEF] {
        let id = Uuid::from_u128(bits);
        for compact in [true, false] {
            let mut input = ByteReader::new(written(&id, "id", compact));
            assert_eq!(Uuid::read_ext(&mut input, "id", compact), Ok(id));
        }
    }
}

#[test]
fn string_is_length_then_utf8_in_legacy_mode() {
    let text = String::from("héllo");
    assert_eq!(written(&text, "name", false), vec![0x00, 0x06, b'h', 0xC3, 0xA9, b'l', b'l', b'o']);
}

#[test]
fn string_is_length_plus_one_then_utf8_in_compact_mode() {
    let text = String::from("héllo");
    assert_eq!(written(&text, "name", true), vec![0x07, b'h', 0xC3, 0xA9, b'l', b'l', b'o']);
}

#[test]
fn empty_string_is_not_null() {
    let text = String::new();
    assert_eq!(written(&text, "name", false), vec![0x00, 0x00]);
    assert_eq!(written(&text, "name", true), vec![0x01]);
    let mut input = ByteReader::new(vec![0x01]);
    assert_eq!(Option::<String>::read_ext(&mut input, "name", true), Ok(Some(String::new())));
}

#[test]
fn null_string_is_the_sentinel() {
    let absent: Option<String> = None;
    assert_eq!(written(&absent, "name", false), vec![0xFF, 0xFF]);
    assert_eq!(written(&absent, "name", true), vec![0x00]);
}

#[test]
fn present_string_is_written_as_the_string() {
    let present = Some(String::from("ab"));
    assert_eq!(written(&present, "name", false), vec![0x00, 0x02, b'a', b'b']);
    assert_eq!(written(&present, "name", true), vec![0x03, b'a', b'b']);
}

#[test]
fn nullable_string_round_trips() {
    let values = [None, Some(String::new()), Some(String::from("topic-1")), Some(String::from("日本語 ✓"))];
    for value in values {
        for compact in [true, false] {
            let mut input = ByteReader::new(written(&value, "name", compact));
            assert_eq!(Option::<String>::read_ext(&mut input, "name", compact), Ok(value.clone()));
        }
    }
}

#[test]
fn string_round_trips() {
    for text in ["", "a", "kafka", "ünïcödé"] {
        let value = String::from(text);
        for compact in [true, false] {
            let bytes = written(&value, "name", compact);
            let consumed = bytes.len();
            let mut input = ByteReader::new(bytes);
            assert_eq!(String::read_ext(&mut input, "name", compact), Ok(value.clone()));
            assert_eq!(input.position(), consumed);
        }
    }
}

#[test]
fn null_for_a_required_string_is_refused() {
    for (bytes, compact) in [(vec![0xFFu8, 0xFF], false), (vec![0x00u8], true)] {
        let mut input = ByteReader::new(bytes);
        let error = String::read_ext(&mut input, "name", compact).unwrap_err();
        assert_eq!(error, CodecError::NullField { field: String::from("name") });
        assert_eq!(error.message(), "non-nullable field name was serialized as null");
    }
}

#[test]
fn null_string_is_read_as_none() {
    for (bytes, compact) in [(vec![0xFFu8, 0xFF], false), (vec![0x00u8], true)] {
        let mut input = ByteReader::new(bytes);
        assert_eq!(Option::<String>::read_ext(&mut input, "name", compact), Ok(None));
    }
}

#[test]
fn invalid_utf8_is_replaced_not_refused() {
    let mut input = ByteReader::new(vec![0x00, 0x03, b'a', 0xFF, b'b']);
    let text = Option::<String>::read_ext(&mut input, "name", false).unwrap().unwrap();
    assert_eq!(text, "a\u{FFFD}b");
}

#[test]
fn read_string_takes_exactly_its_bytes() {
    let mut input = ByteReader::new(vec![b'x', b'y', b'z', b'!']);
    assert_eq!(read_string(&mut input, 3), Ok(String::from("xyz")));
    assert_eq!(input.position(), 3);
    assert_eq!(read_string(&mut input, 0), Ok(String::new()));
    assert_eq!(read_string(&mut input, 2), Err(CodecError::UnexpectedEof));
}

#[test]
fn string_shorter_than_its_length_is_truncated() {
    let mut input = ByteReader::new(vec![0x00, 0x05, b'a', b'b']);
    assert_eq!(Option::<String>::read_ext(&mut input, "name", false), Err(CodecError::UnexpectedEof));
    let mut input = ByteReader::new(vec![0x06, b'a', b'b']);
    assert_eq!(Option::<String>::read_ext(&mut input, "name", true), Err(CodecError::UnexpectedEof));
}

#[test]
fn string_of_32767_bytes_is_written_in_both_modes() {
    let text = "a".repeat(32767);
    let legacy = written(&text, "name", false);
    assert_eq!(legacy.len(), 2 + 32767);
    assert_eq!(&legacy[..2], &[0x7F, 0xFF]);
    let compact = written(&text, "name", true);
    assert_eq!(compact.len(), 3 + 32767);
    assert_eq!(&compact[..3], &[0x80, 0x80, 0x02]);
    for (bytes, mode) in [(legacy, false), (compact, true)] {
        let mut input = ByteReader::new(bytes);
        assert_eq!(String::read_ext(&mut input, "name", mode), Ok(text.clone()));
    }
}

#[test]
fn string_of_32768_bytes_is_refused_in_both_modes() {
    let text = "a".repeat(32768);
    for compact in [true, false] {
        let mut output = vec![9u8];
        let error = text.write_ext(&mut output, "name", compact).unwrap_err();
        assert_eq!(error, CodecError::InvalidLength { field: String::from("name"), len: 32768 });
        assert_eq!(error.message(), "string field name had invalid length 32768");
        assert_eq!(output, vec![9u8]);
        let wrapped = Some(text.clone());
        let error = wrapped.write_ext(&mut output, "name", compact).unwrap_err();
        assert_eq!(error, CodecError::InvalidLength { field: String::from("name"), len: 32768 });
    }
}

#[test]
fn string_length_counts_bytes_not_characters() {
    let text = "é".repeat(16384);
    assert_eq!(text.len(), 32768);
    let mut output = Vec::new();
    assert!(text.write_ext(&mut output, "name", true).is_err());
    let text = "é".repeat(16383);
    assert!(text.write_ext(&mut output, "name", true).is_ok());
}

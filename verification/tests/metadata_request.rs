use kafka_wire::error::CodecError;
use kafka_wire::metadata_request::{MetadataRequest, MetadataRequestTopic};
use kafka_wire::reader::ByteReader;
use kafka_wire::readable_writable::{Readable, Writable};
use proptest::arbitrary::any;
use proptest::collection;
use proptest::option;
use proptest::strategy::Strategy;
use proptest::test_runner::{Config, TestCaseError, TestRunner};
use uuid::Uuid;

fn test_serde<T>(data: &T) -> Result<(), TestCaseError>
where
    T: Readable + Writable + std::fmt::Debug + PartialEq + Clone,
{
    let mut output = Vec::new();
    data.write(&mut output).unwrap();
    let mut input = ByteReader::new(output);
    let data_read = T::read(&mut input).unwrap();
    if data_read == data.clone() {
        Ok(())
    } else {
        Err(TestCaseError::fail(format!("read {:?}, wrote {:?}", data_read, data)))
    }
}

fn two_topics() -> MetadataRequest {
    MetadataRequest {
        topics: Some(vec![
            MetadataRequestTopic {
                topic_id: Uuid::from_u128(0x1111_2222_3333_4444_5555_6666_7777_8888),
                name: Some(String::from("orders")),
            },
            MetadataRequestTopic { topic_id: Uuid::from_u128(7), name: None },
        ]),
        allow_auto_topic_creation: true,
        include_topic_authorized_operations: false,
    }
}

#[test]
fn request_of_two_topics_has_known_bytes() {
    let mut output = Vec::new();
    two_topics().write(&mut output).unwrap();
    let mut expected = vec![0x03];
    expected.extend([0x11, 0x11, 0x22, 0x22, 0x33, 0x33, 0x44, 0x44, 0x55, 0x55, 0x66, 0x66, 0x77, 0x77, 0x88, 0x88]);
    expected.extend([0x07, b'o', b'r', b'd', b'e', b'r', b's']);
    expected.extend([0u8; 15]);
    expected.extend([0x07, 0x00]);
    expected.extend([0x01, 0x00]);
    assert_eq!(output, expected);
}

#[test]
fn request_of_two_topics_round_trips() {
    let request = two_topics();
    let mut output = Vec::new();
    request.write(&mut output).unwrap();
    let len = output.len();
    let mut input = ByteReader::new(output);
    let read = MetadataRequest::read(&mut input).unwrap();
    assert_eq!(read, request);
    assert_eq!(read.topics.as_ref().unwrap()[1].name, None);
    assert_eq!(input.position(), len);
}

#[test]
fn request_without_topics_round_trips() {
    for topics in [None, Some(vec![])] {
        let request = MetadataRequest {
            topics,
            allow_auto_topic_creation: false,
            include_topic_authorized_operations: true,
        };
        assert!(test_serde(&request).is_ok());
    }
}

#[test]
fn request_ignores_name_and_mode_of_its_context() {
    let request = two_topics();
    let mut plain = Vec::new();
    request.write(&mut plain).unwrap();
    for compact in [true, false] {
        let mut output = Vec::new();
        request.write_ext(&mut output, "request", compact).unwrap();
        assert_eq!(output, plain);
        let mut input = ByteReader::new(output);
        assert_eq!(MetadataRequest::read_ext(&mut input, "request", compact), Ok(request.clone()));
    }
}

#[test]
fn topic_round_trips() {
    let topic = MetadataRequestTopic { topic_id: Uuid::from_u128(u128::MAX), name: Some(String::new()) };
    assert!(test_serde(&topic).is_ok());
    let topic = MetadataRequestTopic { topic_id: Uuid::from_u128(0), name: None };
    assert!(test_serde(&topic).is_ok());
}

#[test]
fn request_that_ends_early_is_truncated() {
    let mut output = Vec::new();
    two_topics().write(&mut output).unwrap();
    for cut in [0, 1, 10, 17, 20, output.len() - 2, output.len() - 1] {
        let mut input = ByteReader::new(output[..cut].to_vec());
        assert_eq!(MetadataRequest::read(&mut input), Err(CodecError::UnexpectedEof));
    }
}

#[test]
fn request_with_a_long_name_is_refused() {
    let request = MetadataRequest {
        topics: Some(vec![MetadataRequestTopic {
            topic_id: Uuid::from_u128(1),
            name: Some("n".repeat(32768)),
        }]),
        allow_auto_topic_creation: false,
        include_topic_authorized_operations: false,
    };
    let mut output = Vec::new();
    assert_eq!(
        request.write(&mut output),
        Err(CodecError::InvalidLength { field: String::from("name"), len: 32768 })
    );
}

#[test]
fn test_serde_of_random_requests() {
    let topic = (any::<u128>(), option::of(any::<String>()))
        .prop_map(|(bits, name)| MetadataRequestTopic { topic_id: Uuid::from_u128(bits), name });
    let request = (option::of(collection::vec(topic, 0..6)), any::<bool>(), any::<bool>()).prop_map(
        |(topics, allow, operations)| MetadataRequest {
            topics,
            allow_auto_topic_creation: allow,
            include_topic_authorized_operations: operations,
        },
    );
    let mut runner = TestRunner::new(Config { failure_persistence: None, ..Config::default() });
    let outcome = runner.run(&request, |data| test_serde(&data));
    assert!(outcome.is_ok(), "{:?}", outcome);
}

//! The request for the metadata of topics, in its flexible version: every
//! length in it is in compact mode.

use crate::error::{CodecError, Failure};
use crate::reader::ByteReader;
use crate::arrays::{
    array_failure, array_model, array_wire, parse_nullable_array, read_nullable_array, vec_items,
    write_nullable_array,
};
use crate::readable_writable::{Readable, Writable};
use uuid::Uuid;
use vstd::prelude::*;

verus! {

/// A request for the metadata of some topics, or of all where `topics` is
/// null.
#[derive(Clone, PartialEq, Debug)]
pub struct MetadataRequest {
    pub topics: Option<Vec<MetadataRequestTopic>>,
    pub allow_auto_topic_creation: bool,
    pub include_topic_authorized_operations: bool,
}

/// One topic of a request: its identifier, and its name if it is given.
#[derive(Clone, PartialEq, Debug)]
pub struct MetadataRequestTopic {
    pub topic_id: Uuid,
    pub name: Option<String>,
}

/// What a topic of a request is, mathematically.
pub struct TopicModel {
    pub topic_id: u128,
    pub name: Option<Seq<char>>,
}

/// What a request is, mathematically.
pub struct RequestModel {
    pub topics: Option<Seq<TopicModel>>,
    pub allow_auto_topic_creation: bool,
    pub include_topic_authorized_operations: bool,
}

impl Readable for MetadataRequestTopic {
    type Model = TopicModel;

    open spec fn model(&self) -> TopicModel {
        TopicModel { topic_id: self.topic_id.model(), name: self.name.model() }
    }

    open spec fn plain_read() -> bool {
        true
    }

    /// The identifier, then the name as a compact string that may be null.
    open spec fn parse(bytes: Seq<u8>, field_name: Seq<char>, compact: bool) -> Result<
        (TopicModel, nat),
        Failure,
    > {
        match Uuid::parse(bytes, Seq::empty(), false) {
            Err(e) => Err(e),
            Ok((topic_id, n)) => match Option::<String>::parse(
                bytes.skip(n as int),
                "name"@,
                true,
            ) {
                Err(e) => Err(e),
                Ok((name, k)) => Ok((TopicModel { topic_id, name }, n + k)),
            },
        }
    }

    proof fn plain_parse(bytes: Seq<u8>, field_name: Seq<char>, compact: bool) {
    }

    fn read(input: &mut ByteReader) -> (r: Result<Self, CodecError>) {
        let topic_id = match Uuid::read(input) {
            Err(e) => { return Err(e); },
            Ok(id) => id,
        };
        proof {
            use_type_invariant(&*input);
            old(input).lemma_remaining_skip(*input, 16);
        }
        match Option::<String>::read_ext(input, "name", true) {
            Err(e) => Err(e),
            Ok(name) => Ok(MetadataRequestTopic { topic_id, name }),
        }
    }

    fn read_ext(input: &mut ByteReader, field_name: &str, compact: bool) -> (r: Result<
        Self,
        CodecError,
    >) {
        Self::read(input)
    }
}

impl Writable for MetadataRequestTopic {
    open spec fn plain_write() -> bool {
        true
    }

    open spec fn wire(&self, compact: bool) -> Seq<u8> {
        self.topic_id.wire(false) + self.name.wire(true)
    }

    open spec fn write_failure(&self, field_name: Seq<char>, compact: bool) -> Option<Failure> {
        self.name.write_failure("name"@, true)
    }

    proof fn plain_wire(&self, field_name: Seq<char>, compact: bool) {
    }

    fn write(&self, output: &mut Vec<u8>) -> (r: Result<(), CodecError>) {
        match self.topic_id.write(output) {
            Err(e) => { return Err(e); },
            Ok(()) => {},
        }
        match self.name.write_ext(output, "name", true) {
            Err(e) => { return Err(e); },
            Ok(()) => {},
        }
        assert(output@ =~= old(output)@ + self.wire(false));
        Ok(())
    }

    fn write_ext(&self, output: &mut Vec<u8>, field_name: &str, compact: bool) -> (r: Result<
        (),
        CodecError,
    >) {
        self.write(output)
    }
}

impl Readable for MetadataRequest {
    type Model = RequestModel;

    open spec fn model(&self) -> RequestModel {
        RequestModel {
            topics: array_model(self.topics),
            allow_auto_topic_creation: self.allow_auto_topic_creation,
            include_topic_authorized_operations: self.include_topic_authorized_operations,
        }
    }

    open spec fn plain_read() -> bool {
        true
    }

    /// The topics as a compact array that may be null, then the two flags.
    open spec fn parse(bytes: Seq<u8>, field_name: Seq<char>, compact: bool) -> Result<
        (RequestModel, nat),
        Failure,
    > {
        match parse_nullable_array::<MetadataRequestTopic>(bytes, "topics"@, true) {
            Err(e) => Err(e),
            Ok((topics, n)) => match bool::parse(bytes.skip(n as int), Seq::empty(), false) {
                Err(e) => Err(e),
                Ok((allow, k)) => match bool::parse(
                    bytes.skip(n as int).skip(k as int),
                    Seq::empty(),
                    false,
                ) {
                    Err(e) => Err(e),
                    Ok((operations, j)) => Ok(
                        (
                            RequestModel {
                                topics,
                                allow_auto_topic_creation: allow,
                                include_topic_authorized_operations: operations,
                            },
                            n + k + j,
                        ),
                    ),
                },
            },
        }
    }

    proof fn plain_parse(bytes: Seq<u8>, field_name: Seq<char>, compact: bool) {
    }

    fn read(input: &mut ByteReader) -> (r: Result<Self, CodecError>) {
        let topics = match read_nullable_array::<MetadataRequestTopic>(input, "topics", true) {
            Err(e) => { return Err(e); },
            Ok(topics) => topics,
        };
        let ghost n = parse_nullable_array::<MetadataRequestTopic>(
            old(input).remaining(),
            "topics"@,
            true,
        )->Ok_0.1;
        proof {
            use_type_invariant(&*input);
            old(input).lemma_remaining_skip(*input, n);
        }
        let ghost at_flags = *input;
        let allow_auto_topic_creation = match bool::read(input) {
            Err(e) => { return Err(e); },
            Ok(flag) => flag,
        };
        proof {
            use_type_invariant(&*input);
            at_flags.lemma_remaining_skip(*input, 1);
        }
        let include_topic_authorized_operations = match bool::read(input) {
            Err(e) => { return Err(e); },
            Ok(flag) => flag,
        };
        Ok(
            MetadataRequest {
                topics,
                allow_auto_topic_creation,
                include_topic_authorized_operations,
            },
        )
    }

    fn read_ext(input: &mut ByteReader, field_name: &str, compact: bool) -> (r: Result<
        Self,
        CodecError,
    >) {
        Self::read(input)
    }
}

impl Writable for MetadataRequest {
    open spec fn plain_write() -> bool {
        true
    }

    open spec fn wire(&self, compact: bool) -> Seq<u8> {
        array_wire(vec_items(self.topics), true) + self.allow_auto_topic_creation.wire(false)
            + self.include_topic_authorized_operations.wire(false)
    }

    open spec fn write_failure(&self, field_name: Seq<char>, compact: bool) -> Option<Failure> {
        array_failure(vec_items(self.topics), "topics"@, true)
    }

    proof fn plain_wire(&self, field_name: Seq<char>, compact: bool) {
    }

    fn write(&self, output: &mut Vec<u8>) -> (r: Result<(), CodecError>) {
        let topics: Option<&[MetadataRequestTopic]> = match &self.topics {
            Some(items) => Some(items.as_slice()),
            None => None,
        };
        match write_nullable_array(output, "topics", topics, true) {
            Err(e) => { return Err(e); },
            Ok(()) => {},
        }
        match self.allow_auto_topic_creation.write(output) {
            Err(e) => { return Err(e); },
            Ok(()) => {},
        }
        match self.include_topic_authorized_operations.write(output) {
            Err(e) => { return Err(e); },
            Ok(()) => {},
        }
        assert(output@ =~= old(output)@ + self.wire(false));
        Ok(())
    }

    fn write_ext(&self, output: &mut Vec<u8>, field_name: &str, compact: bool) -> (r: Result<
        (),
        CodecError,
    >) {
        self.write(output)
    }
}

} // verus!

//! A codec for the wire format of a Kafka-style protocol.
//!
//! Values are decoded from a [`reader::ByteReader`] and encoded at the end
//! of a `Vec<u8>`. A type takes part by implementing
//! [`readable_writable::Readable`] and [`readable_writable::Writable`]; the
//! contract of each method is stated over the type's own account of its
//! wire form, and the module [`laws`] proves that what is written is read
//! back as it was.
//!
//! The wire has two modes. In legacy mode a length is a signed integer of
//! fixed width, and -1 stands for null; in compact mode it is the length
//! plus one as a variable-length integer, and 0 stands for null.

pub mod arrays;
pub mod endian;
pub mod error;
pub mod laws;
pub mod lengths;
pub mod metadata_request;
pub mod readable_writable;
pub mod reader;
pub mod strings;
pub mod tagged_fields;
pub mod text;
pub mod varint;

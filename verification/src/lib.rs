//! A bidirectional XML binding engine driven by an explicit, inspectable
//! schema model: each record type is described by a `RecordType` value, and a
//! pair of engines interprets that description to read a typed record from a
//! token stream and to write it back, with exact formatting and strictness
//! contracts.

pub mod convert;
pub mod err;
pub mod escape;
pub mod laws;
pub mod mapops;
pub mod model;
pub mod read;
pub mod roundtrip;
pub mod stream;
pub mod strutil;
pub mod token;
pub mod write;
pub mod writer;

pub use err::XmlError;
pub use model::{
    Conv, FieldDecl, FieldValue, MapEntry, Mapping, Mult, NamedSchema, RecordType, RecordValue,
    Scalar, ScalarKind,
};
pub use read::read_record;
pub use stream::{from_xml_str, tokenize};
pub use token::Token;
pub use write::{to_xml_string, write_record};
pub use writer::XmlWriter;

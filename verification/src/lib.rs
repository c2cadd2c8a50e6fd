//! Dicom Contextualized Key Value (DCKV): a flat, insertion-ordered key-value
//! representation of DICOM objects, and the decoder that produces it.

pub mod entries;
pub mod error;
pub mod filter;
pub mod format;
pub mod key;
pub mod kvmap;
pub mod laws;
pub mod parser;
pub mod reader;
pub mod text;
pub mod value;
pub mod vr;

pub use error::DCKVError;
pub use error::IoErrorKind;
pub use filter::Filter;
pub use key::Key;
pub use kvmap::KVMap;
pub use parser::Deserializer;
pub use reader::ByteReader;
pub use value::Value;

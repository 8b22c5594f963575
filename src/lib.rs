//! Decoding of whitespace separated text into values of a shape chosen by the caller.
//!
//! The input is cut into tokens by a delimiter test (whitespace by default). A decode
//! call pulls exactly as many tokens as the requested shape needs, left to right,
//! from one shared cursor, and never reads a token twice.
pub mod de;
pub mod decode;
pub mod error;
pub mod laws;
pub mod scan;
pub mod text;
pub mod value;

pub use de::{Deserializer, KeyStep, NextValue, Sequence};
pub use decode::decode_value;
pub use error::ScanError;
pub use scan::{from_closure, from_str, from_str_skipping, scan};
pub use value::{Field, Shape, Value, Variant, VariantKind};

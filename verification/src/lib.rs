//! A codec for the SOME/IP serialization of data structures: the wire format
//! used by automotive middleware to exchange structured payloads over
//! Ethernet.
//!
//! The crate provides a schema model describing every representable type, a
//! serializer that emits wire bytes from in-memory values, and a deserializer
//! that reconstructs values from wire bytes, with length-delimited framing
//! and tag-length-value (TLV) dispatch.

pub mod de;
pub mod decimal;
pub mod error;
pub mod laws;
pub mod length_fields;
pub mod options;
pub mod ser;
pub mod text;
pub mod types;
pub mod uint_bytes;
pub mod value;
pub mod wire_type;

pub use de::from_slice;
pub use error::Error;
pub use length_fields::LengthFieldSize;
pub use options::SomeIpOptions;
pub use ser::{append_to_vec, to_vec};
pub use types::{SomeIp, SomeIpType};
pub use value::Value;

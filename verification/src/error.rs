//! The [`Error`] type shared by the serializer and the deserializer.

use vstd::prelude::*;

use crate::length_fields::LengthFieldSize;
use crate::wire_type::WireType;

verus! {

/// The reason a string could not be encoded or decoded.
#[derive(Debug, Clone, Copy, PartialEq, Eq, Structural)]
pub enum StringCodeError {
    /// The bytes are not valid UTF-8.
    InvalidUtf8,
    /// The code units are not valid UTF-16.
    InvalidUtf16,
    /// A UTF-16 string must have an even byte length.
    OddUtf16Length,
    /// The string must begin with a byte order mark but does not.
    MissingBom,
    /// The string must end with a zero terminator but does not.
    MissingTerminator,
    /// The encoding is ASCII but the content is not.
    NonAsciiContent,
}

/// The error type used by both the serializer and the deserializer.
#[derive(Debug)]
#[allow(inconsistent_fields)]
pub enum Error {
    /// An error that carries only a free-form message.
    Message(String),
    /// Expected a bool but found a byte greater than one while the options
    /// demand strict bool decoding.
    InvalidBool(u8),
    /// The decoded raw value does not map to any enum variant.
    InvalidEnumValue {
        /// The decoded raw value, rendered in decimal.
        value: String,
        /// The name of the enum that was being decoded.
        name: String,
    },
    /// A TLV tag carried a wire type incompatible with the schema.
    InvalidWireType {
        /// The wire type the schema expects.
        expected: WireType,
        /// The wire type found in the tag.
        actual: WireType,
    },
    /// A string could not be encoded or decoded.
    CannotCodeString(StringCodeError),
    /// A string or sequence held less data than its minimum size.
    NotEnoughData {
        /// The minimum required: bytes for strings, elements for sequences.
        min: usize,
        /// What was actually present.
        actual: usize,
    },
    /// A string or sequence held more data than its maximum size and the
    /// options demand failing in that case.
    TooMuchData {
        /// The maximum allowed: bytes for strings, elements for sequences.
        max: usize,
        /// What was actually present.
        actual: usize,
    },
    /// A read ran past the end of the input or past a length section.
    TooShort,
    /// More data was serialized than fits the length field that must be used.
    TooLong {
        /// The actual length of the serialized data.
        actual_length: usize,
        /// The length field size that must be used.
        length_field_size: LengthFieldSize,
    },
    /// A closed length section, or the input as a whole, had bytes left over.
    NotAllBytesConsumed(usize),
    /// An I/O failure in the byte source, reported by the caller.
    IoError(String),
}

/// The mathematical image of an [`Error`]: strings are taken to their
/// character sequences so that spec-level equality is structural.
#[allow(inconsistent_fields)]
pub enum ErrorV {
    /// Image of [`Error::Message`].
    Message(Seq<char>),
    /// Image of [`Error::InvalidBool`].
    InvalidBool(u8),
    /// Image of [`Error::InvalidEnumValue`].
    InvalidEnumValue { value: Seq<char>, name: Seq<char> },
    /// Image of [`Error::InvalidWireType`].
    InvalidWireType { expected: WireType, actual: WireType },
    /// Image of [`Error::CannotCodeString`].
    CannotCodeString(StringCodeError),
    /// Image of [`Error::NotEnoughData`].
    NotEnoughData { min: int, actual: int },
    /// Image of [`Error::TooMuchData`].
    TooMuchData { max: int, actual: int },
    /// Image of [`Error::TooShort`].
    TooShort,
    /// Image of [`Error::TooLong`].
    TooLong { actual_length: int, length_field_size: LengthFieldSize },
    /// Image of [`Error::NotAllBytesConsumed`].
    NotAllBytesConsumed(int),
    /// Image of [`Error::IoError`].
    IoError(Seq<char>),
}

impl View for Error {
    type V = ErrorV;

    open spec fn view(&self) -> ErrorV {
        match self {
            Error::Message(s) => ErrorV::Message(s@),
            Error::InvalidBool(b) => ErrorV::InvalidBool(*b),
            Error::InvalidEnumValue { value, name } => ErrorV::InvalidEnumValue {
                value: value@,
                name: name@,
            },
            Error::InvalidWireType { expected, actual } => ErrorV::InvalidWireType {
                expected: *expected,
                actual: *actual,
            },
            Error::CannotCodeString(r) => ErrorV::CannotCodeString(*r),
            Error::NotEnoughData { min, actual } => ErrorV::NotEnoughData {
                min: *min as int,
                actual: *actual as int,
            },
            Error::TooMuchData { max, actual } => ErrorV::TooMuchData {
                max: *max as int,
                actual: *actual as int,
            },
            Error::TooShort => ErrorV::TooShort,
            Error::TooLong { actual_length, length_field_size } => ErrorV::TooLong {
                actual_length: *actual_length as int,
                length_field_size: *length_field_size,
            },
            Error::NotAllBytesConsumed(n) => ErrorV::NotAllBytesConsumed(*n as int),
            Error::IoError(s) => ErrorV::IoError(s@),
        }
    }
}

/// The result type used by the serializer and the deserializer.
pub type SomeIpResult<T> = Result<T, Error>;

} // verus!

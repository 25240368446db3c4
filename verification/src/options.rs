//! The [`SomeIpOptions`] configuration used during encoding and decoding.
//!
//! The SOME/IP standard leaves several choices open, the byte order among
//! them, so every project fixes a set of options once and passes it to each
//! codec call.

use vstd::prelude::*;

use crate::error::{Error, ErrorV, SomeIpResult};
use crate::length_fields::LengthFieldSize;

verus! {

/// The byte order used for all multi-byte values.
#[derive(Debug, Clone, Copy, PartialEq, Eq, Structural)]
pub enum ByteOrder {
    /// The u16 0x1234 is serialized as [0x12, 0x34].
    BigEndian,
    /// The u16 0x1234 is serialized as [0x34, 0x12].
    LittleEndian,
}

/// The supported string encodings.
#[derive(Debug, Clone, Copy, PartialEq, Eq, Structural)]
pub enum StringEncoding {
    /// Strings are UTF-8 encoded, matching the native encoding of the host.
    Utf8,
    /// Strings are UTF-16 encoded in the configured byte order.
    Utf16,
    /// Strings are UTF-16 encoded, always little endian.
    Utf16Le,
    /// Strings are UTF-16 encoded, always big endian.
    Utf16Be,
    /// Strings are ASCII encoded; ASCII is a subset of UTF-8.
    Ascii,
}

impl StringEncoding {
    /// Whether this encoding is one of the three UTF-16 variants.
    pub open spec fn spec_is_utf16_variant(self) -> bool {
        match self {
            StringEncoding::Utf16 | StringEncoding::Utf16Le | StringEncoding::Utf16Be => true,
            _ => false,
        }
    }

    /// See [`StringEncoding::spec_is_utf16_variant`].
    pub fn is_utf16_variant(&self) -> (r: bool)
        ensures
            r == self.spec_is_utf16_variant(),
    {
        matches!(self, StringEncoding::Utf16 | StringEncoding::Utf16Le | StringEncoding::Utf16Be)
    }
}

/// How the serializer picks length field sizes inside TLV structs.
///
/// Outside TLV structs the configured length field size is always used.
#[derive(Debug, Clone, Copy, PartialEq, Eq, Structural)]
pub enum LengthFieldSizeSelection {
    /// Use the configured size when the data fits it, and otherwise the
    /// smallest size that can hold the length.
    AsConfigured,
    /// Always use the smallest size that can hold the length.
    Smallest,
}

/// What the deserializer does with a string or sequence that holds more data
/// than its maximum size.
#[derive(Debug, Clone, Copy, PartialEq, Eq, Structural)]
pub enum ActionOnTooMuchData {
    /// Report [`Error::TooMuchData`](crate::error::Error::TooMuchData).
    Fail,
    /// Silently drop the extra data.
    Discard,
    /// Keep the extra data; strings and sequences then grow beyond their
    /// declared sizes, which is not strictly standard conformant.
    Keep,
}

/// The options for one encoding or decoding call.
#[derive(Debug, Clone, Copy, PartialEq, Eq, Structural)]
pub struct SomeIpOptions {
    /// The byte order for all multi-byte values, and the default order of
    /// UTF-16 strings.
    pub byte_order: ByteOrder,
    /// The encoding used by strings.
    pub string_encoding: StringEncoding,
    /// Whether strings must begin with a byte order mark. Invalid together
    /// with [`StringEncoding::Ascii`]. With a UTF-16 encoding the
    /// deserializer takes the byte order of each string from its mark.
    pub string_with_bom: bool,
    /// Whether strings must end with a zero terminator.
    pub string_with_terminator: bool,
    /// The length field size used when the schema does not name one.
    pub default_length_field_size: Option<LengthFieldSize>,
    /// Whether the serializer keeps the from-config wire type in a TLV tag
    /// when the chosen length field size equals the configured one, instead
    /// of announcing the specific size.
    pub serializer_use_legacy_wire_type: bool,
    /// How the serializer picks length field sizes in TLV structs.
    pub serializer_length_field_size_selection: LengthFieldSizeSelection,
    /// Whether the deserializer rejects bool bytes greater than one instead
    /// of reading them as true.
    pub deserializer_strict_bool: bool,
    /// What the deserializer does with over-long strings and sequences.
    pub deserializer_action_on_too_much_data: ActionOnTooMuchData,
}

impl SomeIpOptions {
    /// The options are consistent: a byte order mark cannot be demanded of
    /// ASCII strings, since the mark is not an ASCII character.
    pub open spec fn spec_is_valid(self) -> bool {
        !(self.string_encoding == StringEncoding::Ascii && self.string_with_bom)
    }

    /// See [`SomeIpOptions::spec_is_valid`].
    pub fn is_valid(&self) -> (r: bool)
        ensures
            r == self.spec_is_valid(),
    {
        !(matches!(self.string_encoding, StringEncoding::Ascii) && self.string_with_bom)
    }

    /// The schema's length field size if it names one, and the configured
    /// default otherwise.
    pub open spec fn spec_apply_defaults(self, from_type: Option<LengthFieldSize>) -> Option<
        LengthFieldSize,
    > {
        if from_type is Some {
            from_type
        } else {
            self.default_length_field_size
        }
    }

    /// See [`SomeIpOptions::spec_apply_defaults`].
    pub fn apply_defaults(&self, from_type: Option<LengthFieldSize>) -> (r: Option<LengthFieldSize>)
        ensures
            r == self.spec_apply_defaults(from_type),
    {
        match from_type {
            Some(s) => Some(s),
            None => self.default_length_field_size,
        }
    }

    /// The width selection rule, as a mathematical function; see
    /// [`SomeIpOptions::select_length_field_size`].
    pub open spec fn spec_select_length_field_size(
        self,
        configured: LengthFieldSize,
        len: int,
        is_in_tlv_struct: bool,
    ) -> Result<LengthFieldSize, ErrorV> {
        let minimum = LengthFieldSize::spec_minimum_length_for(len);
        if is_in_tlv_struct {
            match minimum {
                Some(minimum_needed) => match self.serializer_length_field_size_selection {
                    LengthFieldSizeSelection::AsConfigured => {
                        if minimum_needed.spec_le(configured) {
                            Ok(configured)
                        } else {
                            Ok(minimum_needed)
                        }
                    },
                    LengthFieldSizeSelection::Smallest => Ok(minimum_needed),
                },
                None => Err(ErrorV::TooLong {
                    actual_length: len,
                    length_field_size: LengthFieldSize::FourBytes,
                }),
            }
        } else {
            if len <= configured.spec_max_value() {
                Ok(configured)
            } else {
                Err(ErrorV::TooLong { actual_length: len, length_field_size: configured })
            }
        }
    }

    /// Picks the length field size actually used when closing a length
    /// section of measured length `len`, given the `configured` width.
    /// Inside a TLV struct the size may grow beyond the configured one, per
    /// the selection policy; outside, a length beyond the configured width
    /// is an error.
    pub fn select_length_field_size(
        &self,
        configured: LengthFieldSize,
        len: usize,
        is_in_tlv_struct: bool,
    ) -> (r: SomeIpResult<LengthFieldSize>)
        ensures
            match r {
                Ok(s) => self.spec_select_length_field_size(configured, len as int, is_in_tlv_struct)
                    == Ok::<LengthFieldSize, ErrorV>(s),
                Err(e) => self.spec_select_length_field_size(
                    configured,
                    len as int,
                    is_in_tlv_struct,
                ) == Err::<LengthFieldSize, ErrorV>(e@),
            },
    {
        if is_in_tlv_struct {
            match LengthFieldSize::minimum_length_for(len) {
                Some(minimum_needed) => match self.serializer_length_field_size_selection {
                    LengthFieldSizeSelection::AsConfigured => {
                        if minimum_needed.num_bytes() <= configured.num_bytes() {
                            Ok(configured)
                        } else {
                            Ok(minimum_needed)
                        }
                    },
                    LengthFieldSizeSelection::Smallest => Ok(minimum_needed),
                },
                None => Err(Error::TooLong {
                    actual_length: len,
                    length_field_size: LengthFieldSize::FourBytes,
                }),
            }
        } else {
            let max_value: usize = match configured {
                LengthFieldSize::OneByte => 0xFF,
                LengthFieldSize::TwoBytes => 0xFFFF,
                LengthFieldSize::FourBytes => 0xFFFF_FFFF,
            };
            if len <= max_value {
                Ok(configured)
            } else {
                Err(Error::TooLong { actual_length: len, length_field_size: configured })
            }
        }
    }
}

impl Default for SomeIpOptions {
    /// The default options: big endian, UTF-8, no mark, no terminator, a
    /// four byte default length field, specific wire types, smallest width
    /// selection, lenient bools, and discarding extra data.
    fn default() -> (r: SomeIpOptions)
        ensures
            r == ExampleOptions::spec_options(),
    {
        SomeIpOptions {
            byte_order: ByteOrder::BigEndian,
            string_encoding: StringEncoding::Utf8,
            string_with_bom: false,
            string_with_terminator: false,
            default_length_field_size: Some(LengthFieldSize::FourBytes),
            serializer_use_legacy_wire_type: false,
            serializer_length_field_size_selection: LengthFieldSizeSelection::Smallest,
            deserializer_strict_bool: false,
            deserializer_action_on_too_much_data: ActionOnTooMuchData::Discard,
        }
    }
}

/// A ready-made set of options that overrides none of the defaults, to get
/// started quickly.
pub struct ExampleOptions;

impl ExampleOptions {
    /// The options that [`ExampleOptions::options`] returns.
    pub open spec fn spec_options() -> SomeIpOptions {
        SomeIpOptions {
            byte_order: ByteOrder::BigEndian,
            string_encoding: StringEncoding::Utf8,
            string_with_bom: false,
            string_with_terminator: false,
            default_length_field_size: Some(LengthFieldSize::FourBytes),
            serializer_use_legacy_wire_type: false,
            serializer_length_field_size_selection: LengthFieldSizeSelection::Smallest,
            deserializer_strict_bool: false,
            deserializer_action_on_too_much_data: ActionOnTooMuchData::Discard,
        }
    }

    /// The default options.
    pub fn options() -> (r: SomeIpOptions)
        ensures
            r == Self::spec_options(),
    {
        SomeIpOptions::default()
    }
}

} // verus!

//! The wire types carried in the tags of TLV serialized structs.

use vstd::prelude::*;

use crate::error::{Error, ErrorV, SomeIpResult};
use crate::length_fields::LengthFieldSize;

verus! {

/// The wire types available inside the tags of TLV serialized structs.
#[derive(Debug, Clone, Copy, PartialEq, Eq, Structural)]
pub enum WireType {
    /// The tag is followed by a one byte value: bool, u8 and i8.
    OneByte,
    /// The tag is followed by a two byte value: u16 and i16.
    TwoBytes,
    /// The tag is followed by a four byte value: u32, i32 and f32.
    FourBytes,
    /// The tag is followed by an eight byte value: u64, i64 and f64.
    EightBytes,
    /// The tag is followed by a length field whose size comes from the
    /// configuration, then that many bytes of value: strings, sequences
    /// and structs.
    LengthDelimitedFromConfig,
    /// As above, with a one byte length field.
    LengthDelimitedOneByte,
    /// As above, with a two byte length field.
    LengthDelimitedTwoBytes,
    /// As above, with a four byte length field.
    LengthDelimitedFourBytes,
}

impl WireType {
    /// The three bit code of this wire type, in the tag's bits 14 to 12.
    pub open spec fn spec_code(self) -> u16 {
        match self {
            WireType::OneByte => 0,
            WireType::TwoBytes => 1,
            WireType::FourBytes => 2,
            WireType::EightBytes => 3,
            WireType::LengthDelimitedFromConfig => 4,
            WireType::LengthDelimitedOneByte => 5,
            WireType::LengthDelimitedTwoBytes => 6,
            WireType::LengthDelimitedFourBytes => 7,
        }
    }

    /// The wire type encoded by the three bit code `code`.
    pub open spec fn spec_from_code(code: u16) -> WireType {
        if code == 0 {
            WireType::OneByte
        } else if code == 1 {
            WireType::TwoBytes
        } else if code == 2 {
            WireType::FourBytes
        } else if code == 3 {
            WireType::EightBytes
        } else if code == 4 {
            WireType::LengthDelimitedFromConfig
        } else if code == 5 {
            WireType::LengthDelimitedOneByte
        } else if code == 6 {
            WireType::LengthDelimitedTwoBytes
        } else {
            WireType::LengthDelimitedFourBytes
        }
    }

    /// The 16-bit tag that carries wire type `w` and field id `id`.
    pub open spec fn spec_tag(w: WireType, id: u16) -> u16
        recommends
            id <= 0xFFF,
    {
        (w.spec_code() * 0x1000 + id) as u16
    }

    /// Splits a 16-bit tag into its wire type (bits 14 to 12, bit 15
    /// ignored) and its field id (bits 11 to 0).
    pub open spec fn spec_disect_tag(tag: u16) -> (WireType, u16) {
        (Self::spec_from_code((tag / 0x1000) % 8), tag % 0x1000)
    }

    /// Assembles the tag for wire type `self` and field id `id`.
    pub fn tag_for(self, id: u16) -> (r: u16)
        requires
            id <= 0xFFF,
        ensures
            r == Self::spec_tag(self, id),
    {
        let code: u16 = match self {
            WireType::OneByte => 0,
            WireType::TwoBytes => 1,
            WireType::FourBytes => 2,
            WireType::EightBytes => 3,
            WireType::LengthDelimitedFromConfig => 4,
            WireType::LengthDelimitedOneByte => 5,
            WireType::LengthDelimitedTwoBytes => 6,
            WireType::LengthDelimitedFourBytes => 7,
        };
        code * 0x1000 + id
    }

    /// Splits a tag into wire type and field id.
    pub fn disect_tag(tag: u16) -> (r: (WireType, u16))
        ensures
            r == Self::spec_disect_tag(tag),
    {
        let code: u16 = (tag / 0x1000) % 8;
        let wire_type = if code == 0 {
            WireType::OneByte
        } else if code == 1 {
            WireType::TwoBytes
        } else if code == 2 {
            WireType::FourBytes
        } else if code == 3 {
            WireType::EightBytes
        } else if code == 4 {
            WireType::LengthDelimitedFromConfig
        } else if code == 5 {
            WireType::LengthDelimitedOneByte
        } else if code == 6 {
            WireType::LengthDelimitedTwoBytes
        } else {
            WireType::LengthDelimitedFourBytes
        };
        (wire_type, tag % 0x1000)
    }

    /// The length field size a length-delimited wire type prescribes; `None`
    /// for the fixed-size wire types and for the from-config one.
    pub open spec fn spec_length_field_size(self) -> Option<LengthFieldSize> {
        match self {
            WireType::LengthDelimitedOneByte => Some(LengthFieldSize::OneByte),
            WireType::LengthDelimitedTwoBytes => Some(LengthFieldSize::TwoBytes),
            WireType::LengthDelimitedFourBytes => Some(LengthFieldSize::FourBytes),
            _ => None,
        }
    }

    /// See [`WireType::spec_length_field_size`].
    pub fn get_length_field_size(&self) -> (r: Option<LengthFieldSize>)
        ensures
            r == self.spec_length_field_size(),
    {
        match self {
            WireType::LengthDelimitedOneByte => Some(LengthFieldSize::OneByte),
            WireType::LengthDelimitedTwoBytes => Some(LengthFieldSize::TwoBytes),
            WireType::LengthDelimitedFourBytes => Some(LengthFieldSize::FourBytes),
            _ => None,
        }
    }

    /// The wire type announcing a length field of size `size`.
    pub open spec fn spec_for_length_field_size(size: LengthFieldSize) -> WireType {
        match size {
            LengthFieldSize::OneByte => WireType::LengthDelimitedOneByte,
            LengthFieldSize::TwoBytes => WireType::LengthDelimitedTwoBytes,
            LengthFieldSize::FourBytes => WireType::LengthDelimitedFourBytes,
        }
    }

    /// See [`WireType::spec_for_length_field_size`].
    pub fn for_length_field_size(size: LengthFieldSize) -> (r: WireType)
        ensures
            r == Self::spec_for_length_field_size(size),
    {
        match size {
            LengthFieldSize::OneByte => WireType::LengthDelimitedOneByte,
            LengthFieldSize::TwoBytes => WireType::LengthDelimitedTwoBytes,
            LengthFieldSize::FourBytes => WireType::LengthDelimitedFourBytes,
        }
    }

    /// The byte count of a fixed-size wire type, `None` for the
    /// length-delimited ones.
    pub open spec fn spec_fixed_size(self) -> Option<usize> {
        match self {
            WireType::OneByte => Some(1usize),
            WireType::TwoBytes => Some(2usize),
            WireType::FourBytes => Some(4usize),
            WireType::EightBytes => Some(8usize),
            _ => None,
        }
    }

    /// See [`WireType::spec_fixed_size`].
    pub fn get_fixed_size(&self) -> (r: Option<usize>)
        ensures
            r == self.spec_fixed_size(),
    {
        match self {
            WireType::OneByte => Some(1),
            WireType::TwoBytes => Some(2),
            WireType::FourBytes => Some(4),
            WireType::EightBytes => Some(8),
            _ => None,
        }
    }

    /// Whether this wire type is one of the four length-delimited ones.
    pub open spec fn spec_is_length_delimited(self) -> bool {
        self.spec_code() >= 4
    }

    /// Whether a value written as `other` can be read where `self` is
    /// expected: fixed-size wire types must match exactly, and the four
    /// length-delimited wire types are mutually compatible.
    pub open spec fn spec_compatible(self, other: WireType) -> bool {
        if self.spec_is_length_delimited() {
            other.spec_is_length_delimited()
        } else {
            self == other
        }
    }

    /// Checks wire type compatibility, reporting the schema's expectation
    /// and the actual wire type on a mismatch.
    pub fn check(self, other: WireType) -> (r: SomeIpResult<()>)
        ensures
            match r {
                Ok(()) => self.spec_compatible(other),
                Err(e) => !self.spec_compatible(other) && e@ == (ErrorV::InvalidWireType {
                    expected: self,
                    actual: other,
                }),
            },
    {
        let compatible = match self {
            WireType::OneByte => matches!(other, WireType::OneByte),
            WireType::TwoBytes => matches!(other, WireType::TwoBytes),
            WireType::FourBytes => matches!(other, WireType::FourBytes),
            WireType::EightBytes => matches!(other, WireType::EightBytes),
            _ => matches!(
                other,
                WireType::LengthDelimitedFromConfig
                    | WireType::LengthDelimitedOneByte
                    | WireType::LengthDelimitedTwoBytes
                    | WireType::LengthDelimitedFourBytes
            ),
        };
        if compatible {
            Ok(())
        } else {
            Err(Error::InvalidWireType { expected: self, actual: other })
        }
    }
}

} // verus!

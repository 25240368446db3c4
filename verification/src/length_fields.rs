//! The [`LengthFieldSize`] enum.
//!
//! The SOME/IP standard does not fully define how to encode length fields,
//! and every type can make a different choice among the three widths.

use vstd::prelude::*;

verus! {

/// The possible length field sizes supported by SOME/IP.
#[derive(Debug, Clone, Copy, PartialEq, Eq, Structural)]
pub enum LengthFieldSize {
    /// A length field with a size of one byte.
    OneByte,
    /// A length field with a size of two bytes.
    TwoBytes,
    /// A length field with a size of four bytes.
    FourBytes,
}

impl LengthFieldSize {
    /// The width of this length field in bytes: 1, 2 or 4.
    pub open spec fn spec_num_bytes(self) -> int {
        match self {
            LengthFieldSize::OneByte => 1,
            LengthFieldSize::TwoBytes => 2,
            LengthFieldSize::FourBytes => 4,
        }
    }

    /// The largest length value this width can encode.
    pub open spec fn spec_max_value(self) -> int {
        match self {
            LengthFieldSize::OneByte => 0xFF,
            LengthFieldSize::TwoBytes => 0xFFFF,
            LengthFieldSize::FourBytes => 0xFFFF_FFFF,
        }
    }

    /// The smallest width whose maximum is at least `len`, or `None` when
    /// `len` exceeds what even a four byte field can hold.
    pub open spec fn spec_minimum_length_for(len: int) -> Option<LengthFieldSize> {
        if len <= 0xFF {
            Some(LengthFieldSize::OneByte)
        } else if len <= 0xFFFF {
            Some(LengthFieldSize::TwoBytes)
        } else if len <= 0xFFFF_FFFF {
            Some(LengthFieldSize::FourBytes)
        } else {
            None
        }
    }

    /// The number of bytes occupied by a length field of this size.
    pub fn num_bytes(self) -> (r: usize)
        ensures
            r == self.spec_num_bytes(),
    {
        match self {
            LengthFieldSize::OneByte => 1,
            LengthFieldSize::TwoBytes => 2,
            LengthFieldSize::FourBytes => 4,
        }
    }

    /// Picks the smallest length field size that can hold `len`; `None` when
    /// `len` is larger than the four byte maximum.
    pub fn minimum_length_for(len: usize) -> (r: Option<LengthFieldSize>)
        ensures
            r == Self::spec_minimum_length_for(len as int),
    {
        if len <= 0xFF {
            Some(LengthFieldSize::OneByte)
        } else if len <= 0xFFFF {
            Some(LengthFieldSize::TwoBytes)
        } else if len <= 0xFFFF_FFFF {
            Some(LengthFieldSize::FourBytes)
        } else {
            None
        }
    }

    /// Ordering of widths as integers, used by the width selection rule.
    pub open spec fn spec_le(self, other: LengthFieldSize) -> bool {
        self.spec_num_bytes() <= other.spec_num_bytes()
    }
}

impl PartialOrd for LengthFieldSize {
    fn partial_cmp(&self, other: &LengthFieldSize) -> (r: Option<core::cmp::Ordering>)
    {
        if self.num_bytes() < other.num_bytes() {
            Some(core::cmp::Ordering::Less)
        } else if self.num_bytes() == other.num_bytes() {
            Some(core::cmp::Ordering::Equal)
        } else {
            Some(core::cmp::Ordering::Greater)
        }
    }
}

impl vstd::std_specs::cmp::PartialOrdSpecImpl for LengthFieldSize {
    open spec fn obeys_partial_cmp_spec() -> bool {
        true
    }

    open spec fn partial_cmp_spec(&self, other: &LengthFieldSize) -> Option<core::cmp::Ordering> {
        if self.spec_num_bytes() < other.spec_num_bytes() {
            Some(core::cmp::Ordering::Less)
        } else if self.spec_num_bytes() == other.spec_num_bytes() {
            Some(core::cmp::Ordering::Equal)
        } else {
            Some(core::cmp::Ordering::Greater)
        }
    }
}

} // verus!

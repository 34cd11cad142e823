//! Width classes of registers.

use vstd::prelude::*;

verus! {

/// The bit width of one row of a register.
#[derive(Clone, Copy, Debug, PartialEq, Eq, Structural)]
pub enum WidthClass {
    OneBit,
    EightBit,
    SixtyFourBit,
}

impl WidthClass {
    /// Number of bits in one row of a register of this class.
    pub open spec fn spec_bits(self) -> nat {
        match self {
            WidthClass::OneBit => 1,
            WidthClass::EightBit => 8,
            WidthClass::SixtyFourBit => 64,
        }
    }

    /// Height of this class in the tower of binary fields: the base-two
    /// logarithm of its bit width.
    pub open spec fn spec_tower_level(self) -> nat {
        match self {
            WidthClass::OneBit => 0,
            WidthClass::EightBit => 3,
            WidthClass::SixtyFourBit => 6,
        }
    }

    pub fn bits(self) -> (b: u32)
        ensures
            b == self.spec_bits(),
    {
        match self {
            WidthClass::OneBit => 1,
            WidthClass::EightBit => 8,
            WidthClass::SixtyFourBit => 64,
        }
    }

    pub fn tower_level(self) -> (level: usize)
        ensures
            level == self.spec_tower_level(),
    {
        match self {
            WidthClass::OneBit => 0,
            WidthClass::EightBit => 3,
            WidthClass::SixtyFourBit => 6,
        }
    }
}

/// The bit width of a class is two to the power of its tower level.
pub proof fn law_bits_is_power_of_level(width: WidthClass)
    ensures
        width.spec_bits() == vstd::arithmetic::power2::pow2(width.spec_tower_level()),
{
    vstd::arithmetic::power2::lemma2_to64();
}

} // verus!

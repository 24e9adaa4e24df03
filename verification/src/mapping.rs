//! The fixed pairing of the two bit values with their colour names.

use vstd::prelude::*;

verus! {

/// The colour name that stands for a set bit.
pub const ONE_COLOR: &'static str = "Forest Green";

/// The colour name that stands for a clear bit.
pub const ZERO_COLOR: &'static str = "Olive Green";

/// The text put between two colour names of one line.
pub const SEPARATOR: &'static str = " | ";

/// The colour name of a bit, as a sequence of characters.
pub open spec fn color_of(bit: bool) -> Seq<char> {
    if bit {
        ONE_COLOR@
    } else {
        ZERO_COLOR@
    }
}

/// The binary digit of a bit.
pub open spec fn digit_of(bit: bool) -> char {
    if bit {
        '1'
    } else {
        '0'
    }
}

/// Whether `c` is one of the two binary digits.
pub open spec fn is_bit_char(c: char) -> bool {
    c == '0' || c == '1'
}

/// Whether bit `position` of `byte` is set; position 0 is the least significant.
pub open spec fn bit_at(byte: u8, position: u8) -> bool {
    (byte >> position) & 1u8 == 1u8
}

/// The colour name for a bit value.
pub fn color_name(bit: bool) -> (name: &'static str)
    ensures
        name@ == color_of(bit),
{
    if bit {
        ONE_COLOR
    } else {
        ZERO_COLOR
    }
}

} // verus!

//! The order of 32-bit floats by their bits.

use vstd::prelude::*;

use crate::message::FloatBits;

verus! {

/// The place of a float among all floats, from the most negative to the most positive; negative
/// zero comes right before zero.
pub open spec fn float_place(bits: FloatBits) -> int {
    if bits < 0x8000_0000 {
        bits + 0x8000_0000
    } else {
        0xffff_ffff - bits
    }
}

pub fn place_of_float(bits: FloatBits) -> (r: u64)
    ensures
        r == float_place(bits),
{
    if bits < 0x8000_0000 {
        bits as u64 + 0x8000_0000
    } else {
        0xffff_ffff - bits as u64
    }
}

/// Different floats have different places.
pub proof fn law_places_differ(a: FloatBits, b: FloatBits)
    requires
        a != b,
    ensures
        float_place(a) != float_place(b),
{
}


pub open spec fn is_nan(bits: FloatBits) -> bool {
    0x7f80_0000 < bits < 0x8000_0000 || bits > 0xff80_0000
}

/// Neither infinite nor no number.
pub open spec fn is_finite(bits: FloatBits) -> bool {
    bits < 0x7f80_0000 || 0x8000_0000 <= bits < 0xff80_0000
}

pub open spec fn is_zero(bits: FloatBits) -> bool {
    bits == 0 || bits == 0x8000_0000
}

/// `a < b` as floats compare: what is no number is not less than anything, and the two zeros are
/// equal.
pub open spec fn less(a: FloatBits, b: FloatBits) -> bool {
    !is_nan(a) && !is_nan(b) && !(is_zero(a) && is_zero(b)) && float_place(a) < float_place(b)
}

/// `a <= b` as floats compare.
pub open spec fn at_most(a: FloatBits, b: FloatBits) -> bool {
    !is_nan(a) && !is_nan(b) && ((is_zero(a) && is_zero(b)) || float_place(a) <= float_place(b))
}

fn not_a_number(bits: FloatBits) -> (r: bool)
    ensures
        r == is_nan(bits),
{
    (0x7f80_0000 < bits && bits < 0x8000_0000) || bits > 0xff80_0000
}

pub fn float_is_finite(bits: FloatBits) -> (r: bool)
    ensures
        r == is_finite(bits),
{
    bits < 0x7f80_0000 || (0x8000_0000 <= bits && bits < 0xff80_0000)
}

pub fn float_less(a: FloatBits, b: FloatBits) -> (r: bool)
    ensures
        r == less(a, b),
{
    let both_zero = (a == 0 || a == 0x8000_0000) && (b == 0 || b == 0x8000_0000);
    !not_a_number(a) && !not_a_number(b) && !both_zero && place_of_float(a) < place_of_float(b)
}

pub fn float_at_most(a: FloatBits, b: FloatBits) -> (r: bool)
    ensures
        r == at_most(a, b),
{
    let both_zero = (a == 0 || a == 0x8000_0000) && (b == 0 || b == 0x8000_0000);
    !not_a_number(a) && !not_a_number(b) && (both_zero || place_of_float(a) <= place_of_float(b))
}

} // verus!

//! Modifier keys as bits, laid out the same in key events and in the event
//! tap.
use vstd::prelude::*;

verus! {

pub const SHIFT: u64 = 0x2_0000;

pub const CONTROL: u64 = 0x4_0000;

pub const OPTION: u64 = 0x8_0000;

pub const COMMAND: u64 = 0x10_0000;

/// Every modifier of `mask` is held.
pub open spec fn all_held(flags: u64, mask: u64) -> bool {
    flags & mask == mask
}

/// At least one modifier of `mask` is held.
pub open spec fn any_held(flags: u64, mask: u64) -> bool {
    flags & mask != 0
}

/// Whether every modifier of `mask` is held.
pub fn contains(flags: u64, mask: u64) -> (r: bool)
    ensures
        r == all_held(flags, mask),
{
    flags & mask == mask
}

/// Whether at least one modifier of `mask` is held.
pub fn intersects(flags: u64, mask: u64) -> (r: bool)
    ensures
        r == any_held(flags, mask),
{
    flags & mask != 0
}

/// Of a mask of two modifiers, one is held where either is.
pub proof fn law_either_modifier(flags: u64, a: u64, b: u64)
    ensures
        any_held(flags, a | b) == (any_held(flags, a) || any_held(flags, b)),
        all_held(flags, a | b) == (all_held(flags, a) && all_held(flags, b)),
{
    assert((flags & (a | b) != 0) == (flags & a != 0 || flags & b != 0)) by (bit_vector);
    assert((flags & (a | b) == (a | b)) == (flags & a == a && flags & b == b)) by (bit_vector);
}

/// A single modifier is a bit: it is held where that bit is set, of which all
/// and any are the same.
pub proof fn law_a_modifier_is_a_bit(flags: u64, bit: u64)
    requires
        bit < 64,
    ensures
        all_held(flags, 1u64 << bit) <==> (flags >> bit) % 2 == 1,
        any_held(flags, 1u64 << bit) <==> (flags >> bit) % 2 == 1,
        all_held(flags, 0),
        !any_held(flags, 0),
{
    assert((flags & (1u64 << bit) == (1u64 << bit)) == ((flags >> bit) % 2 == 1)) by (bit_vector)
        requires
            bit < 64,
    ;
    assert((flags & (1u64 << bit) != 0) == ((flags >> bit) % 2 == 1)) by (bit_vector)
        requires
            bit < 64,
    ;
    assert(flags & 0 == 0) by (bit_vector);
}

/// ⇧ is the bit 17, ⌃ the bit 18, ⌥ the bit 19 and ⌘ the bit 20.
pub proof fn law_which_bits()
    ensures
        SHIFT == 1u64 << 17,
        CONTROL == 1u64 << 18,
        OPTION == 1u64 << 19,
        COMMAND == 1u64 << 20,
{
    assert(0x2_0000u64 == 1u64 << 17) by (bit_vector);
    assert(0x4_0000u64 == 1u64 << 18) by (bit_vector);
    assert(0x8_0000u64 == 1u64 << 19) by (bit_vector);
    assert(0x10_0000u64 == 1u64 << 20) by (bit_vector);
}

} // verus!

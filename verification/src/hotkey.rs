//! Global hotkeys: the four-character codes of the Carbon events, and which
//! of these events stand for a hotkey of this app.
use vstd::prelude::*;

verus! {

/// `fourcc(b"keyb")`
pub const K_EVENT_CLASS_KEYBOARD: u32 = 0x6b65_7962;

pub const K_EVENT_HOT_KEY_PRESSED: u32 = 6;

/// `fourcc(b"----")`
pub const K_EVENT_PARAM_DIRECT_OBJECT: u32 = 0x2d2d_2d2d;

/// `fourcc(b"hkid")`
pub const TYPE_EVENT_HOT_KEY_ID: u32 = 0x686b_6964;

/// `fourcc(b"CHUB")`
pub const SIGNATURE: u32 = 0x4348_5542;

/// Carbon modifier bit for ⌥.
pub const MOD_OPTION: u32 = 0x800;

/// Virtual key code of Tab.
pub const KEY_TAB: u32 = 48;

/// Virtual key code of the grave accent.
pub const KEY_GRAVE: u32 = 50;

/// The number that four bytes make, the first the most significant.
pub open spec fn big_endian(s: Seq<u8>) -> int {
    s[0] * 0x100_0000 + s[1] * 0x1_0000 + s[2] * 0x100 + s[3]
}

/// A four-character code as the number that its bytes make, the first the
/// most significant.
pub fn fourcc(s: &[u8; 4]) -> (r: u32)
    ensures
        r == big_endian(s@),
{
    s[0] as u32 * 0x100_0000 + s[1] as u32 * 0x1_0000 + s[2] as u32 * 0x100 + s[3] as u32
}

/// The hotkey that an event stands for: its id, where it could be read and
/// the event carries this app's signature.
pub fn on_hotkey(err: i32, signature: u32, id: u32) -> (r: Option<u32>)
    ensures
        r == if err == 0 && signature == SIGNATURE {
            Some(id)
        } else {
            None
        },
{
    if err == 0 && signature == SIGNATURE {
        Some(id)
    } else {
        None
    }
}

/// Different codes are different numbers.
pub proof fn law_fourcc_is_injective(a: Seq<u8>, b: Seq<u8>)
    requires
        a.len() == 4,
        b.len() == 4,
        big_endian(a) == big_endian(b),
    ensures
        a == b,
{
    let (a0, a1, a2, a3) = (a[0] as int, a[1] as int, a[2] as int, a[3] as int);
    let (b0, b1, b2, b3) = (b[0] as int, b[1] as int, b[2] as int, b[3] as int);
    assert(0 <= a1 * 0x1_0000 + a2 * 0x100 + a3 < 0x100_0000);
    assert(0 <= b1 * 0x1_0000 + b2 * 0x100 + b3 < 0x100_0000);
    assert(a0 == b0);
    assert(0 <= a2 * 0x100 + a3 < 0x1_0000);
    assert(0 <= b2 * 0x100 + b3 < 0x1_0000);
    assert(a1 == b1);
    assert(a2 == b2 && a3 == b3);
    assert(a =~= b);
}

/// The bytes of a code are the digits of its number to the base 256.
pub proof fn law_bytes_are_digits(s: Seq<u8>)
    requires
        s.len() == 4,
    ensures
        big_endian(s) / 0x100_0000 == s[0],
        big_endian(s) / 0x1_0000 % 0x100 == s[1],
        big_endian(s) / 0x100 % 0x100 == s[2],
        big_endian(s) % 0x100 == s[3],
{
}

} // verus!

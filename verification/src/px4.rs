//! PX4 flight-mode decoding.
//!
//! PX4 encodes its mode in the HEARTBEAT `custom_mode` field:
//! bits 16..24 hold the main mode and bits 24..32 the sub mode (the sub mode
//! is only meaningful when the main mode is AUTO).

use vstd::prelude::*;

verus! {

/// Main mode byte of a PX4 `custom_mode` word (bits 16..24).
pub open spec fn main_mode_of(custom: u32) -> u8 {
    ((custom >> 16u32) & 0xffu32) as u8
}

/// Sub mode byte of a PX4 `custom_mode` word (bits 24..32).
pub open spec fn sub_mode_of(custom: u32) -> u8 {
    ((custom >> 24u32) & 0xffu32) as u8
}

/// Human-readable name of the AUTO sub mode.
pub open spec fn auto_sub_name(sub: u8) -> Seq<char> {
    if sub == 1 {
        "AUTO.READY"@
    } else if sub == 2 {
        "AUTO.TAKEOFF"@
    } else if sub == 3 {
        "AUTO.LOITER"@
    } else if sub == 4 {
        "AUTO.MISSION"@
    } else if sub == 5 {
        "AUTO.RTL"@
    } else if sub == 6 {
        "AUTO.LAND"@
    } else if sub == 7 {
        "AUTO.RTGS"@
    } else if sub == 8 {
        "AUTO.FOLLOW"@
    } else if sub == 9 {
        "AUTO.PRECLAND"@
    } else if sub == 10 {
        "AUTO.VTOL_TAKEOFF"@
    } else {
        "AUTO"@
    }
}

/// Human-readable name of a (main, sub) PX4 mode pair.
pub open spec fn mode_name(main: u8, sub: u8) -> Seq<char> {
    if main == 1 {
        "MANUAL"@
    } else if main == 2 {
        "ALTCTL"@
    } else if main == 3 {
        "POSCTL"@
    } else if main == 4 {
        auto_sub_name(sub)
    } else if main == 5 {
        "ACRO"@
    } else if main == 6 {
        "OFFBOARD"@
    } else if main == 7 {
        "STABILIZED"@
    } else if main == 8 {
        "RATTITUDE"@
    } else {
        "UNKNOWN"@
    }
}

fn auto_sub_string(sub: u8) -> (s: String)
    ensures
        s@ == auto_sub_name(sub),
{
    match sub {
        1 => String::from_str("AUTO.READY"),
        2 => String::from_str("AUTO.TAKEOFF"),
        3 => String::from_str("AUTO.LOITER"),
        4 => String::from_str("AUTO.MISSION"),
        5 => String::from_str("AUTO.RTL"),
        6 => String::from_str("AUTO.LAND"),
        7 => String::from_str("AUTO.RTGS"),
        8 => String::from_str("AUTO.FOLLOW"),
        9 => String::from_str("AUTO.PRECLAND"),
        10 => String::from_str("AUTO.VTOL_TAKEOFF"),
        _ => String::from_str("AUTO"),
    }
}

/// Decode a PX4 `custom_mode` into a human-readable mode string.
pub fn mode_string(custom_mode: u32) -> (s: String)
    ensures
        s@ == mode_name(main_mode_of(custom_mode), sub_mode_of(custom_mode)),
{
    let main: u8 = ((custom_mode >> 16u32) & 0xffu32) as u8;
    let sub: u8 = ((custom_mode >> 24u32) & 0xffu32) as u8;
    match main {
        1 => String::from_str("MANUAL"),
        2 => String::from_str("ALTCTL"),
        3 => String::from_str("POSCTL"),
        4 => auto_sub_string(sub),
        5 => String::from_str("ACRO"),
        6 => String::from_str("OFFBOARD"),
        7 => String::from_str("STABILIZED"),
        8 => String::from_str("RATTITUDE"),
        _ => String::from_str("UNKNOWN"),
    }
}

/// Build a PX4 `custom_mode` from main/sub mode bytes.
pub fn custom_mode(main: u8, sub: u8) -> (c: u32)
    ensures
        c == (main as u32) * 0x10000 + (sub as u32) * 0x1000000,
        main_mode_of(c) == main,
        sub_mode_of(c) == sub,
{
    let c: u32 = ((main as u32) << 16u32) | ((sub as u32) << 24u32);
    assert(((main as u32) << 16u32) | ((sub as u32) << 24u32)
        == (main as u32) * 0x10000 + (sub as u32) * 0x1000000) by (bit_vector);
    assert((((((main as u32) << 16u32) | ((sub as u32) << 24u32)) >> 16u32) & 0xffu32) as u8
        == main) by (bit_vector);
    assert((((((main as u32) << 16u32) | ((sub as u32) << 24u32)) >> 24u32) & 0xffu32) as u8
        == sub) by (bit_vector);
    c
}

/// Law: the mode a `custom_mode` word decodes to is fixed by the main and sub
/// mode bytes it was built from.
pub proof fn lemma_custom_mode_roundtrip(main: u8, sub: u8, c: u32)
    requires
        c == (main as u32) * 0x10000 + (sub as u32) * 0x1000000,
    ensures
        main_mode_of(c) == main,
        sub_mode_of(c) == sub,
        mode_name(main_mode_of(c), sub_mode_of(c)) == mode_name(main, sub),
{
    assert(c == (main as u32) * 0x10000 + (sub as u32) * 0x1000000 ==> (((c >> 16u32) & 0xffu32) as u8 == main && ((c >> 24u32) & 0xffu32) as u8 == sub)) by (bit_vector);
}

/// The modes PX4 names: the eight main modes, and for AUTO its sub modes
/// 1 to 10.
pub open spec fn known_mode(main: u8, sub: u8) -> bool {
    1 <= main <= 8 && (main == 4 ==> 1 <= sub <= 10)
}

/// Length and three characters of a name: enough to tell the known mode
/// names apart.
spec fn name_sig(n: Seq<char>) -> (int, char, char, char) {
    (
        n.len() as int,
        n[0],
        if n.len() > 5 { n[5] } else { ' ' },
        if n.len() > 6 { n[6] } else { ' ' },
    )
}

/// Law: different known modes are told apart by name, so a decoded name
/// always identifies the mode the vehicle reported.
pub proof fn lemma_known_modes_named_apart(m1: u8, s1: u8, m2: u8, s2: u8)
    requires
        known_mode(m1, s1),
        known_mode(m2, s2),
        mode_name(m1, s1) == mode_name(m2, s2),
    ensures
        m1 == m2,
        m1 == 4 ==> s1 == s2,
{
    assert(name_sig(mode_name(m1, s1)) == name_sig(mode_name(m2, s2)));
    reveal_strlit("MANUAL");
    reveal_strlit("ALTCTL");
    reveal_strlit("POSCTL");
    reveal_strlit("ACRO");
    reveal_strlit("OFFBOARD");
    reveal_strlit("STABILIZED");
    reveal_strlit("RATTITUDE");
    reveal_strlit("AUTO.READY");
    reveal_strlit("AUTO.TAKEOFF");
    reveal_strlit("AUTO.LOITER");
    reveal_strlit("AUTO.MISSION");
    reveal_strlit("AUTO.RTL");
    reveal_strlit("AUTO.LAND");
    reveal_strlit("AUTO.RTGS");
    reveal_strlit("AUTO.FOLLOW");
    reveal_strlit("AUTO.PRECLAND");
    reveal_strlit("AUTO.VTOL_TAKEOFF");
}

/// Law: the AUTO sub modes, in PX4's numbering 1 to 10, are named READY,
/// TAKEOFF, LOITER, MISSION, RTL, LAND, RTGS, FOLLOW, PRECLAND and
/// VTOL_TAKEOFF under `AUTO.`; any other sub mode reads as plain `AUTO`.
pub proof fn lemma_auto_sub_modes(sub: u8)
    ensures
        mode_name(4, sub) == (if sub == 1 {
            "AUTO.READY"@
        } else if sub == 2 {
            "AUTO.TAKEOFF"@
        } else if sub == 3 {
            "AUTO.LOITER"@
        } else if sub == 4 {
            "AUTO.MISSION"@
        } else if sub == 5 {
            "AUTO.RTL"@
        } else if sub == 6 {
            "AUTO.LAND"@
        } else if sub == 7 {
            "AUTO.RTGS"@
        } else if sub == 8 {
            "AUTO.FOLLOW"@
        } else if sub == 9 {
            "AUTO.PRECLAND"@
        } else if sub == 10 {
            "AUTO.VTOL_TAKEOFF"@
        } else {
            "AUTO"@
        }),
{
}

/// Law: PX4's main modes 1 to 8 are MANUAL, ALTCTL, POSCTL, AUTO (named by
/// its sub mode), ACRO, OFFBOARD, STABILIZED and RATTITUDE; any other main
/// mode reads as UNKNOWN, whatever the sub mode.
pub proof fn lemma_main_modes(main: u8, sub: u8)
    ensures
        main == 1 ==> mode_name(main, sub) == "MANUAL"@,
        main == 2 ==> mode_name(main, sub) == "ALTCTL"@,
        main == 3 ==> mode_name(main, sub) == "POSCTL"@,
        main == 5 ==> mode_name(main, sub) == "ACRO"@,
        main == 6 ==> mode_name(main, sub) == "OFFBOARD"@,
        main == 7 ==> mode_name(main, sub) == "STABILIZED"@,
        main == 8 ==> mode_name(main, sub) == "RATTITUDE"@,
        (main == 0 || main > 8) ==> mode_name(main, sub) == "UNKNOWN"@,
{
}

} // verus!

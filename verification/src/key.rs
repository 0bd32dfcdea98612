//! Decoding of single input bytes into key events.

use vstd::prelude::*;

verus! {

/// One key event read from the controlling terminal.
///
/// Bytes `0x01..=0x1A` are the control keys, `0x1B` is escape, `0x7F` is
/// delete, and every other byte is taken as the character it encodes.
#[derive(Copy, Clone, Debug)]
pub enum Key {
    CtrlA,
    CtrlB,
    CtrlC,
    CtrlD,
    CtrlE,
    CtrlF,
    CtrlG,
    CtrlH,
    CtrlI,
    CtrlJ,
    CtrlK,
    CtrlL,
    CtrlM,
    CtrlN,
    CtrlO,
    CtrlP,
    CtrlQ,
    CtrlR,
    CtrlS,
    CtrlT,
    CtrlU,
    CtrlV,
    CtrlW,
    CtrlX,
    CtrlY,
    CtrlZ,
    Esc,
    Del,
    Char(char),
}

/// A code point is a Unicode scalar value, i.e. a valid `char`.
pub open spec fn is_scalar_value(u: u32) -> bool {
    u < 0xD800 || (0xE000 <= u && u <= 0x10FFFF)
}

/// The key that the code point `u` stands for.
pub open spec fn key_of(u: u32) -> Key {
    if 1 <= u && u <= 26 {
        ctrl_key_of(u)
    } else if u == 0x1B {
        Key::Esc
    } else if u == 0x7F {
        Key::Del
    } else {
        Key::Char(u as char)
    }
}

/// The control key for a byte in `0x01..=0x1A`.
pub open spec fn ctrl_key_of(u: u32) -> Key {
    if u == 1 {
        Key::CtrlA
    } else if u == 2 {
        Key::CtrlB
    } else if u == 3 {
        Key::CtrlC
    } else if u == 4 {
        Key::CtrlD
    } else if u == 5 {
        Key::CtrlE
    } else if u == 6 {
        Key::CtrlF
    } else if u == 7 {
        Key::CtrlG
    } else if u == 8 {
        Key::CtrlH
    } else if u == 9 {
        Key::CtrlI
    } else if u == 10 {
        Key::CtrlJ
    } else if u == 11 {
        Key::CtrlK
    } else if u == 12 {
        Key::CtrlL
    } else if u == 13 {
        Key::CtrlM
    } else if u == 14 {
        Key::CtrlN
    } else if u == 15 {
        Key::CtrlO
    } else if u == 16 {
        Key::CtrlP
    } else if u == 17 {
        Key::CtrlQ
    } else if u == 18 {
        Key::CtrlR
    } else if u == 19 {
        Key::CtrlS
    } else if u == 20 {
        Key::CtrlT
    } else if u == 21 {
        Key::CtrlU
    } else if u == 22 {
        Key::CtrlV
    } else if u == 23 {
        Key::CtrlW
    } else if u == 24 {
        Key::CtrlX
    } else if u == 25 {
        Key::CtrlY
    } else {
        Key::CtrlZ
    }
}

/// Relies on `char::from_u32` of core: `Some` exactly on Unicode scalar
/// values, and the returned character has the given code point.
pub assume_specification[ char::from_u32 ](u: u32) -> (r: Option<char>)
    ensures
        is_scalar_value(u) <==> r is Some,
        r matches Some(c) ==> c == (u as char) && c as u32 == u,
;

impl Key {
    /// Decode one code point into a key event.
    pub fn from_u32(u: u32) -> (k: Key)
        requires
            is_scalar_value(u),
        ensures
            k == key_of(u),
    {
        match u {
            1 => Key::CtrlA,
            2 => Key::CtrlB,
            3 => Key::CtrlC,
            4 => Key::CtrlD,
            5 => Key::CtrlE,
            6 => Key::CtrlF,
            7 => Key::CtrlG,
            8 => Key::CtrlH,
            9 => Key::CtrlI,
            10 => Key::CtrlJ,
            11 => Key::CtrlK,
            12 => Key::CtrlL,
            13 => Key::CtrlM,
            14 => Key::CtrlN,
            15 => Key::CtrlO,
            16 => Key::CtrlP,
            17 => Key::CtrlQ,
            18 => Key::CtrlR,
            19 => Key::CtrlS,
            20 => Key::CtrlT,
            21 => Key::CtrlU,
            22 => Key::CtrlV,
            23 => Key::CtrlW,
            24 => Key::CtrlX,
            25 => Key::CtrlY,
            26 => Key::CtrlZ,
            0x1B => Key::Esc,
            0x7F => Key::Del,
            _ => match char::from_u32(u) {
                Some(ch) => Key::Char(ch),
                None => vstd::pervasive::unreached(),
            },
        }
    }
}

} // verus!

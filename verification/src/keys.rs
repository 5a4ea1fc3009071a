//! Key codes and per-iteration button sampling.
//!
//! Five digital inputs are sampled once per loop iteration; simultaneous
//! presses resolve to a single active key by the fixed priority
//! Down > Up > Left > Right > Ok, an explicit tie-break policy.

use vstd::prelude::*;

verus! {

#[derive(Debug, PartialEq, Eq, Structural, Clone, Copy)]
pub enum KeyboardCodes {
    Up,
    Down,
    Left,
    Right,
    Okay,
}

/// The single wire character of a key: one of `u`, `d`, `l`, `r`, `o`.
pub open spec fn key_char(k: KeyboardCodes) -> char {
    match k {
        KeyboardCodes::Up => 'u',
        KeyboardCodes::Down => 'd',
        KeyboardCodes::Left => 'l',
        KeyboardCodes::Right => 'r',
        KeyboardCodes::Okay => 'o',
    }
}

impl KeyboardCodes {
    /// The wire character of the key, as an ASCII byte.
    pub fn as_u8(&self) -> (r: u8)
        ensures
            r == key_char(*self) as u8,
    {
        match self {
            KeyboardCodes::Up => 'u' as u8,
            KeyboardCodes::Down => 'd' as u8,
            KeyboardCodes::Left => 'l' as u8,
            KeyboardCodes::Right => 'r' as u8,
            KeyboardCodes::Okay => 'o' as u8,
        }
    }

    /// The wire character of the key.
    pub fn as_char(&self) -> (r: char)
        ensures
            r == key_char(*self),
    {
        match self {
            KeyboardCodes::Up => 'u',
            KeyboardCodes::Down => 'd',
            KeyboardCodes::Left => 'l',
            KeyboardCodes::Right => 'r',
            KeyboardCodes::Okay => 'o',
        }
    }
}

/// The five raw button levels of one loop iteration, `true` when asserted.
#[derive(Debug, PartialEq, Eq, Structural, Clone, Copy)]
pub struct ButtonSample {
    pub down: bool,
    pub up: bool,
    pub left: bool,
    pub right: bool,
    pub ok: bool,
}

/// The at-most-one active key of a sample, by fixed priority: when several
/// buttons are asserted at once, only the highest-priority one is visible.
pub open spec fn spec_active_key(s: ButtonSample) -> Option<KeyboardCodes> {
    if s.down {
        Some(KeyboardCodes::Down)
    } else if s.up {
        Some(KeyboardCodes::Up)
    } else if s.left {
        Some(KeyboardCodes::Left)
    } else if s.right {
        Some(KeyboardCodes::Right)
    } else if s.ok {
        Some(KeyboardCodes::Okay)
    } else {
        None
    }
}

/// Resolve a button sample to its active key.
pub fn active_key(s: &ButtonSample) -> (r: Option<KeyboardCodes>)
    ensures
        r == spec_active_key(*s),
{
    if s.down {
        Some(KeyboardCodes::Down)
    } else if s.up {
        Some(KeyboardCodes::Up)
    } else if s.left {
        Some(KeyboardCodes::Left)
    } else if s.right {
        Some(KeyboardCodes::Right)
    } else if s.ok {
        Some(KeyboardCodes::Okay)
    } else {
        None
    }
}

} // verus!

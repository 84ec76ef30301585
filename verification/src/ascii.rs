//! The ASCII characters that terminal sequences are made of.
use vstd::prelude::*;

verus! {

pub const BEL: u8 = 0x07;

pub const ESC: u8 = 0x1b;

/// Control and the right bracket, the chord that leaves a session.
pub const DETACH: u8 = 0x1d;

pub const DEL: u8 = 0x7f;

pub const SEMICOLON: u8 = 0x3b;

pub const COLON: u8 = 0x3a;

pub const LESS_THAN: u8 = 0x3c;

pub const GREATER_THAN: u8 = 0x3e;

pub const QUESTION_MARK: u8 = 0x3f;

pub const LEFT_BRACKET: u8 = 0x5b;

pub const BACKSLASH: u8 = 0x5c;

pub const RIGHT_BRACKET: u8 = 0x5d;

pub const LETTER_O: u8 = 0x4f;

} // verus!

//! ASCII bytes that the parsers look for.

use vstd::prelude::*;

verus! {

pub const SPACE: u8 = 0x20;
pub const BACKSPACE: u8 = 0x08;
pub const TAB: u8 = 0x09;
pub const NEWLINE: u8 = 0x0a;
pub const FORM_FEED: u8 = 0x0c;
pub const CARRIAGE_RETURN: u8 = 0x0d;
pub const DIGIT_0: u8 = 0x30;
pub const DIGIT_9: u8 = 0x39;
pub const QUOTE: u8 = 0x22;
pub const BACKSLASH: u8 = 0x5c;
pub const SLASH: u8 = 0x2f;
pub const COMMA: u8 = 0x2c;
pub const COLON: u8 = 0x3a;
pub const OPEN_BRACKET: u8 = 0x5b;
pub const CLOSE_BRACKET: u8 = 0x5d;
pub const OPEN_BRACE: u8 = 0x7b;
pub const CLOSE_BRACE: u8 = 0x7d;
pub const MINUS: u8 = 0x2d;
pub const PLUS: u8 = 0x2b;
pub const DOT: u8 = 0x2e;
pub const LOWER_A: u8 = 0x61;
pub const LOWER_B: u8 = 0x62;
pub const LOWER_E: u8 = 0x65;
pub const LOWER_F: u8 = 0x66;
pub const LOWER_L: u8 = 0x6c;
pub const LOWER_N: u8 = 0x6e;
pub const LOWER_R: u8 = 0x72;
pub const LOWER_S: u8 = 0x73;
pub const LOWER_T: u8 = 0x74;
pub const LOWER_U: u8 = 0x75;
pub const UPPER_A: u8 = 0x41;
pub const UPPER_E: u8 = 0x45;
pub const UPPER_F: u8 = 0x46;

} // verus!

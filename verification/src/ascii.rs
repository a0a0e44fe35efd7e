//! The bytes that the lexer and the paths tell apart, by name.

use vstd::prelude::*;

verus! {

pub const TAB: u8 = 0x09;

pub const LINE_FEED: u8 = 0x0a;

pub const FORM_FEED: u8 = 0x0c;

pub const CARRIAGE_RETURN: u8 = 0x0d;

pub const SPACE: u8 = 0x20;

/// `"`
pub const QUOTE: u8 = 0x22;

/// `*`
pub const STAR: u8 = 0x2a;

/// `.`
pub const DOT: u8 = 0x2e;

/// `/`
pub const SLASH: u8 = 0x2f;

/// `=`
pub const EQUALS: u8 = 0x3d;

/// `\`
pub const BACKSLASH: u8 = 0x5c;

/// `_`
pub const UNDERSCORE: u8 = 0x5f;

/// `d`
pub const LOWER_D: u8 = 0x64;

/// `e`
pub const LOWER_E: u8 = 0x65;

/// `i`
pub const LOWER_I: u8 = 0x69;

/// `n`
pub const LOWER_N: u8 = 0x6e;

/// `o`
pub const LOWER_O: u8 = 0x6f;

/// `t`
pub const LOWER_T: u8 = 0x74;

} // verus!

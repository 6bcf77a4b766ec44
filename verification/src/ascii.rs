//! The ASCII bytes that the grammar and the printer name.

use vstd::prelude::*;

verus! {

pub const SPACE: u8 = 32;
pub const BANG: u8 = 33;
pub const DQUOTE: u8 = 34;
pub const HASH: u8 = 35;
pub const DOLLAR: u8 = 36;
pub const QUOTE: u8 = 39;
pub const LPAREN: u8 = 40;
pub const RPAREN: u8 = 41;
pub const STAR: u8 = 42;
pub const PLUS: u8 = 43;
pub const MINUS: u8 = 45;
pub const DOT: u8 = 46;
pub const SLASH: u8 = 47;
pub const COLON: u8 = 58;
pub const SEMICOLON: u8 = 59;
pub const LESS: u8 = 60;
pub const EQUALS: u8 = 61;
pub const GREATER: u8 = 62;
pub const QUESTION: u8 = 63;
pub const AT: u8 = 64;
pub const UPPER_F: u8 = 70;
pub const UPPER_T: u8 = 84;
pub const LBRACKET: u8 = 91;
pub const RBRACKET: u8 = 93;
pub const UNDERSCORE: u8 = 95;
pub const LOWER_D: u8 = 100;
pub const LOWER_F: u8 = 102;
pub const LOWER_O: u8 = 111;
pub const LOWER_T: u8 = 116;
pub const LBRACE: u8 = 123;
pub const RBRACE: u8 = 125;
pub const NEWLINE: u8 = 10;

} // verus!

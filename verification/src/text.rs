//! Byte classification and byte constants shared by the name matcher and the
//! span locator.

use vstd::prelude::*;

verus! {

pub const SPACE: u8 = 32;
pub const TAB: u8 = 9;
pub const LINE_FEED: u8 = 10;
pub const VERTICAL_TAB: u8 = 11;
pub const FORM_FEED: u8 = 12;
pub const CARRIAGE_RETURN: u8 = 13;
pub const OPEN_PAREN: u8 = 40;
pub const ASTERISK: u8 = 42;
pub const SLASH: u8 = 47;
pub const SEMICOLON: u8 = 59;
pub const OPEN_BRACE: u8 = 123;
pub const CLOSE_BRACE: u8 = 125;

/// An identifier byte: ASCII letter, digit or underscore.
pub open spec fn is_ident_byte(b: u8) -> bool {
    (97 <= b && b <= 122)  // a-z
    || (65 <= b && b <= 90)  // A-Z
    || (48 <= b && b <= 57)  // 0-9
    || b == 95  // underscore
}

/// An ASCII whitespace byte: space, tab, line feed, vertical tab, form feed,
/// carriage return.
pub open spec fn is_space_byte(b: u8) -> bool {
    b == SPACE || b == TAB || b == LINE_FEED || b == VERTICAL_TAB || b == FORM_FEED
        || b == CARRIAGE_RETURN
}

/// Executable check for `is_ident_byte`.
pub fn ident_byte(b: u8) -> (r: bool)
    ensures
        r == is_ident_byte(b),
{
    (97 <= b && b <= 122) || (65 <= b && b <= 90) || (48 <= b && b <= 57) || b == 95
}

/// Executable check for `is_space_byte`.
pub fn space_byte(b: u8) -> (r: bool)
    ensures
        r == is_space_byte(b),
{
    b == SPACE || b == TAB || b == LINE_FEED || b == VERTICAL_TAB || b == FORM_FEED
        || b == CARRIAGE_RETURN
}

} // verus!

//! Character classification used by the lexer: whitespace, digits for each
//! radix, and Unicode identifier classes.

use vstd::prelude::*;

verus! {

/// The lexer's only whitespace character (newlines are handled separately).
pub open spec fn spec_is_whitespace(c: char) -> bool {
    c == ' '
}

/// Executable whitespace test.
pub fn is_whitespace(symbol: char) -> (r: bool)
    ensures
        r == spec_is_whitespace(symbol),
{
    symbol == ' '
}

/// A decimal digit `0`-`9`.
pub open spec fn is_dec_digit(c: char) -> bool {
    '0' <= c && c <= '9'
}

/// A binary digit `0` or `1`.
pub open spec fn is_bin_digit(c: char) -> bool {
    c == '0' || c == '1'
}

/// An octal digit `0`-`7`.
pub open spec fn is_oct_digit(c: char) -> bool {
    '0' <= c && c <= '7'
}

/// A hexadecimal digit `0`-`9`, `a`-`f` or `A`-`F`.
pub open spec fn is_hex_digit(c: char) -> bool {
    is_dec_digit(c) || ('a' <= c && c <= 'f') || ('A' <= c && c <= 'F')
}

/// Numeric value of a digit character; hex letters count from 10.
pub open spec fn digit_value(c: char) -> int {
    if is_dec_digit(c) {
        c as int - '0' as int
    } else if 'a' <= c && c <= 'f' {
        c as int - 'a' as int + 10
    } else if 'A' <= c && c <= 'F' {
        c as int - 'A' as int + 10
    } else {
        0
    }
}

/// Executable digit value.
pub fn digit_val(c: char) -> (v: u32)
    ensures
        v as int == digit_value(c),
{
    if '0' <= c && c <= '9' {
        c as u32 - 48
    } else if 'a' <= c && c <= 'f' {
        c as u32 - 97 + 10
    } else if 'A' <= c && c <= 'F' {
        c as u32 - 65 + 10
    } else {
        0
    }
}

/// Executable decimal digit test.
pub fn dec_digit(c: char) -> (r: bool)
    ensures
        r == is_dec_digit(c),
{
    '0' <= c && c <= '9'
}

/// Executable hexadecimal digit test.
pub fn hex_digit(c: char) -> (r: bool)
    ensures
        r == is_hex_digit(c),
{
    ('0' <= c && c <= '9') || ('a' <= c && c <= 'f') || ('A' <= c && c <= 'F')
}

/// Whether `c` begins an identifier: an XID-start character or `_`.
pub open spec fn spec_is_id_start(c: char) -> bool {
    c == '_' || is_xid_start(c)
}

/// The XID-start character class, as decided by the `unicode_xid` crate.
pub uninterp spec fn is_xid_start(c: char) -> bool;

/// The XID-continue character class, as decided by the `unicode_xid` crate.
pub uninterp spec fn is_xid_continue(c: char) -> bool;

/// Relies on unicode_xid::UnicodeXID::is_xid_start: a pure table lookup that
/// depends on the character alone.
#[verifier::external_body]
pub fn xid_start(c: char) -> (r: bool)
    ensures
        r == is_xid_start(c),
{
    unicode_xid::UnicodeXID::is_xid_start(c)
}

/// Relies on unicode_xid::UnicodeXID::is_xid_continue: a pure table lookup
/// that depends on the character alone.
#[verifier::external_body]
pub fn xid_continue(c: char) -> (r: bool)
    ensures
        r == is_xid_continue(c),
{
    unicode_xid::UnicodeXID::is_xid_continue(c)
}

/// Executable test for the first character of an identifier.
pub fn is_id(symbol: char) -> (r: bool)
    ensures
        r == spec_is_id_start(symbol),
{
    symbol == '_' || xid_start(symbol)
}

/// Executable test for a continuation character of an identifier.
pub fn is_id_continue(c: char) -> (r: bool)
    ensures
        r == is_xid_continue(c),
{
    xid_continue(c)
}

} // verus!

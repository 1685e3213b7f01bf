//! Names for the byte values that the grammar and the escaper speak of.

use vstd::prelude::*;

verus! {

/// `"`
pub const QUOT: u8 = 34;

/// `#`
pub const HASH: u8 = 35;

/// `%`
pub const PCT: u8 = 37;

/// `&`
pub const AMP: u8 = 38;

/// `'`
pub const APOS: u8 = 39;

/// `-`
pub const HYPH: u8 = 45;

/// `.`
pub const DOT: u8 = 46;

/// `/`
pub const SOL: u8 = 47;

/// `;`
pub const SEMI: u8 = 59;

/// `<`
pub const LT: u8 = 60;

/// `>`
pub const GT: u8 = 62;

/// `{`
pub const LBRACE: u8 = 123;

/// `}`
pub const RBRACE: u8 = 125;

/// `\`
pub const BSOL: u8 = 92;

/// Line feed.
pub const NL: u8 = 10;

/// Carriage return.
pub const CR: u8 = 13;

/// Horizontal tab.
pub const TAB: u8 = 9;

/// Form feed.
pub const FF: u8 = 12;

/// Space.
pub const SP: u8 = 32;

/// `0`; the ten decimal digits are `DIG0` to `DIG0 + 9`.
pub const DIG0: u8 = 48;

/// `a`; `a` to `f` continue the hexadecimal digits.
pub const LCA: u8 = 97;

/// The whitespace that trimming removes: space, tab, line feed, form
/// feed and carriage return. The set is deliberately ASCII. The grammar's
/// delimiters and trim markers are all ASCII, the model works on bytes,
/// and a byte of a multi-byte character is never in this set, so such
/// characters are always left untouched; a non-breaking space or another
/// Unicode space therefore counts as content, not as trimmable
/// whitespace.
pub open spec fn is_ws(b: u8) -> bool {
    b == SP || b == TAB || b == NL || b == CR || b == FF
}

/// Executable test for [`is_ws`].
pub fn byte_is_ws(b: u8) -> (r: bool)
    ensures
        r == is_ws(b),
{
    b == SP || b == TAB || b == NL || b == CR || b == FF
}

} // verus!

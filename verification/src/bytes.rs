//! Classes of bytes that the tokenizer tells apart.

use vstd::prelude::*;

verus! {

/// `\n`, which ends a line comment.
pub const NEWLINE: u8 = 0x0a;

/// `/`, which opens both forms of comment.
pub const SLASH: u8 = 0x2f;

/// `*`, the second byte of `/*` and the first of `*/`.
pub const STAR: u8 = 0x2a;

/// `;`, which ends a declaration.
pub const SEMICOLON: u8 = 0x3b;

/// The bytes that separate tokens: space, tab, newline and form feed.
pub open spec fn is_space(b: u8) -> bool {
    b == 0x20 || b == 0x09 || b == 0x0a || b == 0x0c
}

/// The bytes of an identifier: ASCII letters, ASCII digits and the underscore.
pub open spec fn is_ident_byte(b: u8) -> bool {
    (0x61 <= b <= 0x7a) || (0x41 <= b <= 0x5a) || (0x30 <= b <= 0x39) || b == 0x5f
}

/// The bytes that continue a UTF-8 sequence begun by an earlier byte.
pub open spec fn is_continuation(b: u8) -> bool {
    0x80 <= b <= 0xbf
}

/// The number of bytes that the UTF-8 sequence led by `b` announces; 1 for every
/// byte that leads no longer sequence.
pub open spec fn scalar_len(b: u8) -> int {
    if 0xc0 <= b <= 0xdf {
        2
    } else if 0xe0 <= b <= 0xef {
        3
    } else if 0xf0 <= b <= 0xf7 {
        4
    } else {
        1
    }
}

/// Tells whether `b` separates tokens.
pub fn space(b: u8) -> (r: bool)
    ensures
        r == is_space(b),
{
    b == 0x20 || b == 0x09 || b == 0x0a || b == 0x0c
}

/// Tells whether `b` may stand in an identifier.
pub fn ident_byte(b: u8) -> (r: bool)
    ensures
        r == is_ident_byte(b),
{
    (0x61 <= b && b <= 0x7a) || (0x41 <= b && b <= 0x5a) || (0x30 <= b && b <= 0x39) || b == 0x5f
}

/// Tells whether `b` continues a UTF-8 sequence.
pub fn continuation(b: u8) -> (r: bool)
    ensures
        r == is_continuation(b),
{
    0x80 <= b && b <= 0xbf
}

/// The length that the leading byte `b` announces for its UTF-8 sequence.
pub fn announced_len(b: u8) -> (r: usize)
    ensures
        r == scalar_len(b),
        1 <= r <= 4,
{
    if 0xc0 <= b && b <= 0xdf {
        2
    } else if 0xe0 <= b && b <= 0xef {
        3
    } else if 0xf0 <= b && b <= 0xf7 {
        4
    } else {
        1
    }
}

} // verus!

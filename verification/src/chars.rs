//! Per-character facts: UTF-8 encoding length, terminal display width, and
//! the word-character predicate used by word-wise movement.
use vstd::prelude::*;

verus! {

use vstd::utf8::char_is_scalar;
use vstd::utf8::encode_scalar;

/// Number of bytes in the UTF-8 encoding of `c`.
pub open spec fn char_utf8_len(c: char) -> int {
    if (c as u32) < 0x80 {
        1
    } else if (c as u32) < 0x800 {
        2
    } else if (c as u32) < 0x10000 {
        3
    } else {
        4
    }
}

/// `char_utf8_len` is between 1 and 4 and agrees with the length of the
/// UTF-8 encoding of the character.
pub broadcast proof fn lemma_char_utf8_len(c: char)
    ensures
        1 <= #[trigger] char_utf8_len(c) <= 4,
        char_utf8_len(c) == encode_scalar(c as u32).len(),
{
    char_is_scalar(c);
}

/// Computes the byte length of the UTF-8 encoding of `c`.
pub fn utf8_len(c: char) -> (n: usize)
    ensures
        n == char_utf8_len(c),
{
    let u = c as u32;
    if u < 0x80 {
        1
    } else if u < 0x800 {
        2
    } else if u < 0x10000 {
        3
    } else {
        4
    }
}

/// Display width of `c` in terminal cells, as the `unicode_width` crate
/// assigns it, with control characters (whose width it leaves undefined)
/// counting as zero cells.
pub uninterp spec fn char_width(c: char) -> nat;

/// Relies on unicode_width's `UnicodeWidthChar::width`: the width depends on
/// the character alone; it is at most 3 cells (only U+17D8 reaches 3), and
/// every character below U+1100 (where the East Asian wide blocks begin) is
/// at most one cell wide.
#[verifier::external_body]
pub(crate) fn display_width(c: char) -> (w: usize)
    ensures
        w == char_width(c),
        w <= 3,
        (c as u32) < 0x1100 ==> w <= 1,
{
    unicode_width::UnicodeWidthChar::width(c).unwrap_or(0)
}

/// A character no wider than its UTF-8 encoding is long; holds for every
/// character the width bounds of [`display_width`] describe.
pub open spec fn width_fits_encoding(c: char) -> bool {
    char_width(c) <= char_utf8_len(c)
}

/// The width bounds that `display_width` guarantees imply that a character's
/// display width never exceeds its UTF-8 byte length.
pub proof fn lemma_width_fits_encoding(c: char)
    requires
        char_width(c) <= 3,
        (c as u32) < 0x1100 ==> char_width(c) <= 1,
    ensures
        width_fits_encoding(c),
{
}

/// Relies on std's `char::to_string`: the returned string holds exactly the
/// one character.
#[verifier::external_body]
pub(crate) fn char_to_string(c: char) -> (s: String)
    ensures
        s@ == seq![c],
{
    c.to_string()
}

/// True of the characters that word-wise movement and deletion treat as part
/// of a word: alphanumeric characters, `-`, and `_`.
pub open spec fn is_word_char(c: char) -> bool {
    alphanumeric(c) || c == '-' || c == '_'
}

/// Whether `char::is_alphanumeric` classifies `c` as alphanumeric.
pub uninterp spec fn alphanumeric(c: char) -> bool;

/// Relies on std's `char::is_alphanumeric`: the classification depends on the
/// character alone.
#[verifier::external_body]
fn char_is_alphanumeric(c: char) -> (b: bool)
    ensures
        b == alphanumeric(c),
{
    c.is_alphanumeric()
}

/// Decides whether `c` is a word character.
pub fn is_word(c: char) -> (b: bool)
    ensures
        b == is_word_char(c),
{
    char_is_alphanumeric(c) || c == '-' || c == '_'
}

} // verus!

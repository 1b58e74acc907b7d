//! Conversion between byte offsets into UTF-8 text and two-dimensional
//! display positions.
//!
//! Text is modelled as a sequence of characters.  A byte offset is an offset
//! into the UTF-8 encoding of that sequence; a display position is a
//! `(column, line)` pair where the column is measured in terminal cells.
//! Both conversions are total: out-of-range offsets and positions clamp to
//! the nearest valid boundary.
use vstd::prelude::*;

verus! {

use crate::chars::char_utf8_len;
use crate::chars::char_width;
use crate::chars::display_width;
use crate::chars::lemma_char_utf8_len;
use crate::chars::lemma_width_fits_encoding;
use crate::chars::utf8_len;
use crate::vec2::Vec2;

/// Byte length of the UTF-8 encoding of `s`.
pub open spec fn byte_len(s: Seq<char>) -> int
    decreases s.len(),
{
    if s.len() == 0 {
        0
    } else {
        byte_len(s.drop_last()) + char_utf8_len(s.last())
    }
}

/// Number of newline characters in `s`.
pub open spec fn newline_count(s: Seq<char>) -> int
    decreases s.len(),
{
    if s.len() == 0 {
        0
    } else {
        newline_count(s.drop_last()) + if s.last() == '\n' {
            1int
        } else {
            0int
        }
    }
}

/// Total display width of the characters of `s`, in terminal cells.
pub open spec fn width_sum(s: Seq<char>) -> int
    decreases s.len(),
{
    if s.len() == 0 {
        0
    } else {
        width_sum(s.drop_last()) + char_width(s.last())
    }
}

/// Index of the first character of the line containing index `i`: the
/// position just after the last newline strictly before `i`, or 0.
pub open spec fn line_start(s: Seq<char>, i: int) -> int
    recommends
        0 <= i <= s.len(),
    decreases i,
{
    if i <= 0 {
        0
    } else if s[i - 1] == '\n' {
        i
    } else {
        line_start(s, i - 1)
    }
}

/// Number of leading characters of `s` whose UTF-8 encodings fit completely
/// within the first `b` bytes.  For `b` at or past the total byte length this
/// is `s.len()`, which makes byte offsets clamp to the end of the text.
pub open spec fn index_at_byte(s: Seq<char>, b: int) -> int
    decreases s.len(),
{
    if s.len() == 0 || char_utf8_len(s[0]) > b {
        0
    } else {
        1 + index_at_byte(s.drop_first(), b - char_utf8_len(s[0]))
    }
}

/// The character index at a byte offset lies within the text.
pub proof fn lemma_index_at_byte_bounds(s: Seq<char>, b: int)
    ensures
        0 <= index_at_byte(s, b) <= s.len(),
    decreases s.len(),
{
    if !(s.len() == 0 || char_utf8_len(s[0]) > b) {
        lemma_index_at_byte_bounds(s.drop_first(), b - char_utf8_len(s[0]));
    }
}

/// Line index of the display position of byte offset `b` in `s`.
pub open spec fn line_of_byte(s: Seq<char>, b: int) -> int {
    newline_count(s.take(index_at_byte(s, b)))
}

/// Column of the display position of byte offset `b` in `s`: the display
/// width of the characters between the start of the line and the offset.
pub open spec fn col_of_byte(s: Seq<char>, b: int) -> int {
    width_sum(s.subrange(line_start(s, index_at_byte(s, b)), index_at_byte(s, b)))
}

/// Index of the first newline at or after index `j`, or `s.len()` if there is
/// none.
pub open spec fn next_newline(s: Seq<char>, j: int) -> int
    recommends
        0 <= j <= s.len(),
    decreases s.len() - j,
{
    if j < 0 || j >= s.len() {
        s.len() as int
    } else if s[j] == '\n' {
        j
    } else {
        next_newline(s, j + 1)
    }
}

/// Index of the first character of line `y`, or `s.len()` if `s` has fewer
/// lines.
pub open spec fn nth_line_start(s: Seq<char>, y: int) -> int
    decreases y,
{
    if y <= 0 {
        0
    } else {
        let e = next_newline(s, nth_line_start(s, y - 1));
        if e >= s.len() {
            s.len() as int
        } else {
            e + 1
        }
    }
}

/// Index reached from `j` after consuming characters worth `x` cells of
/// display width: characters are consumed while width budget remains and
/// neither a newline nor the end of the text has been reached.
pub open spec fn advance_width(s: Seq<char>, j: int, x: int) -> int
    recommends
        0 <= j <= s.len(),
    decreases s.len() - j,
{
    if x <= 0 || j < 0 || j >= s.len() || s[j] == '\n' {
        j
    } else {
        advance_width(s, j + 1, x - char_width(s[j]))
    }
}

/// Character index that display position `(x, y)` resolves to in `s`.
pub open spec fn position_index(s: Seq<char>, x: int, y: int) -> int {
    advance_width(s, nth_line_start(s, y), x)
}

/// Byte offset that display position `(x, y)` resolves to in `s`.
pub open spec fn position_byte(s: Seq<char>, x: int, y: int) -> int {
    byte_len(s.take(position_index(s, x, y)))
}

/// The byte length of a character sequence is at least its character count
/// and at most four bytes per character.
pub proof fn lemma_byte_len_bounds(s: Seq<char>)
    ensures
        s.len() <= byte_len(s) <= 4 * s.len(),
    decreases s.len(),
{
    broadcast use lemma_char_utf8_len;

    if s.len() > 0 {
        lemma_byte_len_bounds(s.drop_last());
    }
}

/// Byte length is additive over splitting a sequence at index `i`.
pub proof fn lemma_byte_len_split(s: Seq<char>, i: int)
    requires
        0 <= i <= s.len(),
    ensures
        byte_len(s) == byte_len(s.take(i)) + byte_len(s.skip(i)),
    decreases s.len(),
{
    if i == s.len() {
        assert(s.take(i) =~= s);
        assert(s.skip(i) =~= Seq::<char>::empty());
    } else {
        let dl = s.drop_last();
        lemma_byte_len_split(dl, i);
        assert(dl.take(i) =~= s.take(i));
        assert(dl.skip(i) =~= s.skip(i).drop_last());
        assert(s.skip(i).last() == s.last());
        assert(s.skip(i).len() > 0);
    }
}

/// Newline counts are between zero and the character count.
pub proof fn lemma_newline_count_bounds(s: Seq<char>)
    ensures
        0 <= newline_count(s) <= s.len(),
    decreases s.len(),
{
    if s.len() > 0 {
        lemma_newline_count_bounds(s.drop_last());
    }
}

/// Newline counts are additive over splitting a sequence at index `i`.
pub proof fn lemma_newline_count_split(s: Seq<char>, i: int)
    requires
        0 <= i <= s.len(),
    ensures
        newline_count(s) == newline_count(s.take(i)) + newline_count(s.skip(i)),
    decreases s.len(),
{
    if i == s.len() {
        assert(s.take(i) =~= s);
        assert(s.skip(i) =~= Seq::<char>::empty());
    } else {
        let dl = s.drop_last();
        lemma_newline_count_split(dl, i);
        assert(dl.take(i) =~= s.take(i));
        assert(dl.skip(i) =~= s.skip(i).drop_last());
        assert(s.skip(i).last() == s.last());
        assert(s.skip(i).len() > 0);
    }
}

/// The byte length of a slice of `s` is the difference of the byte lengths
/// of the two prefixes, and lies between zero and the whole byte length.
pub proof fn lemma_byte_len_subrange(s: Seq<char>, a: int, b: int)
    requires
        0 <= a <= b <= s.len(),
    ensures
        byte_len(s.subrange(a, b)) == byte_len(s.take(b)) - byte_len(s.take(a)),
        0 <= byte_len(s.subrange(a, b)),
        byte_len(s.take(b)) <= byte_len(s),
{
    lemma_byte_len_split(s, b);
    lemma_byte_len_split(s.take(b), a);
    assert(s.take(b).take(a) =~= s.take(a));
    assert(s.take(b).skip(a) =~= s.subrange(a, b));
    lemma_byte_len_bounds(s.subrange(a, b));
    lemma_byte_len_bounds(s.skip(b));
}

/// `next_newline` stays between its argument and the end of the text.
pub proof fn lemma_next_newline_bounds(s: Seq<char>, j: int)
    requires
        0 <= j <= s.len(),
    ensures
        j <= next_newline(s, j) <= s.len(),
    decreases s.len() - j,
{
    if j < s.len() && s[j] != '\n' {
        lemma_next_newline_bounds(s, j + 1);
    }
}

/// Line starts lie within the text.
pub proof fn lemma_nth_line_start_bounds(s: Seq<char>, y: int)
    ensures
        0 <= nth_line_start(s, y) <= s.len(),
    decreases y,
{
    if y > 0 {
        lemma_nth_line_start_bounds(s, y - 1);
        lemma_next_newline_bounds(s, nth_line_start(s, y - 1));
    }
}

/// Computes the byte offset of character index `i`.
pub(crate) fn index_to_byte(s: &Vec<char>, i: usize) -> (r: usize)
    requires
        i <= s@.len(),
        byte_len(s@) <= usize::MAX,
    ensures
        r == byte_len(s@.take(i as int)),
{
    let ghost t = s@;
    let mut acc: usize = 0;
    let mut k: usize = 0;
    proof {
        assert(t.take(0) =~= Seq::<char>::empty());
    }
    while k < i
        invariant
            k <= i <= t.len(),
            acc == byte_len(t.take(k as int)),
            byte_len(t) <= usize::MAX,
            t == s@,
        decreases i - k,
    {
        let c = s[k];
        proof {
            assert(t.take(k as int + 1).drop_last() =~= t.take(k as int));
            assert(t.take(k as int + 1).last() == t[k as int]);
            lemma_byte_len_split(t, k as int + 1);
            lemma_byte_len_bounds(t.skip(k as int + 1));
        }
        acc = acc + utf8_len(c);
        k = k + 1;
    }
    acc
}

/// Counts the newline characters in `v`.
pub(crate) fn count_newlines(v: &Vec<char>) -> (r: usize)
    ensures
        r == newline_count(v@),
{
    let ghost t = v@;
    let mut r: usize = 0;
    let mut i: usize = 0;
    proof {
        assert(t.take(0) =~= Seq::<char>::empty());
    }
    while i < v.len()
        invariant
            i <= t.len(),
            r == newline_count(t.take(i as int)),
            r <= i,
            t == v@,
        decreases t.len() - i,
    {
        let c = v[i];
        proof {
            assert(t.take(i as int + 1).drop_last() =~= t.take(i as int));
            assert(t.take(i as int + 1).last() == t[i as int]);
        }
        if c == '\n' {
            r = r + 1;
        }
        i = i + 1;
    }
    proof {
        assert(t.take(t.len() as int) =~= t);
    }
    r
}

/// Computes the character index that display position `position` resolves
/// to: the start of line `position.y` advanced by `position.x` cells of
/// width, stopping at a newline or at the end of the text.
pub(crate) fn position_to_index(s: &Vec<char>, position: crate::vec2::Vec2) -> (r: usize)
    ensures
        r == position_index(s@, position.x as int, position.y as int),
        r <= s@.len(),
{
    let ghost t = s@;
    let n = s.len();
    let mut j: usize = 0;
    let mut k: usize = 0;
    loop
        invariant
            n == t.len(),
            j <= n,
            (k as int) <= position.y as int,
            (k as int) < position.y as int ==> nth_line_start(t, k as int) <= j as int
                && next_newline(t, nth_line_start(t, k as int)) == next_newline(t, j as int),
            k as int == position.y as int ==> j as int == nth_line_start(t, position.y as int),
            t == s@,
        ensures
            j <= n,
            j as int == nth_line_start(t, position.y as int),
        decreases n - j + (position.y - k),
    {
        if k >= position.y {
            break ;
        }
        if j >= n {
            proof {
                assert(next_newline(t, t.len() as int) == t.len());
                assert(nth_line_start(t, k as int + 1) == t.len());
                lemma_nth_line_start_saturates(t, k as int + 1, position.y as int);
            }
            break ;
        }
        let c = s[j];
        proof {
            if c == '\n' {
                assert(next_newline(t, j as int) == j as int);
                assert(nth_line_start(t, k as int + 1) == j as int + 1);
            } else {
                assert(next_newline(t, j as int) == next_newline(t, j as int + 1));
            }
        }
        if c == '\n' {
            k = k + 1;
        }
        j = j + 1;
    }
    let mut rem: usize = position.x;
    loop
        invariant
            n == t.len(),
            j <= n,
            position_index(t, position.x as int, position.y as int) == advance_width(
                t,
                j as int,
                rem as int,
            ),
            t == s@,
        ensures
            j <= n,
            j as int == position_index(t, position.x as int, position.y as int),
        decreases n - j,
    {
        if rem == 0 {
            break ;
        }
        if j >= n {
            break ;
        }
        let c = s[j];
        if c == '\n' {
            break ;
        }
        let w = display_width(c);
        proof {
            assert(advance_width(t, j as int, rem as int) == advance_width(
                t,
                j as int + 1,
                rem as int - char_width(t[j as int]),
            ));
            if w >= rem {
                assert(advance_width(t, j as int + 1, rem as int - char_width(t[j as int]))
                    == j as int + 1);
                assert(advance_width(t, j as int + 1, 0) == j as int + 1);
            }
        }
        if w >= rem {
            rem = 0;
        } else {
            rem = rem - w;
        }
        j = j + 1;
    }
    j
}

/// Converts between byte offsets into a text and `(column, line)` display
/// positions.  Both directions are total; out-of-range values clamp.
pub trait StringInfo {
    /// The text being measured, as a sequence of characters.
    spec fn text(&self) -> Seq<char>;

    /// Display position of byte offset `byte`, clamped to the end of the
    /// text: the line is the number of newlines before the offset, the
    /// column the display width of the characters between the start of that
    /// line and the offset.
    fn byte_to_position(&self, byte: usize) -> (r: Vec2)
        ensures
            r.x == col_of_byte(self.text(), byte as int),
            r.y == line_of_byte(self.text(), byte as int),
    ;

    /// Byte offset of display position `position`.  Columns past the end of
    /// a line clamp to the end of that line; lines past the end of the text
    /// clamp to the end of the text.
    fn position_to_byte(&self, position: Vec2) -> (r: usize)
        requires
            byte_len(self.text()) <= usize::MAX,
        ensures
            r == position_byte(self.text(), position.x as int, position.y as int),
    ;
}

impl StringInfo for Vec<char> {
    open spec fn text(&self) -> Seq<char> {
        self@
    }

    fn byte_to_position(&self, byte: usize) -> (r: Vec2) {
        let ghost s = self@;
        let n = self.len();
        let mut i: usize = 0;
        let mut acc: usize = 0;
        let mut line: usize = 0;
        let mut col: usize = 0;
        proof {
            assert(s.skip(0) =~= s);
            assert(s.take(0) =~= Seq::<char>::empty());
            assert(s.subrange(0, 0) =~= Seq::<char>::empty());
        }
        loop
            invariant
                n == s.len(),
                i <= n,
                acc == byte_len(s.take(i as int)),
                acc <= byte,
                index_at_byte(s, byte as int) == i as int + index_at_byte(
                    s.skip(i as int),
                    byte as int - acc as int,
                ),
                line == newline_count(s.take(i as int)),
                line <= i,
                col == width_sum(s.subrange(line_start(s, i as int), i as int)),
                col <= acc,
                s == self@,
            ensures
                i as int == index_at_byte(s, byte as int),
                line == newline_count(s.take(i as int)),
                col == width_sum(s.subrange(line_start(s, i as int), i as int)),
            decreases n - i,
        {
            if i >= n {
                proof {
                    assert(s.skip(i as int) =~= Seq::<char>::empty());
                }
                break ;
            }
            let c = self[i];
            let cl = utf8_len(c);
            proof {
                assert(s.skip(i as int)[0] == s[i as int]);
                assert(s.skip(i as int).len() > 0);
            }
            if cl > byte - acc {
                break ;
            }
            let w = display_width(c);
            proof {
                lemma_width_fits_encoding(c);
                assert(s.take(i as int + 1).drop_last() =~= s.take(i as int));
                assert(s.take(i as int + 1).last() == s[i as int]);
                assert(s.skip(i as int).drop_first() =~= s.skip(i as int + 1));
                if c == '\n' {
                    assert(line_start(s, i as int + 1) == i as int + 1);
                    assert(s.subrange(i as int + 1, i as int + 1) =~= Seq::<char>::empty());
                } else {
                    assert(line_start(s, i as int + 1) == line_start(s, i as int));
                    let ls = line_start(s, i as int);
                    lemma_line_start_bounds(s, i as int);
                    assert(s.subrange(ls, i as int + 1).drop_last() =~= s.subrange(ls, i as int));
                    assert(s.subrange(ls, i as int + 1).last() == s[i as int]);
                }
            }
            if c == '\n' {
                line = line + 1;
                col = 0;
            } else {
                col = col + w;
            }
            acc = acc + cl;
            i = i + 1;
        }
        Vec2 { x: col, y: line }
    }

    fn position_to_byte(&self, position: Vec2) -> (r: usize) {
        let i = position_to_index(self, position);
        index_to_byte(self, i)
    }
}

/// The start of the line containing `i` lies between 0 and `i`, and no
/// newline occurs between it and `i`.
pub proof fn lemma_line_start_bounds(s: Seq<char>, i: int)
    requires
        0 <= i <= s.len(),
    ensures
        0 <= line_start(s, i) <= i,
        forall|k: int| line_start(s, i) <= k < i ==> s[k] != '\n',
        line_start(s, i) == 0 || s[line_start(s, i) - 1] == '\n',
    decreases i,
{
    if i > 0 && s[i - 1] != '\n' {
        lemma_line_start_bounds(s, i - 1);
    }
}

/// Once the lines of `s` are exhausted, every later line start is the end of
/// the text.
proof fn lemma_nth_line_start_saturates(s: Seq<char>, a: int, b: int)
    requires
        a <= b,
        nth_line_start(s, a) == s.len(),
    ensures
        nth_line_start(s, b) == s.len(),
    decreases b - a,
{
    if a < b {
        assert(next_newline(s, s.len() as int) == s.len());
        lemma_nth_line_start_saturates(s, a + 1, b);
    }
}


/// Byte length, newline count, and display width of a one-character
/// sequence.
pub proof fn lemma_singleton_counts(c: char)
    ensures
        byte_len(seq![c]) == char_utf8_len(c),
        newline_count(seq![c]) == if c == '\n' {
            1int
        } else {
            0int
        },
        width_sum(seq![c]) == char_width(c),
{
    assert(seq![c].drop_last() =~= Seq::<char>::empty());
    assert(seq![c].last() == c);
    assert(byte_len(Seq::<char>::empty()) == 0);
    assert(newline_count(Seq::<char>::empty()) == 0);
    assert(width_sum(Seq::<char>::empty()) == 0);
    assert(seq![c].len() == 1);
}

/// Display widths sum to a non-negative total.
pub proof fn lemma_width_sum_nonneg(s: Seq<char>)
    ensures
        width_sum(s) >= 0,
    decreases s.len(),
{
    if s.len() > 0 {
        lemma_width_sum_nonneg(s.drop_last());
    }
}

/// Display width is additive over splitting a sequence at index `i`.
pub proof fn lemma_width_sum_split(s: Seq<char>, i: int)
    requires
        0 <= i <= s.len(),
    ensures
        width_sum(s) == width_sum(s.take(i)) + width_sum(s.skip(i)),
    decreases s.len(),
{
    if i == s.len() {
        assert(s.take(i) =~= s);
        assert(s.skip(i) =~= Seq::<char>::empty());
    } else {
        let dl = s.drop_last();
        lemma_width_sum_split(dl, i);
        assert(dl.take(i) =~= s.take(i));
        assert(dl.skip(i) =~= s.skip(i).drop_last());
        assert(s.skip(i).last() == s.last());
        assert(s.skip(i).len() > 0);
    }
}

/// A newline-free stretch contributes no newlines.
proof fn lemma_no_newlines(s: Seq<char>, a: int, b: int)
    requires
        0 <= a <= b <= s.len(),
        forall|k: int| a <= k < b ==> s[k] != '\n',
    ensures
        newline_count(s.subrange(a, b)) == 0,
    decreases b - a,
{
    if a < b {
        lemma_no_newlines(s, a, b - 1);
        assert(s.subrange(a, b).drop_last() =~= s.subrange(a, b - 1));
        assert(s.subrange(a, b).last() == s[b - 1]);
    }
}

/// The first newline at or after the start of a newline-free stretch is the
/// character just past it (or the end of the text, if the stretch runs to
/// the end).
proof fn lemma_next_newline_exact(s: Seq<char>, a: int, p: int)
    requires
        0 <= a <= p <= s.len(),
        forall|k: int| a <= k < p ==> s[k] != '\n',
        p < s.len() ==> s[p] == '\n',
    ensures
        next_newline(s, a) == if p < s.len() {
            p
        } else {
            s.len() as int
        },
    decreases p - a,
{
    if a < p {
        lemma_next_newline_exact(s, a + 1, p);
    }
}

/// Offsets at or past the total byte length resolve to the end of the text.
proof fn lemma_index_at_byte_full(s: Seq<char>, b: int)
    requires
        b >= byte_len(s),
    ensures
        index_at_byte(s, b) == s.len(),
    decreases s.len(),
{
    broadcast use crate::chars::lemma_char_utf8_len;

    if s.len() > 0 {
        lemma_byte_len_split(s, 1);
        assert(s.take(1) =~= seq![s[0]]);
        lemma_singleton_counts(s[0]);
        lemma_byte_len_bounds(s.skip(1));
        assert(s.skip(1) =~= s.drop_first());
        lemma_index_at_byte_full(s.drop_first(), b - char_utf8_len(s[0]));
    }
}

/// A boundary's byte offset resolves back to the boundary's index.
proof fn lemma_index_at_byte_exact(s: Seq<char>, i: int)
    requires
        0 <= i <= s.len(),
    ensures
        index_at_byte(s, byte_len(s.take(i))) == i,
    decreases i,
{
    broadcast use crate::chars::lemma_char_utf8_len;

    if i == 0 {
        assert(s.take(0) =~= Seq::<char>::empty());
    } else {
        lemma_byte_len_split(s.take(i), 1);
        assert(s.take(i).take(1) =~= seq![s[0]]);
        lemma_singleton_counts(s[0]);
        assert(s.take(i).skip(1) =~= s.drop_first().take(i - 1));
        lemma_byte_len_bounds(s.drop_first().take(i - 1));
        lemma_index_at_byte_exact(s.drop_first(), i - 1);
    }
}

/// The numbered start of the line containing a boundary is the boundary's
/// line start.
proof fn lemma_nth_line_start_of_index(s: Seq<char>, i: int)
    requires
        0 <= i <= s.len(),
    ensures
        nth_line_start(s, newline_count(s.take(i))) == line_start(s, i),
    decreases i,
{
    let y = newline_count(s.take(i));
    let ls = line_start(s, i);
    lemma_line_start_bounds(s, i);
    lemma_newline_count_bounds(s.take(i));
    lemma_newline_count_split(s.take(i), ls);
    assert(s.take(i).take(ls) =~= s.take(ls));
    assert(s.take(i).skip(ls) =~= s.subrange(ls, i));
    lemma_no_newlines(s, ls, i);
    if ls == 0 {
        assert(s.take(0) =~= Seq::<char>::empty());
        assert(newline_count(Seq::<char>::empty()) == 0);
        assert(y == 0);
    } else {
        let p = ls - 1;
        assert(s.take(ls).drop_last() =~= s.take(p));
        assert(s.take(ls).last() == s[p]);
        lemma_newline_count_bounds(s.take(p));
        assert(y == newline_count(s.take(p)) + 1);
        lemma_nth_line_start_of_index(s, p);
        let ls2 = line_start(s, p);
        lemma_line_start_bounds(s, p);
        lemma_next_newline_exact(s, ls2, p);
        assert(nth_line_start(s, y - 1) == ls2);
        assert(next_newline(s, ls2) == p);
        assert(nth_line_start(s, y) == p + 1) by {
            reveal_with_fuel(nth_line_start, 2);
        }
    }
}

/// Consuming exactly the width of a newline-free run of visible characters
/// lands at its end.
proof fn lemma_advance_width_exact(s: Seq<char>, j: int, i: int)
    requires
        0 <= j <= i <= s.len(),
        forall|k: int| j <= k < i ==> s[k] != '\n',
        forall|k: int| j <= k < i ==> char_width(s[k]) >= 1,
    ensures
        advance_width(s, j, width_sum(s.subrange(j, i))) == i,
    decreases i - j,
{
    if j == i {
        assert(s.subrange(j, i) =~= Seq::<char>::empty());
    } else {
        lemma_width_sum_split(s.subrange(j, i), 1);
        assert(s.subrange(j, i).take(1) =~= seq![s[j]]);
        lemma_singleton_counts(s[j]);
        assert(s.subrange(j, i).skip(1) =~= s.subrange(j + 1, i));
        lemma_width_sum_nonneg(s.subrange(j + 1, i));
        lemma_advance_width_exact(s, j + 1, i);
    }
}

/// A width budget larger than a whole line's width consumes the line.
proof fn lemma_advance_width_past(s: Seq<char>, j: int, x: int)
    requires
        0 <= j <= s.len(),
        x > width_sum(s.subrange(j, next_newline(s, j))),
    ensures
        advance_width(s, j, x) == next_newline(s, j),
    decreases s.len() - j,
{
    lemma_next_newline_bounds(s, j);
    let nn = next_newline(s, j);
    if j >= s.len() || s[j] == '\n' {
        assert(s.subrange(j, j) =~= Seq::<char>::empty());
    } else {
        assert(next_newline(s, j) == next_newline(s, j + 1));
        lemma_next_newline_bounds(s, j + 1);
        lemma_width_sum_split(s.subrange(j, nn), 1);
        assert(s.subrange(j, nn).take(1) =~= seq![s[j]]);
        lemma_singleton_counts(s[j]);
        assert(s.subrange(j, nn).skip(1) =~= s.subrange(j + 1, nn));
        lemma_width_sum_nonneg(s.subrange(j + 1, nn));
        lemma_advance_width_past(s, j + 1, x - char_width(s[j]));
    }
}

/// Round trip: converting a character boundary's byte offset to a display
/// position and back returns the same offset, provided every character
/// between the start of the boundary's line and the boundary occupies at
/// least one display cell.  (A zero-width character before the boundary
/// makes two boundaries share a column, and the conversion then resolves to
/// the leftmost of them.)
pub proof fn lemma_position_round_trip(s: Seq<char>, i: int)
    requires
        0 <= i <= s.len(),
    ensures
        (forall|k: int| line_start(s, i) <= k < i ==> char_width(s[k]) >= 1) ==> position_byte(
            s,
            col_of_byte(s, byte_len(s.take(i))),
            line_of_byte(s, byte_len(s.take(i))),
        ) == byte_len(s.take(i)),
{
    if (forall|k: int| line_start(s, i) <= k < i ==> char_width(s[k]) >= 1) {
        lemma_index_at_byte_exact(s, i);
        lemma_nth_line_start_of_index(s, i);
        lemma_line_start_bounds(s, i);
        lemma_advance_width_exact(s, line_start(s, i), i);
    }
}

/// Byte offsets past the end of the content behave exactly as the offset of
/// the end of the content.
pub proof fn lemma_byte_offset_clamps(s: Seq<char>, b: int)
    requires
        b >= byte_len(s),
    ensures
        line_of_byte(s, b) == line_of_byte(s, byte_len(s)),
        col_of_byte(s, b) == col_of_byte(s, byte_len(s)),
{
    lemma_byte_len_bounds(s);
    lemma_index_at_byte_full(s, b);
    lemma_index_at_byte_full(s, byte_len(s));
}

/// A line index past the content's line count resolves to the end of the
/// content, whatever the column.
pub proof fn lemma_line_clamps(s: Seq<char>, x: int, y: int)
    requires
        y > newline_count(s),
    ensures
        position_byte(s, x, y) == byte_len(s),
{
    assert(s.take(s.len() as int) =~= s);
    lemma_newline_count_bounds(s);
    lemma_nth_line_start_of_index(s, s.len() as int);
    let ls = line_start(s, s.len() as int);
    lemma_line_start_bounds(s, s.len() as int);
    lemma_next_newline_exact(s, ls, s.len() as int);
    assert(nth_line_start(s, newline_count(s)) == ls);
    assert(next_newline(s, ls) == s.len());
    assert(nth_line_start(s, newline_count(s) + 1) == s.len());
    lemma_nth_line_start_saturates(s, newline_count(s) + 1, y);
}

/// A column past the width of its line resolves to the end of that line:
/// the next newline, or the end of the content on the last line.
pub proof fn lemma_column_clamps(s: Seq<char>, x: int, y: int)
    requires
        x > width_sum(s.subrange(nth_line_start(s, y), next_newline(s, nth_line_start(s, y)))),
    ensures
        position_index(s, x, y) == next_newline(s, nth_line_start(s, y)),
        position_byte(s, x, y) == byte_len(s.take(next_newline(s, nth_line_start(s, y)))),
{
    lemma_nth_line_start_bounds(s, y);
    lemma_advance_width_past(s, nth_line_start(s, y), x);
}

} // verus!

//! The editable text buffer: content, cursor, and the editing operations the
//! embedding event loop drives.
use vstd::prelude::*;

verus! {

use core::ops::ControlFlow;

use crate::chars::char_utf8_len;
use crate::chars::is_word;
use crate::chars::is_word_char;
use crate::chars::utf8_len;
use crate::event::EditorCommand;
use crate::event::Signal;
use crate::string_info::byte_len;
use crate::string_info::col_of_byte;
use crate::string_info::index_to_byte;
use crate::string_info::lemma_byte_len_bounds;
use crate::string_info::lemma_byte_len_split;
use crate::string_info::lemma_byte_len_subrange;
use crate::string_info::lemma_index_at_byte_bounds;
use crate::string_info::lemma_newline_count_bounds;
use crate::string_info::lemma_newline_count_split;
use crate::string_info::lemma_singleton_counts;
use crate::string_info::line_of_byte;
use crate::string_info::newline_count;
use crate::string_info::position_index;
use crate::string_info::position_to_index;
use crate::string_info::StringInfo;
use crate::vec2::Vec2;
use vstd::string::StringExecFns;

/// Index just past the run of word characters starting at `j`.
pub open spec fn scan_word_forward(s: Seq<char>, j: int) -> int
    recommends
        0 <= j <= s.len(),
    decreases s.len() - j,
{
    if j < 0 || j >= s.len() || !is_word_char(s[j]) {
        j
    } else {
        scan_word_forward(s, j + 1)
    }
}

/// Cursor index reached by moving right one character (when possible) and
/// then past the word characters that immediately follow.
pub open spec fn next_word_index(s: Seq<char>, i: int) -> int
    recommends
        0 <= i <= s.len(),
{
    if i >= s.len() {
        i
    } else {
        scan_word_forward(s, i + 1)
    }
}

/// Index at the start of the run of word characters ending at `j`.
pub open spec fn scan_word_back(s: Seq<char>, j: int) -> int
    recommends
        0 <= j <= s.len(),
    decreases j,
{
    if j <= 0 || !is_word_char(s[j - 1]) {
        j
    } else {
        scan_word_back(s, j - 1)
    }
}

/// Cursor index reached by moving left one character (when possible) and
/// then past the word characters that immediately precede the new cursor.
pub open spec fn prev_word_index(s: Seq<char>, i: int) -> int
    recommends
        0 <= i <= s.len(),
{
    if i <= 0 {
        0
    } else {
        scan_word_back(s, i - 1)
    }
}

/// Forward word scans stay between their start and the end of the text.
pub proof fn lemma_scan_word_forward_bounds(s: Seq<char>, j: int)
    requires
        0 <= j <= s.len(),
    ensures
        j <= scan_word_forward(s, j) <= s.len(),
    decreases s.len() - j,
{
    if j < s.len() && is_word_char(s[j]) {
        lemma_scan_word_forward_bounds(s, j + 1);
    }
}

/// Backward word scans stay between zero and their start.
pub proof fn lemma_scan_word_back_bounds(s: Seq<char>, j: int)
    requires
        0 <= j,
    ensures
        0 <= scan_word_back(s, j) <= j,
    decreases j,
{
    if j > 0 && is_word_char(s[j - 1]) {
        lemma_scan_word_back_bounds(s, j - 1);
    }
}

/// Inserting a character adds its byte length, and one newline if it is one.
proof fn lemma_insert_counts(s: Seq<char>, i: int, c: char)
    requires
        0 <= i <= s.len(),
    ensures
        byte_len(s.insert(i, c)) == byte_len(s) + char_utf8_len(c),
        newline_count(s.insert(i, c)) == newline_count(s) + if c == '\n' {
            1int
        } else {
            0int
        },
{
    let t = s.insert(i, c);
    lemma_byte_len_split(t, i);
    lemma_newline_count_split(t, i);
    lemma_byte_len_split(t.skip(i), 1);
    lemma_newline_count_split(t.skip(i), 1);
    lemma_byte_len_split(s, i);
    lemma_newline_count_split(s, i);
    lemma_singleton_counts(c);
    assert(t.take(i) =~= s.take(i));
    assert(t.skip(i).take(1) =~= seq![c]);
    assert(t.skip(i).skip(1) =~= s.skip(i));
}

/// Removing a character subtracts its byte length, and one newline if it is
/// one; a text holding a newline holds at least one.
proof fn lemma_remove_counts(s: Seq<char>, i: int)
    requires
        0 <= i < s.len(),
    ensures
        byte_len(s.remove(i)) == byte_len(s) - char_utf8_len(s[i]),
        newline_count(s.remove(i)) == newline_count(s) - if s[i] == '\n' {
            1int
        } else {
            0int
        },
        s[i] == '\n' ==> newline_count(s) >= 1,
{
    let t = s.remove(i);
    lemma_byte_len_split(t, i);
    lemma_newline_count_split(t, i);
    lemma_byte_len_split(s, i);
    lemma_newline_count_split(s, i);
    lemma_byte_len_split(s.skip(i), 1);
    lemma_newline_count_split(s.skip(i), 1);
    lemma_singleton_counts(s[i]);
    assert(t.take(i) =~= s.take(i));
    assert(t.skip(i) =~= s.skip(i).skip(1));
    assert(s.skip(i).take(1) =~= seq![s[i]]);
    lemma_newline_count_bounds(t);
    lemma_newline_count_bounds(t.take(i));
    lemma_newline_count_bounds(t.skip(i));
}

/// The editable buffer: its content as a sequence of characters, the number
/// of lines, and the cursor.
///
/// The cursor is held as a character index; the byte offset of the cursor
/// within the UTF-8 encoding of the content, which is always on a character
/// boundary, is exposed through [`Editor::cursor_byte`].
pub struct Editor {
    content: Vec<char>,
    num_lines: usize,
    cursor: usize,
}

impl Editor {
    /// The content, as a sequence of characters.
    pub closed spec fn text(&self) -> Seq<char> {
        self.content@
    }

    /// The cursor, as a character index into the content.
    pub closed spec fn cursor_index(&self) -> int {
        self.cursor as int
    }

    /// The byte offset of the cursor within the UTF-8 encoding of the
    /// content.
    pub open spec fn cursor_offset(&self) -> int {
        byte_len(self.text().take(self.cursor_index()))
    }

    /// Well-formedness: the cursor lies within the content, the line count
    /// is the newline count plus one, and the content's UTF-8 encoding fits
    /// in a byte-addressed text.
    pub closed spec fn wf(&self) -> bool {
        &&& 0 <= self.cursor_index() <= self.text().len()
        &&& self.num_lines == newline_count(self.text()) + 1
        &&& byte_len(self.text()) < usize::MAX
    }

    /// Line count of the content: its newline count plus one.
    pub closed spec fn line_count(&self) -> int {
        self.num_lines as int
    }

    /// Creates an empty buffer with the cursor at the start.
    pub fn new() -> (r: Editor)
        ensures
            r.text() == Seq::<char>::empty(),
            r.cursor_index() == 0,
            r.line_count() == 1,
            r.wf(),
    {
        Editor { content: Vec::new(), num_lines: 1, cursor: 0 }
    }

    /// Inserts `ch` at the cursor and moves the cursor just past it.  The
    /// line count grows by one if `ch` is a newline.
    pub fn insert_char(&mut self, ch: char)
        requires
            old(self).wf(),
            byte_len(old(self).text()) + char_utf8_len(ch) < usize::MAX,
        ensures
            final(self).wf(),
            final(self).text() == old(self).text().insert(old(self).cursor_index(), ch),
            final(self).cursor_index() == old(self).cursor_index() + 1,
            final(self).line_count() == old(self).line_count() + if ch == '\n' {
                1int
            } else {
                0int
            },
    {
        proof {
            lemma_insert_counts(self.text(), self.cursor_index(), ch);
            lemma_newline_count_bounds(self.text().insert(self.cursor_index(), ch));
            lemma_byte_len_bounds(self.text().insert(self.cursor_index(), ch));
        }
        self.content.insert(self.cursor, ch);
        self.cursor = self.cursor + 1;
        if ch == '\n' {
            self.num_lines = self.num_lines + 1;
        }
    }

    /// Splices `s` in at the cursor, moves the cursor past it, and grows the
    /// line count by the newlines inserted.
    pub fn insert_str(&mut self, s: &str)
        requires
            old(self).wf(),
            byte_len(old(self).text()) + byte_len(s@) < usize::MAX,
        ensures
            final(self).wf(),
            final(self).text() == old(self).text().take(old(self).cursor_index()) + s@ + old(self).text().skip(old(self).cursor_index()),
            final(self).cursor_index() == old(self).cursor_index() + s@.len(),
            final(self).line_count() == old(self).line_count() + newline_count(s@),
    {
        let ghost t0 = self.text();
        let ghost c0 = self.cursor_index();
        let ghost l0 = self.line_count();
        let n = s.unicode_len();
        let mut i: usize = 0;
        proof {
            assert(s@.take(0) =~= Seq::<char>::empty());
            assert(t0.take(c0) + s@.take(0) + t0.skip(c0) =~= t0);
        }
        while i < n
            invariant
                i <= n,
                n == s@.len(),
                self.wf(),
                0 <= c0 <= t0.len(),
                self.text() == t0.take(c0) + s@.take(i as int) + t0.skip(c0),
                self.cursor_index() == c0 + i,
                byte_len(self.text()) == byte_len(t0) + byte_len(s@.take(i as int)),
                byte_len(t0) + byte_len(s@) < usize::MAX,
                self.line_count() == l0 + newline_count(s@.take(i as int)),
            decreases n - i,
        {
            let c = s.get_char(i);
            proof {
                assert(s@.take(i as int + 1).drop_last() =~= s@.take(i as int));
                assert(s@.take(i as int + 1).last() == s@[i as int]);
                lemma_byte_len_subrange(s@, 0, i as int + 1);
            }
            proof {
                lemma_insert_counts(t0.take(c0) + s@.take(i as int) + t0.skip(c0), c0 + i, c);
            }
            self.insert_char(c);
            proof {
                assert((t0.take(c0) + s@.take(i as int) + t0.skip(c0)).insert(c0 + i, c) =~= t0.take(
                    c0,
                ) + s@.take(i as int + 1) + t0.skip(c0));
            }
            i = i + 1;
        }
        proof {
            assert(s@.take(n as int) =~= s@);
        }
    }

    /// Removes the character at the cursor, if any; the cursor does not
    /// move, and the line count shrinks by one if a newline was removed.
    /// No-op at the end of the content.
    pub fn delete_char(&mut self)
        requires
            old(self).wf(),
        ensures
            final(self).wf(),
            final(self).cursor_index() == old(self).cursor_index(),
            old(self).cursor_index() < old(self).text().len() ==> final(self).text() == old(self).text().remove(old(self).cursor_index()) && final(self).line_count() == old(self).line_count() - (if old(self).text()[old(self).cursor_index()] == '\n' {
                1int
            } else {
                0int
            }),
            old(self).cursor_index() >= old(self).text().len() ==> final(self).text() == old(self).text() && final(self).line_count() == old(self).line_count(),
    {
        if self.cursor < self.content.len() {
            proof {
                lemma_remove_counts(self.text(), self.cursor_index());
            }
            let c = self.content.remove(self.cursor);
            if c == '\n' {
                self.num_lines = self.num_lines - 1;
            }
        }
    }

    /// Moves the cursor left one character and removes the character there,
    /// if the move was possible.  No-op at the start of the content.
    pub fn backspace_char(&mut self)
        requires
            old(self).wf(),
        ensures
            final(self).wf(),
            old(self).cursor_index() > 0 ==> final(self).text() == old(self).text().remove(
                old(self).cursor_index() - 1,
            ) && final(self).cursor_index() == old(self).cursor_index() - 1 && final(self).line_count() == old(self).line_count() - (if old(self).text()[old(self).cursor_index()
                - 1] == '\n' {
                1int
            } else {
                0int
            }),
            old(self).cursor_index() == 0 ==> final(self).text() == old(self).text() && final(self).cursor_index() == 0 && final(self).line_count() == old(self).line_count(),
    {
        if self.move_left() {
            self.delete_char();
        }
    }

    /// Removes the span from the cursor to the next word boundary (the span
    /// a [`Editor::move_right_word`] would cross); the cursor stays at the
    /// start of the span.
    pub fn delete_word(&mut self)
        requires
            old(self).wf(),
        ensures
            final(self).wf(),
            final(self).text() == old(self).text().take(old(self).cursor_index()) + old(self).text().skip(next_word_index(old(self).text(), old(self).cursor_index())),
            final(self).cursor_index() == old(self).cursor_index(),
            final(self).line_count() == old(self).line_count() - newline_count(
                old(self).text().subrange(
                    old(self).cursor_index(),
                    next_word_index(old(self).text(), old(self).cursor_index()),
                ),
            ),
    {
        let ghost s = self.text();
        let ghost c0 = self.cursor_index();
        let ghost l0 = self.line_count();
        let start = self.cursor;
        self.move_right_word();
        let ghost e = self.cursor_index();
        proof {
            if c0 < s.len() {
                lemma_scan_word_forward_bounds(s, c0 + 1);
            }
            assert(s.take(c0) + s.skip(c0) =~= s);
        }
        loop
            invariant
                self.wf(),
                start as int == c0,
                0 <= c0 <= e <= s.len(),
                c0 <= self.cursor_index() <= e,
                self.text() == s.take(c0) + s.skip(c0 + (e - self.cursor_index())),
            ensures
                self.wf(),
                self.cursor_index() == c0,
                self.text() == s.take(c0) + s.skip(e),
            decreases self.cursor_index(),
        {
            if self.cursor <= start {
                break ;
            }
            let ghost g = c0 + (e - self.cursor_index());
            proof {
                assert(self.text().skip(c0) =~= s.skip(g));
                assert(self.text()[c0] == s[g]);
                lemma_remove_counts(self.text(), c0);
                assert(self.text().remove(c0) =~= s.take(c0) + s.skip(g + 1));
            }
            let c = self.content.remove(start);
            if c == '\n' {
                self.num_lines = self.num_lines - 1;
            }
            self.cursor = self.cursor - 1;
        }
        proof {
            lemma_split_three_newlines(s, c0, e);
            lemma_newline_count_split(self.text(), c0);
            assert(self.text().take(c0) =~= s.take(c0));
            assert(self.text().skip(c0) =~= s.skip(e));
        }
    }

    /// Removes the span from the previous word boundary (the span a
    /// [`Editor::move_left_word`] would cross) to the cursor; the cursor
    /// moves to the start of the span.
    pub fn backspace_word(&mut self)
        requires
            old(self).wf(),
        ensures
            final(self).wf(),
            final(self).text() == old(self).text().take(
                prev_word_index(old(self).text(), old(self).cursor_index()),
            ) + old(self).text().skip(old(self).cursor_index()),
            final(self).cursor_index() == prev_word_index(
                old(self).text(),
                old(self).cursor_index(),
            ),
            final(self).line_count() == old(self).line_count() - newline_count(
                old(self).text().subrange(
                    prev_word_index(old(self).text(), old(self).cursor_index()),
                    old(self).cursor_index(),
                ),
            ),
    {
        let ghost s = self.text();
        let ghost e0 = self.cursor_index();
        let end = self.cursor;
        self.move_left_word();
        let start = self.cursor;
        let ghost a = self.cursor_index();
        proof {
            if e0 > 0 {
                lemma_scan_word_back_bounds(s, e0 - 1);
            }
            assert(s.take(a) + s.skip(a) =~= s);
        }
        let mut k = end;
        loop
            invariant
                self.wf(),
                start as int == a,
                end as int == e0,
                0 <= a <= k as int <= e0 <= s.len(),
                self.cursor_index() == a,
                self.text() == s.take(a) + s.skip(a + (e0 - k)),
            ensures
                self.wf(),
                self.cursor_index() == a,
                self.text() == s.take(a) + s.skip(e0),
            decreases k,
        {
            if k <= start {
                break ;
            }
            let ghost g = a + (e0 - k);
            proof {
                assert(self.text().skip(a) =~= s.skip(g));
                assert(self.text()[a] == s[g]);
                lemma_remove_counts(self.text(), a);
                assert(self.text().remove(a) =~= s.take(a) + s.skip(g + 1));
            }
            let c = self.content.remove(start);
            if c == '\n' {
                self.num_lines = self.num_lines - 1;
            }
            k = k - 1;
        }
        proof {
            lemma_split_three_newlines(s, a, e0);
            lemma_newline_count_split(self.text(), a);
            assert(self.text().take(a) =~= s.take(a));
            assert(self.text().skip(a) =~= s.skip(e0));
        }
    }

    /// Moves the cursor left by one character; returns whether it moved
    /// (false at the start of the content).
    pub fn move_left(&mut self) -> (moved: bool)
        requires
            old(self).wf(),
        ensures
            final(self).wf(),
            final(self).text() == old(self).text(),
            final(self).line_count() == old(self).line_count(),
            moved == (old(self).cursor_index() > 0),
            final(self).cursor_index() == if moved {
                old(self).cursor_index() - 1
            } else {
                0
            },
    {
        if self.cursor > 0 {
            self.cursor = self.cursor - 1;
            true
        } else {
            false
        }
    }

    /// Moves the cursor right by one character; returns whether it moved
    /// (false at the end of the content).
    pub fn move_right(&mut self) -> (moved: bool)
        requires
            old(self).wf(),
        ensures
            final(self).wf(),
            final(self).text() == old(self).text(),
            final(self).line_count() == old(self).line_count(),
            moved == (old(self).cursor_index() < old(self).text().len()),
            final(self).cursor_index() == if moved {
                old(self).cursor_index() + 1
            } else {
                old(self).cursor_index()
            },
    {
        if self.cursor < self.content.len() {
            self.cursor = self.cursor + 1;
            true
        } else {
            false
        }
    }

    /// Moves the cursor up one display line: the current display position's
    /// line, less one, converted back to an offset.  On the first line the
    /// cursor moves to the start of the content.
    pub fn move_up(&mut self)
        requires
            old(self).wf(),
        ensures
            final(self).wf(),
            final(self).text() == old(self).text(),
            final(self).line_count() == old(self).line_count(),
            final(self).cursor_index() == ({
                let s = old(self).text();
                let b = old(self).cursor_offset();
                if line_of_byte(s, b) == 0 {
                    0int
                } else {
                    position_index(s, col_of_byte(s, b), line_of_byte(s, b) - 1)
                }
            }),
    {
        let b = self.cursor_byte();
        let pos = self.content.byte_to_position(b);
        if pos.y == 0 {
            self.cursor = 0;
        } else {
            self.cursor = position_to_index(&self.content, Vec2 { x: pos.x, y: pos.y - 1 });
        }
    }

    /// Moves the cursor down one display line: the current display
    /// position's line, plus one, converted back to an offset.  On the last
    /// line the cursor moves to the end of the content.
    pub fn move_down(&mut self)
        requires
            old(self).wf(),
        ensures
            final(self).wf(),
            final(self).text() == old(self).text(),
            final(self).line_count() == old(self).line_count(),
            final(self).cursor_index() == ({
                let s = old(self).text();
                let b = old(self).cursor_offset();
                if line_of_byte(s, b) + 1 == old(self).line_count() {
                    s.len() as int
                } else {
                    position_index(s, col_of_byte(s, b), line_of_byte(s, b) + 1)
                }
            }),
    {
        let b = self.cursor_byte();
        let pos = self.content.byte_to_position(b);
        proof {
            let s = self.text();
            lemma_index_at_byte_bounds(s, b as int);
            lemma_newline_count_bounds(s.take(crate::string_info::index_at_byte(s, b as int)));
            lemma_byte_len_bounds(s);
        }
        let y1 = pos.y + 1;
        if y1 == self.num_lines {
            self.cursor = self.content.len();
        } else {
            self.cursor = position_to_index(&self.content, Vec2 { x: pos.x, y: y1 });
        }
    }

    /// Moves the cursor left one character, then past the word characters
    /// that precede it; returns the byte distance retreated.
    pub fn move_left_word(&mut self) -> (r: usize)
        requires
            old(self).wf(),
        ensures
            final(self).wf(),
            final(self).text() == old(self).text(),
            final(self).line_count() == old(self).line_count(),
            final(self).cursor_index() == prev_word_index(
                old(self).text(),
                old(self).cursor_index(),
            ),
            r == byte_len(
                old(self).text().subrange(final(self).cursor_index(), old(self).cursor_index()),
            ),
    {
        let ghost s = self.text();
        let start = self.cursor;
        if start == 0 {
            proof {
                assert(s.subrange(0, 0) =~= Seq::<char>::empty());
            }
            return 0;
        }
        self.cursor = self.cursor - 1;
        let mut d: usize = utf8_len(self.content[self.cursor]);
        proof {
            assert(s.subrange(start as int - 1, start as int) =~= seq![s[start as int - 1]]);
            lemma_singleton_counts(s[start as int - 1]);
        }
        loop
            invariant
                self.wf(),
                self.text() == s,
                0 <= self.cursor_index() && self.cursor_index() < start as int && (start as int) <= s.len(),
                prev_word_index(s, start as int) == scan_word_back(s, self.cursor_index()),
                d == byte_len(s.subrange(self.cursor_index(), start as int)),
            ensures
                self.wf(),
                self.text() == s,
                self.cursor_index() == prev_word_index(s, start as int),
                d == byte_len(s.subrange(self.cursor_index(), start as int)),
            decreases self.cursor_index(),
        {
            if self.cursor == 0 {
                break ;
            }
            let c = self.content[self.cursor - 1];
            if !is_word(c) {
                break ;
            }
            proof {
                let cur = self.cursor_index();
                lemma_byte_len_split(s.subrange(cur - 1, start as int), 1);
                assert(s.subrange(cur - 1, start as int).take(1) =~= seq![s[cur - 1]]);
                assert(s.subrange(cur - 1, start as int).skip(1) =~= s.subrange(
                    cur,
                    start as int,
                ));
                lemma_singleton_counts(s[cur - 1]);
                lemma_byte_len_subrange(s, cur - 1, start as int);
                lemma_byte_len_bounds(s.take(cur - 1));
            }
            self.cursor = self.cursor - 1;
            d = d + utf8_len(c);
        }
        d
    }

    /// Moves the cursor right one character, then past the word characters
    /// that follow; returns the byte distance advanced.
    pub fn move_right_word(&mut self) -> (r: usize)
        requires
            old(self).wf(),
        ensures
            final(self).wf(),
            final(self).text() == old(self).text(),
            final(self).line_count() == old(self).line_count(),
            final(self).cursor_index() == next_word_index(
                old(self).text(),
                old(self).cursor_index(),
            ),
            r == byte_len(
                old(self).text().subrange(old(self).cursor_index(), final(self).cursor_index()),
            ),
    {
        let ghost s = self.text();
        let start = self.cursor;
        if start >= self.content.len() {
            proof {
                assert(s.subrange(start as int, start as int) =~= Seq::<char>::empty());
            }
            return 0;
        }
        let mut d: usize = utf8_len(self.content[self.cursor]);
        self.cursor = self.cursor + 1;
        proof {
            assert(s.subrange(start as int, start as int + 1) =~= seq![s[start as int]]);
            lemma_singleton_counts(s[start as int]);
        }
        loop
            invariant
                self.wf(),
                self.text() == s,
                0 <= start as int && (start as int) < self.cursor_index() <= s.len(),
                next_word_index(s, start as int) == scan_word_forward(s, self.cursor_index()),
                d == byte_len(s.subrange(start as int, self.cursor_index())),
            ensures
                self.wf(),
                self.text() == s,
                self.cursor_index() == next_word_index(s, start as int),
                d == byte_len(s.subrange(start as int, self.cursor_index())),
            decreases s.len() - self.cursor_index(),
        {
            if self.cursor >= self.content.len() {
                break ;
            }
            let c = self.content[self.cursor];
            if !is_word(c) {
                break ;
            }
            proof {
                let cur = self.cursor_index();
                assert(s.subrange(start as int, cur + 1).drop_last() =~= s.subrange(
                    start as int,
                    cur,
                ));
                assert(s.subrange(start as int, cur + 1).last() == s[cur]);
                lemma_byte_len_subrange(s, start as int, cur + 1);
                lemma_byte_len_bounds(s.take(start as int));
            }
            d = d + utf8_len(c);
            self.cursor = self.cursor + 1;
        }
        d
    }

    /// Moves the cursor to the start of the content.
    pub fn move_home(&mut self)
        requires
            old(self).wf(),
        ensures
            final(self).wf(),
            final(self).text() == old(self).text(),
            final(self).line_count() == old(self).line_count(),
            final(self).cursor_index() == 0,
    {
        self.cursor = 0;
    }

    /// Moves the cursor to the end of the content.
    pub fn move_end(&mut self)
        requires
            old(self).wf(),
        ensures
            final(self).wf(),
            final(self).text() == old(self).text(),
            final(self).line_count() == old(self).line_count(),
            final(self).cursor_index() == final(self).text().len(),
    {
        self.cursor = self.content.len();
    }

    /// The content, as a freshly built string.
    pub fn as_str(&self) -> (r: String)
        ensures
            r@ == self.text(),
    {
        chars_to_string(&self.content)
    }

    /// The byte offset of the cursor within the UTF-8 encoding of the
    /// content.
    pub fn cursor_byte(&self) -> (r: usize)
        requires
            self.wf(),
        ensures
            r == self.cursor_offset(),
    {
        index_to_byte(&self.content, self.cursor)
    }

    /// The display position of the cursor.
    pub fn cursor_pos(&self) -> (r: Vec2)
        requires
            self.wf(),
        ensures
            r.x == col_of_byte(self.text(), self.cursor_offset()),
            r.y == line_of_byte(self.text(), self.cursor_offset()),
    {
        let b = self.cursor_byte();
        self.content.byte_to_position(b)
    }

    /// Returns a copy of the content and resets the buffer to empty
    /// content, cursor 0, and one line.
    pub fn take(&mut self) -> (r: String)
        ensures
            r@ == old(self).text(),
            final(self).wf(),
            final(self).text() == Seq::<char>::empty(),
            final(self).cursor_index() == 0,
            final(self).line_count() == 1,
    {
        let r = chars_to_string(&self.content);
        self.clear();
        r
    }

    /// The number of lines in the content: its newline count plus one.
    pub fn num_lines(&self) -> (r: usize)
        ensures
            r == self.line_count(),
    {
        self.num_lines
    }

    /// Resets the buffer to empty content, cursor 0, and one line.
    pub fn clear(&mut self)
        ensures
            final(self).wf(),
            final(self).text() == Seq::<char>::empty(),
            final(self).cursor_index() == 0,
            final(self).line_count() == 1,
    {
        self.content.clear();
        self.cursor = 0;
        self.num_lines = 1;
    }
}

/// The newline count of a text splits over a prefix, a middle slice, and a
/// suffix.
proof fn lemma_split_three_newlines(s: Seq<char>, a: int, b: int)
    requires
        0 <= a <= b <= s.len(),
    ensures
        newline_count(s) == newline_count(s.take(a)) + newline_count(s.subrange(a, b))
            + newline_count(s.skip(b)),
{
    lemma_newline_count_split(s, a);
    lemma_newline_count_split(s.skip(a), b - a);
    assert(s.skip(a).take(b - a) =~= s.subrange(a, b));
    assert(s.skip(a).skip(b - a) =~= s.skip(b));
}

/// Builds a string holding exactly the given characters.
fn chars_to_string(v: &Vec<char>) -> (r: String)
    ensures
        r@ == v@,
{
    let mut out = String::new();
    let mut i: usize = 0;
    proof {
        assert(v@.take(0) =~= Seq::<char>::empty());
    }
    while i < v.len()
        invariant
            i <= v@.len(),
            out@ == v@.take(i as int),
        decreases v@.len() - i,
    {
        let c = v[i];
        let cs = crate::chars::char_to_string(c);
        out.append(cs.as_str());
        proof {
            assert(v@.take(i as int + 1) =~= v@.take(i as int) + seq![c]);
        }
        i = i + 1;
    }
    proof {
        assert(v@.take(v@.len() as int) =~= v@);
    }
    out
}

impl Default for Editor {
    /// An empty buffer, as [`Editor::new`] builds it.
    fn default() -> (r: Editor)
        ensures
            r.text() == Seq::<char>::empty(),
            r.cursor_index() == 0,
            r.line_count() == 1,
            r.wf(),
    {
        Editor::new()
    }
}

/// Handles a stream of commands of some kind, mutating the receiver and
/// possibly reporting that the stream is over.
pub trait Handler<Command> {
    /// Whether the receiver is ready to handle the given command.
    spec fn ready_for(&self, command: &Command) -> bool;

    /// Applies one command; `None` means the command was not handled,
    /// `Some(Continue)` that editing goes on, and `Some(Break(signal))` that
    /// the session ended with the given signal.
    fn handle(&mut self, command: Command) -> (r: Option<ControlFlow<Signal>>)
        requires
            old(self).ready_for(&command),
    ;
}

impl Handler<EditorCommand> for Editor {
    /// A well-formed editor is ready for every command whose insertion, if
    /// any, keeps the content's byte length within a byte-addressed text.
    open spec fn ready_for(&self, command: &EditorCommand) -> bool {
        &&& self.wf()
        &&& match *command {
            EditorCommand::InsertChar(ch) => byte_len(self.text()) + char_utf8_len(ch)
                < usize::MAX,
            EditorCommand::InsertString(ref s) => byte_len(self.text()) + byte_len(s@)
                < usize::MAX,
            _ => true,
        }
    }

    /// Every command maps to the editing operation of the same name;
    /// `Submit` drains the buffer and ends the session with its content.
    fn handle(&mut self, command: EditorCommand) -> (r: Option<ControlFlow<Signal>>)
        ensures
            final(self).wf(),
            match command {
                EditorCommand::Submit => ({
                    &&& r matches Some(ControlFlow::Break(Signal::Submit(out))) && out@ == old(self).text()
                    &&& final(self).text() == Seq::<char>::empty()
                    &&& final(self).cursor_index() == 0
                    &&& final(self).line_count() == 1
                }),
                _ => r == Some(ControlFlow::<Signal>::Continue(())),
            },
            match command {
                EditorCommand::InsertChar(ch) => final(self).text() == old(self).text().insert(
                    old(self).cursor_index(),
                    ch,
                ) && final(self).cursor_index() == old(self).cursor_index() + 1,
                EditorCommand::InsertString(s) => final(self).text() == old(self).text().take(
                    old(self).cursor_index(),
                ) + s@ + old(self).text().skip(old(self).cursor_index()) && final(self).cursor_index() == old(self).cursor_index() + s@.len(),
                EditorCommand::DeleteChar => final(self).cursor_index() == old(self).cursor_index() && (old(self).cursor_index() < old(self).text().len() ==> final(self).text() == old(self).text().remove(old(self).cursor_index())) && (old(self).cursor_index() >= old(self).text().len() ==> final(self).text() == old(self).text()),
                EditorCommand::DeleteWordToken => final(self).cursor_index() == old(self).cursor_index() && final(self).text() == old(self).text().take(
                    old(self).cursor_index(),
                ) + old(self).text().skip(
                    next_word_index(old(self).text(), old(self).cursor_index()),
                ),
                EditorCommand::BackspaceChar => (old(self).cursor_index() > 0 ==> final(self).text() == old(self).text().remove(old(self).cursor_index() - 1) && final(self).cursor_index() == old(self).cursor_index() - 1) && (old(self).cursor_index() == 0
                    ==> final(self).text() == old(self).text() && final(self).cursor_index() == 0),
                EditorCommand::BackspaceWordToken => final(self).cursor_index()
                    == prev_word_index(old(self).text(), old(self).cursor_index()) && final(self).text() == old(self).text().take(
                    prev_word_index(old(self).text(), old(self).cursor_index()),
                ) + old(self).text().skip(old(self).cursor_index()),
                EditorCommand::MoveLeft => final(self).text() == old(self).text() && final(self).cursor_index() == (if old(self).cursor_index() > 0 {
                    old(self).cursor_index() - 1
                } else {
                    0
                }),
                EditorCommand::MoveRight => final(self).text() == old(self).text() && final(self).cursor_index() == (if old(self).cursor_index() < old(self).text().len() {
                    old(self).cursor_index() + 1
                } else {
                    old(self).cursor_index()
                }),
                EditorCommand::MoveUp => final(self).text() == old(self).text() && final(self).cursor_index() == ({
                    let s = old(self).text();
                    let b = old(self).cursor_offset();
                    if line_of_byte(s, b) == 0 {
                        0int
                    } else {
                        position_index(s, col_of_byte(s, b), line_of_byte(s, b) - 1)
                    }
                }),
                EditorCommand::MoveDown => final(self).text() == old(self).text() && final(self).cursor_index() == ({
                    let s = old(self).text();
                    let b = old(self).cursor_offset();
                    if line_of_byte(s, b) + 1 == old(self).line_count() {
                        s.len() as int
                    } else {
                        position_index(s, col_of_byte(s, b), line_of_byte(s, b) + 1)
                    }
                }),
                EditorCommand::MoveLeftWord => final(self).text() == old(self).text() && final(self).cursor_index() == prev_word_index(old(self).text(), old(self).cursor_index()),
                EditorCommand::MoveRightWord => final(self).text() == old(self).text() && final(self).cursor_index() == next_word_index(old(self).text(), old(self).cursor_index()),
                EditorCommand::MoveHome => final(self).text() == old(self).text() && final(self).cursor_index() == 0,
                EditorCommand::MoveEnd => final(self).text() == old(self).text() && final(self).cursor_index() == old(self).text().len(),
                EditorCommand::Submit => true,
            },
    {
        match command {
            EditorCommand::InsertChar(ch) => {
                self.insert_char(ch);
                Some(ControlFlow::Continue(()))
            },
            EditorCommand::InsertString(s) => {
                self.insert_str(s.as_str());
                Some(ControlFlow::Continue(()))
            },
            EditorCommand::DeleteChar => {
                self.delete_char();
                Some(ControlFlow::Continue(()))
            },
            EditorCommand::DeleteWordToken => {
                self.delete_word();
                Some(ControlFlow::Continue(()))
            },
            EditorCommand::BackspaceChar => {
                self.backspace_char();
                Some(ControlFlow::Continue(()))
            },
            EditorCommand::BackspaceWordToken => {
                self.backspace_word();
                Some(ControlFlow::Continue(()))
            },
            EditorCommand::MoveLeft => {
                self.move_left();
                Some(ControlFlow::Continue(()))
            },
            EditorCommand::MoveRight => {
                self.move_right();
                Some(ControlFlow::Continue(()))
            },
            EditorCommand::MoveUp => {
                self.move_up();
                Some(ControlFlow::Continue(()))
            },
            EditorCommand::MoveDown => {
                self.move_down();
                Some(ControlFlow::Continue(()))
            },
            EditorCommand::MoveLeftWord => {
                self.move_left_word();
                Some(ControlFlow::Continue(()))
            },
            EditorCommand::MoveRightWord => {
                self.move_right_word();
                Some(ControlFlow::Continue(()))
            },
            EditorCommand::MoveHome => {
                self.move_home();
                Some(ControlFlow::Continue(()))
            },
            EditorCommand::MoveEnd => {
                self.move_end();
                Some(ControlFlow::Continue(()))
            },
            EditorCommand::Submit => {
                let out = self.take();
                Some(ControlFlow::Break(Signal::Submit(out)))
            },
        }
    }
}


/// Inserting a character and backspacing immediately after restores the
/// content, the cursor, and the line count: any editor states related by
/// the contracts of [`Editor::insert_char`] and then [`Editor::backspace_char`]
/// end where they began.
pub proof fn lemma_insert_backspace_restores(before: Editor, mid: Editor, after: Editor, c: char)
    requires
        before.wf(),
        mid.text() == before.text().insert(before.cursor_index(), c),
        mid.cursor_index() == before.cursor_index() + 1,
        mid.line_count() == before.line_count() + (if c == '\n' {
            1int
        } else {
            0int
        }),
        after.text() == mid.text().remove(mid.cursor_index() - 1),
        after.cursor_index() == mid.cursor_index() - 1,
        after.line_count() == mid.line_count() - (if mid.text()[mid.cursor_index() - 1] == '\n' {
            1int
        } else {
            0int
        }),
    ensures
        after.text() == before.text(),
        after.cursor_index() == before.cursor_index(),
        after.line_count() == before.line_count(),
{
    assert(mid.text()[before.cursor_index()] == c);
    assert(mid.text().remove(before.cursor_index()) =~= before.text());
}

/// Deleting the word after the cursor and re-inserting the removed text at
/// the same position restores the content: any editor states related by the
/// contracts of [`Editor::delete_word`] and then [`Editor::insert_str`]
/// applied to the removed span carry the original content, with the cursor
/// at the end of the re-inserted span.
pub proof fn lemma_delete_word_reinsert_restores(before: Editor, mid: Editor, after: Editor)
    requires
        before.wf(),
        mid.text() == before.text().take(before.cursor_index()) + before.text().skip(
            next_word_index(before.text(), before.cursor_index()),
        ),
        mid.cursor_index() == before.cursor_index(),
        after.text() == mid.text().take(mid.cursor_index()) + before.text().subrange(
            before.cursor_index(),
            next_word_index(before.text(), before.cursor_index()),
        ) + mid.text().skip(mid.cursor_index()),
        after.cursor_index() == mid.cursor_index() + before.text().subrange(
            before.cursor_index(),
            next_word_index(before.text(), before.cursor_index()),
        ).len(),
    ensures
        after.text() == before.text(),
        after.cursor_index() == next_word_index(before.text(), before.cursor_index()),
{
    let s = before.text();
    let c0 = before.cursor_index();
    let e = next_word_index(s, c0);
    if c0 < s.len() {
        lemma_scan_word_forward_bounds(s, c0 + 1);
    }
    assert(mid.text().take(c0) =~= s.take(c0));
    assert(mid.text().skip(c0) =~= s.skip(e));
    assert(s.take(c0) + s.subrange(c0, e) + s.skip(e) =~= s);
}

} // verus!

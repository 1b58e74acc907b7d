//! The terminal paint buffer: renders a prompt and multi-line content into a
//! scrolling region of the terminal, growing the region as the content
//! grows and never writing above the region's start row.
//!
//! Rendering is computed as a sequence of explicit [`PaintOp`] operations;
//! the embedding program performs the corresponding terminal writes.
use vstd::prelude::*;

verus! {

use crate::string_info::newline_count;
use crate::vec2::Vec2;

/// One terminal operation produced by a repaint.
#[derive(Debug, Clone, PartialEq, Eq)]
pub enum PaintOp {
    /// Move the physical cursor to `(column, row)`.
    MoveTo(usize, usize),
    /// Clear the screen from the cursor position downwards.
    ClearDown,
    /// Write the given characters at the cursor position.
    Text(Vec<char>),
    /// Write the given characters styled as a highlighted note.
    Note(Vec<char>),
}

/// The carriage-return line-feed pair that starts a fresh terminal line.
pub open spec fn blank_line() -> Seq<char> {
    seq!['\r', '\n']
}

/// `n` spaces.
pub open spec fn spaces(n: int) -> Seq<char> {
    Seq::new(n as nat, |i: int| ' ')
}

/// How one character of input is written to the terminal: carriage returns
/// are dropped, a newline becomes CR-LF followed by the indent's worth of
/// spaces (so continuation lines align under the region's left column), and
/// every other character is written as itself.
pub open spec fn render_char(c: char, indent: int) -> Seq<char> {
    if c == '\r' {
        Seq::<char>::empty()
    } else if c == '\n' {
        blank_line() + spaces(indent)
    } else {
        seq![c]
    }
}

/// The characters written to the terminal for the input `s` under the given
/// indent.
pub open spec fn rendered(s: Seq<char>, indent: int) -> Seq<char>
    decreases s.len(),
{
    if s.len() == 0 {
        Seq::<char>::empty()
    } else {
        rendered(s.drop_last(), indent) + render_char(s.last(), indent)
    }
}

/// True when no operation in `ops` moves the cursor to a row above `row`.
pub open spec fn writes_at_or_below(ops: Seq<PaintOp>, row: int) -> bool {
    forall|k: int|
        0 <= k < ops.len() ==> match #[trigger] ops[k] {
            PaintOp::MoveTo(_col, r) => r >= row,
            _ => true,
        }
}

/// The exact sequence of operations one repaint produces: a move to the
/// terminal's bottom row and `forced` blank lines (scrolling the screen),
/// a move to the region's start, a clear to the end of the screen, the
/// rendered text, the optional separating space and note, and the move
/// placing the cursor.
pub open spec fn paint_ops_shape(
    ops: Seq<PaintOp>,
    height: int,
    indent: int,
    start: int,
    forced: int,
    body: Seq<char>,
    note: Option<Seq<char>>,
    sep: bool,
    cursor_col: int,
    cursor_row: int,
) -> bool {
    let tail = if note is Some {
        if sep {
            2int
        } else {
            1int
        }
    } else {
        0int
    };
    &&& ops.len() == forced + 5 + tail
    &&& ops[0] == PaintOp::MoveTo(0, (height - 1) as usize)
    &&& (forall|k: int|
        1 <= k < 1 + forced ==> ((#[trigger] ops[k]) matches PaintOp::Text(v) && v@
            == blank_line()))
    &&& ops[1 + forced] == PaintOp::MoveTo(indent as usize, start as usize)
    &&& ops[2 + forced] == PaintOp::ClearDown
    &&& (ops[3 + forced] matches PaintOp::Text(v) && v@ == body)
    &&& (note matches Some(ntext) ==> {
        &&& (sep ==> (ops[4 + forced] matches PaintOp::Text(v) && v@ == seq![' ']))
        &&& (ops[ops.len() - 2] matches PaintOp::Note(v) && v@ == ntext)
    })
    &&& ops[ops.len() - 1] == PaintOp::MoveTo(
        (indent + cursor_col) as usize,
        (start + cursor_row) as usize,
    )
}

/// The terminal region owned by one editing session.
///
/// `buffer_start` is the terminal row where the region begins and
/// `buffer_reserved` the number of rows currently reserved for it.
/// `cursor_line` is the region row holding the cursor after the last
/// repaint, and `indent` the fixed left column captured at creation.
pub struct PaintBuffer {
    term_size: Vec2,
    buffer_start: usize,
    buffer_reserved: usize,
    cursor_line: usize,
    indent: usize,
}

impl PaintBuffer {
    /// The terminal size, as columns and rows.
    pub closed spec fn size(&self) -> Vec2 {
        self.term_size
    }

    /// The terminal row where the region begins.
    pub closed spec fn start(&self) -> int {
        self.buffer_start as int
    }

    /// The number of rows reserved for the region.
    pub closed spec fn reserved(&self) -> int {
        self.buffer_reserved as int
    }

    /// The region row holding the cursor after the last repaint.
    pub closed spec fn cursor_row(&self) -> int {
        self.cursor_line as int
    }

    /// The fixed left column of the region.
    pub closed spec fn left_col(&self) -> int {
        self.indent as int
    }

    /// Well-formedness: the terminal has at least one column and one row,
    /// the region starts on a row of the terminal, and the region's extent
    /// is representable.
    pub closed spec fn wf(&self) -> bool {
        &&& self.term_size.x >= 1
        &&& self.term_size.y >= 1
        &&& self.buffer_start < self.term_size.y
        &&& self.buffer_start + self.buffer_reserved <= usize::MAX
    }

    /// Creates a paint buffer for a terminal of the given size, anchored at
    /// the physical cursor's current column (the indent) and row.  A zero
    /// width or height is clamped to one.
    pub fn new(indent: usize, cursor_row: usize, width: usize, height: usize) -> (r: PaintBuffer)
        ensures
            r.wf(),
            r.size().x == if width == 0 {
                1int
            } else {
                width as int
            },
            r.size().y == if height == 0 {
                1int
            } else {
                height as int
            },
            r.left_col() == indent,
            r.reserved() == 0,
            r.cursor_row() == 0,
            r.start() == if cursor_row < r.size().y {
                cursor_row as int
            } else {
                r.size().y - 1
            },
    {
        let width = if width == 0 {
            1
        } else {
            width
        };
        let height = if height == 0 {
            1
        } else {
            height
        };
        let start = if cursor_row < height {
            cursor_row
        } else {
            height - 1
        };
        PaintBuffer {
            term_size: Vec2 { x: width, y: height },
            buffer_start: start,
            buffer_reserved: 0,
            cursor_line: 0,
            indent,
        }
    }

    /// Number of terminal rows from the region's start to the bottom of the
    /// screen.
    pub fn lines_available(&self) -> (r: usize)
        requires
            self.wf(),
        ensures
            r == self.size().y - self.start(),
            r >= 1,
    {
        self.term_size.y - self.buffer_start
    }

    /// The terminal row where the region begins.
    pub fn start_row(&self) -> (r: usize)
        ensures
            r == self.start(),
    {
        self.buffer_start
    }

    /// The number of rows currently reserved for the region.
    pub fn reserved_rows(&self) -> (r: usize)
        ensures
            r == self.reserved(),
    {
        self.buffer_reserved
    }

    /// Records a terminal resize.  Width and height are clamped to at least
    /// one; the region's start row is recomputed from the physical cursor's
    /// current row (clamped to the new height) so the region keeps its
    /// apparent anchor on screen.
    pub fn set_size(&mut self, width: usize, height: usize, cursor_row: usize)
        requires
            old(self).wf(),
            height <= usize::MAX - old(self).reserved(),
        ensures
            final(self).wf(),
            final(self).size().x == if width == 0 {
                1int
            } else {
                width as int
            },
            final(self).size().y == if height == 0 {
                1int
            } else {
                height as int
            },
            final(self).start() == ({
                let clamped = if (cursor_row as int) <= final(self).size().y - 1 {
                    cursor_row as int
                } else {
                    final(self).size().y - 1
                };
                if clamped >= final(self).cursor_row() {
                    clamped - final(self).cursor_row()
                } else {
                    0
                }
            }),
            final(self).reserved() == old(self).reserved(),
            final(self).cursor_row() == old(self).cursor_row(),
            final(self).left_col() == old(self).left_col(),
    {
        let width = if width == 0 {
            1
        } else {
            width
        };
        let height = if height == 0 {
            1
        } else {
            height
        };
        self.term_size = Vec2 { x: width, y: height };
        let clamped = if cursor_row < height {
            cursor_row
        } else {
            height - 1
        };
        self.buffer_start = if clamped >= self.cursor_line {
            clamped - self.cursor_line
        } else {
            0
        };
    }

    /// Makes room for `lines` rows: if fewer rows are available below the
    /// region's start, the returned operations scroll the terminal by the
    /// difference (blank lines written at the bottom row), and the start
    /// row decreases by exactly that amount (clamping at the top of the
    /// screen).
    pub fn reserve_lines(&mut self, lines: usize) -> (ops: Vec<PaintOp>)
        requires
            old(self).wf(),
            lines <= usize::MAX - old(self).size().y,
        ensures
            final(self).wf(),
            final(self).size() == old(self).size(),
            final(self).left_col() == old(self).left_col(),
            final(self).cursor_row() == old(self).cursor_row(),
            final(self).reserved() == lines,
            ({
                let avail = old(self).size().y - old(self).start();
                let forced = if lines > avail {
                    lines - avail
                } else {
                    0int
                };
                &&& (forced <= old(self).start() ==> final(self).start() == old(self).start()
                    - forced)
                &&& (forced > old(self).start() ==> final(self).start() == 0)
                &&& ops@.len() == 1 + forced
                &&& ops@[0] == PaintOp::MoveTo(0, (old(self).size().y - 1) as usize)
                &&& (forall|k: int|
                    1 <= k < ops@.len() ==> ((#[trigger] ops@[k]) matches PaintOp::Text(v) && v@
                        == blank_line()))
            }),
            lines <= old(self).size().y ==> final(self).start() + lines <= final(self).size().y,
            writes_at_or_below(ops@, final(self).start()),
    {
        let avail = self.term_size.y - self.buffer_start;
        let forced = if lines > avail {
            lines - avail
        } else {
            0
        };
        let mut ops: Vec<PaintOp> = Vec::new();
        ops.push(PaintOp::MoveTo(0, self.term_size.y - 1));
        let mut k: usize = 0;
        while k < forced
            invariant
                k <= forced,
                ops@.len() == 1 + k,
                ops@[0] == PaintOp::MoveTo(0, (self.term_size.y - 1) as usize),
                forall|j: int|
                    1 <= j < ops@.len() ==> ((#[trigger] ops@[j]) matches PaintOp::Text(v) && v@
                        == blank_line()),
            decreases forced - k,
        {
            ops.push(PaintOp::Text(blank_text()));
            k = k + 1;
        }
        self.buffer_start = if forced > self.buffer_start {
            0
        } else {
            self.buffer_start - forced
        };
        self.buffer_reserved = lines;
        ops
    }

    /// Repaints the region: reserves one row per line of `content`, moves
    /// to the region's start, clears downwards, writes the prompt and the
    /// content (newlines re-emitted as CR-LF plus the indent's spaces),
    /// appends the optional note after a separating space (omitted when the
    /// content is empty), and finally places the cursor at the given
    /// display position relative to the region.
    pub fn paint(
        &mut self,
        prompt: &Vec<char>,
        content: &Vec<char>,
        cursor: Vec2,
        note: Option<&Vec<char>>,
    ) -> (ops: Vec<PaintOp>)
        requires
            old(self).wf(),
            content@.len() + old(self).size().y < usize::MAX,
            cursor.x <= usize::MAX - old(self).left_col(),
            cursor.y <= usize::MAX - old(self).size().y,
        ensures
            final(self).wf(),
            final(self).size() == old(self).size(),
            final(self).left_col() == old(self).left_col(),
            final(self).cursor_row() == cursor.y as int,
            final(self).reserved() == 1 + newline_count(content@),
            ({
                let total = 1 + newline_count(content@);
                let avail = old(self).size().y - old(self).start();
                let forced = if total > avail {
                    total - avail
                } else {
                    0int
                };
                &&& (forced <= old(self).start() ==> final(self).start() == old(self).start()
                    - forced)
                &&& (forced > old(self).start() ==> final(self).start() == 0)
                &&& paint_ops_shape(
                    ops@,
                    old(self).size().y as int,
                    old(self).left_col(),
                    final(self).start(),
                    forced,
                    rendered(prompt@, old(self).left_col()) + rendered(
                        content@,
                        old(self).left_col(),
                    ),
                    match note {
                        Some(v) => Some(v@),
                        None => None,
                    },
                    content@.len() > 0,
                    cursor.x as int,
                    cursor.y as int,
                )
            }),
            writes_at_or_below(ops@, final(self).start()),
    {
        let nl = crate::string_info::count_newlines(content);
        proof {
            crate::string_info::lemma_newline_count_bounds(content@);
        }
        let total = nl + 1;
        let mut ops = self.reserve_lines(total);
        ops.push(PaintOp::MoveTo(self.indent, self.buffer_start));
        ops.push(PaintOp::ClearDown);
        let mut body: Vec<char> = Vec::new();
        append_rendered(&mut body, prompt, self.indent);
        append_rendered(&mut body, content, self.indent);
        ops.push(PaintOp::Text(body));
        self.cursor_line = cursor.y;
        match note {
            Some(ntext) => {
                if content.len() > 0 {
                    ops.push(PaintOp::Text(space_text()));
                }
                ops.push(PaintOp::Note(copy_chars(ntext)));
            },
            None => {},
        }
        ops.push(PaintOp::MoveTo(self.indent + cursor.x, self.buffer_start + cursor.y));
        ops
    }

    /// Teardown operations: move the cursor to the region's last reserved
    /// row and start a fresh line below it, so later output begins under
    /// the whole region.
    pub fn finalize(&self) -> (ops: Vec<PaintOp>)
        requires
            self.wf(),
        ensures
            ops@.len() == 2,
            ops@[0] == PaintOp::MoveTo(
                0,
                (if self.start() + self.reserved() >= 1 {
                    self.start() + self.reserved() - 1
                } else {
                    0int
                }) as usize,
            ),
            ops@[1] matches PaintOp::Text(v) && v@ == blank_line(),
    {
        let here = self.buffer_start + self.buffer_reserved;
        let last = if here >= 1 {
            here - 1
        } else {
            0
        };
        let mut ops: Vec<PaintOp> = Vec::new();
        ops.push(PaintOp::MoveTo(0, last));
        ops.push(PaintOp::Text(blank_text()));
        ops
    }
}

/// Builds the CR-LF pair as a text operation payload.
fn blank_text() -> (v: Vec<char>)
    ensures
        v@ == blank_line(),
{
    let mut v: Vec<char> = Vec::new();
    v.push('\r');
    v.push('\n');
    proof {
        assert(v@ =~= blank_line());
    }
    v
}

/// Builds the one-space separator written before a note.
fn space_text() -> (v: Vec<char>)
    ensures
        v@ == seq![' '],
{
    let mut v: Vec<char> = Vec::new();
    v.push(' ');
    proof {
        assert(v@ =~= seq![' ']);
    }
    v
}

/// Copies the characters of `v` into a fresh vector.
fn copy_chars(v: &Vec<char>) -> (r: Vec<char>)
    ensures
        r@ == v@,
{
    let mut r: Vec<char> = Vec::new();
    let mut i: usize = 0;
    while i < v.len()
        invariant
            i <= v@.len(),
            r@ == v@.take(i as int),
        decreases v@.len() - i,
    {
        r.push(v[i]);
        proof {
            assert(v@.take(i as int + 1) =~= v@.take(i as int).push(v@[i as int]));
        }
        i = i + 1;
    }
    proof {
        assert(v@.take(v@.len() as int) =~= v@);
    }
    r
}

/// Appends the rendering of `s` under the given indent to `out`.
fn append_rendered(out: &mut Vec<char>, s: &Vec<char>, indent: usize)
    ensures
        final(out)@ == old(out)@ + rendered(s@, indent as int),
{
    let ghost base = old(out)@;
    let mut i: usize = 0;
    proof {
        assert(base + rendered(s@.take(0), indent as int) =~= base);
    }
    while i < s.len()
        invariant
            i <= s@.len(),
            out@ == base + rendered(s@.take(i as int), indent as int),
        decreases s@.len() - i,
    {
        let c = s[i];
        proof {
            assert(s@.take(i as int + 1).drop_last() =~= s@.take(i as int));
            assert(s@.take(i as int + 1).last() == s@[i as int]);
        }
        if c == '\r' {
            proof {
                assert(out@ =~= base + rendered(s@.take(i as int + 1), indent as int));
            }
        } else if c == '\n' {
            out.push('\r');
            out.push('\n');
            let mut k: usize = 0;
            proof {
                assert(out@ =~= base + rendered(s@.take(i as int), indent as int) + blank_line()
                    + spaces(0));
            }
            while k < indent
                invariant
                    k <= indent,
                    out@ == base + rendered(s@.take(i as int), indent as int) + blank_line()
                        + spaces(k as int),
                decreases indent - k,
            {
                out.push(' ');
                proof {
                    assert(spaces(k as int + 1) =~= spaces(k as int).push(' '));
                }
                k = k + 1;
            }
            proof {
                assert(out@ =~= base + rendered(s@.take(i as int + 1), indent as int));
            }
        } else {
            out.push(c);
            proof {
                assert(out@ =~= base + rendered(s@.take(i as int + 1), indent as int));
            }
        }
        i = i + 1;
    }
    proof {
        assert(s@.take(s@.len() as int) =~= s@);
    }
}

} // verus!

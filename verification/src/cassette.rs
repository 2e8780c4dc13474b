//! The cassette: a two-sided cursor-zipper text buffer, and the display-row
//! geometry (word wrapping, row/column lookup) its cursor motions use.

use vstd::prelude::*;

use crate::text::{
    back_non_ws, back_ws, chars_of, chars_of2, concat2, count_words, line_end, line_start,
    nl_count, pop_char, push_char, push_str, scan_back_non_ws, scan_back_ws,
    scan_line_end, scan_line_start, scan_skip_non_ws, scan_skip_ws, skip_non_ws, skip_ws,
    string_of_range, words_in, count_newlines,
};


verus! {

// ---------------------------------------------------------------------------
// Word wrapping
// ---------------------------------------------------------------------------

/// State of the wrapping scan after some prefix of the text: the rows closed
/// so far, where the open row starts, and the wrap candidate (the index just
/// after the last space of the open row).
pub type WrapState = (Seq<(int, int)>, int, Option<int>);

/// One character of the wrapping scan. A `'\n'` closes the open row (the
/// newline itself belongs to no row). Any other character that would be
/// column `width + 1` and is not a space wraps the row: at the wrap
/// candidate when there is one inside the row (the word moves whole to the
/// next row, the spaces before it stay behind), otherwise right before this
/// character (a word longer than the row is hard-broken). Spaces never wrap,
/// so a run of trailing spaces hangs past the edge.
pub open spec fn wrap_step(chars: Seq<char>, width: int, st: WrapState, i: int) -> WrapState {
    let (rows, start, brk) = st;
    if chars[i] == '\n' {
        (rows.push((start, i)), i + 1, None)
    } else if i - start >= width && chars[i] != ' ' {
        match brk {
            Some(b) => if b > start {
                (rows.push((start, b)), b, None)
            } else {
                (rows.push((start, i)), i, None)
            },
            None => (rows.push((start, i)), i, None),
        }
    } else if chars[i] == ' ' {
        (rows, start, Some(i + 1))
    } else {
        (rows, start, brk)
    }
}

/// The wrapping scan after the first `n` characters.
pub open spec fn wrap_upto(chars: Seq<char>, width: int, n: int) -> WrapState
    decreases n,
{
    if n <= 0 {
        (Seq::empty(), 0, None)
    } else {
        wrap_step(chars, width, wrap_upto(chars, width, n - 1), n - 1)
    }
}

/// The display rows of `chars` wrapped at `width` columns (at least one):
/// the rows the scan closed, then the open row up to the end of the text.
pub open spec fn wrap_rows(chars: Seq<char>, width: int) -> Seq<(int, int)> {
    let w = if width < 1 {
        1
    } else {
        width
    };
    let st = wrap_upto(chars, w, chars.len() as int);
    st.0.push((st.1, chars.len() as int))
}

/// Row `(s, e)` is followed by a row starting at `next`: directly (a soft
/// wrap) or after the `'\n'` that ended it.
pub open spec fn row_link(chars: Seq<char>, row: (int, int), next: int) -> bool {
    next == row.1 || (next == row.1 + 1 && chars[row.1] == '\n')
}

/// `rows` cut `chars` into display rows: they start at 0, end at the end of
/// the text, follow each other in order, hold no `'\n'`, and are separated
/// only by the `'\n'`s that end lines.
pub open spec fn rows_tile(chars: Seq<char>, rows: Seq<(int, int)>) -> bool {
    &&& rows.len() > 0
    &&& rows[0].0 == 0
    &&& rows.last().1 == chars.len()
    &&& forall|k: int| 0 <= k < rows.len() ==> 0 <= #[trigger] rows[k].0 <= rows[k].1 <= chars.len()
    &&& forall|k: int|
        0 <= k < rows.len() - 1 ==> row_link(chars, #[trigger] rows[k], rows[k + 1].0)
    &&& forall|k: int, j: int|
        0 <= k < rows.len() && #[trigger] rows[k].0 <= j < rows[k].1 ==> #[trigger] chars[j]
            != '\n'
}

/// A row that a soft wrap started is not empty and does not start with a
/// space.
pub open spec fn soft_rows_start_on_words(chars: Seq<char>, rows: Seq<(int, int)>) -> bool {
    forall|k: int|
        0 <= k < rows.len() - 1 && #[trigger] rows[k + 1].0 == rows[k].1 ==> rows[k + 1].0
            < rows[k + 1].1 && chars[rows[k + 1].0] != ' '
}

/// What holds of the scan after `n` characters.
pub open spec fn wrap_state_wf(chars: Seq<char>, n: int, st: WrapState) -> bool {
    let (rows, start, brk) = st;
    &&& 0 <= start <= n <= chars.len()
    &&& (rows.len() == 0 ==> start == 0)
    &&& (rows.len() > 0 ==> rows[0].0 == 0)
    &&& forall|k: int| 0 <= k < rows.len() ==> 0 <= #[trigger] rows[k].0 <= rows[k].1 <= start
    &&& forall|k: int|
        0 <= k < rows.len() - 1 ==> row_link(chars, #[trigger] rows[k], rows[k + 1].0)
    &&& (rows.len() > 0 ==> row_link(chars, rows.last(), start))
    &&& forall|k: int, j: int|
        0 <= k < rows.len() && #[trigger] rows[k].0 <= j < rows[k].1 ==> #[trigger] chars[j]
            != '\n'
    &&& forall|j: int| start <= j < n ==> #[trigger] chars[j] != '\n'
    &&& soft_rows_start_on_words(chars, rows)
    &&& (rows.len() > 0 && start == rows.last().1 ==> start < n && chars[start] != ' ')
    &&& (brk matches Some(b) ==> start < b <= n && (b < n ==> chars[b] != ' '))
}

proof fn lemma_wrap_step_wf(chars: Seq<char>, width: int, n: int)
    requires
        width >= 1,
        0 <= n < chars.len(),
        wrap_state_wf(chars, n, wrap_upto(chars, width, n)),
    ensures
        wrap_state_wf(chars, n + 1, wrap_upto(chars, width, n + 1)),
{
    let st = wrap_upto(chars, width, n);
    let (rows, start, brk) = st;
    let st2 = wrap_upto(chars, width, n + 1);
    assert(st2 == wrap_step(chars, width, st, n));
    let (rows2, start2, brk2) = st2;
    if rows2.len() > rows.len() {
        // a row was closed: rows2 == rows.push(closed)
        let closed = rows2.last();
        assert(rows2 == rows.push(closed));
        assert(closed.0 == start);
        assert forall|k: int| 0 <= k < rows2.len() - 1 implies row_link(
            chars,
            #[trigger] rows2[k],
            rows2[k + 1].0,
        ) by {
            if k < rows.len() - 1 {
                assert(rows2[k] == rows[k]);
                assert(rows2[k + 1] == rows[k + 1]);
            } else {
                assert(rows2[k] == rows.last());
            }
        }
        assert forall|k: int, j: int|
            0 <= k < rows2.len() && #[trigger] rows2[k].0 <= j < rows2[k].1 implies #[trigger] chars[j]
            != '\n' by {
            if k < rows.len() {
                assert(rows2[k] == rows[k]);
            }
        }
        assert forall|k: int|
            0 <= k < rows2.len() - 1 && #[trigger] rows2[k + 1].0 == rows2[k].1 implies rows2[k
            + 1].0 < rows2[k + 1].1 && chars[rows2[k + 1].0] != ' ' by {
            if k < rows.len() - 1 {
                assert(rows2[k] == rows[k]);
                assert(rows2[k + 1] == rows[k + 1]);
            } else {
                assert(rows2[k] == rows.last());
                assert(rows2[k + 1] == closed);
            }
        }
        assert forall|k: int| 0 <= k < rows2.len() implies 0 <= #[trigger] rows2[k].0 <= rows2[k].1
            <= start2 by {
            if k < rows.len() {
                assert(rows2[k] == rows[k]);
            }
        }
    } else {
        assert(rows2 == rows);
    }
}

proof fn lemma_wrap_upto_wf(chars: Seq<char>, width: int, n: int)
    requires
        width >= 1,
        0 <= n <= chars.len(),
    ensures
        wrap_state_wf(chars, n, wrap_upto(chars, width, n)),
    decreases n,
{
    if n > 0 {
        lemma_wrap_upto_wf(chars, width, n - 1);
        lemma_wrap_step_wf(chars, width, n - 1);
    }
}

/// Wrapped rows tile the text, and a row that a soft wrap started begins on
/// a word: wrapped rows never start with a space.
pub proof fn lemma_wrap_rows_tile(chars: Seq<char>, width: int)
    ensures
        rows_tile(chars, wrap_rows(chars, width)),
        soft_rows_start_on_words(chars, wrap_rows(chars, width)),
{
    let w = if width < 1 {
        1
    } else {
        width
    };
    lemma_wrap_upto_wf(chars, w, chars.len() as int);
    let st = wrap_upto(chars, w, chars.len() as int);
    let (rows, start, brk) = st;
    let out = wrap_rows(chars, width);
    assert(out == rows.push((start, chars.len() as int)));
    assert forall|k: int| 0 <= k < out.len() implies 0 <= #[trigger] out[k].0 <= out[k].1
        <= chars.len() by {
        if k < rows.len() {
            assert(out[k] == rows[k]);
        }
    }
    assert forall|k: int| 0 <= k < out.len() - 1 implies row_link(
        chars,
        #[trigger] out[k],
        out[k + 1].0,
    ) by {
        if k < rows.len() - 1 {
            assert(out[k] == rows[k]);
            assert(out[k + 1] == rows[k + 1]);
        } else {
            assert(out[k] == rows.last());
        }
    }
    assert forall|k: int, j: int|
        0 <= k < out.len() && #[trigger] out[k].0 <= j < out[k].1 implies #[trigger] chars[j]
        != '\n' by {
        if k < rows.len() {
            assert(out[k] == rows[k]);
        }
    }
    assert forall|k: int|
        0 <= k < out.len() - 1 && #[trigger] out[k + 1].0 == out[k].1 implies out[k + 1].0 < out[k
        + 1].1 && chars[out[k + 1].0] != ' ' by {
        if k < rows.len() - 1 {
            assert(out[k] == rows[k]);
            assert(out[k + 1] == rows[k + 1]);
        } else {
            assert(out[k] == rows.last());
        }
    }
}

/// The rows of a `Vec` of spans, as integers.
pub open spec fn span_ints(s: Seq<(usize, usize)>) -> Seq<(int, int)> {
    s.map_values(|p: (usize, usize)| (p.0 as int, p.1 as int))
}

/// The wrap candidate, as an integer.
pub open spec fn opt_int(o: Option<usize>) -> Option<int> {
    match o {
        Some(b) => Some(b as int),
        None => None,
    }
}

/// Display rows for `chars` word-wrapped at `width` columns, breaking on
/// `'\n'`: `(start, end)` char-index spans, a terminating `'\n'` not part of
/// its span. Wrapping happens at word boundaries; words longer than `width`
/// are hard-broken; runs of trailing spaces hang past the edge.
pub fn wrap_spans(chars: &[char], width: usize) -> (spans: Vec<(usize, usize)>)
    ensures
        span_ints(spans@) == wrap_rows(chars@, width as int),
        rows_tile(chars@, span_ints(spans@)),
        soft_rows_start_on_words(chars@, span_ints(spans@)),
{
    let w: usize = if width < 1 {
        1
    } else {
        width
    };
    let ghost wi: int = w as int;
    let mut spans: Vec<(usize, usize)> = Vec::new();
    let mut start: usize = 0;
    let mut col: usize = 0;
    let mut last_break: Option<usize> = None;
    let mut i: usize = 0;
    proof {
        assert(span_ints(spans@) =~= Seq::<(int, int)>::empty());
    }
    while i < chars.len()
        invariant
            i <= chars.len(),
            w >= 1,
            wi == w,
            wi == (if width < 1 {
                1
            } else {
                width as int
            }),
            start <= i,
            col == i - start,
            span_ints(spans@) == wrap_upto(chars@, wi, i as int).0,
            start as int == wrap_upto(chars@, wi, i as int).1,
            opt_int(last_break) == wrap_upto(chars@, wi, i as int).2,
            last_break matches Some(b) ==> start < b <= i,
        decreases chars.len() - i,
    {
        let ghost before = spans@;
        let c = chars[i];
        if c == '\n' {
            spans.push((start, i));
            proof {
                assert(span_ints(spans@) =~= span_ints(before).push((start as int, i as int)));
            }
            start = i + 1;
            col = 0;
            last_break = None;
        } else {
            col = col + 1;
            if col > w && c != ' ' {
                match last_break {
                    Some(b) if b > start => {
                        spans.push((start, b));
                        proof {
                            assert(span_ints(spans@) =~= span_ints(before).push(
                                (start as int, b as int),
                            ));
                        }
                        start = b;
                    },
                    _ => {
                        spans.push((start, i));
                        proof {
                            assert(span_ints(spans@) =~= span_ints(before).push(
                                (start as int, i as int),
                            ));
                        }
                        start = i;
                    },
                }
                col = i - start + 1;
                last_break = None;
            }
            if c == ' ' {
                last_break = Some(i + 1);
            }
        }
        i = i + 1;
    }
    let ghost before = spans@;
    spans.push((start, chars.len()));
    proof {
        assert(span_ints(spans@) =~= span_ints(before).push((start as int, chars.len() as int)));
        lemma_wrap_rows_tile(chars@, width as int);
    }
    spans
}


// ---------------------------------------------------------------------------
// Rows and columns
// ---------------------------------------------------------------------------

/// Rows that start at 0, never end before they start, and follow each other
/// in order with at most one character (a line's `'\n'`) between them.
pub open spec fn rows_chain(rows: Seq<(int, int)>) -> bool {
    &&& rows.len() > 0
    &&& rows[0].0 == 0
    &&& forall|k: int| 0 <= k < rows.len() ==> #[trigger] rows[k].0 <= rows[k].1
    &&& forall|k: int|
        0 <= k < rows.len() - 1 ==> #[trigger] rows[k].1 <= rows[k + 1].0 <= rows[k].1 + 1
}

pub proof fn lemma_tile_chain(chars: Seq<char>, rows: Seq<(int, int)>)
    requires
        rows_tile(chars, rows),
    ensures
        rows_chain(rows),
{
    assert forall|k: int| 0 <= k < rows.len() - 1 implies #[trigger] rows[k].1 <= rows[k + 1].0
        <= rows[k].1 + 1 by {
        assert(row_link(chars, rows[k], rows[k + 1].0));
    }
}

/// Whether row `i` is followed by a row that a soft wrap started at its end.
pub open spec fn soft_after(rows: Seq<(int, int)>, i: int) -> bool {
    i + 1 < rows.len() && rows[i + 1].0 == rows[i].1
}

/// Row and column of position `pos`, looking from row `i` on: the first row
/// that holds `pos`, where a position at a soft-wrap boundary belongs to the
/// start of the following row; past the last row, the end of the last row.
pub open spec fn row_col_from(rows: Seq<(int, int)>, pos: int, i: int) -> (int, int)
    decreases rows.len() - i,
{
    if i < 0 || i >= rows.len() {
        (rows.len() - 1, rows.last().1 - rows.last().0)
    } else if pos < rows[i].1 || (pos == rows[i].1 && !soft_after(rows, i)) {
        (i, pos - rows[i].0)
    } else {
        row_col_from(rows, pos, i + 1)
    }
}

/// Row and column of position `pos` within `rows`.
pub open spec fn row_col(rows: Seq<(int, int)>, pos: int) -> (int, int) {
    row_col_from(rows, pos, 0)
}

/// Row and column of char position `pos` within `spans`. On a soft-wrap
/// boundary the position belongs to the start of the following row.
pub fn pos_to_row_col(spans: &[(usize, usize)], pos: usize) -> (rc: (usize, usize))
    requires
        rows_chain(span_ints(spans@)),
    ensures
        (rc.0 as int, rc.1 as int) == row_col(span_ints(spans@), pos as int),
        rc.0 < spans.len(),
{
    let ghost rows = span_ints(spans@);
    let mut i: usize = 0;
    while i < spans.len()
        invariant
            rows == span_ints(spans@),
            rows_chain(rows),
            i <= spans.len(),
            i < spans.len() ==> rows[i as int].0 <= pos,
            row_col(rows, pos as int) == row_col_from(rows, pos as int, i as int),
        decreases spans.len() - i,
    {
        let (s, e) = spans[i];
        assert(rows[i as int] == (s as int, e as int));
        if pos < e {
            return (i, pos - s);
        }
        if pos == e {
            if i + 1 < spans.len() && spans[i + 1].0 == e {
                assert(rows[i + 1] == (spans@[i + 1].0 as int, spans@[i + 1].1 as int));
            } else {
                return (i, pos - s);
            }
        }
        if i + 1 < spans.len() {
            assert(rows[i + 1] == (spans@[i + 1].0 as int, spans@[i + 1].1 as int));
        }
        i = i + 1;
    }
    let (s, e) = spans[spans.len() - 1];
    assert(rows.last() == (s as int, e as int));
    (spans.len() - 1, e - s)
}

/// Position of column `col` on row `row` (the last row when `row` is past
/// it), clamped to the row's end.
pub open spec fn col_pos(rows: Seq<(int, int)>, row: int, col: int) -> int {
    let r = if row < rows.len() - 1 {
        row
    } else {
        rows.len() - 1
    };
    rows[r].0 + if col < rows[r].1 - rows[r].0 {
        col
    } else {
        rows[r].1 - rows[r].0
    }
}

fn row_col_to_pos(spans: &[(usize, usize)], row: usize, col: usize) -> (p: usize)
    requires
        rows_chain(span_ints(spans@)),
    ensures
        p as int == col_pos(span_ints(spans@), row as int, col as int),
{
    let ghost rows = span_ints(spans@);
    let r = if row < spans.len() - 1 {
        row
    } else {
        spans.len() - 1
    };
    let (s, e) = spans[r];
    assert(rows[r as int] == (s as int, e as int));
    s + if col < e - s {
        col
    } else {
        e - s
    }
}

/// Bounds of the logical line (between `'\n'`s) containing char position
/// `pos`: from just after the previous `'\n'` (or 0) to the next `'\n'` (or
/// the text length).
fn line_bounds(chars: &[char], pos: usize) -> (b: (usize, usize))
    requires
        pos <= chars.len(),
    ensures
        b.0 as int == line_start(chars@, pos as int),
        b.1 as int == line_end(chars@, pos as int),
        b.0 <= pos <= b.1 <= chars.len(),
{
    (scan_line_start(chars, pos), scan_line_end(chars, pos))
}


// ---------------------------------------------------------------------------
// The cassette
// ---------------------------------------------------------------------------

/// Which side of the cassette is currently active.
#[derive(Clone, Copy, Debug, PartialEq, Eq, Structural)]
pub enum Side {
    A,
    B,
}

/// Cursor-zipper text buffer: `left` holds the text before the cursor,
/// `right` the text after it. Text may contain `'\n'`; display wrapping is
/// computed with `wrap_spans`.
///
/// Each cassette has two sides, like a tape. The zipper always holds the
/// active side; `flip` swaps it with the stored back side, so each side keeps
/// its own cursor and its own undo history across flips.
/// Undo snapshots of one side, oldest first: the side's text before and
/// after the cursor at each snapshot.
#[derive(Clone, Debug)]
pub struct UndoStack {
    snaps: Vec<(String, String)>,
}

/// The side of a cassette that is flipped away: its text on either side of
/// its own cursor, and its own undo history.
#[derive(Clone, Debug)]
pub struct Reel {
    left: String,
    right: String,
    undo: UndoStack,
}

/// Snapshots of a side, as character sequences.
pub open spec fn snaps(v: Seq<(String, String)>) -> Seq<(Seq<char>, Seq<char>)> {
    v.map_values(|p: (String, String)| (p.0@, p.1@))
}

impl UndoStack {
    pub closed spec fn seq(&self) -> Seq<(Seq<char>, Seq<char>)> {
        snaps(self.snaps@)
    }

    fn new() -> (u: Self)
        ensures
            u.seq() == Seq::<(Seq<char>, Seq<char>)>::empty(),
    {
        let u = UndoStack { snaps: Vec::new() };
        assert(u.seq() =~= Seq::<(Seq<char>, Seq<char>)>::empty());
        u
    }
}

impl Reel {
    pub closed spec fn text_seq(&self) -> Seq<char> {
        self.left@ + self.right@
    }

    pub closed spec fn cursor(&self) -> int {
        self.left@.len() as int
    }

    pub closed spec fn undo_seq(&self) -> Seq<(Seq<char>, Seq<char>)> {
        self.undo.seq()
    }
}

/// Cursor-zipper text buffer: `left` holds the text before the cursor,
/// `right` the text after it. Text may contain `'\n'`; display wrapping is
/// computed with `wrap_spans`.
///
/// Each cassette has two sides, like a tape. The zipper always holds the
/// active side; `flip` swaps it with the stored `back` side, so each side
/// keeps its own cursor and its own undo history across flips.
#[derive(Clone, Debug)]
pub struct Cassette {
    pub left: String,
    pub right: String,
    /// Undo snapshots of the active side.
    pub undo: UndoStack,
    /// The side flipped away.
    pub back: Reel,
    pub side: Side,
    /// Label shown in the cassette's separator.
    pub topic: Option<String>,
    /// Store id; empty until the store mints one.
    pub id: String,
    /// Queue priority; `i64::MAX` until the store assigns one.
    pub priority: i64,
    pub closed: bool,
    /// Unsaved edits since the last flush.
    pub dirty: bool,
    /// Display name of the writer holding a sticky lock on it, if any.
    pub locked_by: Option<String>,
}

impl Cassette {
    /// Text of the active side.
    pub open spec fn text_seq(&self) -> Seq<char> {
        self.left@ + self.right@
    }

    /// Cursor position on the active side.
    pub open spec fn cursor(&self) -> int {
        self.left@.len() as int
    }

    /// Text of the side flipped away.
    pub open spec fn back_seq(&self) -> Seq<char> {
        self.back.text_seq()
    }

    /// Cursor position on the side flipped away.
    pub open spec fn back_cursor(&self) -> int {
        self.back.cursor()
    }

    /// Undo snapshots of the active side, oldest first.
    pub open spec fn undo_seq(&self) -> Seq<(Seq<char>, Seq<char>)> {
        self.undo.seq()
    }

    /// Undo snapshots of the side flipped away.
    pub open spec fn back_undo_seq(&self) -> Seq<(Seq<char>, Seq<char>)> {
        self.back.undo_seq()
    }

    pub open spec fn side_a_seq(&self) -> Seq<char> {
        if self.side == Side::A {
            self.text_seq()
        } else {
            self.back_seq()
        }
    }

    pub open spec fn side_b_seq(&self) -> Seq<char> {
        if self.side == Side::A {
            self.back_seq()
        } else {
            self.text_seq()
        }
    }

    /// The store-facing fields and the active side agree.
    pub open spec fn same_meta(&self, o: &Self) -> bool {
        &&& self.side == o.side
        &&& self.topic == o.topic
        &&& self.id == o.id
        &&& self.priority == o.priority
        &&& self.closed == o.closed
        &&& self.dirty == o.dirty
        &&& self.locked_by == o.locked_by
    }

    /// The side flipped away and both undo histories agree.
    pub open spec fn same_hidden(&self, o: &Self) -> bool {
        &&& self.back_seq() == o.back_seq()
        &&& self.back_cursor() == o.back_cursor()
        &&& self.undo_seq() == o.undo_seq()
        &&& self.back_undo_seq() == o.back_undo_seq()
    }

    /// Only the active side's text and cursor may differ.
    pub open spec fn same_but_active(&self, o: &Self) -> bool {
        self.same_meta(o) && self.same_hidden(o)
    }

    /// Everything observable agrees.
    pub open spec fn same_state(&self, o: &Self) -> bool {
        &&& self.same_but_active(o)
        &&& self.left@ == o.left@
        &&& self.right@ == o.right@
    }

    /// `o` is this cassette flipped to its other side.
    pub open spec fn flipped_to(&self, o: &Self) -> bool {
        &&& o.text_seq() == self.back_seq()
        &&& o.cursor() == self.back_cursor()
        &&& o.back_seq() == self.text_seq()
        &&& o.back_cursor() == self.cursor()
        &&& o.undo_seq() == self.back_undo_seq()
        &&& o.back_undo_seq() == self.undo_seq()
        &&& o.side == (if self.side == Side::A {
            Side::B
        } else {
            Side::A
        })
        &&& o.topic == self.topic
        &&& o.id == self.id
        &&& o.priority == self.priority
        &&& o.closed == self.closed
        &&& o.dirty == self.dirty
        &&& o.locked_by == self.locked_by
    }

    /// `o` is this cassette with a snapshot of its active side taken.
    pub open spec fn snapshot_to(&self, o: &Self) -> bool {
        &&& o.left@ == self.left@
        &&& o.right@ == self.right@
        &&& o.undo_seq() == self.undo_seq().push((self.left@, self.right@))
        &&& o.same_meta(self)
        &&& o.back == self.back
    }

    /// `o` is this cassette after an undo: back at the last snapshot, which
    /// leaves the history; with no snapshot, unchanged.
    pub open spec fn undo_to(&self, o: &Self) -> bool {
        if self.undo_seq().len() == 0 {
            o.same_state(self)
        } else {
            &&& (o.left@, o.right@) == self.undo_seq().last()
            &&& o.undo_seq() == self.undo_seq().drop_last()
            &&& o.same_meta(self)
            &&& o.back == self.back
        }
    }

    /// A cassette is determined by its active text and cursor once the rest
    /// is fixed: the zipper halves are the text cut at the cursor.
    pub proof fn lemma_zipper(&self)
        ensures
            self.left@ == self.text_seq().take(self.cursor()),
            self.right@ == self.text_seq().skip(self.cursor()),
    {
        assert(self.left@ =~= self.text_seq().take(self.cursor()));
        assert(self.right@ =~= self.text_seq().skip(self.cursor()));
    }

    pub fn new() -> (c: Self)
        ensures
            c.text_seq() == Seq::<char>::empty(),
            c.cursor() == 0,
            c.back_seq() == Seq::<char>::empty(),
            c.back_cursor() == 0,
            c.undo_seq() == Seq::<(Seq<char>, Seq<char>)>::empty(),
            c.back_undo_seq() == Seq::<(Seq<char>, Seq<char>)>::empty(),
            c.side == Side::A,
            c.topic is None,
            c.id@ == Seq::<char>::empty(),
            c.priority == i64::MAX,
            !c.closed,
            !c.dirty,
            c.locked_by is None,
    {
        let c = Cassette {
            left: String::new(),
            right: String::new(),
            undo: UndoStack::new(),
            back: Reel { left: String::new(), right: String::new(), undo: UndoStack::new() },
            side: Side::A,
            topic: None,
            id: String::new(),
            priority: i64::MAX,
            closed: false,
            dirty: false,
            locked_by: None,
        };
        assert(c.text_seq() =~= Seq::<char>::empty());
        assert(c.back_seq() =~= Seq::<char>::empty());
        assert(c.undo_seq() =~= Seq::<(Seq<char>, Seq<char>)>::empty());
        assert(c.back_undo_seq() =~= Seq::<(Seq<char>, Seq<char>)>::empty());
        c
    }

    /// A cassette holding the given sides, the cursor at the end of side A
    /// (ready to keep writing) and at the end of side B.
    pub fn from_sides(side_a: String, side_b: String, topic: Option<String>) -> (c: Self)
        ensures
            c.side == Side::A,
            c.text_seq() == side_a@,
            c.cursor() == side_a@.len(),
            c.back_seq() == side_b@,
            c.back_cursor() == side_b@.len(),
            c.undo_seq() == Seq::<(Seq<char>, Seq<char>)>::empty(),
            c.back_undo_seq() == Seq::<(Seq<char>, Seq<char>)>::empty(),
            c.topic == topic,
            c.id@ == Seq::<char>::empty(),
            c.priority == i64::MAX,
            !c.closed,
            !c.dirty,
            c.locked_by is None,
    {
        let c = Cassette {
            left: side_a,
            right: String::new(),
            undo: UndoStack::new(),
            back: Reel { left: side_b, right: String::new(), undo: UndoStack::new() },
            side: Side::A,
            topic,
            id: String::new(),
            priority: i64::MAX,
            closed: false,
            dirty: false,
            locked_by: None,
        };
        assert(c.text_seq() =~= c.left@);
        assert(c.back_seq() =~= c.back.left@);
        assert(c.undo_seq() =~= Seq::<(Seq<char>, Seq<char>)>::empty());
        assert(c.back_undo_seq() =~= Seq::<(Seq<char>, Seq<char>)>::empty());
        c
    }

    /// Like `from_sides`, with the side A cursor at `cursor` (clamped to the
    /// text).
    pub fn from_sides_with_cursor(
        side_a: String,
        side_b: String,
        topic: Option<String>,
        cursor: usize,
    ) -> (c: Self)
        ensures
            c.side == Side::A,
            c.text_seq() == side_a@,
            c.cursor() == (if cursor < side_a@.len() {
                cursor as int
            } else {
                side_a@.len() as int
            }),
            c.back_seq() == side_b@,
            c.back_cursor() == side_b@.len(),
            c.undo_seq() == Seq::<(Seq<char>, Seq<char>)>::empty(),
            c.back_undo_seq() == Seq::<(Seq<char>, Seq<char>)>::empty(),
            c.topic == topic,
            c.id@ == Seq::<char>::empty(),
            c.priority == i64::MAX,
            !c.closed,
            !c.dirty,
            c.locked_by is None,
    {
        let mut c = Cassette::from_sides(side_a, side_b, topic);
        c.set_cursor(cursor);
        c
    }

    /// Text of the active side.
    pub fn text(&self) -> (s: String)
        ensures
            s@ == self.text_seq(),
    {
        concat2(self.left.as_str(), self.right.as_str())
    }

    /// Number of characters before the cursor.
    pub fn cursor_pos(&self) -> (n: usize)
        ensures
            n == self.cursor(),
    {
        self.left.as_str().unicode_len()
    }

    /// Number of characters on the active side.
    pub fn char_count(&self) -> (n: usize)
        ensures
            n == self.text_seq().len(),
    {
        let (chars, _) = self.chars_and_pos();
        chars.len()
    }

    /// Flip to the other side, preserving each side's cursor position and
    /// undo history.
    pub fn flip(&mut self)
        ensures
            old(self).flipped_to(&*final(self)),
    {
        std::mem::swap(&mut self.left, &mut self.back.left);
        std::mem::swap(&mut self.right, &mut self.back.right);
        std::mem::swap(&mut self.undo, &mut self.back.undo);
        self.side = match self.side {
            Side::A => Side::B,
            Side::B => Side::A,
        };
    }

    /// Text of the side currently flipped away.
    pub fn back_text(&self) -> (s: String)
        ensures
            s@ == self.back_seq(),
    {
        concat2(self.back.left.as_str(), self.back.right.as_str())
    }

    pub fn side_a_text(&self) -> (s: String)
        ensures
            s@ == self.side_a_seq(),
    {
        match self.side {
            Side::A => self.text(),
            Side::B => self.back_text(),
        }
    }

    pub fn side_b_text(&self) -> (s: String)
        ensures
            s@ == self.side_b_seq(),
    {
        match self.side {
            Side::A => self.back_text(),
            Side::B => self.text(),
        }
    }

    /// 1-based (logical line, column) of the cursor.
    pub fn cursor_line_col(&self) -> (lc: (usize, usize))
        requires
            self.left@.len() < usize::MAX,
        ensures
            lc.0 == nl_count(self.left@) + 1,
            lc.1 == self.left@.len() - line_start(self.left@, self.left@.len() as int) + 1,
    {
        let v = chars_of(self.left.as_str());
        let lines = count_newlines(v.as_slice());
        proof {
            crate::text::lemma_nl_count_le(v@);
        }
        let start = scan_line_start(v.as_slice(), v.len());
        (lines + 1, v.len() - start + 1)
    }

    /// Replace the active side's text and cursor, keeping everything else.
    fn set_text_cursor(&mut self, v: &[char], p: usize)
        requires
            p <= v.len(),
        ensures
            final(self).left@ == v@.take(p as int),
            final(self).right@ == v@.skip(p as int),
            final(self).text_seq() == v@,
            final(self).cursor() == p,
            final(self).same_but_active(&*old(self)),
    {
        self.left = string_of_range(v, 0, p);
        self.right = string_of_range(v, p, v.len());
        assert(v@.subrange(0, p as int) =~= v@.take(p as int));
        assert(v@.subrange(p as int, v.len() as int) =~= v@.skip(p as int));
        assert(self.text_seq() =~= v@);
    }

    /// The active side's characters and the cursor position.
    fn chars_and_pos(&self) -> (r: (Vec<char>, usize))
        ensures
            r.0@ == self.text_seq(),
            r.1 == self.cursor(),
            r.1 <= r.0.len(),
    {
        let chars = chars_of2(self.left.as_str(), self.right.as_str());
        let pos = self.left.as_str().unicode_len();
        (chars, pos)
    }

    /// Move the cursor to char position `pos` (clamped to the text length).
    pub fn set_cursor(&mut self, pos: usize)
        ensures
            final(self).text_seq() == old(self).text_seq(),
            final(self).cursor() == (if pos < old(self).text_seq().len() {
                pos as int
            } else {
                old(self).text_seq().len() as int
            }),
            final(self).same_but_active(&*old(self)),
    {
        let (chars, _) = self.chars_and_pos();
        let p = if pos < chars.len() {
            pos
        } else {
            chars.len()
        };
        self.set_text_cursor(chars.as_slice(), p);
    }

    /// Words across both sides of the cassette.
    pub fn word_count(&self) -> (n: usize)
        requires
            words_in(self.text_seq()) + words_in(self.back_seq()) <= usize::MAX,
        ensures
            n == words_in(self.text_seq()) + words_in(self.back_seq()),
    {
        let a = self.text();
        let b = self.back_text();
        count_words(a.as_str()) + count_words(b.as_str())
    }

    /// Type `c` at the cursor.
    pub fn insert(&mut self, c: char)
        ensures
            final(self).left@ == old(self).left@.push(c),
            final(self).right@ == old(self).right@,
            final(self).same_but_active(&*old(self)),
    {
        push_char(&mut self.left, c);
    }

    /// Type `t` at the cursor, as one edit.
    pub fn insert_str(&mut self, t: &str)
        ensures
            final(self).left@ == old(self).left@ + t@,
            final(self).right@ == old(self).right@,
            final(self).same_but_active(&*old(self)),
    {
        push_str(&mut self.left, t);
    }

    /// Delete the character before the cursor, if any.
    pub fn backspace(&mut self)
        ensures
            final(self).left@ == (if old(self).left@.len() > 0 {
                old(self).left@.drop_last()
            } else {
                old(self).left@
            }),
            final(self).right@ == old(self).right@,
            final(self).same_but_active(&*old(self)),
    {
        let _ = pop_char(&mut self.left);
    }

    /// Delete the character under the cursor, if any.
    pub fn delete(&mut self)
        ensures
            final(self).left@ == old(self).left@,
            final(self).right@ == (if old(self).right@.len() > 0 {
                old(self).right@.skip(1)
            } else {
                old(self).right@
            }),
            final(self).same_but_active(&*old(self)),
    {
        let v = chars_of(self.right.as_str());
        if v.len() > 0 {
            self.right = string_of_range(v.as_slice(), 1, v.len());
            assert(v@.subrange(1, v.len() as int) =~= v@.skip(1));
        }
    }

    /// Move the cursor one character left.
    pub fn move_left(&mut self)
        ensures
            final(self).text_seq() == old(self).text_seq(),
            final(self).cursor() == (if old(self).cursor() > 0 {
                old(self).cursor() - 1
            } else {
                0
            }),
            final(self).same_but_active(&*old(self)),
    {
        let ghost before = self.left@;
        if let Some(c) = pop_char(&mut self.left) {
            let mut new_right = String::new();
            push_char(&mut new_right, c);
            push_str(&mut new_right, self.right.as_str());
            self.right = new_right;
            assert(self.text_seq() =~= old(self).text_seq());
        }
    }

    /// Move the cursor one character right.
    pub fn move_right(&mut self)
        ensures
            final(self).text_seq() == old(self).text_seq(),
            final(self).cursor() == (if old(self).cursor() < old(self).text_seq().len() {
                old(self).cursor() + 1
            } else {
                old(self).cursor()
            }),
            final(self).same_but_active(&*old(self)),
    {
        let v = chars_of(self.right.as_str());
        if v.len() > 0 {
            push_char(&mut self.left, v[0]);
            self.right = string_of_range(v.as_slice(), 1, v.len());
            assert(self.text_seq() =~= old(self).text_seq());
        }
    }

    /// Move the cursor one display row up, keeping the column when possible.
    pub fn move_up(&mut self, width: usize)
        ensures
            final(self).text_seq() == old(self).text_seq(),
            final(self).cursor() == up_target(old(self).text_seq(), width as int, old(self).cursor()),
            final(self).same_but_active(&*old(self)),
    {
        let (chars, pos) = self.chars_and_pos();
        let spans = wrap_spans(chars.as_slice(), width);
        proof {
            lemma_tile_chain(chars@, span_ints(spans@));
        }
        let (row, col) = pos_to_row_col(spans.as_slice(), pos);
        if row > 0 {
            let p = row_col_to_pos(spans.as_slice(), row - 1, col);
            proof {
                lemma_col_pos_in_text(chars@, span_ints(spans@), row - 1, col as int);
            }
            self.set_cursor(p);
        }
    }

    /// Move the cursor one display row down, keeping the column when possible.
    pub fn move_down(&mut self, width: usize)
        ensures
            final(self).text_seq() == old(self).text_seq(),
            final(self).cursor() == down_target(
                old(self).text_seq(),
                width as int,
                old(self).cursor(),
            ),
            final(self).same_but_active(&*old(self)),
    {
        let (chars, pos) = self.chars_and_pos();
        let spans = wrap_spans(chars.as_slice(), width);
        proof {
            lemma_tile_chain(chars@, span_ints(spans@));
        }
        let (row, col) = pos_to_row_col(spans.as_slice(), pos);
        if row + 1 < spans.len() {
            let p = row_col_to_pos(spans.as_slice(), row + 1, col);
            proof {
                lemma_col_pos_in_text(chars@, span_ints(spans@), row + 1, col as int);
            }
            self.set_cursor(p);
        }
    }

    /// Move to the start of the current display row (vim `0`).
    pub fn move_row_start(&mut self, width: usize)
        ensures
            final(self).text_seq() == old(self).text_seq(),
            final(self).cursor() == row_start_target(
                old(self).text_seq(),
                width as int,
                old(self).cursor(),
            ),
            final(self).same_but_active(&*old(self)),
    {
        let (chars, pos) = self.chars_and_pos();
        let spans = wrap_spans(chars.as_slice(), width);
        proof {
            lemma_tile_chain(chars@, span_ints(spans@));
        }
        let (row, _) = pos_to_row_col(spans.as_slice(), pos);
        let target = spans[row].0;
        proof {
            assert(span_ints(spans@)[row as int] == (target as int, spans@[row as int].1 as int));
        }
        self.set_cursor(target);
    }

    /// Move to the end of the current display row (vim `$`). On a
    /// soft-wrapped row the cursor lands before the last char so it stays on
    /// the same row.
    pub fn move_row_end(&mut self, width: usize)
        ensures
            final(self).text_seq() == old(self).text_seq(),
            final(self).cursor() == row_end_target(
                old(self).text_seq(),
                width as int,
                old(self).cursor(),
            ),
            final(self).same_but_active(&*old(self)),
    {
        let (chars, pos) = self.chars_and_pos();
        let spans = wrap_spans(chars.as_slice(), width);
        let ghost rows = span_ints(spans@);
        proof {
            lemma_tile_chain(chars@, rows);
        }
        let (row, _) = pos_to_row_col(spans.as_slice(), pos);
        let (s, e) = spans[row];
        proof {
            assert(rows[row as int] == (s as int, e as int));
            if row + 1 < spans.len() {
                assert(rows[row + 1] == (spans@[row + 1].0 as int, spans@[row + 1].1 as int));
            }
        }
        let soft = row + 1 < spans.len() && spans[row + 1].0 == e;
        let target = if soft {
            if e >= 1 && e - 1 >= s {
                e - 1
            } else {
                s
            }
        } else {
            e
        };
        self.set_cursor(target);
    }

    /// Move to the start of the next word (vim `w`).
    pub fn move_word_forward(&mut self)
        ensures
            final(self).text_seq() == old(self).text_seq(),
            final(self).cursor() == skip_ws(
                old(self).text_seq(),
                skip_non_ws(old(self).text_seq(), old(self).cursor()),
            ),
            final(self).same_but_active(&*old(self)),
    {
        let (chars, pos) = self.chars_and_pos();
        let p = scan_skip_non_ws(chars.as_slice(), pos);
        let p = scan_skip_ws(chars.as_slice(), p);
        self.set_text_cursor(chars.as_slice(), p);
    }

    /// Move to the start of the previous word (vim `b`).
    pub fn move_word_back(&mut self)
        ensures
            final(self).text_seq() == old(self).text_seq(),
            final(self).cursor() == back_non_ws(
                old(self).text_seq(),
                0,
                back_ws(old(self).text_seq(), 0, old(self).cursor()),
            ),
            final(self).same_but_active(&*old(self)),
    {
        let (chars, pos) = self.chars_and_pos();
        let p = scan_back_ws(chars.as_slice(), 0, pos);
        let p = scan_back_non_ws(chars.as_slice(), 0, p);
        self.set_text_cursor(chars.as_slice(), p);
    }

    /// Move to the very start of the text (vim `gg`).
    pub fn move_text_start(&mut self)
        ensures
            final(self).text_seq() == old(self).text_seq(),
            final(self).cursor() == 0,
            final(self).same_but_active(&*old(self)),
    {
        self.set_cursor(0);
    }

    /// Move to the very end of the text (vim `G`).
    pub fn move_text_end(&mut self)
        ensures
            final(self).text_seq() == old(self).text_seq(),
            final(self).cursor() == old(self).text_seq().len(),
            final(self).same_but_active(&*old(self)),
    {
        push_str(&mut self.left, self.right.as_str());
        self.right = String::new();
        assert(self.text_seq() =~= old(self).text_seq());
    }

    /// Delete the logical line under the cursor including its newline (vim
    /// `dd`); the last line has no trailing newline, so its leading one goes.
    pub fn delete_line(&mut self)
        ensures
            ({
                let t = old(self).text_seq();
                let (ds, de) = line_delete_range(t, old(self).cursor());
                &&& final(self).text_seq() == t.take(ds) + t.skip(de)
                &&& final(self).cursor() == ds
            }),
            final(self).same_but_active(&*old(self)),
    {
        let (chars, pos) = self.chars_and_pos();
        let (start, end) = line_bounds(chars.as_slice(), pos);
        let (del_start, del_end) = if end < chars.len() {
            (start, end + 1)
        } else {
            (if start >= 1 {
                start - 1
            } else {
                0
            }, end)
        };
        self.left = string_of_range(chars.as_slice(), 0, del_start);
        self.right = string_of_range(chars.as_slice(), del_end, chars.len());
        assert(chars@.subrange(0, del_start as int) =~= chars@.take(del_start as int));
        assert(chars@.subrange(del_end as int, chars.len() as int) =~= chars@.skip(del_end as int));
    }

    /// Open a new logical line below the current one and move onto it (vim
    /// `o`).
    pub fn open_below(&mut self)
        ensures
            ({
                let t = old(self).text_seq();
                let e = line_end(t, old(self).cursor());
                &&& final(self).text_seq() == t.take(e).push('\n') + t.skip(e)
                &&& final(self).cursor() == e + 1
            }),
            final(self).same_but_active(&*old(self)),
    {
        let (chars, pos) = self.chars_and_pos();
        let (_, end) = line_bounds(chars.as_slice(), pos);
        self.set_text_cursor(chars.as_slice(), end);
        self.insert('\n');
        assert(self.text_seq() =~= chars@.take(end as int).push('\n') + chars@.skip(end as int));
    }

    /// Open a new logical line above the current one and move onto it (vim
    /// `O`).
    pub fn open_above(&mut self)
        ensures
            ({
                let t = old(self).text_seq();
                let st = line_start(t, old(self).cursor());
                &&& final(self).text_seq() == t.take(st).push('\n') + t.skip(st)
                &&& final(self).cursor() == st
            }),
            final(self).same_but_active(&*old(self)),
    {
        let (chars, pos) = self.chars_and_pos();
        let (start, _) = line_bounds(chars.as_slice(), pos);
        self.set_text_cursor(chars.as_slice(), start);
        self.insert('\n');
        let ghost mid = self.text_seq();
        assert(mid =~= chars@.take(start as int).push('\n') + chars@.skip(start as int));
        self.move_left();
    }

    /// Delete back from the cursor over any whitespace and then the word
    /// before it (readline `Ctrl+W`).
    pub fn delete_word_back(&mut self)
        ensures
            ({
                let t = old(self).text_seq();
                let p = old(self).cursor();
                let q = back_non_ws(t, 0, back_ws(t, 0, p));
                &&& final(self).text_seq() == t.take(q) + t.skip(p)
                &&& final(self).cursor() == q
            }),
            final(self).same_but_active(&*old(self)),
    {
        let (chars, pos) = self.chars_and_pos();
        let q = scan_back_ws(chars.as_slice(), 0, pos);
        let q = scan_back_non_ws(chars.as_slice(), 0, q);
        self.left = string_of_range(chars.as_slice(), 0, q);
        self.right = string_of_range(chars.as_slice(), pos, chars.len());
        assert(chars@.subrange(0, q as int) =~= chars@.take(q as int));
        assert(chars@.subrange(pos as int, chars.len() as int) =~= chars@.skip(pos as int));
    }

    /// Delete from the start of the cursor's logical line up to the cursor
    /// (readline `Ctrl+U`).
    pub fn delete_to_line_start(&mut self)
        ensures
            ({
                let t = old(self).text_seq();
                let p = old(self).cursor();
                let st = line_start(t, p);
                &&& final(self).text_seq() == t.take(st) + t.skip(p)
                &&& final(self).cursor() == st
            }),
            final(self).same_but_active(&*old(self)),
    {
        let (chars, pos) = self.chars_and_pos();
        let (st, _) = line_bounds(chars.as_slice(), pos);
        self.left = string_of_range(chars.as_slice(), 0, st);
        self.right = string_of_range(chars.as_slice(), pos, chars.len());
        assert(chars@.subrange(0, st as int) =~= chars@.take(st as int));
        assert(chars@.subrange(pos as int, chars.len() as int) =~= chars@.skip(pos as int));
    }

    /// Apply one edit to the cassette, after taking an undo snapshot when
    /// `snapshot` is set. `width` is the display width row motions use.
    pub fn apply(&mut self, snapshot: bool, e: Edit, width: usize)
        ensures
            applied(*old(self), *final(self), snapshot, e, width as int),
    {
        if snapshot {
            self.snapshot();
        }
        let ghost mid = *self;
        let ghost ge = e;
        match e {
            Edit::Stay => {},
            Edit::Insert(c) => self.insert(c),
            Edit::InsertStr(t) => self.insert_str(t.as_str()),
            Edit::Backspace => {
                self.backspace();
                proof {
                    let t = mid.text_seq();
                    let p = mid.cursor();
                    if p > 0 {
                        assert(self.text_seq() =~= t.take(p - 1) + t.skip(p));
                    }
                }
            },
            Edit::Delete => {
                self.delete();
                proof {
                    let t = mid.text_seq();
                    let p = mid.cursor();
                    if p < t.len() {
                        assert(self.text_seq() =~= t.take(p) + t.skip(p + 1));
                    } else {
                        assert(self.text_seq() =~= t);
                    }
                }
            },
            Edit::Left => self.move_left(),
            Edit::Right => self.move_right(),
            Edit::Up => self.move_up(width),
            Edit::Down => self.move_down(width),
            Edit::RowStart => self.move_row_start(width),
            Edit::RowEnd => self.move_row_end(width),
            Edit::WordForward => self.move_word_forward(),
            Edit::WordBack => self.move_word_back(),
            Edit::TextStart => self.move_text_start(),
            Edit::TextEnd => self.move_text_end(),
            Edit::DeleteLine => self.delete_line(),
            Edit::OpenBelow => self.open_below(),
            Edit::OpenAbove => self.open_above(),
            Edit::DeleteWordBack => self.delete_word_back(),
            Edit::DeleteToLineStart => self.delete_to_line_start(),
            Edit::Undo => self.undo(),
            Edit::Flip => self.flip(),
            Edit::SetTopic(t) => {
                self.topic = t;
            },
        }
        proof {
            assert(step(mid, *self, ge, width as int));
            if snapshot {
                assert(old(self).snapshot_to(&mid));
            }
        }
    }

    /// Record the active side's text and cursor so that `undo` can return
    /// to them.
    pub fn snapshot(&mut self)
        ensures
            old(self).snapshot_to(&*final(self)),
    {
        let l = self.left.clone();
        let r = self.right.clone();
        self.undo.snaps.push((l, r));
        assert(self.undo_seq() =~= old(self).undo_seq().push((old(self).left@, old(self).right@)));
    }

    /// Return the active side to its last snapshot, if there is one.
    pub fn undo(&mut self)
        ensures
            old(self).undo_to(&*final(self)),
    {
        let ghost before = self.undo.snaps@;
        if let Some((l, r)) = self.undo.snaps.pop() {
            self.left = l;
            self.right = r;
            assert(self.undo_seq() =~= old(self).undo_seq().drop_last());
        }
    }
}

/// One edit of a cassette's active side, as the editor's keys make them.
#[derive(Debug)]
pub enum Edit {
    Stay,
    Insert(char),
    InsertStr(String),
    Backspace,
    Delete,
    Left,
    Right,
    Up,
    Down,
    RowStart,
    RowEnd,
    WordForward,
    WordBack,
    TextStart,
    TextEnd,
    DeleteLine,
    OpenBelow,
    OpenAbove,
    DeleteWordBack,
    DeleteToLineStart,
    Undo,
    Flip,
    SetTopic(Option<String>),
}

/// `n` is `o` with the active side's text and cursor replaced by `t` and
/// `p`, nothing else changed.
pub open spec fn rewritten(o: Cassette, n: Cassette, t: Seq<char>, p: int) -> bool {
    &&& n.text_seq() == t
    &&& n.cursor() == p
    &&& n.same_but_active(&o)
}

/// An optional string, as characters.
pub open spec fn opt_str_view(o: Option<String>) -> Option<Seq<char>> {
    match o {
        Some(s) => Some(s@),
        None => None,
    }
}

/// `n` is `o` after the edit `e` (no snapshot).
pub open spec fn step(o: Cassette, n: Cassette, e: Edit, width: int) -> bool {
    let t = o.text_seq();
    let p = o.cursor();
    match e {
        Edit::Stay => n == o,
        Edit::Insert(c) => n.left@ == o.left@.push(c) && n.right@ == o.right@ && n.same_but_active(
            &o,
        ),
        Edit::InsertStr(s) => n.left@ == o.left@ + s@ && n.right@ == o.right@
            && n.same_but_active(&o),
        Edit::Backspace => rewritten(
            o,
            n,
            if p > 0 {
                t.take(p - 1) + t.skip(p)
            } else {
                t
            },
            if p > 0 {
                p - 1
            } else {
                p
            },
        ),
        Edit::Delete => rewritten(
            o,
            n,
            if p < t.len() {
                t.take(p) + t.skip(p + 1)
            } else {
                t
            },
            p,
        ),
        Edit::Left => rewritten(
            o,
            n,
            t,
            if p > 0 {
                p - 1
            } else {
                0
            },
        ),
        Edit::Right => rewritten(
            o,
            n,
            t,
            if p < t.len() {
                p + 1
            } else {
                p
            },
        ),
        Edit::Up => rewritten(o, n, t, up_target(t, width, p)),
        Edit::Down => rewritten(o, n, t, down_target(t, width, p)),
        Edit::RowStart => rewritten(o, n, t, row_start_target(t, width, p)),
        Edit::RowEnd => rewritten(o, n, t, row_end_target(t, width, p)),
        Edit::WordForward => rewritten(o, n, t, skip_ws(t, skip_non_ws(t, p))),
        Edit::WordBack => rewritten(o, n, t, back_non_ws(t, 0, back_ws(t, 0, p))),
        Edit::TextStart => rewritten(o, n, t, 0),
        Edit::TextEnd => rewritten(o, n, t, t.len() as int),
        Edit::DeleteLine => {
            let (ds, de) = line_delete_range(t, p);
            rewritten(o, n, t.take(ds) + t.skip(de), ds)
        },
        Edit::OpenBelow => {
            let e = line_end(t, p);
            rewritten(o, n, t.take(e).push('\n') + t.skip(e), e + 1)
        },
        Edit::OpenAbove => {
            let st = line_start(t, p);
            rewritten(o, n, t.take(st).push('\n') + t.skip(st), st)
        },
        Edit::DeleteWordBack => {
            let q = back_non_ws(t, 0, back_ws(t, 0, p));
            rewritten(o, n, t.take(q) + t.skip(p), q)
        },
        Edit::DeleteToLineStart => {
            let st = line_start(t, p);
            rewritten(o, n, t.take(st) + t.skip(p), st)
        },
        Edit::Undo => o.undo_to(&n),
        Edit::Flip => o.flipped_to(&n),
        Edit::SetTopic(topic) => opt_str_view(n.topic) == opt_str_view(topic) && n == Cassette {
            topic: n.topic,
            ..o
        },
    }
}

/// `n` is `o` after the edit `e`, an undo snapshot taken first when
/// `snapshot` is set.
pub open spec fn applied(o: Cassette, n: Cassette, snapshot: bool, e: Edit, width: int) -> bool {
    if snapshot {
        exists|m: Cassette| o.snapshot_to(&m) && step(m, n, e, width)
    } else {
        step(o, n, e, width)
    }
}

/// Where `move_up` puts the cursor at `pos`: the same column one display row
/// up, clamped to that row; the first row stays put.
pub open spec fn up_target(t: Seq<char>, width: int, pos: int) -> int {
    let rows = wrap_rows(t, width);
    let rc = row_col(rows, pos);
    if rc.0 > 0 {
        col_pos(rows, rc.0 - 1, rc.1)
    } else {
        pos
    }
}

/// Where `move_down` puts the cursor at `pos`: the same column one display
/// row down, clamped to that row; the last row stays put.
pub open spec fn down_target(t: Seq<char>, width: int, pos: int) -> int {
    let rows = wrap_rows(t, width);
    let rc = row_col(rows, pos);
    if rc.0 + 1 < rows.len() {
        col_pos(rows, rc.0 + 1, rc.1)
    } else {
        pos
    }
}

/// Start of the display row holding `pos`.
pub open spec fn row_start_target(t: Seq<char>, width: int, pos: int) -> int {
    let rows = wrap_rows(t, width);
    rows[row_col(rows, pos).0].0
}

/// End of the display row holding `pos`; on a soft-wrapped row, its last
/// character (never before the row's start).
pub open spec fn row_end_target(t: Seq<char>, width: int, pos: int) -> int {
    let rows = wrap_rows(t, width);
    let r = row_col(rows, pos).0;
    let s = rows[r].0;
    let e = rows[r].1;
    if soft_after(rows, r) {
        if e - 1 >= s {
            e - 1
        } else {
            s
        }
    } else {
        e
    }
}

/// The characters `dd` deletes at `pos`: the logical line with its trailing
/// `'\n'`, or, on the last line, with the `'\n'` before it.
pub open spec fn line_delete_range(t: Seq<char>, pos: int) -> (int, int) {
    let st = line_start(t, pos);
    let e = line_end(t, pos);
    if e < t.len() {
        (st, e + 1)
    } else {
        (if st >= 1 {
            st - 1
        } else {
            0
        }, e)
    }
}

proof fn lemma_col_pos_in_text(chars: Seq<char>, rows: Seq<(int, int)>, row: int, col: int)
    requires
        rows_tile(chars, rows),
        0 <= row,
        0 <= col,
    ensures
        0 <= col_pos(rows, row, col) <= chars.len(),
{
    let r = if row < rows.len() - 1 {
        row
    } else {
        rows.len() - 1
    };
    assert(0 <= rows[r].0 <= rows[r].1 <= chars.len());
}

/// Flipping twice returns the cassette to the side it was on, with that
/// side's text, cursor and undo history as they were.
pub proof fn lemma_flip_twice(a: Cassette, b: Cassette, c: Cassette)
    requires
        a.flipped_to(&b),
        b.flipped_to(&c),
    ensures
        c.same_state(&a),
{
    a.lemma_zipper();
    c.lemma_zipper();
}

/// Each side keeps its own text and cursor: flipping away, editing the other
/// side in any way, and flipping back finds the first side as it was left.
pub proof fn lemma_flip_edit_flip(a: Cassette, b: Cassette, b2: Cassette, c: Cassette)
    requires
        a.flipped_to(&b),
        b2.same_hidden(&b),
        b2.side == b.side,
        b2.flipped_to(&c),
    ensures
        c.left@ == a.left@,
        c.right@ == a.right@,
        c.side == a.side,
        c.undo_seq() == a.undo_seq(),
{
    a.lemma_zipper();
    c.lemma_zipper();
}

/// One undo takes back everything done to the active side since the last
/// snapshot: text and cursor return to what they were when it was taken,
/// and the snapshot leaves the history.
pub proof fn lemma_undo_after_snapshot(a: Cassette, b: Cassette, b2: Cassette, c: Cassette)
    requires
        a.snapshot_to(&b),
        b2.same_hidden(&b),
        b2.undo_to(&c),
    ensures
        c.left@ == a.left@,
        c.right@ == a.right@,
        c.text_seq() == a.text_seq(),
        c.cursor() == a.cursor(),
        c.undo_seq() == a.undo_seq(),
{
    assert(b2.undo_seq() == a.undo_seq().push((a.left@, a.right@)));
    assert(b2.undo_seq().drop_last() =~= a.undo_seq());
}

} // verus!

//! The cassette body format and the `--json` contract's pure helpers: how a
//! body splits into its two sides, how long a cassette is, and whose turn it
//! is.

use vstd::prelude::*;

use crate::text::{
    chars_of, count_words as count_words_in, lemma_back_ws_slice, push_char, range_eq,
    scan_back_ws, trim_end, words_in,
};

verus! {

// ---------------------------------------------------------------------------
// Lines
// ---------------------------------------------------------------------------

/// The lines of `s` closed by the first `n` characters, and where the open
/// line starts. A line ends at `'\n'`; a `'\r'` right before that `'\n'` is
/// not part of the line.
pub open spec fn lines_upto(s: Seq<char>, n: int) -> (Seq<(int, int)>, int)
    decreases n,
{
    if n <= 0 {
        (Seq::empty(), 0)
    } else {
        let (ls, st) = lines_upto(s, n - 1);
        if s[n - 1] == '\n' {
            let e = if n - 1 > st && s[n - 2] == '\r' {
                n - 2
            } else {
                n - 1
            };
            (ls.push((st, e)), n)
        } else {
            (ls, st)
        }
    }
}

/// The lines of `s`, as `str::lines` gives them (index ranges): split at
/// `'\n'` or `"\r\n"`, the final line ending optional.
pub open spec fn text_lines(s: Seq<char>) -> Seq<(int, int)> {
    let (ls, st) = lines_upto(s, s.len() as int);
    if st < s.len() {
        ls.push((st, s.len() as int))
    } else {
        ls
    }
}

/// What holds of the lines closed by the first `n` characters.
pub open spec fn lines_wf(s: Seq<char>, n: int, st: (Seq<(int, int)>, int)) -> bool {
    &&& 0 <= st.1 <= n <= s.len()
    &&& forall|k: int| 0 <= k < st.0.len() ==> 0 <= #[trigger] st.0[k].0 <= st.0[k].1 <= st.1
}

pub proof fn lemma_lines_wf(s: Seq<char>, n: int)
    requires
        0 <= n <= s.len(),
    ensures
        lines_wf(s, n, lines_upto(s, n)),
    decreases n,
{
    if n > 0 {
        lemma_lines_wf(s, n - 1);
        let (ls, st) = lines_upto(s, n - 1);
        if s[n - 1] == '\n' {
            let e = if n - 1 > st && s[n - 2] == '\r' {
                n - 2
            } else {
                n - 1
            };
            let ls2 = ls.push((st, e));
            assert forall|k: int| 0 <= k < ls2.len() implies 0 <= #[trigger] ls2[k].0 <= ls2[k].1
                <= n by {
                if k < ls.len() {
                    assert(ls2[k] == ls[k]);
                }
            }
        }
    }
}

/// Every line of `s` lies inside `s`.
pub proof fn lemma_text_lines_in_bounds(s: Seq<char>)
    ensures
        forall|k: int|
            0 <= k < text_lines(s).len() ==> 0 <= #[trigger] text_lines(s)[k].0
                <= text_lines(s)[k].1 <= s.len(),
{
    lemma_lines_wf(s, s.len() as int);
    let (ls, st) = lines_upto(s, s.len() as int);
    let out = text_lines(s);
    assert forall|k: int| 0 <= k < out.len() implies 0 <= #[trigger] out[k].0 <= out[k].1
        <= s.len() by {
        if k < ls.len() {
            assert(out[k] == ls[k]);
        }
    }
}

/// The line ranges of `v`, as `str::lines` splits it.
pub fn lines_of_text(v: &[char]) -> (r: Vec<(usize, usize)>)
    ensures
        crate::cassette::span_ints(r@) == text_lines(v@),
{
    let mut ls: Vec<(usize, usize)> = Vec::new();
    let mut st: usize = 0;
    let mut i: usize = 0;
    proof {
        assert(crate::cassette::span_ints(ls@) =~= Seq::<(int, int)>::empty());
    }
    while i < v.len()
        invariant
            i <= v.len(),
            st <= i,
            crate::cassette::span_ints(ls@) == lines_upto(v@, i as int).0,
            st as int == lines_upto(v@, i as int).1,
        decreases v.len() - i,
    {
        proof {
            lemma_lines_wf(v@, i as int);
        }
        if v[i] == '\n' {
            let e = if i > st && v[i - 1] == '\r' {
                i - 1
            } else {
                i
            };
            let ghost before = ls@;
            ls.push((st, e));
            assert(crate::cassette::span_ints(ls@) =~= crate::cassette::span_ints(before).push(
                (st as int, e as int),
            ));
            st = i + 1;
        }
        i = i + 1;
    }
    if st < v.len() {
        let ghost before = ls@;
        ls.push((st, v.len()));
        assert(crate::cassette::span_ints(ls@) =~= crate::cassette::span_ints(before).push(
            (st as int, v.len() as int),
        ));
    }
    ls
}

// ---------------------------------------------------------------------------
// Sides
// ---------------------------------------------------------------------------

/// The heading of side A in a cassette body.
pub open spec fn heading_a() -> Seq<char> {
    "## Side A"@
}

/// The heading of side B in a cassette body.
pub open spec fn heading_b() -> Seq<char> {
    "## Side B"@
}

/// Line `r` of `s` is the heading `h` (trailing whitespace ignored).
pub open spec fn is_heading(s: Seq<char>, r: (int, int), h: Seq<char>) -> bool {
    trim_end(s.subrange(r.0, r.1)) == h
}

/// Index of the first line at or after `from` that is the heading `h`, or
/// the number of lines when there is none.
pub open spec fn find_heading(s: Seq<char>, ls: Seq<(int, int)>, h: Seq<char>, from: int) -> int
    decreases ls.len() - from,
{
    if from < 0 || from >= ls.len() {
        ls.len() as int
    } else if is_heading(s, ls[from], h) {
        from
    } else {
        find_heading(s, ls, h, from + 1)
    }
}

/// The lines `ls` of `s` joined with `'\n'`.
pub open spec fn join_lines(s: Seq<char>, ls: Seq<(int, int)>) -> Seq<char>
    decreases ls.len(),
{
    if ls.len() == 0 {
        Seq::empty()
    } else if ls.len() == 1 {
        s.subrange(ls[0].0, ls[0].1)
    } else {
        join_lines(s, ls.drop_last()) + seq!['\n'] + s.subrange(ls.last().0, ls.last().1)
    }
}

/// A cassette body split into its sides. Without a `## Side A` heading line
/// the whole body is side A. Otherwise side A is the lines after that
/// heading up to a `## Side B` heading line (any lines before the side A
/// heading are kept in front of it), and side B the lines after that.
pub open spec fn body_sides(s: Seq<char>) -> (Seq<char>, Seq<char>) {
    let ls = text_lines(s);
    let a = find_heading(s, ls, heading_a(), 0);
    if a >= ls.len() {
        (s, Seq::empty())
    } else {
        let b = find_heading(s, ls, heading_b(), a + 1);
        let a_lines = ls.take(a) + ls.subrange(a + 1, b);
        let b_lines = if b < ls.len() {
            ls.skip(b + 1)
        } else {
            Seq::empty()
        };
        (join_lines(s, a_lines), join_lines(s, b_lines))
    }
}

proof fn lemma_find_heading_bounds(s: Seq<char>, ls: Seq<(int, int)>, h: Seq<char>, from: int)
    requires
        0 <= from <= ls.len(),
    ensures
        from <= find_heading(s, ls, h, from) <= ls.len(),
    decreases ls.len() - from,
{
    if from < ls.len() && !is_heading(s, ls[from], h) {
        lemma_find_heading_bounds(s, ls, h, from + 1);
    }
}

/// Whether line `(lo, hi)` of `v` is the heading `h`.
fn line_is_heading(v: &[char], lo: usize, hi: usize, h: &[char]) -> (r: bool)
    requires
        lo <= hi <= v.len(),
    ensures
        r == is_heading(v@, (lo as int, hi as int), h@),
{
    let e = scan_back_ws(v, lo, hi);
    proof {
        lemma_back_ws_slice(v@, lo as int, hi as int, hi as int);
        let t = v@.subrange(lo as int, hi as int);
        assert(trim_end(t) =~= v@.subrange(lo as int, e as int));
        assert(h@.subrange(0, h@.len() as int) =~= h@);
    }
    range_eq(v, lo, e, h, 0, h.len())
}

/// `find_heading`, computed.
fn find_heading_in(v: &[char], ls: &[(usize, usize)], h: &[char], from: usize) -> (r: usize)
    requires
        from <= ls.len(),
        forall|k: int| 0 <= k < ls.len() ==> (#[trigger] ls@[k]).0 <= ls@[k].1 <= v.len(),
    ensures
        r as int == find_heading(v@, crate::cassette::span_ints(ls@), h@, from as int),
        from <= r <= ls.len(),
{
    let ghost sl = crate::cassette::span_ints(ls@);
    let mut i = from;
    while i < ls.len()
        invariant
            from <= i <= ls.len(),
            sl == crate::cassette::span_ints(ls@),
            forall|k: int| 0 <= k < ls.len() ==> (#[trigger] ls@[k]).0 <= ls@[k].1 <= v.len(),
            find_heading(v@, sl, h@, from as int) == find_heading(v@, sl, h@, i as int),
        decreases ls.len() - i,
    {
        let (lo, hi) = ls[i];
        assert(sl[i as int] == (lo as int, hi as int));
        if line_is_heading(v, lo, hi, h) {
            return i;
        }
        i = i + 1;
    }
    i
}

/// Appends the lines `ls[from..to]` of `v`, joined with `'\n'`, to `out`
/// (with a `'\n'` first when `out` already holds lines).
fn push_lines(
    out: &mut String,
    started: bool,
    v: &[char],
    ls: &[(usize, usize)],
    from: usize,
    to: usize,
) -> (now: bool)
    requires
        from <= to <= ls.len(),
        forall|k: int| 0 <= k < ls.len() ==> (#[trigger] ls@[k]).0 <= ls@[k].1 <= v.len(),
        started ==> old(out)@.len() >= 0,
    ensures
        now == (started || from < to),
        ({
            let sl = crate::cassette::span_ints(ls@);
            let part = sl.subrange(from as int, to as int);
            if started {
                final(out)@ == old(out)@ + (if part.len() > 0 {
                    seq!['\n'] + join_lines(v@, part)
                } else {
                    Seq::empty()
                })
            } else {
                final(out)@ == old(out)@ + join_lines(v@, part)
            }
        }),
{
    let ghost sl = crate::cassette::span_ints(ls@);
    let mut now = started;
    let mut i = from;
    while i < to
        invariant
            from <= i <= to <= ls.len(),
            sl == crate::cassette::span_ints(ls@),
            forall|k: int| 0 <= k < ls.len() ==> (#[trigger] ls@[k]).0 <= ls@[k].1 <= v.len(),
            now == (started || from < i),
            started ==> out@ == old(out)@ + (if i > from {
                seq!['\n'] + join_lines(v@, sl.subrange(from as int, i as int))
            } else {
                Seq::empty()
            }),
            !started ==> out@ == old(out)@ + join_lines(v@, sl.subrange(from as int, i as int)),
        decreases to - i,
    {
        let (lo, hi) = ls[i];
        assert(sl[i as int] == (lo as int, hi as int));
        let ghost before = out@;
        if now {
            push_char(out, '\n');
        }
        let mut k = lo;
        while k < hi
            invariant
                lo <= k <= hi <= v.len(),
                out@ == before + (if now {
                    seq!['\n']
                } else {
                    Seq::empty()
                }) + v@.subrange(lo as int, k as int),
            decreases hi - k,
        {
            push_char(out, v[k]);
            assert(v@.subrange(lo as int, k + 1) =~= v@.subrange(lo as int, k as int).push(v[k as int]));
            k = k + 1;
        }
        proof {
            let p1 = sl.subrange(from as int, i + 1);
            let p0 = sl.subrange(from as int, i as int);
            assert(p1.drop_last() =~= p0);
            assert(p1.last() == (lo as int, hi as int));
            if i > from {
                assert(join_lines(v@, p1) == join_lines(v@, p0) + seq!['\n'] + v@.subrange(
                    lo as int,
                    hi as int,
                ));
            } else {
                assert(p1.len() == 1);
                assert(join_lines(v@, p1) == v@.subrange(lo as int, hi as int));
            }
        }
        now = true;
        i = i + 1;
    }
    now
}

/// Split a cassette body into `(side_a, side_b)` (see `body_sides`).
pub fn split_sides(body: &str) -> (r: (String, String))
    ensures
        r.0@ == body_sides(body@).0,
        r.1@ == body_sides(body@).1,
{
    let v = chars_of(body);
    let ls = lines_of_text(v.as_slice());
    let ghost sl = crate::cassette::span_ints(ls@);
    proof {
        lemma_text_lines_in_bounds(v@);
        assert forall|k: int| 0 <= k < ls.len() implies (#[trigger] ls@[k]).0 <= ls@[k].1
            <= v.len() by {
            assert(sl[k] == (ls@[k].0 as int, ls@[k].1 as int));
        }
    }
    let ha = chars_of("## Side A");
    let hb = chars_of("## Side B");
    let a = find_heading_in(v.as_slice(), ls.as_slice(), ha.as_slice(), 0);
    if a >= ls.len() {
        return (crate::text::owned(body), String::new());
    }
    let b = find_heading_in(v.as_slice(), ls.as_slice(), hb.as_slice(), a + 1);
    let mut side_a = String::new();
    let started = push_lines(&mut side_a, false, v.as_slice(), ls.as_slice(), 0, a);
    let _ = push_lines(&mut side_a, started, v.as_slice(), ls.as_slice(), a + 1, b);
    let mut side_b = String::new();
    if b < ls.len() {
        let _ = push_lines(&mut side_b, false, v.as_slice(), ls.as_slice(), b + 1, ls.len());
    }
    proof {
        lemma_join_concat(v@, sl.take(a as int), sl.subrange(a + 1, b as int));
        assert(sl.subrange(0, a as int) =~= sl.take(a as int));
        assert(sl.subrange(b + 1, ls.len() as int) =~= sl.skip(b + 1));
        assert(side_b@ =~= body_sides(body@).1);
    }
    (side_a, side_b)
}

/// Joining two runs of lines is joining each, with a `'\n'` between when
/// both are non-empty.
pub proof fn lemma_join_concat(s: Seq<char>, x: Seq<(int, int)>, y: Seq<(int, int)>)
    ensures
        join_lines(s, x + y) == if x.len() == 0 {
            join_lines(s, y)
        } else if y.len() == 0 {
            join_lines(s, x)
        } else {
            join_lines(s, x) + seq!['\n'] + join_lines(s, y)
        },
    decreases y.len(),
{
    if x.len() == 0 {
        assert(x + y =~= y);
    } else if y.len() == 0 {
        assert(x + y =~= x);
    } else {
        lemma_join_concat(s, x, y.drop_last());
        assert((x + y).drop_last() =~= x + y.drop_last());
        assert((x + y).last() == y.last());
        if y.len() == 1 {
            assert(y.drop_last().len() == 0);
            assert(x + y.drop_last() =~= x);
        }
    }
}

// ---------------------------------------------------------------------------
// Word counts and turns
// ---------------------------------------------------------------------------

/// Words over both sides — what the editor counts for a cassette.
pub fn count_words(side_a: &str, side_b: &str) -> (n: usize)
    requires
        words_in(side_a@) + words_in(side_b@) <= usize::MAX,
    ensures
        n == words_in(side_a@) + words_in(side_b@),
{
    count_words_in(side_a) + count_words_in(side_b)
}

/// The session a listing belongs to.
#[derive(Clone, Debug)]
pub struct SessionRef {
    pub id: String,
    pub alias: Option<String>,
}

/// A writer as attributed on a cassette or holding its sticky lock. `kind`
/// is the wire spelling, `"human"` or `"agent"`.
#[derive(Clone, Debug)]
pub struct WriterRef {
    pub name: String,
    pub kind: &'static str,
}

/// One cassette, shaped for the `--json` contract.
#[derive(Clone, Debug)]
pub struct CassetteView {
    pub id: String,
    pub topic: Option<String>,
    pub priority: i64,
    pub status: &'static str,
    pub words: usize,
    pub busy: bool,
    pub sticky_lock: Option<WriterRef>,
    pub created_by: Option<WriterRef>,
    pub last_writer: Option<WriterRef>,
    pub waiting_on: Option<&'static str>,
    pub updated_at: String,
    pub side_a: String,
    pub side_b: String,
}

/// The `--json` payload for a listing.
#[derive(Clone, Debug)]
pub struct Listing {
    pub session: SessionRef,
    pub cassettes: Vec<CassetteView>,
}

/// Whose turn it is, given who wrote last: the other kind. `None` when the
/// last writer is unknown (or of no known kind): no turn is guessed.
pub open spec fn turn_after(last_writer: Option<&WriterRef>) -> Option<Seq<char>> {
    match last_writer {
        Some(w) => if w.kind@ == "human"@ {
            Some("agent"@)
        } else if w.kind@ == "agent"@ {
            Some("human"@)
        } else {
            None
        },
        None => None,
    }
}

/// Whose turn it is (see `turn_after`).
pub fn waiting_on(last_writer: Option<&WriterRef>) -> (r: Option<&'static str>)
    ensures
        match r {
            Some(k) => turn_after(last_writer) == Some(k@),
            None => turn_after(last_writer) is None,
        },
{
    match last_writer {
        Some(w) => {
            if crate::text::str_eq(w.kind, "human") {
                Some("agent")
            } else if crate::text::str_eq(w.kind, "agent") {
                Some("human")
            } else {
                None
            }
        },
        None => None,
    }
}

} // verus!

//! The cassette body format as a whole: the body `build_body` writes is the
//! body `split_sides` reads back apart, side for side.

use vstd::prelude::*;

use crate::queue::json::{
    body_sides, find_heading, heading_a, heading_b, is_heading, join_lines, lines_upto, text_lines,
};
use crate::queue::write::{body_of, written_body, written_side, Side, WriteMode};
use crate::text::{back_ws, is_ws, lemma_back_ws_bounds, lemma_skip_ws_bounds, skip_ws, trim, trim_end};

verus! {

// ---------------------------------------------------------------------------
// Line structure
// ---------------------------------------------------------------------------

/// The line ranges `ls` moved `d` characters to the right.
pub open spec fn shift(ls: Seq<(int, int)>, d: int) -> Seq<(int, int)> {
    Seq::new(ls.len(), |k: int| (ls[k].0 + d, ls[k].1 + d))
}

/// No `'\n'` in `s` is preceded by a `'\r'`: splitting `s` into lines drops
/// nothing but the `'\n'`s.
pub open spec fn no_crlf(s: Seq<char>) -> bool {
    forall|i: int| 0 < i < s.len() && #[trigger] s[i] == '\n' ==> s[i - 1] != '\r'
}

/// The lines closed in the first `n` characters of `p + q` are those of
/// `p`, while `n` stays within `p`.
proof fn lemma_lines_prefix(p: Seq<char>, q: Seq<char>, n: int)
    requires
        0 <= n <= p.len(),
    ensures
        lines_upto(p + q, n) == lines_upto(p, n),
    decreases n,
{
    if n > 0 {
        lemma_lines_prefix(p, q, n - 1);
        assert((p + q)[n - 1] == p[n - 1]);
        if n >= 2 {
            assert((p + q)[n - 2] == p[n - 2]);
        }
    }
}

/// Past a `p` whose last line is closed, the lines of `p + q` are those of
/// `p` followed by those of `q`, moved past `p`.
proof fn lemma_lines_shift(p: Seq<char>, q: Seq<char>, m: int)
    requires
        lines_upto(p, p.len() as int).1 == p.len(),
        0 <= m <= q.len(),
    ensures
        lines_upto(p + q, p.len() + m) == (
            lines_upto(p, p.len() as int).0 + shift(lines_upto(q, m).0, p.len() as int),
            p.len() + lines_upto(q, m).1,
        ),
    decreases m,
{
    let d = p.len() as int;
    if m == 0 {
        lemma_lines_prefix(p, q, d);
        assert(lines_upto(p, d).0 + shift(Seq::empty(), d) =~= lines_upto(p, d).0);
    } else {
        lemma_lines_shift(p, q, m - 1);
        crate::queue::json::lemma_lines_wf(q, m - 1);
        let s = p + q;
        let (lq, sq) = lines_upto(q, m - 1);
        assert(s[d + m - 1] == q[m - 1]);
        if q[m - 1] == '\n' {
            if m - 1 > sq {
                assert(s[d + m - 2] == q[m - 2]);
            }
            let e = if m - 1 > sq && q[m - 2] == '\r' {
                m - 2
            } else {
                m - 1
            };
            assert(lines_upto(p, d).0 + shift(lq, d).push((sq + d, e + d)) =~= lines_upto(p, d).0
                + shift(lq.push((sq, e)), d));
            assert((lines_upto(p, d).0 + shift(lq, d)).push((sq + d, e + d)) =~= lines_upto(p, d).0
                + shift(lq, d).push((sq + d, e + d)));
        }
    }
}

/// A text whose last character is `'\n'` has no open line.
proof fn lemma_closed(p: Seq<char>)
    requires
        p.len() > 0,
        p.last() == '\n',
    ensures
        lines_upto(p, p.len() as int).1 == p.len(),
        lines_upto(p, p.len() as int).0.len() > 0,
        text_lines(p) == lines_upto(p, p.len() as int).0,
{
}

/// The lines of `p + q`, for a `p` that ends with `'\n'`: those of `p`,
/// then those of `q` moved past `p`.
proof fn lemma_text_lines_concat(p: Seq<char>, q: Seq<char>)
    requires
        p.len() > 0,
        p.last() == '\n',
    ensures
        text_lines(p + q) == text_lines(p) + shift(text_lines(q), p.len() as int),
{
    let d = p.len() as int;
    lemma_closed(p);
    lemma_lines_shift(p, q, q.len() as int);
    assert((p + q).len() == d + q.len());
    let (lq, sq) = lines_upto(q, q.len() as int);
    if sq < q.len() {
        assert((text_lines(p) + shift(lq, d)).push((sq + d, d + q.len())) =~= text_lines(p)
            + shift(lq.push((sq, q.len() as int)), d));
    }
}

/// The lines closed in a text without `'\n'`: none.
proof fn lemma_lines_none(s: Seq<char>, n: int)
    requires
        0 <= n <= s.len(),
        forall|k: int| 0 <= k < n ==> s[k] != '\n',
    ensures
        lines_upto(s, n) == (Seq::<(int, int)>::empty(), 0int),
    decreases n,
{
    if n > 0 {
        lemma_lines_none(s, n - 1);
    }
}

/// A single line `h` closed by `'\n'` is one line, `h` itself.
proof fn lemma_one_line(h: Seq<char>)
    requires
        forall|k: int| 0 <= k < h.len() ==> h[k] != '\n',
        h.len() > 0 ==> h.last() != '\r',
    ensures
        text_lines(h + seq!['\n']) == seq![(0int, h.len() as int)],
{
    let s = h + seq!['\n'];
    assert forall|k: int| 0 <= k < h.len() implies s[k] != '\n' by {
        assert(s[k] == h[k]);
    }
    lemma_lines_none(s, h.len() as int);
    assert(s[h.len() as int] == '\n');
    if h.len() > 0 {
        assert(s[h.len() - 1] == h.last());
    }
    lemma_closed(s);
    assert(lines_upto(s, s.len() as int).0 =~= seq![(0int, h.len() as int)]);
}

/// Joined back with `'\n'`, the lines of a text without `"\r\n"` give the
/// text up to where its last closed line ends.
proof fn lemma_join_upto(s: Seq<char>, n: int)
    requires
        no_crlf(s),
        0 <= n <= s.len(),
    ensures
        ({
            let (ls, st) = lines_upto(s, n);
            &&& ls.len() == 0 ==> st == 0
            &&& ls.len() > 0 ==> 1 <= st <= n && s[st - 1] == '\n' && join_lines(s, ls)
                == s.subrange(0, st - 1)
        }),
    decreases n,
{
    if n > 0 {
        lemma_join_upto(s, n - 1);
        crate::queue::json::lemma_lines_wf(s, n - 1);
        let (ls, st) = lines_upto(s, n - 1);
        if s[n - 1] == '\n' {
            if n - 1 > 0 {
                assert(s[n - 2] != '\r');
            }
            let ls2 = ls.push((st, n - 1));
            assert(ls2.drop_last() =~= ls);
            if ls.len() > 0 {
                assert(s.subrange(0, st - 1) + seq!['\n'] + s.subrange(st, n - 1) =~= s.subrange(
                    0,
                    n - 1,
                ));
            }
        }
    }
}

/// Joined back with `'\n'`, the lines of a text without `"\r\n"` give the
/// text, less a final `'\n'`.
proof fn lemma_join_text_lines(s: Seq<char>)
    requires
        no_crlf(s),
    ensures
        join_lines(s, text_lines(s)) == if s.len() > 0 && s.last() == '\n' {
            s.drop_last()
        } else {
            s
        },
{
    let n = s.len() as int;
    lemma_join_upto(s, n);
    crate::queue::json::lemma_lines_wf(s, n);
    let (ls, st) = lines_upto(s, n);
    if st < n {
        if n > 0 && s[n - 1] == '\n' {
            assert(lines_upto(s, n).1 == n);
        }
        let ls2 = ls.push((st, n));
        assert(ls2.drop_last() =~= ls);
        if ls.len() > 0 {
            assert(s.subrange(0, st - 1) + seq!['\n'] + s.subrange(st, n) =~= s);
        } else {
            assert(s.subrange(0, n) =~= s);
        }
    } else if ls.len() > 0 {
        assert(s.subrange(0, n - 1) =~= s.drop_last());
    } else {
        assert(s =~= Seq::<char>::empty());
    }
}

/// Lines of `t` found inside `s` at offset `d` join to what they join to in
/// `t`.
proof fn lemma_join_shift(s: Seq<char>, t: Seq<char>, d: int, ls: Seq<(int, int)>)
    requires
        0 <= d,
        d + t.len() <= s.len(),
        s.subrange(d, d + t.len()) == t,
        forall|k: int| 0 <= k < ls.len() ==> 0 <= #[trigger] ls[k].0 <= ls[k].1 <= t.len(),
    ensures
        join_lines(s, shift(ls, d)) == join_lines(t, ls),
    decreases ls.len(),
{
    if ls.len() > 0 {
        let l = ls.last();
        assert(ls[ls.len() - 1] == l);
        assert(s.subrange(l.0 + d, l.1 + d) =~= t.subrange(l.0, l.1));
        assert(shift(ls, d).drop_last() =~= shift(ls.drop_last(), d));
        assert forall|k: int| 0 <= k < ls.drop_last().len() implies 0 <= #[trigger] ls.drop_last()[k].0
            <= ls.drop_last()[k].1 <= t.len() by {
            assert(ls.drop_last()[k] == ls[k]);
        }
        lemma_join_shift(s, t, d, ls.drop_last());
    }
}

/// A line of `t` found inside `s` at offset `d` is a heading there exactly
/// when it is one in `t`.
proof fn lemma_heading_shift(s: Seq<char>, t: Seq<char>, d: int, r: (int, int), h: Seq<char>)
    requires
        0 <= d,
        d + t.len() <= s.len(),
        s.subrange(d, d + t.len()) == t,
        0 <= r.0 <= r.1 <= t.len(),
    ensures
        is_heading(s, (r.0 + d, r.1 + d), h) == is_heading(t, r, h),
{
    assert(s.subrange(r.0 + d, r.1 + d) =~= t.subrange(r.0, r.1));
}

/// `find_heading` from `from` stops at `j` when no line before `j` is the
/// heading and line `j` is (or there are no more lines).
proof fn lemma_find_heading_at(s: Seq<char>, ls: Seq<(int, int)>, h: Seq<char>, from: int, j: int)
    requires
        0 <= from <= j <= ls.len(),
        forall|k: int| from <= k < j ==> !is_heading(s, #[trigger] ls[k], h),
        j < ls.len() ==> is_heading(s, ls[j], h),
    ensures
        find_heading(s, ls, h, from) == j,
    decreases j - from,
{
    if from < j {
        lemma_find_heading_at(s, ls, h, from + 1, j);
    }
}

/// A text that ends neither in `'\n'` nor in `'\r'` has the same lines
/// with a `'\n'` after it.
proof fn lemma_text_lines_newline(t: Seq<char>)
    requires
        t.len() > 0,
        t.last() != '\n',
        t.last() != '\r',
    ensures
        text_lines(t + seq!['\n']) == text_lines(t),
{
    let s = t + seq!['\n'];
    let n = t.len() as int;
    lemma_lines_prefix(t, seq!['\n'], n);
    crate::queue::json::lemma_lines_wf(t, n - 1);
    assert(s[n] == '\n');
    assert(s[n - 1] == t.last());
    let (ls, st) = lines_upto(t, n);
    assert(st < n);
    lemma_closed(s);
}

// ---------------------------------------------------------------------------
// Trimmed text
// ---------------------------------------------------------------------------

/// Trimmed text neither starts nor ends with whitespace.
proof fn lemma_trim_ends(s: Seq<char>)
    ensures
        trim(s).len() > 0 ==> !is_ws(trim(s)[0]) && !is_ws(trim(s).last()),
{
    let lo = skip_ws(s, 0);
    lemma_skip_ws_bounds(s, 0);
    lemma_back_ws_bounds(s, lo, s.len() as int);
    let hi = back_ws(s, lo, s.len() as int);
    if trim(s).len() > 0 {
        assert(trim(s)[0] == s[lo]);
        assert(trim(s).last() == s[hi - 1]);
    }
}

/// A `'\n'` in front of trimmed text is trimmed away again.
proof fn lemma_trim_newline_front(t: Seq<char>)
    requires
        t.len() > 0 ==> !is_ws(t[0]) && !is_ws(t.last()),
    ensures
        trim(seq!['\n'] + t) == t,
{
    let u = seq!['\n'] + t;
    assert(is_ws(u[0]));
    if t.len() > 0 {
        assert(u[1] == t[0]);
        assert(u[u.len() - 1] == t.last());
    }
    assert(skip_ws(u, 1) == 1);
    assert(skip_ws(u, 0) == 1);
    assert(back_ws(u, 1, u.len() as int) == u.len());
    assert(u.subrange(1, u.len() as int) =~= t);
}

// ---------------------------------------------------------------------------
// Build, then split
// ---------------------------------------------------------------------------

/// Some line of `s` is the heading `h` (trailing whitespace ignored).
pub open spec fn has_heading_line(s: Seq<char>, h: Seq<char>) -> bool {
    exists|k: int| 0 <= k < text_lines(s).len() && is_heading(s, #[trigger] text_lines(s)[k], h)
}

/// What a side's trimmed text contributes to a built body: at least one
/// line, and lines that join back to the text.
proof fn lemma_side_lines(t: Seq<char>)
    requires
        t.len() > 0 ==> !is_ws(t[0]) && !is_ws(t.last()),
        no_crlf(t),
    ensures
        text_lines(t + seq!['\n']).len() > 0,
        join_lines(t + seq!['\n'], text_lines(t + seq!['\n'])) == t,
        forall|k: int|
            0 <= k < text_lines(t + seq!['\n']).len() ==> 0 <= #[trigger] text_lines(
                t + seq!['\n'],
            )[k].0 <= text_lines(t + seq!['\n'])[k].1 <= t.len() + 1,
{
    let x = t + seq!['\n'];
    lemma_closed(x);
    crate::queue::json::lemma_text_lines_in_bounds(x);
    assert(is_ws('\r'));
    assert forall|i: int| 0 < i < x.len() && #[trigger] x[i] == '\n' implies x[i - 1] != '\r' by {
        if i < t.len() {
            assert(x[i] == t[i]);
            assert(x[i - 1] == t[i - 1]);
        } else {
            assert(x[i - 1] == t.last());
        }
    }
    lemma_join_text_lines(x);
    assert(x.drop_last() =~= t);
}

/// Side A's trimmed text, closed by `'\n'`, has no `## Side B` line when
/// the text has none.
proof fn lemma_side_no_heading(t: Seq<char>)
    requires
        t.len() > 0 ==> !is_ws(t[0]) && !is_ws(t.last()),
        !has_heading_line(t, heading_b()),
    ensures
        forall|k: int|
            0 <= k < text_lines(t + seq!['\n']).len() ==> !is_heading(
                t + seq!['\n'],
                #[trigger] text_lines(t + seq!['\n'])[k],
                heading_b(),
            ),
{
    let x = t + seq!['\n'];
    assert(is_ws('\r'));
    assert(is_ws('\n'));
    reveal_strlit("## Side B");
    assert(heading_b().len() == 9);
    if t.len() == 0 {
        lemma_one_line(Seq::<char>::empty());
        assert(Seq::<char>::empty() + seq!['\n'] =~= x);
        assert(x.subrange(0, 0) =~= Seq::<char>::empty());
        assert(trim_end(Seq::<char>::empty()) =~= Seq::<char>::empty());
    } else {
        lemma_text_lines_newline(t);
        crate::queue::json::lemma_text_lines_in_bounds(t);
        assert forall|k: int| 0 <= k < text_lines(x).len() implies !is_heading(
            x,
            #[trigger] text_lines(x)[k],
            heading_b(),
        ) by {
            let r = text_lines(t)[k];
            assert(x.subrange(r.0, r.1) =~= t.subrange(r.0, r.1));
            if is_heading(t, r, heading_b()) {
                assert(has_heading_line(t, heading_b()));
            }
        }
    }
}

/// The two headings: nine characters, no `'\n'`, ending in a letter; and
/// the literals `body_of` is written with.
proof fn lemma_literals()
    ensures
        heading_a().len() == 9,
        heading_b().len() == 9,
        forall|k: int| 0 <= k < 9 ==> #[trigger] heading_a()[k] != '\n',
        forall|k: int| 0 <= k < 9 ==> #[trigger] heading_b()[k] != '\n',
        !is_ws(heading_a().last()),
        !is_ws(heading_b().last()),
        heading_a().last() != '\r',
        heading_b().last() != '\r',
        "## Side A\n\n"@ == heading_a() + seq!['\n'] + seq!['\n'],
        "## Side B\n\n"@ == heading_b() + seq!['\n'] + seq!['\n'],
        "\n"@ == seq!['\n'],
{
    reveal_strlit("## Side A");
    reveal_strlit("## Side B");
    reveal_strlit("## Side A\n\n");
    reveal_strlit("## Side B\n\n");
    reveal_strlit("\n");
    assert("## Side A\n\n"@ =~= heading_a() + seq!['\n'] + seq!['\n']);
    assert("## Side B\n\n"@ =~= heading_b() + seq!['\n'] + seq!['\n']);
    assert("\n"@ =~= seq!['\n']);
}

/// The lines of a heading, a blank line, then `y`.
proof fn lemma_block_lines(h: Seq<char>, y: Seq<char>)
    requires
        h.len() > 0,
        forall|k: int| 0 <= k < h.len() ==> #[trigger] h[k] != '\n',
        h.last() != '\r',
    ensures
        ({
            let ls = text_lines((h + seq!['\n']) + (seq!['\n'] + y));
            let ly = text_lines(y);
            &&& ls.len() == 2 + ly.len()
            &&& ls[0] == (0int, h.len() as int)
            &&& ls[1] == (h.len() + 1int, h.len() + 1int)
            &&& forall|k: int|
                0 <= k < ly.len() ==> #[trigger] ls[2 + k] == (
                    ly[k].0 + h.len() + 2int,
                    ly[k].1 + h.len() + 2int,
                )
        }),
{
    let nl = seq!['\n'];
    lemma_one_line(h);
    lemma_one_line(Seq::<char>::empty());
    assert(Seq::<char>::empty() + nl =~= nl);
    lemma_text_lines_concat(nl, y);
    lemma_text_lines_concat(h + nl, nl + y);
}

/// An empty line is no heading.
proof fn lemma_blank_not_heading(s: Seq<char>, p: int, h: Seq<char>)
    requires
        0 <= p <= s.len(),
        h.len() > 0,
    ensures
        !is_heading(s, (p, p), h),
{
    assert(s.subrange(p, p) =~= Seq::<char>::empty());
    assert(trim_end(Seq::<char>::empty()) =~= Seq::<char>::empty());
}

/// A blank line followed by lines of `t` found in `s` at offset `d` joins
/// to a `'\n'` in front of what those lines join to in `t`.
proof fn lemma_join_after_blank(s: Seq<char>, t: Seq<char>, p: int, d: int, l: Seq<(int, int)>)
    requires
        l.len() > 0,
        0 <= p <= s.len(),
        0 <= d,
        d + t.len() <= s.len(),
        s.subrange(d, d + t.len()) == t,
        forall|k: int| 0 <= k < l.len() ==> 0 <= #[trigger] l[k].0 <= l[k].1 <= t.len(),
    ensures
        join_lines(s, seq![(p, p)] + shift(l, d)) == seq!['\n'] + join_lines(t, l),
{
    crate::queue::json::lemma_join_concat(s, seq![(p, p)], shift(l, d));
    lemma_join_shift(s, t, d, l);
    assert(s.subrange(p, p) =~= Seq::<char>::empty());
    assert(join_lines(s, seq![(p, p)]) =~= Seq::<char>::empty());
    assert(Seq::<char>::empty() + seq!['\n'] + join_lines(t, l) =~= seq!['\n'] + join_lines(t, l));
}

/// Line `i` of `ls` is an empty line at `p`, and the lines `l` follow it,
/// moved `d` characters to the right.
pub open spec fn blank_then(ls: Seq<(int, int)>, i: int, p: int, d: int, l: Seq<(int, int)>) -> bool {
    &&& 0 <= i
    &&& i + 1 + l.len() <= ls.len()
    &&& ls[i] == (p, p)
    &&& forall|k: int| 0 <= k < l.len() ==> #[trigger] ls[i + 1 + k] == (l[k].0 + d, l[k].1 + d)
}

/// Joining a blank line and the lines of `t` that follow it in `s`.
proof fn lemma_join_blank_then(
    s: Seq<char>,
    ls: Seq<(int, int)>,
    i: int,
    p: int,
    d: int,
    t: Seq<char>,
    l: Seq<(int, int)>,
)
    requires
        blank_then(ls, i, p, d, l),
        l.len() > 0,
        0 <= p <= s.len(),
        0 <= d,
        d + t.len() <= s.len(),
        s.subrange(d, d + t.len()) == t,
        forall|k: int| 0 <= k < l.len() ==> 0 <= #[trigger] l[k].0 <= l[k].1 <= t.len(),
    ensures
        join_lines(s, ls.subrange(i, i + 1 + l.len())) == seq!['\n'] + join_lines(t, l),
{
    let part = ls.subrange(i, i + 1 + l.len());
    let want = seq![(p, p)] + shift(l, d);
    assert forall|m: int| 0 <= m < part.len() implies part[m] == want[m] by {
        if m > 0 {
            assert(ls[i + 1 + (m - 1)] == (l[m - 1].0 + d, l[m - 1].1 + d));
        }
    }
    assert(part =~= want);
    lemma_join_after_blank(s, t, p, d, l);
}

/// The lines of a heading block (heading, blank line, then the text `y`),
/// where `y`'s lines are `l1` followed by `l2` moved by `d2`.
proof fn lemma_block_layout(h: Seq<char>, y: Seq<char>, x: Seq<char>, r: Seq<char>)
    requires
        h.len() > 0,
        forall|k: int| 0 <= k < h.len() ==> #[trigger] h[k] != '\n',
        h.last() != '\r',
        y == x + r,
        x.len() > 0,
        x.last() == '\n',
    ensures
        ({
            let ls = text_lines((h + seq!['\n']) + (seq!['\n'] + y));
            let lx = text_lines(x);
            let lr = text_lines(r);
            let d: int = h.len() + 2int;
            &&& ls.len() == 2 + lx.len() + lr.len()
            &&& ls[0] == (0int, h.len() as int)
            &&& blank_then(ls, 1, h.len() + 1int, d, lx)
            &&& forall|k: int|
                0 <= k < lr.len() ==> #[trigger] ls[2 + lx.len() + k] == (
                    lr[k].0 + d + x.len(),
                    lr[k].1 + d + x.len(),
                )
        }),
{
    lemma_block_lines(h, y);
    lemma_text_lines_concat(x, r);
    let ls = text_lines((h + seq!['\n']) + (seq!['\n'] + y));
    let ly = text_lines(y);
    let lx = text_lines(x);
    let lr = text_lines(r);
    assert forall|k: int| 0 <= k < lx.len() implies #[trigger] ls[1 + 1 + k] == (
        lx[k].0 + h.len() + 2,
        lx[k].1 + h.len() + 2,
    ) by {
        assert(ly[k] == lx[k]);
        assert(ls[2 + k] == ls[1 + 1 + k]);
    }
    assert forall|k: int| 0 <= k < lr.len() implies #[trigger] ls[2 + lx.len() + k] == (
        lr[k].0 + h.len() + 2 + x.len(),
        lr[k].1 + h.len() + 2 + x.len(),
    ) by {
        assert(ly[lx.len() + k] == (lr[k].0 + x.len(), lr[k].1 + x.len()));
        assert(ls[2 + (lx.len() + k)] == ls[2 + lx.len() + k]);
    }
}

/// The side B block inside the whole body: its heading line, then a blank
/// line and side B's lines.
proof fn lemma_nested_layout(
    ls: Seq<(int, int)>,
    j: int,
    d3: int,
    lr: Seq<(int, int)>,
    lb: Seq<(int, int)>,
)
    requires
        0 <= j,
        ls.len() == j + lr.len(),
        forall|k: int| 0 <= k < lr.len() ==> #[trigger] ls[j + k] == (lr[k].0 + d3, lr[k].1 + d3),
        lr.len() == 2 + lb.len(),
        lr[0] == (0int, 9int),
        blank_then(lr, 1, 10, 11, lb),
    ensures
        ls[j] == (d3, d3 + 9),
        blank_then(ls, j + 1, d3 + 10, d3 + 11, lb),
        ls.len() == j + 2 + lb.len(),
{
    assert(ls[j + 0] == ls[j]);
    assert(ls[j + 1] == (lr[1].0 + d3, lr[1].1 + d3));
    assert forall|k: int| 0 <= k < lb.len() implies #[trigger] ls[j + 1 + 1 + k] == (
        lb[k].0 + d3 + 11,
        lb[k].1 + d3 + 11,
    ) by {
        assert(lr[1 + 1 + k] == (lb[k].0 + 11, lb[k].1 + 11));
        assert(ls[j + (2 + k)] == ls[j + 1 + 1 + k]);
        assert(lr[2 + k] == lr[1 + 1 + k]);
    }
}

/// Heading `h` with no whitespace at its end is its own trimmed line.
proof fn lemma_heading_line(s: Seq<char>, p: int, h: Seq<char>)
    requires
        0 <= p,
        p + h.len() <= s.len(),
        s.subrange(p, p + h.len()) == h,
        h.len() > 0,
        !is_ws(h.last()),
    ensures
        is_heading(s, (p, p + h.len()), h),
{
    assert(h[h.len() - 1] == h.last());
    assert(back_ws(h, 0, h.len() as int) == h.len());
    assert(h.subrange(0, h.len() as int) =~= h);
}

/// Where the lines of a built body lie: side A's heading, a blank line and
/// side A's lines; then, when side B is not blank, side B's heading, a blank
/// line and side B's lines.
proof fn lemma_body_layout(a: Seq<char>, b: Seq<char>)
    ensures
        ({
            let s = body_of(a, b);
            let ls = text_lines(s);
            let x3 = trim(a) + seq!['\n'];
            let x6 = trim(b) + seq!['\n'];
            let la = text_lines(x3);
            let lb = text_lines(x6);
            let n3: int = x3.len() as int;
            let n6: int = x6.len() as int;
            let na: int = la.len() as int;
            let nb: int = lb.len() as int;
            let d3: int = 11 + n3;
            &&& s.subrange(0, 9) == heading_a()
            &&& ls.len() > 0
            &&& ls[0] == (0int, 9int)
            &&& blank_then(ls, 1, 10, 11, la)
            &&& 11 + n3 <= s.len()
            &&& s.subrange(11, 11 + n3) == x3
            &&& trim(b).len() == 0 ==> ls.len() == 2 + na
            &&& trim(b).len() > 0 ==> {
                &&& ls.len() == 4 + na + nb
                &&& ls[2 + na] == (d3, d3 + 9)
                &&& d3 + 9 <= s.len()
                &&& s.subrange(d3, d3 + 9) == heading_b()
                &&& blank_then(ls, 3 + na, d3 + 10, d3 + 11, lb)
                &&& d3 + 11 + n6 <= s.len()
                &&& s.subrange(d3 + 11, d3 + 11 + n6) == x6
            }
        }),
{
    lemma_literals();
    let ta = trim(a);
    let tb = trim(b);
    let ha = heading_a();
    let hb = heading_b();
    let nl = seq!['\n'];
    let x3 = ta + nl;
    let x6 = tb + nl;
    let r = if tb.len() > 0 {
        (hb + nl) + (nl + x6)
    } else {
        Seq::<char>::empty()
    };
    let y = x3 + r;
    let s = body_of(a, b);
    assert(s =~= (ha + nl) + (nl + y));
    assert(s.subrange(0, 9) =~= ha);
    assert(s.subrange(11, 11 + x3.len() as int) =~= x3);
    lemma_block_layout(ha, y, x3, r);
    let ls = text_lines(s);
    let la = text_lines(x3);
    let lr = text_lines(r);
    let j: int = 2 + la.len() as int;
    let d3: int = 11 + x3.len() as int;
    if tb.len() > 0 {
        let lb = text_lines(x6);
        assert(x6 + Seq::<char>::empty() =~= x6);
        lemma_block_layout(hb, x6, x6, Seq::<char>::empty());
        assert(lr.len() == 2 + lb.len());
        assert forall|k: int| 0 <= k < lr.len() implies #[trigger] ls[j + k] == (
            lr[k].0 + d3,
            lr[k].1 + d3,
        ) by {
            assert(ls[2 + la.len() + k] == ls[j + k]);
        }
        lemma_nested_layout(ls, j, d3, lr, lb);
        assert(s =~= (ha + (nl + (nl + x3))) + (hb + (nl + (nl + x6))));
        assert(s.subrange(d3, d3 + 9) =~= hb);
        assert(s.subrange(d3 + 11, d3 + 11 + x6.len() as int) =~= x6);
    } else {
        assert(text_lines(Seq::<char>::empty()).len() == 0);
    }
}

/// No line of a built body between side A's heading and side B's heading
/// (or the end) is side B's heading.
proof fn lemma_body_no_early_b(a: Seq<char>, b: Seq<char>)
    requires
        !has_heading_line(trim(a), heading_b()),
    ensures
        ({
            let s = body_of(a, b);
            let ls = text_lines(s);
            let la = text_lines(trim(a) + seq!['\n']);
            forall|k: int| 1 <= k < 2 + la.len() ==> !is_heading(s, #[trigger] ls[k], heading_b())
        }),
{
    lemma_body_layout(a, b);
    lemma_literals();
    let s = body_of(a, b);
    let ls = text_lines(s);
    let x3 = trim(a) + seq!['\n'];
    let la = text_lines(x3);
    lemma_trim_ends(a);
    crate::queue::json::lemma_text_lines_in_bounds(x3);
    lemma_side_no_heading(trim(a));
    assert forall|k: int| 1 <= k < 2 + la.len() implies !is_heading(
        s,
        #[trigger] ls[k],
        heading_b(),
    ) by {
        if k == 1 {
            lemma_blank_not_heading(s, 10, heading_b());
        } else {
            lemma_heading_shift(s, x3, 11, la[k - 2], heading_b());
            assert(ls[1 + 1 + (k - 2)] == ls[k]);
        }
    }
}

/// A built body splits back into the sides it was built from: side A is
/// side A's trimmed text behind the blank line that follows its heading, and
/// side B the same for side B (nothing when side B was blank). So, trimmed,
/// each side reads back as it was written. This holds unless side A's text
/// itself holds a `## Side B` line, or a side holds a `"\r\n"`, which
/// splitting into lines turns into `'\n'`.
pub proof fn lemma_split_built_body(a: Seq<char>, b: Seq<char>)
    requires
        no_crlf(trim(a)),
        no_crlf(trim(b)),
        !has_heading_line(trim(a), heading_b()),
    ensures
        body_sides(body_of(a, b)) == (seq!['\n'] + trim(a), if trim(b).len() > 0 {
            seq!['\n'] + trim(b)
        } else {
            Seq::<char>::empty()
        }),
        trim(body_sides(body_of(a, b)).0) == trim(a),
        trim(body_sides(body_of(a, b)).1) == trim(b),
{
    let ta = trim(a);
    let tb = trim(b);
    lemma_trim_ends(a);
    lemma_trim_ends(b);
    lemma_trim_newline_front(ta);
    lemma_trim_newline_front(tb);
    lemma_literals();
    lemma_body_layout(a, b);
    lemma_body_no_early_b(a, b);
    lemma_side_lines(ta);
    let s = body_of(a, b);
    let ls = text_lines(s);
    let x3 = ta + seq!['\n'];
    let x6 = tb + seq!['\n'];
    let la = text_lines(x3);
    let j: int = 2 + la.len() as int;
    let d3: int = 11 + x3.len() as int;
    lemma_heading_line(s, 0, heading_a());
    lemma_find_heading_at(s, ls, heading_a(), 0, 0);
    assert(ls.take(0) + ls.subrange(1, j) =~= ls.subrange(1, 1 + 1 + la.len() as int));
    lemma_join_blank_then(s, ls, 1, 10, 11, x3, la);
    if tb.len() > 0 {
        lemma_side_lines(tb);
        let lb = text_lines(x6);
        lemma_heading_line(s, d3, heading_b());
        lemma_find_heading_at(s, ls, heading_b(), 1, j);
        assert(ls.skip(j + 1) =~= ls.subrange(j + 1, j + 1 + 1 + lb.len() as int));
        lemma_join_blank_then(s, ls, j + 1, d3 + 10, d3 + 11, x6, lb);
    } else {
        lemma_find_heading_at(s, ls, heading_b(), 1, j);
    }
}

/// A write to one side of a cassette leaves the other side's text as it
/// was (trimmed), and the written side reads back as written: what
/// `written_side` gives it, trimmed. This holds whenever the two sides
/// after the write can be read back at all (see `lemma_split_built_body`).
pub proof fn lemma_write_keeps_other_side(
    current: Seq<char>,
    incoming: Seq<char>,
    side: Side,
    mode: WriteMode,
)
    requires
        ({
            let (a, b) = body_sides(current);
            match side {
                Side::A => {
                    let a2 = written_side(a, incoming, mode);
                    &&& no_crlf(trim(a2))
                    &&& no_crlf(trim(b))
                    &&& !has_heading_line(trim(a2), heading_b())
                },
                Side::B => {
                    let b2 = written_side(b, incoming, mode);
                    &&& no_crlf(trim(a))
                    &&& no_crlf(trim(b2))
                    &&& !has_heading_line(trim(a), heading_b())
                },
            }
        }),
    ensures
        ({
            let (a, b) = body_sides(current);
            let (a3, b3) = body_sides(written_body(current, incoming, side, mode));
            match side {
                Side::A => trim(a3) == trim(written_side(a, incoming, mode)) && trim(b3) == trim(b),
                Side::B => trim(a3) == trim(a) && trim(b3) == trim(written_side(b, incoming, mode)),
            }
        }),
{
    let (a, b) = body_sides(current);
    match side {
        Side::A => lemma_split_built_body(written_side(a, incoming, mode), b),
        Side::B => lemma_split_built_body(a, written_side(b, incoming, mode)),
    }
}

} // verus!

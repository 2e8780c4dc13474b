//! What `find` shows of a session: a preview line, its topics and word
//! count, and the lowercased text a query is matched against.

use vstd::prelude::*;

use crate::catalog::{bodies_text, occurs_in, Haystack};
use crate::queue::json::{body_sides, split_sides, text_lines};
use crate::stats::{day_number, days_from_civil, push_year, ymd_ok, ymd_text};
use crate::store::StoredCassette;
use crate::text::{
    chars_of, dec, dec2, join_with, lemma_join_with_push, lowercase, owned, push_char,
    push_dec2, push_str, push_usize, string_of_range, to_lower, trim, trim_range, words_in,
};

verus! {

/// How many characters of a preview line the listing shows.
pub const PREVIEW_CHARS: usize = 72;

/// `s` cut to `max` characters, with `'…'` marking a cut.
pub open spec fn truncated(s: Seq<char>, max: int) -> Seq<char> {
    if s.len() <= max {
        s
    } else {
        s.take(max).push('…')
    }
}

/// `s` cut to `max` characters, with `'…'` marking a cut.
pub fn truncate(s: &str, max: usize) -> (r: String)
    ensures
        r@ == truncated(s@, max as int),
{
    let v = chars_of(s);
    if v.len() <= max {
        return owned(s);
    }
    let mut out = string_of_range(v.as_slice(), 0, max);
    push_char(&mut out, '…');
    assert(v@.subrange(0, max as int) =~= v@.take(max as int));
    out
}

/// A line a preview may show: not blank once trimmed, and not a heading.
pub open spec fn preview_worthy(line: Seq<char>) -> bool {
    trim(line).len() > 0 && trim(line)[0] != '#'
}

/// The `k`-th line of `s`.
pub open spec fn line_at(s: Seq<char>, k: int) -> Seq<char> {
    s.subrange(text_lines(s)[k].0, text_lines(s)[k].1)
}

/// The preview of a body: its first line that is neither blank nor a
/// heading, trimmed and cut to `PREVIEW_CHARS`; empty when there is none.
pub open spec fn preview_of(body: Seq<char>) -> Seq<char> {
    if exists|k: int| 0 <= k < text_lines(body).len() && preview_worthy(line_at(body, k)) {
        let k = choose|k: int|
            0 <= k < text_lines(body).len() && preview_worthy(line_at(body, k)) && forall|j: int|
                0 <= j < k ==> !preview_worthy(#[trigger] line_at(body, j));
        truncated(trim(line_at(body, k)), PREVIEW_CHARS as int)
    } else {
        Seq::empty()
    }
}

/// The first non-blank, non-heading line of a body, trimmed and truncated
/// for the listing (see `preview_of`).
pub fn first_body_line(body: &str) -> (r: String)
    ensures
        r@ == preview_of(body@),
{
    let v = chars_of(body);
    let ls = crate::queue::json::lines_of_text(v.as_slice());
    let ghost sl = crate::cassette::span_ints(ls@);
    proof {
        crate::queue::json::lemma_text_lines_in_bounds(v@);
    }
    let mut k: usize = 0;
    while k < ls.len()
        invariant
            k <= ls.len(),
            v@ == body@,
            sl == crate::cassette::span_ints(ls@),
            sl == text_lines(body@),
            forall|i: int|
                0 <= i < sl.len() ==> 0 <= #[trigger] sl[i].0 <= sl[i].1 <= body@.len(),
            forall|j: int| 0 <= j < k ==> !preview_worthy(#[trigger] line_at(body@, j)),
        decreases ls.len() - k,
    {
        let (lo, hi) = ls[k];
        assert(sl[k as int] == (lo as int, hi as int));
        let line = string_of_range(v.as_slice(), lo, hi);
        assert(line@ == line_at(body@, k as int));
        let lv = chars_of(line.as_str());
        let (a, b) = trim_range(lv.as_slice());
        if a < b && lv[a] != '#' {
            let t = string_of_range(lv.as_slice(), a, b);
            proof {
                assert(trim(line@) == t@);
                assert(t@[0] == lv@[a as int]);
                assert(preview_worthy(line_at(body@, k as int)));
                let c = choose|c: int|
                    0 <= c < text_lines(body@).len() && preview_worthy(line_at(body@, c))
                        && forall|j: int| 0 <= j < c ==> !preview_worthy(#[trigger] line_at(body@, j));
                if c < k {
                } else if c > k {
                    assert(!preview_worthy(line_at(body@, k as int)));
                }
                assert(c == k);
            }
            return truncate(t.as_str(), PREVIEW_CHARS);
        }
        proof {
            assert(trim(line@) == lv@.subrange(a as int, b as int));
            if a < b {
                assert(trim(line@)[0] == lv@[a as int]);
            }
        }
        k = k + 1;
    }
    String::new()
}

/// Everything a `find` query is matched against, lowercased: the session's
/// id, its alias, its cassettes' topics and their bodies, one per line.
pub open spec fn haystack_of(
    id: Seq<char>,
    alias: Option<Seq<char>>,
    topics: Seq<Seq<char>>,
    bodies: Seq<char>,
) -> Seq<char> {
    lowercase(
        id + (match alias {
            Some(a) => seq!['\n'] + a,
            None => Seq::empty(),
        }) + topics_lines(topics) + seq!['\n'] + bodies,
    )
}

/// Each topic on a line of its own, each preceded by a `'\n'`.
pub open spec fn topics_lines(topics: Seq<Seq<char>>) -> Seq<char>
    decreases topics.len(),
{
    if topics.len() == 0 {
        Seq::empty()
    } else {
        topics_lines(topics.drop_last()) + seq!['\n'] + topics.last()
    }
}

/// The strings of `v`, as characters.
pub open spec fn views(v: Seq<String>) -> Seq<Seq<char>> {
    Seq::new(v.len(), |i: int| v[i]@)
}

/// The lowercased text a `find` query is matched against (see
/// `haystack_of`).
pub fn build_haystack(id: &str, alias: Option<&str>, topics: &[String], bodies: &str) -> (r:
    String)
    ensures
        r@ == haystack_of(
            id@,
            match alias {
                Some(a) => Some(a@),
                None => None,
            },
            views(topics@),
            bodies@,
        ),
{
    let mut out = owned(id);
    if let Some(alias) = alias {
        push_char(&mut out, '\n');
        push_str(&mut out, alias);
    }
    let ghost head = out@;
    let mut i: usize = 0;
    while i < topics.len()
        invariant
            i <= topics.len(),
            out@ == head + topics_lines(views(topics@).take(i as int)),
        decreases topics.len() - i,
    {
        push_char(&mut out, '\n');
        push_str(&mut out, topics[i].as_str());
        assert(views(topics@).take(i + 1).drop_last() =~= views(topics@).take(i as int));
        i = i + 1;
    }
    assert(views(topics@).take(topics.len() as int) =~= views(topics@));
    push_char(&mut out, '\n');
    push_str(&mut out, bodies);
    let r = to_lower(out.as_str());
    assert(out@ =~= id@ + (match alias {
        Some(a) => seq!['\n'] + a@,
        None => Seq::<char>::empty(),
    }) + topics_lines(views(topics@)) + seq!['\n'] + bodies@);
    r
}

/// Words over both sides of each cassette, summed.
pub open spec fn cassettes_words(cs: Seq<StoredCassette>) -> nat
    decreases cs.len(),
{
    if cs.len() == 0 {
        0
    } else {
        cassettes_words(cs.drop_last()) + words_in(body_sides(cs.last().body@).0) + words_in(
            body_sides(cs.last().body@).1,
        )
    }
}

/// A session's total words, counted across its cassettes the way the
/// editor counts a cassette.
pub fn session_word_count(cassettes: &[StoredCassette]) -> (n: usize)
    requires
        cassettes_words(cassettes@) <= usize::MAX,
    ensures
        n == cassettes_words(cassettes@),
{
    let mut n: usize = 0;
    let mut i: usize = 0;
    while i < cassettes.len()
        invariant
            i <= cassettes.len(),
            n == cassettes_words(cassettes@.take(i as int)),
            cassettes_words(cassettes@) <= usize::MAX,
        decreases cassettes.len() - i,
    {
        proof {
            lemma_cassettes_words_prefix(cassettes@, i + 1);
            assert(cassettes@.take(i + 1).drop_last() =~= cassettes@.take(i as int));
        }
        let (a, b) = split_sides(cassettes[i].body.as_str());
        let w = crate::text::count_words(a.as_str()) + crate::text::count_words(b.as_str());
        n = n + w;
        i = i + 1;
    }
    assert(cassettes@.take(i as int) =~= cassettes@);
    n
}

proof fn lemma_cassettes_words_prefix(cs: Seq<StoredCassette>, i: int)
    requires
        0 <= i <= cs.len(),
    ensures
        cassettes_words(cs.take(i)) <= cassettes_words(cs),
    decreases cs.len() - i,
{
    if i < cs.len() {
        lemma_cassettes_words_prefix(cs, i + 1);
        assert(cs.take(i + 1).drop_last() =~= cs.take(i));
    } else {
        assert(cs.take(i) =~= cs);
    }
}

/// The topics of the cassettes that have one, in order.
pub open spec fn topics_in(cs: Seq<StoredCassette>) -> Seq<Seq<char>>
    decreases cs.len(),
{
    if cs.len() == 0 {
        Seq::empty()
    } else {
        match cs.last().meta.topic {
            Some(t) => topics_in(cs.drop_last()).push(t@),
            None => topics_in(cs.drop_last()),
        }
    }
}

/// A session's topics (each cassette's that has one, in queue order) and
/// its preview, drawn from its first cassette.
pub fn topics_and_preview(cassettes: &[StoredCassette]) -> (r: (Vec<String>, String))
    ensures
        views(r.0@) == topics_in(cassettes@),
        r.1@ == (if cassettes@.len() > 0 {
            preview_of(cassettes@[0].body@)
        } else {
            Seq::empty()
        }),
{
    let mut topics: Vec<String> = Vec::new();
    let mut i: usize = 0;
    while i < cassettes.len()
        invariant
            i <= cassettes.len(),
            views(topics@) == topics_in(cassettes@.take(i as int)),
        decreases cassettes.len() - i,
    {
        assert(cassettes@.take(i + 1).drop_last() =~= cassettes@.take(i as int));
        match &cassettes[i].meta.topic {
            Some(t) => {
                let ghost before = topics@;
                topics.push(t.clone());
                assert(views(topics@) =~= views(before).push(t@));
            },
            None => {},
        }
        i = i + 1;
    }
    assert(cassettes@.take(i as int) =~= cassettes@);
    let preview = if cassettes.len() > 0 {
        first_body_line(cassettes[0].body.as_str())
    } else {
        String::new()
    };
    (topics, preview)
}

// ---------------------------------------------------------------------------
// The listing
// ---------------------------------------------------------------------------

/// The day number (counted from January 1 of year 1, that day being 1) of
/// January 1, 1970.
pub const UNIX_EPOCH_DAY: i64 = 719163;

/// A date-time written `%Y-%m-%d %H:%M`: the date, then the hour and minute
/// of `secs` seconds past midnight.
pub open spec fn minute_text_of(year: int, month: nat, day: nat, secs: nat) -> Seq<char> {
    ymd_text(year, month, day) + " "@ + dec2(secs / 3600) + ":"@ + dec2((secs / 60) % 60)
}

/// The stamp key of a date-time on day number `days` (from January 1 of
/// year 1), `secs` seconds past midnight and `nanos` nanoseconds past that
/// second: its seconds since the Unix epoch, then the nanoseconds.
pub open spec fn key_of(days: int, secs: int, nanos: u32) -> (i64, u32) {
    (((days - UNIX_EPOCH_DAY) * 86400 + secs) as i64, nanos)
}

/// A session's local date and time, as the listing sorts and prints it.
#[derive(Debug)]
pub struct Stamp {
    /// The calendar day's number, counted from January 1 of year 1 (that
    /// day being 1).
    pub days: i32,
    pub year: i32,
    pub month: u32,
    pub day: u32,
    /// Non-leap seconds past midnight.
    pub secs: u32,
    /// Nanoseconds past the second (from one billion up in a leap second).
    pub nanos: u32,
    /// Orders as the date-time does: seconds since the Unix epoch, then
    /// nanoseconds (see `key_of`).
    pub key: (i64, u32),
    /// The date-time written `YYYY-MM-DD HH:MM` (see `minute_text_of`).
    pub text: String,
}

impl Stamp {
    /// The stamp of the date-time `year`-`month`-`day`, `secs` non-leap
    /// seconds past midnight and `nanos` nanoseconds past that second: its
    /// day number, and the key and text made of them.
    pub fn from_parts(year: i32, month: u32, day: u32, secs: u32, nanos: u32) -> (s: Stamp)
        requires
            ymd_ok(year as int, month as int, day as int),
            secs < 86400,
            nanos < 2_000_000_000,
        ensures
            s.days as int == days_from_civil(year as int, month as int, day as int),
            s.year == year,
            s.month == month,
            s.day == day,
            s.secs == secs,
            s.nanos == nanos,
            s.key == key_of(s.days as int, secs as int, nanos),
            s.text@ == minute_text_of(year as int, month as nat, day as nat, secs as nat),
    {
        let days = day_number(year, month, day);
        let key0: i64 = (days as i64 - UNIX_EPOCH_DAY) * 86400 + secs as i64;
        let mut text = String::new();
        push_year(&mut text, year);
        push_str(&mut text, "-");
        push_dec2(&mut text, month as u64);
        push_str(&mut text, "-");
        push_dec2(&mut text, day as u64);
        push_str(&mut text, " ");
        push_dec2(&mut text, (secs / 3600) as u64);
        push_str(&mut text, ":");
        push_dec2(&mut text, ((secs / 60) % 60) as u64);
        assert(text@ =~= minute_text_of(year as int, month as nat, day as nat, secs as nat));
        Stamp { days, year, month, day, secs, nanos, key: (key0, nanos), text }
    }
}

/// One session as `cassette find` shows it.
pub struct NoteEntry {
    /// The session id, which `cassette resume <id>` accepts as-is.
    pub path: String,
    pub date: Stamp,
    pub words: usize,
    pub topics: Vec<String>,
    pub preview: String,
    /// What a query is matched against.
    pub haystack: Haystack,
}

/// `Some(s@)` for `Some(s)`.
pub open spec fn str_opt(a: Option<&str>) -> Option<Seq<char>> {
    match a {
        Some(s) => Some(s@),
        None => None,
    }
}

impl NoteEntry {
    /// An entry for the session `path` (aliased `alias`), its haystack built
    /// from the id, alias, topics and the cassettes' `bodies`.
    pub fn new(
        path: &str,
        alias: Option<&str>,
        date: Stamp,
        words: usize,
        topics: Vec<String>,
        preview: String,
        bodies: &str,
    ) -> (e: Self)
        ensures
            e.path@ == path@,
            e.date == date,
            e.words == words,
            e.topics@ == topics@,
            e.preview@ == preview@,
            e.haystack.view() == haystack_of(path@, str_opt(alias), views(topics@), bodies@),
    {
        let h = build_haystack(path, alias, topics.as_slice(), bodies);
        NoteEntry {
            path: owned(path),
            date,
            words,
            topics,
            preview,
            haystack: Haystack::of_text(h),
        }
    }

    /// The entry for the session `id` (aliased `alias`, created at `date`)
    /// from its cassettes as scanned, in queue order: words summed over
    /// every cassette, the topics of those that have one, the preview of
    /// the first, and a haystack over all of it and every body.
    pub fn of_session(
        id: &str,
        alias: Option<&str>,
        date: Stamp,
        cassettes: &[StoredCassette],
    ) -> (e: Self)
        requires
            cassettes_words(cassettes@) <= usize::MAX,
        ensures
            e.path@ == id@,
            e.date == date,
            e.words == cassettes_words(cassettes@),
            views(e.topics@) == topics_in(cassettes@),
            e.preview@ == (if cassettes@.len() > 0 {
                preview_of(cassettes@[0].body@)
            } else {
                Seq::<char>::empty()
            }),
            e.haystack.view() == haystack_of(
                id@,
                str_opt(alias),
                topics_in(cassettes@),
                bodies_text(cassettes@),
            ),
    {
        let words = session_word_count(cassettes);
        let (topics, preview) = topics_and_preview(cassettes);
        let mut bodies = String::new();
        let mut i: usize = 0;
        while i < cassettes.len()
            invariant
                i <= cassettes.len(),
                bodies@ == bodies_text(cassettes@.take(i as int)),
            decreases cassettes.len() - i,
        {
            assert(cassettes@.take(i + 1).drop_last() =~= cassettes@.take(i as int));
            if i > 0 {
                push_char(&mut bodies, '\n');
            } else {
                assert(bodies@ =~= Seq::<char>::empty());
            }
            push_str(&mut bodies, cassettes[i].body.as_str());
            i = i + 1;
        }
        assert(cassettes@.take(cassettes.len() as int) =~= cassettes@);
        Self::new(id, alias, date, words, topics, preview, bodies.as_str())
    }
}

/// Stamp key `a` is at least as new as `b`.
pub open spec fn key_ge(a: (i64, u32), b: (i64, u32)) -> bool {
    a.0 > b.0 || (a.0 == b.0 && a.1 >= b.1)
}

/// The indices of the entries among the first `n` of `es` that a query
/// (already lowercased, when there is one) matches, in order.
pub open spec fn found(es: Seq<NoteEntry>, key: Option<Seq<char>>, n: int) -> Seq<int>
    decreases n,
{
    if n <= 0 {
        Seq::empty()
    } else if key is None || occurs_in(es[n - 1].haystack.view(), key->0) {
        found(es, key, n - 1).push(n - 1)
    } else {
        found(es, key, n - 1)
    }
}

/// The indices among `idx` whose entry's stamp key is `k`, in order.
pub open spec fn keyed(es: Seq<NoteEntry>, idx: Seq<int>, k: (i64, u32)) -> Seq<int>
    decreases idx.len(),
{
    if idx.len() == 0 {
        Seq::empty()
    } else if es[idx.last()].date.key == k {
        keyed(es, idx.drop_last(), k).push(idx.last())
    } else {
        keyed(es, idx.drop_last(), k)
    }
}

/// `r` is `idx` sorted newest first, stably: newer entries first, and the
/// entries of any one stamp in the order `idx` has them.
pub open spec fn newest_first(es: Seq<NoteEntry>, r: Seq<int>, idx: Seq<int>) -> bool {
    &&& forall|i: int, j: int|
        0 <= i < j < r.len() ==> key_ge(#[trigger] es[r[i]].date.key, #[trigger] es[r[j]].date.key)
    &&& forall|k: (i64, u32)| #[trigger] keyed(es, r, k) == keyed(es, idx, k)
}

proof fn lemma_keyed_concat(es: Seq<NoteEntry>, a: Seq<int>, b: Seq<int>, k: (i64, u32))
    ensures
        keyed(es, a + b, k) == keyed(es, a, k) + keyed(es, b, k),
    decreases b.len(),
{
    if b.len() == 0 {
        assert(a + b =~= a);
        assert(keyed(es, a, k) + keyed(es, b, k) =~= keyed(es, a, k));
    } else {
        lemma_keyed_concat(es, a, b.drop_last(), k);
        assert((a + b).drop_last() =~= a + b.drop_last());
        assert((a + b).last() == b.last());
        if es[b.last()].date.key == k {
            assert(keyed(es, a, k) + keyed(es, b.drop_last(), k).push(b.last()) =~= (keyed(
                es,
                a,
                k,
            ) + keyed(es, b.drop_last(), k)).push(b.last()));
        }
    }
}

proof fn lemma_keyed_none(es: Seq<NoteEntry>, b: Seq<int>, k: (i64, u32))
    requires
        forall|i: int| 0 <= i < b.len() ==> es[#[trigger] b[i]].date.key != k,
    ensures
        keyed(es, b, k) == Seq::<int>::empty(),
    decreases b.len(),
{
    if b.len() > 0 {
        assert(b[b.len() - 1] == b.last());
        assert forall|i: int| 0 <= i < b.drop_last().len() implies es[#[trigger] b.drop_last()[i]].date.key
            != k by {
            assert(b.drop_last()[i] == b[i]);
        }
        lemma_keyed_none(es, b.drop_last(), k);
    }
}

/// Inserting `x` into `r` after every entry at least as new as it (and
/// before the strictly older ones) adds `x` to the end of its stamp's
/// group and leaves every other group alone.
proof fn lemma_insert_keeps_groups(es: Seq<NoteEntry>, r: Seq<int>, p: int, x: int, seen: Seq<int>)
    requires
        0 <= p <= r.len(),
        forall|i: int| p <= i < r.len() ==> !key_ge(es[r[i]].date.key, es[x].date.key),
        forall|k: (i64, u32)| #[trigger] keyed(es, r, k) == keyed(es, seen, k),
    ensures
        forall|k: (i64, u32)| #[trigger] keyed(es, r.insert(p, x), k) == keyed(es, seen.push(x), k),
{
    let a = r.take(p);
    let b = r.skip(p);
    let xs = seq![x];
    assert(r.insert(p, x) =~= a + xs + b);
    assert(r =~= a + b);
    assert(seen.push(x).drop_last() =~= seen);
    assert(xs.drop_last() =~= Seq::<int>::empty());
    assert(keyed(es, Seq::<int>::empty(), es[x].date.key) == Seq::<int>::empty());
    assert forall|k: (i64, u32)| #[trigger] keyed(es, r.insert(p, x), k) == keyed(es, seen.push(x), k) by {
        lemma_keyed_concat(es, a + xs, b, k);
        lemma_keyed_concat(es, a, xs, k);
        lemma_keyed_concat(es, a, b, k);
        assert(keyed(es, Seq::<int>::empty(), k) == Seq::<int>::empty());
        assert(keyed(es, r, k) == keyed(es, seen, k));
        if k == es[x].date.key {
            assert forall|i: int| 0 <= i < b.len() implies es[#[trigger] b[i]].date.key != k by {
                assert(b[i] == r[p + i]);
            }
            lemma_keyed_none(es, b, k);
            assert(keyed(es, xs, k) =~= seq![x]);
            assert(keyed(es, a, k) + Seq::<int>::empty() =~= keyed(es, a, k));
            assert(keyed(es, a, k) + seq![x] + Seq::<int>::empty() =~= keyed(es, a, k).push(x));
        } else {
            assert(keyed(es, xs, k) =~= Seq::<int>::empty());
            assert(keyed(es, a, k) + Seq::<int>::empty() =~= keyed(es, a, k));
        }
    }
}

/// The indices `v` as integers.
pub open spec fn ints(v: Seq<usize>) -> Seq<int> {
    Seq::new(v.len(), |i: int| v[i] as int)
}

/// Sorts the entries `idx` of `es` newest first, stably (insertion sort).
fn sort_newest_first(es: &[NoteEntry], idx: &[usize]) -> (r: Vec<usize>)
    requires
        forall|i: int| 0 <= i < idx.len() ==> idx@[i] < es.len(),
    ensures
        newest_first(es@, ints(r@), ints(idx@)),
        r@.len() == idx@.len(),
        forall|i: int| 0 <= i < r.len() ==> r@[i] < es.len(),
{
    let mut r: Vec<usize> = Vec::new();
    let mut j: usize = 0;
    while j < idx.len()
        invariant
            j <= idx.len(),
            r@.len() == j,
            forall|i: int| 0 <= i < idx.len() ==> idx@[i] < es.len(),
            forall|i: int| 0 <= i < r.len() ==> r@[i] < es.len(),
            newest_first(es@, ints(r@), ints(idx@).take(j as int)),
        decreases idx.len() - j,
    {
        let x = idx[j];
        let kx = es[x].date.key;
        let mut p: usize = r.len();
        while p > 0 && (es[r[p - 1]].date.key.0 < kx.0 || (es[r[p - 1]].date.key.0 == kx.0
            && es[r[p - 1]].date.key.1 < kx.1))
            invariant
                p <= r.len(),
                forall|i: int| 0 <= i < r.len() ==> r@[i] < es.len(),
                x < es.len(),
                kx == es@[x as int].date.key,
                forall|i: int| p <= i < r.len() ==> !key_ge(es@[r@[i] as int].date.key, kx),
                forall|i: int| p <= i < r.len() ==> #[trigger] r@[i] < es.len(),
            decreases p,
        {
            p = p - 1;
        }
        let ghost old_r = ints(r@);
        let ghost pi = p as int;
        r.insert(p, x);
        proof {
            let nr = ints(r@);
            let a = old_r.take(pi);
            let b = old_r.skip(pi);
            assert(nr =~= a + seq![x as int] + b);
            assert(old_r =~= a + b);
            // Newest first.
            assert forall|i: int, jj: int| 0 <= i < jj < nr.len() implies key_ge(
                #[trigger] es@[nr[i]].date.key,
                #[trigger] es@[nr[jj]].date.key,
            ) by {
                if jj < pi {
                    assert(nr[i] == old_r[i] && nr[jj] == old_r[jj]);
                } else if jj == pi {
                    assert(nr[jj] == x as int);
                    assert(nr[i] == old_r[i]);
                    assert(key_ge(es@[old_r[pi - 1]].date.key, kx));
                    if i < pi - 1 {
                        assert(key_ge(es@[old_r[i]].date.key, es@[old_r[pi - 1]].date.key));
                    }
                } else if i == pi {
                    assert(nr[jj] == old_r[jj - 1]);
                } else if i < pi {
                    assert(nr[i] == old_r[i] && nr[jj] == old_r[jj - 1]);
                } else {
                    assert(nr[i] == old_r[i - 1] && nr[jj] == old_r[jj - 1]);
                }
            }
            // Stable.
            let seen = ints(idx@).take(j as int);
            assert(ints(idx@).take(j + 1) =~= seen.push(x as int));
            assert(nr =~= old_r.insert(pi, x as int));
            assert forall|i: int| pi <= i < old_r.len() implies !key_ge(
                es@[old_r[i]].date.key,
                es@[x as int].date.key,
            ) by {}
            lemma_insert_keeps_groups(es@, old_r, pi, x as int, seen);
        }
        j = j + 1;
    }
    assert(ints(idx@).take(idx.len() as int) =~= ints(idx@));
    r
}

/// How many sessions the listing shows before summing up the rest.
pub const MAX_LISTED: usize = 10;

/// `d` right-aligned in five columns, as `{:>5}` prints it.
pub open spec fn pad5(d: Seq<char>) -> Seq<char> {
    if d.len() >= 5 {
        d
    } else {
        Seq::new((5 - d.len()) as nat, |i: int| ' ') + d
    }
}

/// One session's rows: `"{date}  {words:>5} words  {id}"`, its topics after
/// a dash when it has any, then its preview, indented, when it has one.
pub open spec fn row_text(e: NoteEntry) -> Seq<char> {
    e.date.text@ + "  "@ + pad5(dec(e.words as nat)) + " words  "@ + e.path@ + (if e.topics@.len()
        > 0 {
        " — "@ + join_with(views(e.topics@), ", "@)
    } else {
        Seq::empty()
    }) + "\n"@ + (if e.preview@.len() > 0 {
        "    "@ + e.preview@ + "\n"@
    } else {
        Seq::empty()
    })
}

/// The rows of the first `n` of the entries `r` (indices into `es`).
pub open spec fn rows_text(es: Seq<NoteEntry>, r: Seq<int>, n: int) -> Seq<char>
    decreases n,
{
    if n <= 0 {
        Seq::empty()
    } else {
        rows_text(es, r, n - 1) + row_text(es[r[n - 1]])
    }
}

/// The listing of the entries `r` (indices into `es`, newest first): at
/// most `MAX_LISTED` of them, a line saying how many more there are, the
/// footer, and the count of unreadable files when there are any.
pub open spec fn find_listing(es: Seq<NoteEntry>, r: Seq<int>, unreadable: usize) -> Seq<char> {
    let shown = if r.len() > MAX_LISTED {
        MAX_LISTED as int
    } else {
        r.len() as int
    };
    rows_text(es, r, shown) + (if r.len() > MAX_LISTED {
        "… "@ + dec((r.len() - MAX_LISTED) as nat) + " more — 'cassette find <text>' narrows the list\n"@
    } else {
        Seq::empty()
    }) + "\nresume one: cassette resume <id>"@ + (if unreadable > 0 {
        "\n"@ + dec(unreadable as nat) + " unreadable"@
    } else {
        Seq::empty()
    })
}

/// The `cassette find` listing of `entries`, filtered by `query` (matched
/// lowercased), newest first (see `find_listing`). An empty store and a
/// query that matches nothing each say so instead.
pub open spec fn find_text(es: Seq<NoteEntry>, query: Option<Seq<char>>, unreadable: usize, out: Seq<
    char,
>) -> bool {
    if es.len() == 0 {
        out == "no notes yet — the first session starts the count"@
    } else {
        let key = match query {
            Some(q) => Some(lowercase(q)),
            None => None,
        };
        let m = found(es, key, es.len() as int);
        if m.len() == 0 {
            out == "no notes match '"@ + (match query {
                Some(q) => q,
                None => Seq::empty(),
            }) + "'"@
        } else {
            exists|r: Seq<int>| newest_first(es, r, m) && out == find_listing(es, r, unreadable)
        }
    }
}

proof fn lemma_found_bounds(es: Seq<NoteEntry>, key: Option<Seq<char>>, n: int)
    requires
        0 <= n <= es.len(),
    ensures
        forall|k: int| 0 <= k < found(es, key, n).len() ==> 0 <= #[trigger] found(es, key, n)[k] < n,
    decreases n,
{
    if n > 0 {
        lemma_found_bounds(es, key, n - 1);
        let prev = found(es, key, n - 1);
        let now = found(es, key, n);
        assert forall|k: int| 0 <= k < now.len() implies 0 <= #[trigger] now[k] < n by {
            if now.len() > prev.len() {
                assert(now == prev.push(n - 1));
                if k < prev.len() {
                    assert(now[k] == prev[k]);
                }
            }
        }
    }
}

/// Appends `n` right-aligned in five columns (see `pad5`).
fn push_padded(out: &mut String, n: usize)
    ensures
        final(out)@ == old(out)@ + pad5(dec(n as nat)),
{
    let d = crate::text::usize_string(n);
    let len = d.as_str().unicode_len();
    let mut k: usize = len;
    while k < 5
        invariant
            len <= k <= 5 || (len > 5 && k == len),
            len == dec(n as nat).len(),
            out@ == old(out)@ + Seq::new((k - len) as nat, |i: int| ' '),
        decreases 5 - k,
    {
        push_char(out, ' ');
        assert(Seq::new((k + 1 - len) as nat, |i: int| ' ') =~= Seq::new(
            (k - len) as nat,
            |i: int| ' ',
        ).push(' '));
        k = k + 1;
    }
    push_str(out, d.as_str());
    proof {
        if len >= 5 {
            assert(Seq::new((k - len) as nat, |i: int| ' ') =~= Seq::<char>::empty());
        }
    }
    assert(final(out)@ =~= old(out)@ + pad5(dec(n as nat)));
}

/// Appends `" — "` and the topics joined with `", "`, when there are any.
fn push_topics(out: &mut String, topics: &Vec<String>)
    ensures
        final(out)@ == old(out)@ + (if topics@.len() > 0 {
            " — "@ + join_with(views(topics@), ", "@)
        } else {
            Seq::<char>::empty()
        }),
{
    if topics.len() == 0 {
        assert(final(out)@ =~= old(out)@ + Seq::<char>::empty());
        return;
    }
    push_str(out, " — ");
    let mut t: usize = 0;
    let ghost head = out@;
    while t < topics.len()
        invariant
            t <= topics.len(),
            out@ == head + join_with(views(topics@).take(t as int), ", "@),
        decreases topics.len() - t,
    {
        if t > 0 {
            push_str(out, ", ");
        }
        push_str(out, topics[t].as_str());
        proof {
            lemma_join_with_push(views(topics@).take(t as int), ", "@, topics@[t as int]@);
            assert(views(topics@).take(t + 1) =~= views(topics@).take(t as int).push(
                topics@[t as int]@,
            ));
        }
        t = t + 1;
    }
    assert(views(topics@).take(topics.len() as int) =~= views(topics@));
    assert(final(out)@ =~= old(out)@ + (" — "@ + join_with(views(topics@), ", "@)));
}

/// Appends one session's rows (see `row_text`).
fn push_row(out: &mut String, e: &NoteEntry)
    ensures
        final(out)@ == old(out)@ + row_text(*e),
{
    push_str(out, e.date.text.as_str());
    push_str(out, "  ");
    push_padded(out, e.words);
    push_str(out, " words  ");
    push_str(out, e.path.as_str());
    push_topics(out, &e.topics);
    push_str(out, "\n");
    if e.preview.as_str().unicode_len() > 0 {
        push_str(out, "    ");
        push_str(out, e.preview.as_str());
        push_str(out, "\n");
    }
    proof {
        reveal_strlit("");
    }
    assert(final(out)@ =~= old(out)@ + row_text(*e));
}

/// The `cassette find` listing (see `find_text`).
pub fn render(entries: &[NoteEntry], query: Option<&str>, unreadable: usize) -> (out: String)
    ensures
        find_text(entries@, str_opt(query), unreadable, out@),
{
    if entries.len() == 0 {
        return owned("no notes yet — the first session starts the count");
    }
    let ghost key = match str_opt(query) {
        Some(q) => Some(lowercase(q)),
        None => None,
    };
    let lowered = match query {
        Some(q) => Some(to_lower(q)),
        None => None,
    };
    let mut m: Vec<usize> = Vec::new();
    let mut i: usize = 0;
    while i < entries.len()
        invariant
            i <= entries.len(),
            key == match str_opt(query) {
                Some(q) => Some(lowercase(q)),
                None => None,
            },
            match lowered {
                Some(l) => key == Some(l@),
                None => key is None,
            },
            ints(m@) == found(entries@, key, i as int),
        decreases entries.len() - i,
    {
        let hit = match &lowered {
            Some(q) => entries[i].haystack.contains(q.as_str()),
            None => true,
        };
        if hit {
            m.push(i);
            assert(ints(m@) =~= found(entries@, key, i as int).push(i as int));
        }
        i = i + 1;
    }
    if m.len() == 0 {
        let mut out = owned("no notes match '");
        match query {
            Some(q) => push_str(&mut out, q),
            None => {},
        }
        push_str(&mut out, "'");
        proof {
            reveal_strlit("");
        }
        assert(out@ =~= "no notes match '"@ + (match str_opt(query) {
            Some(q) => q,
            None => Seq::<char>::empty(),
        }) + "'"@);
        return out;
    }
    proof {
        lemma_found_bounds(entries@, key, entries.len() as int);
        assert forall|k: int| 0 <= k < m.len() implies m@[k] < entries.len() by {
            assert(ints(m@)[k] == m@[k] as int);
        }
    }
    let r = sort_newest_first(entries, m.as_slice());
    let ghost rs = ints(r@);
    let shown: usize = if r.len() > MAX_LISTED {
        MAX_LISTED
    } else {
        r.len()
    };
    let mut out = String::new();
    let mut t: usize = 0;
    while t < shown
        invariant
            t <= shown <= r.len(),
            rs == ints(r@),
            forall|i: int| 0 <= i < r.len() ==> r@[i] < entries.len(),
            out@ == rows_text(entries@, rs, t as int),
        decreases shown - t,
    {
        push_row(&mut out, &entries[r[t]]);
        t = t + 1;
    }
    if r.len() > MAX_LISTED {
        push_str(&mut out, "… ");
        push_usize(&mut out, r.len() - MAX_LISTED);
        push_str(&mut out, " more — 'cassette find <text>' narrows the list\n");
    }
    push_str(&mut out, "\nresume one: cassette resume <id>");
    if unreadable > 0 {
        push_str(&mut out, "\n");
        push_usize(&mut out, unreadable);
        push_str(&mut out, " unreadable");
    }
    assert(out@ =~= find_listing(entries@, rs, unreadable));
    out
}

} // verus!

//! The plain-text queue listing: one line per cassette in queue order, and
//! a count of the files that could not be read rather than silence about
//! them.

use vstd::prelude::*;

use crate::cassette::opt_str_view;
use crate::queue::json::{
    body_sides, count_words, split_sides, waiting_on, CassetteView, Listing, SessionRef, WriterRef,
};
use crate::queue::{is_error, QueueError, StatusFilter};
use crate::store::{
    kind_text, metas_sorted, queue_order, queue_order_stored, status_text, stored_sorted,
    CassetteMeta, Kind, Status, StoredCassette, Writer,
};
use crate::text::{str_eq, words_in};
use crate::text::{dec, dec_int, join_nl, lemma_join_nl_push, owned, push_char, push_i64, push_str, push_usize};

verus! {

/// One listing line: `"<id>  p<priority>  <status>  <topic>"`.
pub open spec fn meta_line(m: CassetteMeta) -> Seq<char> {
    m.id@ + "  p"@ + dec_int(m.priority as int) + "  "@ + status_text(m.status) + "  "@
        + match m.topic {
        Some(t) => t@,
        None => Seq::empty(),
    }
}

/// The lines of `ms`.
pub open spec fn meta_lines(ms: Seq<CassetteMeta>) -> Seq<Seq<char>> {
    Seq::new(ms.len(), |i: int| meta_line(ms[i]))
}

/// The listing of cassettes whose metadata, in queue order, is `sorted`,
/// with `unreadable` files that could not be read: one line each, then
/// `"N unreadable"` when there were any.
pub open spec fn listing_text(sorted: Seq<CassetteMeta>, unreadable: usize) -> Seq<char> {
    if unreadable > 0 {
        join_nl(meta_lines(sorted).push(dec(unreadable as nat) + " unreadable"@))
    } else {
        join_nl(meta_lines(sorted))
    }
}

/// The metadata of stored cassettes.
pub open spec fn metas_of(cs: Seq<StoredCassette>) -> Seq<CassetteMeta> {
    Seq::new(cs.len(), |i: int| cs[i].meta)
}

/// A copy of a cassette's metadata.
fn copy_meta(m: &CassetteMeta) -> (r: CassetteMeta)
    ensures
        r == *m,
{
    CassetteMeta {
        id: m.id.clone(),
        topic: match &m.topic {
            Some(t) => Some(t.clone()),
            None => None,
        },
        priority: m.priority,
        status: m.status,
        locked_by: match &m.locked_by {
            Some(t) => Some(t.clone()),
            None => None,
        },
        created_by: m.created_by.clone(),
        last_writer: m.last_writer.clone(),
        updated_at: m.updated_at.clone(),
    }
}

/// `out` is the queue listing of the cassettes `cs` with `unreadable`
/// files that could not be read: `"no cassettes"` when there is nothing at
/// all; otherwise the cassettes in queue order (see `listing_text`).
pub open spec fn is_listing(out: Seq<char>, cs: Seq<StoredCassette>, unreadable: usize) -> bool {
    &&& cs.len() == 0 && unreadable == 0 ==> out == "no cassettes"@
    &&& !(cs.len() == 0 && unreadable == 0) ==> exists|sorted: Seq<CassetteMeta>|
        {
            &&& sorted.to_multiset() == metas_of(cs).to_multiset()
            &&& metas_sorted(sorted)
            &&& out == listing_text(sorted, unreadable)
        }
}

/// The queue listing (see `is_listing`).
pub fn render_list(cassettes: &[StoredCassette], unreadable: usize) -> (out: String)
    ensures
        is_listing(out@, cassettes@, unreadable),
{
    if cassettes.len() == 0 && unreadable == 0 {
        return owned("no cassettes");
    }
    let mut metas: Vec<CassetteMeta> = Vec::new();
    let mut i: usize = 0;
    while i < cassettes.len()
        invariant
            i <= cassettes.len(),
            metas@ == metas_of(cassettes@).take(i as int),
        decreases cassettes.len() - i,
    {
        let m = copy_meta(&cassettes[i].meta);
        metas.push(m);
        assert(metas_of(cassettes@).take(i + 1) =~= metas_of(cassettes@).take(i as int).push(m));
        i = i + 1;
    }
    assert(metas_of(cassettes@).take(cassettes.len() as int) =~= metas_of(cassettes@));
    queue_order(&mut metas);
    let ghost sorted = metas@;
    let ghost lines = meta_lines(sorted);
    let mut out = String::new();
    let mut k: usize = 0;
    while k < metas.len()
        invariant
            k <= metas.len(),
            sorted == metas@,
            lines == meta_lines(sorted),
            out@ == join_nl(lines.take(k as int)),
        decreases metas.len() - k,
    {
        let m = &metas[k];
        let ghost before = out@;
        let ghost line = meta_line(*m);
        if k > 0 {
            push_char(&mut out, '\n');
        }
        push_str(&mut out, m.id.as_str());
        push_str(&mut out, "  p");
        push_i64(&mut out, m.priority);
        push_str(&mut out, "  ");
        push_str(&mut out, m.status.as_str());
        push_str(&mut out, "  ");
        match &m.topic {
            Some(t) => push_str(&mut out, t.as_str()),
            None => {},
        }
        proof {
            assert(lines[k as int] == line);
            lemma_join_nl_push(lines.take(k as int), line);
            assert(lines.take(k + 1) =~= lines.take(k as int).push(line));
            if k > 0 {
                assert(out@ =~= before + seq!['\n'] + line);
            } else {
                assert(out@ =~= line);
            }
        }
        k = k + 1;
    }
    assert(lines.take(metas.len() as int) =~= lines);
    if unreadable > 0 {
        let ghost before = out@;
        let ghost tail = dec(unreadable as nat) + " unreadable"@;
        if metas.len() > 0 {
            push_char(&mut out, '\n');
        }
        push_usize(&mut out, unreadable);
        push_str(&mut out, " unreadable");
        proof {
            lemma_join_nl_push(lines, tail);
            if metas.len() > 0 {
                assert(out@ =~= before + seq!['\n'] + tail);
            } else {
                assert(out@ =~= tail);
            }
        }
    }
    out
}

// ---------------------------------------------------------------------------
// The JSON view of a cassette
// ---------------------------------------------------------------------------

/// Index of the first writer in `ws` at or after `i` whose id is `id`, or
/// the length when the registry does not know it.
pub open spec fn find_writer(ws: Seq<Writer>, id: Seq<char>, i: int) -> int
    decreases ws.len() - i,
{
    if i < 0 || i >= ws.len() {
        ws.len() as int
    } else if ws[i].id@ == id {
        i
    } else {
        find_writer(ws, id, i + 1)
    }
}

/// `r` is how the registry `ws` shows the writer id `id`: its name and
/// kind, or nothing when there is no id or the registry does not know it.
pub open spec fn shows_writer(r: Option<WriterRef>, ws: Seq<Writer>, id: Option<Seq<char>>) -> bool {
    match id {
        None => r is None,
        Some(id) => {
            let k = find_writer(ws, id, 0);
            if k < ws.len() {
                r matches Some(w) && w.name@ == ws[k].name@ && w.kind@ == kind_text(ws[k].kind)
            } else {
                r is None
            }
        },
    }
}

/// Whose turn it is after the writer `id` wrote: the other kind; unknown
/// when the registry does not know the writer.
pub open spec fn turn_for(ws: Seq<Writer>, id: Seq<char>) -> Option<Seq<char>> {
    let k = find_writer(ws, id, 0);
    if k < ws.len() {
        match ws[k].kind {
            Kind::Human => Some("agent"@),
            Kind::Agent => Some("human"@),
        }
    } else {
        None
    }
}

proof fn lemma_find_writer_bounds(ws: Seq<Writer>, id: Seq<char>, i: int)
    requires
        0 <= i <= ws.len(),
    ensures
        i <= find_writer(ws, id, i) <= ws.len(),
    decreases ws.len() - i,
{
    if i < ws.len() && ws[i].id@ != id {
        lemma_find_writer_bounds(ws, id, i + 1);
    }
}

/// How the registry `writers` shows the writer id `id` (see `shows_writer`).
fn resolve(writers: &[Writer], id: &str) -> (r: Option<WriterRef>)
    ensures
        shows_writer(r, writers@, Some(id@)),
{
    let mut i: usize = 0;
    while i < writers.len()
        invariant
            i <= writers.len(),
            find_writer(writers@, id@, 0) == find_writer(writers@, id@, i as int),
        decreases writers.len() - i,
    {
        if str_eq(writers[i].id.as_str(), id) {
            return Some(WriterRef { name: writers[i].name.clone(), kind: writers[i].kind.as_str() });
        }
        i = i + 1;
    }
    None
}

/// `v` is the cassette `c` shaped for the `--json` contract, with `busy`
/// telling whether its lock is held and `ws` the writer registry.
pub open spec fn view_of(v: CassetteView, c: StoredCassette, busy: bool, ws: Seq<Writer>) -> bool {
    &&& v.id@ == c.meta.id@
    &&& opt_str_view(v.topic) == opt_str_view(c.meta.topic)
    &&& v.priority == c.meta.priority
    &&& v.status@ == status_text(c.meta.status)
    &&& v.words == words_in(body_sides(c.body@).0) + words_in(body_sides(c.body@).1)
    &&& v.busy == busy
    &&& shows_writer(v.created_by, ws, Some(c.meta.created_by@))
    &&& shows_writer(v.last_writer, ws, Some(c.meta.last_writer@))
    &&& shows_writer(v.sticky_lock, ws, opt_str_view(c.meta.locked_by))
    &&& match v.waiting_on {
        Some(k) => turn_for(ws, c.meta.last_writer@) == Some(k@),
        None => turn_for(ws, c.meta.last_writer@) is None,
    }
    &&& v.updated_at@ == c.meta.updated_at@
    &&& v.side_a@ == body_sides(c.body@).0
    &&& v.side_b@ == body_sides(c.body@).1
}

/// One cassette shaped for the `--json` contract, from the cassette as read
/// from the store, whether its lock is currently held (`busy`), and the
/// writer registry: who created it, who wrote it last and who holds its
/// sticky claim, each as the registry shows them; whose turn it is; its
/// sides and their words.
pub fn build_view(c: &StoredCassette, busy: bool, writers: &[Writer]) -> (v: CassetteView)
    requires
        words_in(body_sides(c.body@).0) + words_in(body_sides(c.body@).1) <= usize::MAX,
    ensures
        view_of(v, *c, busy, writers@),
{
    let created_by = resolve(writers, c.meta.created_by.as_str());
    let last_writer = resolve(writers, c.meta.last_writer.as_str());
    let sticky_lock = match &c.meta.locked_by {
        Some(h) => resolve(writers, h.as_str()),
        None => None,
    };
    let waiting_on = match &last_writer {
        Some(w) => waiting_on(Some(w)),
        None => waiting_on(None),
    };
    proof {
        reveal_strlit("human");
        reveal_strlit("agent");
        lemma_find_writer_bounds(writers@, c.meta.last_writer@, 0);
    }
    let (side_a, side_b) = split_sides(c.body.as_str());
    let words = count_words(side_a.as_str(), side_b.as_str());
    CassetteView {
        id: c.meta.id.clone(),
        topic: match &c.meta.topic {
            Some(t) => Some(t.clone()),
            None => None,
        },
        priority: c.meta.priority,
        status: c.meta.status.as_str(),
        words,
        busy,
        sticky_lock,
        created_by,
        last_writer,
        waiting_on,
        updated_at: c.meta.updated_at.clone(),
        side_a,
        side_b,
    }
}

/// The `--json` listing of the session `session` (labelled `alias`): each
/// of `cassettes` shaped by `build_view`, `busy[i]` telling whether
/// cassette `i`'s lock is held.
pub fn listing_of(
    session: &str,
    alias: Option<String>,
    cassettes: &[StoredCassette],
    busy: &[bool],
    writers: &[Writer],
) -> (l: Listing)
    requires
        busy.len() == cassettes.len(),
        forall|i: int|
            0 <= i < cassettes.len() ==> words_in(body_sides(#[trigger] cassettes@[i].body@).0)
                + words_in(body_sides(cassettes@[i].body@).1) <= usize::MAX,
    ensures
        l.session.id@ == session@,
        l.session.alias == alias,
        l.cassettes@.len() == cassettes@.len(),
        forall|i: int|
            0 <= i < cassettes@.len() ==> view_of(
                #[trigger] l.cassettes@[i],
                cassettes@[i],
                busy@[i],
                writers@,
            ),
{
    let mut views: Vec<CassetteView> = Vec::new();
    let mut i: usize = 0;
    while i < cassettes.len()
        invariant
            i <= cassettes.len(),
            busy.len() == cassettes.len(),
            views@.len() == i,
            forall|k: int|
                0 <= k < cassettes.len() ==> words_in(body_sides(#[trigger] cassettes@[k].body@).0)
                    + words_in(body_sides(cassettes@[k].body@).1) <= usize::MAX,
            forall|k: int|
                0 <= k < i ==> view_of(#[trigger] views@[k], cassettes@[k], busy@[k], writers@),
        decreases cassettes.len() - i,
    {
        let v = build_view(&cassettes[i], busy[i], writers);
        views.push(v);
        i = i + 1;
    }
    Listing { session: SessionRef { id: owned(session), alias }, cassettes: views }
}

// ---------------------------------------------------------------------------
// Which cassettes a listing shows
// ---------------------------------------------------------------------------

/// The instant an RFC 3339 timestamp names, in UTC: whole seconds since the
/// Unix epoch and the nanoseconds past them; `None` when the text is not
/// RFC 3339.
pub uninterp spec fn rfc3339_instant(s: Seq<char>) -> Option<(i64, u32)>;

/// `DateTime::parse_from_rfc3339`, read in UTC as `(timestamp, subsecond
/// nanoseconds)`: pairs that order, compared first by seconds, as the
/// instants do. What the parse accepts is only named (`rfc3339_instant`).
/// RFC 3339 years have four digits and offsets stay within a day, so the
/// instant lies between the first day of year 0 and the last of year 9999,
/// give or take a day; the nanoseconds reach past one billion only in a
/// leap second.
#[verifier::external_body]
pub(crate) fn parse_rfc3339(s: &str) -> (r: Option<(i64, u32)>)
    ensures
        r == rfc3339_instant(s@),
        r matches Some((t, n)) ==> -62_300_000_000 <= t <= 253_500_000_000 && n < 2_000_000_000,
{
    chrono::DateTime::parse_from_rfc3339(s).ok().map(|dt| {
        let u = dt.with_timezone(&chrono::Utc);
        (u.timestamp(), u.timestamp_subsec_nanos())
    })
}

/// Instant `t` is at or after instant `since`.
pub open spec fn at_or_after(t: (i64, u32), since: (i64, u32)) -> bool {
    t.0 > since.0 || (t.0 == since.0 && t.1 >= since.1)
}

/// Whether cassette `c` is in a listing filtered by `status` and, when
/// given, by `updated_at >= since`. A cassette whose own `updated_at` does
/// not parse is kept rather than silently dropped.
pub open spec fn in_listing(c: StoredCassette, status: StatusFilter, since: Option<(i64, u32)>) -> bool {
    &&& match status {
        StatusFilter::All => true,
        StatusFilter::Open => c.meta.status == Status::Open,
        StatusFilter::Closed => c.meta.status == Status::Closed,
    }
    &&& match since {
        None => true,
        Some(s) => match rfc3339_instant(c.meta.updated_at@) {
            None => true,
            Some(t) => at_or_after(t, s),
        },
    }
}

/// The cassettes among `cs` a listing shows, in order.
pub open spec fn listed(cs: Seq<StoredCassette>, status: StatusFilter, since: Option<(i64, u32)>) -> Seq<
    StoredCassette,
>
    decreases cs.len(),
{
    if cs.len() == 0 {
        Seq::empty()
    } else if in_listing(cs.last(), status, since) {
        listed(cs.drop_last(), status, since).push(cs.last())
    } else {
        listed(cs.drop_last(), status, since)
    }
}

/// `"invalid --since '{s}': expected RFC3339"`
pub open spec fn bad_since(s: Seq<char>) -> Seq<char> {
    "invalid --since '"@ + s + "': expected RFC3339"@
}

/// The `--since` instant, when one was given; a usage error when it is not
/// RFC 3339.
pub fn parse_since(since: Option<&str>) -> (r: Result<Option<(i64, u32)>, QueueError>)
    ensures
        match since {
            None => r == Ok::<Option<(i64, u32)>, QueueError>(None),
            Some(s) => match rfc3339_instant(s@) {
                Some(t) => r == Ok::<Option<(i64, u32)>, QueueError>(Some(t)),
                None => r matches Err(e) && is_error(e, (2, bad_since(s@))),
            },
        },
{
    match since {
        None => Ok(None),
        Some(s) => match parse_rfc3339(s) {
            Some(t) => Ok(Some(t)),
            None => {
                let mut m = owned("invalid --since '");
                push_str(&mut m, s);
                push_str(&mut m, "': expected RFC3339");
                Err(QueueError::Usage(m))
            },
        },
    }
}

/// The cassettes a listing shows (see `in_listing`), in their order.
pub fn filter_cassettes(
    cassettes: Vec<StoredCassette>,
    status: StatusFilter,
    since: Option<(i64, u32)>,
) -> (r: Vec<StoredCassette>)
    ensures
        r@ == listed(cassettes@, status, since),
{
    let ghost all = cassettes@;
    let mut out: Vec<StoredCassette> = Vec::new();
    for c in it: cassettes.into_iter()
        invariant
            it.seq() == all,
            out@ == listed(all.take(it.index() as int), status, since),
    {
        let ghost i = it.index() as int;
        proof {
            assert(all.take(i + 1).drop_last() =~= all.take(i));
            assert(all.take(i + 1).last() == c);
        }
        let by_status = match status {
            StatusFilter::All => true,
            StatusFilter::Open => c.meta.status == Status::Open,
            StatusFilter::Closed => c.meta.status == Status::Closed,
        };
        let by_time = match since {
            None => true,
            Some(s) => match parse_rfc3339(c.meta.updated_at.as_str()) {
                None => true,
                Some(t) => t.0 > s.0 || (t.0 == s.0 && t.1 >= s.1),
            },
        };
        if by_status && by_time {
            out.push(c);
        }
    }
    assert(all.take(all.len() as int) =~= all);
    out
}

/// `queue list`'s text for a session whose scan found `cassettes` and
/// `unreadable` damaged files: filtered by `status` and `--since` (a
/// `--since` that is not RFC 3339 is a usage error, not an empty result),
/// then listed (see `is_listing`).
pub fn list(
    cassettes: Vec<StoredCassette>,
    unreadable: usize,
    status: StatusFilter,
    since: Option<&str>,
) -> (r: Result<String, QueueError>)
    ensures
        match since {
            Some(s) if rfc3339_instant(s@) is None => r matches Err(e) && is_error(
                e,
                (2, bad_since(s@)),
            ),
            _ => r matches Ok(out) && is_listing(
                out@,
                listed(
                    cassettes@,
                    status,
                    match since {
                        Some(s) => rfc3339_instant(s@),
                        None => None,
                    },
                ),
                unreadable,
            ),
        },
{
    let t = match parse_since(since) {
        Ok(t) => t,
        Err(e) => return Err(e),
    };
    let shown = filter_cassettes(cassettes, status, t);
    Ok(render_list(shown.as_slice(), unreadable))
}

/// `"no open cassettes in session '{session}'"`
pub open spec fn no_open_message(session: Seq<char>) -> Seq<char> {
    "no open cassettes in session '"@ + session + "'"@
}

/// The session's open cassettes in queue order: the candidates `queue next`
/// walks, first to last. No open cassette at all is `Empty` (exit 5).
pub fn open_candidates(cassettes: Vec<StoredCassette>, session: &str) -> (r: Result<
    Vec<StoredCassette>,
    QueueError,
>)
    ensures
        listed(cassettes@, StatusFilter::Open, None).len() == 0 ==> (r matches Err(e) && is_error(
            e,
            (5, no_open_message(session@)),
        )),
        listed(cassettes@, StatusFilter::Open, None).len() > 0 ==> (r matches Ok(v)
            && v@.to_multiset() == listed(cassettes@, StatusFilter::Open, None).to_multiset()
            && stored_sorted(v@)),
{
    let mut open = filter_cassettes(cassettes, StatusFilter::Open, None);
    if open.len() == 0 {
        let mut m = owned("no open cassettes in session '");
        push_str(&mut m, session);
        push_str(&mut m, "'");
        return Err(QueueError::Empty(m));
    }
    queue_order_stored(&mut open);
    Ok(open)
}

/// The first index whose lock is free (`busy` says which are held), if any.
pub fn first_free(busy: &[bool]) -> (r: Option<usize>)
    ensures
        match r {
            Some(k) => k < busy@.len() && !busy@[k as int] && forall|j: int|
                0 <= j < k ==> busy@[j],
            None => forall|j: int| 0 <= j < busy@.len() ==> busy@[j],
        },
{
    let mut i: usize = 0;
    while i < busy.len()
        invariant
            i <= busy@.len(),
            forall|j: int| 0 <= j < i ==> busy@[j],
        decreases busy@.len() - i,
    {
        if !busy[i] {
            return Some(i);
        }
        i = i + 1;
    }
    None
}

/// `queue next`'s shared refusal when every open cassette is held.
pub open spec fn all_busy_message() -> Seq<char> {
    "every open cassette is being written \u{2014} try again shortly"@
}

/// `queue next` over the candidates in queue order (`open_candidates`),
/// `busy[k]` telling whether candidate `k`'s lock is held: the id of the
/// first one that is free, or `Busy` (exit 3) when every one is held.
pub fn next_pick(candidates: &[StoredCassette], busy: &[bool]) -> (r: Result<String, QueueError>)
    requires
        busy@.len() == candidates@.len(),
    ensures
        match r {
            Ok(id) => exists|k: int|
                0 <= k < candidates@.len() && !busy@[k] && (forall|j: int| 0 <= j < k ==> busy@[j])
                    && id@ == candidates@[k].meta.id@,
            Err(e) => (forall|j: int| 0 <= j < busy@.len() ==> busy@[j]) && is_error(
                e,
                (3, all_busy_message()),
            ),
        },
{
    match first_free(busy) {
        Some(k) => Ok(candidates[k].meta.id.clone()),
        None => Err(QueueError::Busy(owned("every open cassette is being written \u{2014} try again shortly"))),
    }
}

} // verus!

//! Noticing what other writers did to the open session, once per tick.
//!
//! Two passes, cheap first. The stat pass compares each cassette file's
//! change stamp with the one seen last, reading no file content; only when
//! something moved is the session scanned and the moved cassettes merged
//! into the editor.

use vstd::prelude::*;

use crate::app::{
    count_open, find_id, first_with_id, lemma_count_open_push, lemma_count_open_remove,
    lemma_find_id, merged_from, opt_view, position_of_id, unchanged_content, App, MAX_CASSETTES,
};
use crate::cassette::Cassette;
use crate::queue::json::body_sides;
use crate::resume::{cassette_of, loaded_from, lock_name};
use crate::store::{Status, StoredCassette, Writer};
use crate::text::{lemma_trim_trim, owned, str_eq, trim};

verus! {

/// What the stat pass compares to decide a cassette changed: the file's
/// modification time (seconds and nanoseconds), its length, and its inode,
/// which moves on every store write even when the modification time cannot.
#[derive(Clone, Copy, Debug, PartialEq, Eq, Structural)]
pub struct ChangeStamp {
    pub modified_secs: i64,
    pub modified_nanos: u32,
    pub len: u64,
    pub ino: u64,
}

/// Index of the first entry in `v` at or after `i` recorded for `id`, or
/// the length when there is none.
pub open spec fn find_stamp(v: Seq<(String, ChangeStamp)>, id: Seq<char>, i: int) -> int
    decreases v.len() - i,
{
    if i < 0 || i >= v.len() {
        v.len() as int
    } else if v[i].0@ == id {
        i
    } else {
        find_stamp(v, id, i + 1)
    }
}

/// The stamp recorded for `id` in `v`, if any.
pub open spec fn stamp_of(v: Seq<(String, ChangeStamp)>, id: Seq<char>) -> Option<ChangeStamp> {
    let k = find_stamp(v, id, 0);
    if 0 <= k < v.len() {
        Some(v[k].1)
    } else {
        None
    }
}

/// The stamp known for `id` once the first `i` files of `seen` have been
/// stat'ed: the last of them seen for `id`, else what `old` recorded.
pub open spec fn stamp_before(
    old: Seq<(String, ChangeStamp)>,
    seen: Seq<(String, ChangeStamp)>,
    i: int,
    id: Seq<char>,
) -> Option<ChangeStamp>
    decreases i,
{
    if i <= 0 || i > seen.len() {
        stamp_of(old, id)
    } else if seen[i - 1].0@ == id {
        Some(seen[i - 1].1)
    } else {
        stamp_before(old, seen, i - 1, id)
    }
}

/// The `i`-th stat'ed file is a change to merge: it is not the cassette this
/// process holds, and its stamp differs from the one known before it (or
/// none was known).
pub open spec fn moved(
    old: Seq<(String, ChangeStamp)>,
    seen: Seq<(String, ChangeStamp)>,
    held: Option<Seq<char>>,
    i: int,
) -> bool {
    &&& held != Some(seen[i].0@)
    &&& stamp_before(old, seen, i, seen[i].0@) != Some(seen[i].1)
}

/// The ids of the first `n` stat'ed files that moved, in stat order.
pub open spec fn moved_ids(
    old: Seq<(String, ChangeStamp)>,
    seen: Seq<(String, ChangeStamp)>,
    held: Option<Seq<char>>,
    n: int,
) -> Seq<Seq<char>>
    decreases n,
{
    if n <= 0 || n > seen.len() {
        Seq::empty()
    } else if moved(old, seen, held, n - 1) {
        moved_ids(old, seen, held, n - 1).push(seen[n - 1].0@)
    } else {
        moved_ids(old, seen, held, n - 1)
    }
}

/// An optional string slice, as characters.
pub open spec fn opt_str(o: Option<&str>) -> Option<Seq<char>> {
    match o {
        Some(s) => Some(s@),
        None => None,
    }
}

proof fn lemma_find_stamp_bounds(v: Seq<(String, ChangeStamp)>, id: Seq<char>, i: int)
    requires
        0 <= i <= v.len(),
    ensures
        i <= find_stamp(v, id, i) <= v.len(),
        find_stamp(v, id, i) < v.len() ==> v[find_stamp(v, id, i)].0@ == id,
    decreases v.len() - i,
{
    if i < v.len() && v[i].0@ != id {
        lemma_find_stamp_bounds(v, id, i + 1);
    }
}

/// Two records that agree, from `i` on, on which entries are `id`'s and on
/// the stamps of those, find the same entry for `id`.
proof fn lemma_find_stamp_agree(
    a: Seq<(String, ChangeStamp)>,
    b: Seq<(String, ChangeStamp)>,
    id: Seq<char>,
    i: int,
)
    requires
        0 <= i <= a.len(),
        a.len() <= b.len(),
        forall|j: int| i <= j < a.len() ==> (#[trigger] a[j].0@ == id) == (b[j].0@ == id),
        find_stamp(a, id, i) < a.len(),
    ensures
        find_stamp(b, id, i) == find_stamp(a, id, i),
    decreases a.len() - i,
{
    if i < a.len() && a[i].0@ != id {
        assert(b[i].0@ != id);
        lemma_find_stamp_agree(a, b, id, i + 1);
    }
}

/// No entry of `a` from `i` on is `id`'s, and `b` agrees with `a` there: `b`
/// finds `id` no earlier than `a`'s end.
proof fn lemma_find_stamp_absent(
    a: Seq<(String, ChangeStamp)>,
    b: Seq<(String, ChangeStamp)>,
    id: Seq<char>,
    i: int,
)
    requires
        0 <= i <= a.len(),
        a.len() <= b.len(),
        forall|j: int| i <= j < a.len() ==> (#[trigger] a[j].0@ == id) == (b[j].0@ == id),
        find_stamp(a, id, i) == a.len(),
    ensures
        find_stamp(b, id, i) == find_stamp(b, id, a.len() as int),
    decreases a.len() - i,
{
    if i < a.len() {
        assert(a[i].0@ != id);
        assert(b[i].0@ != id);
        lemma_find_stamp_absent(a, b, id, i + 1);
    }
}

/// Where `v` records a stamp for `id`, if anywhere.
fn stamp_index(v: &Vec<(String, ChangeStamp)>, id: &str) -> (r: Option<usize>)
    ensures
        match r {
            Some(k) => k < v@.len() && find_stamp(v@, id@, 0) == k,
            None => find_stamp(v@, id@, 0) == v@.len(),
        },
{
    let mut i: usize = 0;
    while i < v.len()
        invariant
            i <= v@.len(),
            find_stamp(v@, id@, 0) == find_stamp(v@, id@, i as int),
        decreases v@.len() - i,
    {
        if str_eq(v[i].0.as_str(), id) {
            return Some(i);
        }
        i = i + 1;
    }
    None
}

/// Record `stamp` for `id` in `v`, in place of what it recorded before.
fn record_stamp(v: &mut Vec<(String, ChangeStamp)>, id: &str, stamp: ChangeStamp)
    ensures
        forall|x: Seq<char>|
            #[trigger] stamp_of(final(v)@, x) == if x == id@ {
                Some(stamp)
            } else {
                stamp_of(old(v)@, x)
            },
{
    let ghost a = v@;
    match stamp_index(v, id) {
        Some(k) => {
            v.set(k, (owned(id), stamp));
            proof {
                let b = v@;
                lemma_find_stamp_bounds(a, id@, 0);
                assert forall|x: Seq<char>| #[trigger]
                    stamp_of(b, x) == if x == id@ {
                        Some(stamp)
                    } else {
                        stamp_of(a, x)
                    } by {
                    lemma_find_stamp_bounds(a, x, 0);
                    if x == id@ {
                        assert forall|j: int| 0 <= j < a.len() implies (#[trigger] a[j].0@ == x) == (
                        b[j].0@ == x) by {
                            if j != k {
                                assert(b[j] == a[j]);
                            }
                        }
                        lemma_find_stamp_agree(a, b, x, 0);
                    } else {
                        assert forall|j: int| 0 <= j < a.len() implies (#[trigger] a[j].0@ == x) == (
                        b[j].0@ == x) by {
                            if j != k {
                                assert(b[j] == a[j]);
                            } else {
                                assert(a[j].0@ == id@);
                            }
                        }
                        if find_stamp(a, x, 0) < a.len() {
                            lemma_find_stamp_agree(a, b, x, 0);
                            assert(find_stamp(a, x, 0) != k);
                        } else {
                            lemma_find_stamp_absent(a, b, x, 0);
                        }
                    }
                }
            }
        },
        None => {
            v.push((owned(id), stamp));
            proof {
                let b = v@;
                assert forall|x: Seq<char>| #[trigger]
                    stamp_of(b, x) == if x == id@ {
                        Some(stamp)
                    } else {
                        stamp_of(a, x)
                    } by {
                    lemma_find_stamp_bounds(a, x, 0);
                    assert forall|j: int| 0 <= j < a.len() implies (#[trigger] a[j].0@ == x) == (
                    b[j].0@ == x) by {
                        assert(b[j] == a[j]);
                    }
                    if find_stamp(a, x, 0) < a.len() {
                        lemma_find_stamp_agree(a, b, x, 0);
                    } else {
                        lemma_find_stamp_absent(a, b, x, 0);
                        assert(b[a.len() as int].0@ == id@);
                        if x != id@ {
                            assert(find_stamp(b, x, a.len() + 1int) == b.len());
                        }
                    }
                }
            }
        },
    }
}

/// The stat pass: `seen` holds each cassette file's id and change stamp, as
/// the session's directory listed them. Every stamp is recorded in
/// `stamps`, the held cassette's too, so that releasing it later does not
/// look like a change; the ids whose stamp moved (or was never seen) are
/// returned in listing order, the held cassette never among them.
pub fn note_stamps(
    stamps: &mut Vec<(String, ChangeStamp)>,
    seen: &[(String, ChangeStamp)],
    held: Option<&str>,
) -> (changed: Vec<String>)
    ensures
        changed@.map_values(|s: String| s@) == moved_ids(old(stamps)@, seen@, opt_str(held), seen@.len() as int),
        forall|x: Seq<char>|
            #[trigger] stamp_of(final(stamps)@, x) == stamp_before(
                old(stamps)@,
                seen@,
                seen@.len() as int,
                x,
            ),
{
    let ghost o = stamps@;
    let mut changed: Vec<String> = Vec::new();
    let mut i: usize = 0;
    while i < seen.len()
        invariant
            i <= seen@.len(),
            forall|x: Seq<char>| #[trigger]
                stamp_of(stamps@, x) == stamp_before(o, seen@, i as int, x),
            changed@.map_values(|s: String| s@) == moved_ids(o, seen@, opt_str(held), i as int),
        decreases seen@.len() - i,
    {
        let id = seen[i].0.as_str();
        let stamp = seen[i].1;
        let is_held = match held {
            Some(h) => str_eq(h, id),
            None => false,
        };
        let prev = match stamp_index(stamps, id) {
            Some(k) => Some(stamps[k].1),
            None => None,
        };
        assert(prev == stamp_of(stamps@, id@));
        record_stamp(stamps, id, stamp);
        let moved_now = !is_held && match prev {
            Some(p) => p != stamp,
            None => true,
        };
        proof {
            assert(moved_now == moved(o, seen@, opt_str(held), i as int));
        }
        if moved_now {
            changed.push(owned(id));
        }
        proof {
            assert forall|x: Seq<char>| #[trigger]
                stamp_of(stamps@, x) == stamp_before(o, seen@, i + 1, x) by {}
            assert(changed@.map_values(|s: String| s@) =~= moved_ids(
                o,
                seen@,
                opt_str(held),
                i + 1,
            ));
        }
        i = i + 1;
    }
    changed
}

/// `c` shows what the stored cassette `s` holds: its id, its two sides (up
/// to surrounding whitespace), its topic, its queue priority and status,
/// and the name of the writer holding its sticky lock.
pub open spec fn lands(c: Cassette, s: StoredCassette, ws: Seq<Writer>) -> bool {
    let sides = body_sides(s.body@);
    &&& c.id@ == s.meta.id@
    &&& trim(c.side_a_seq()) == trim(sides.0)
    &&& trim(c.side_b_seq()) == trim(sides.1)
    &&& opt_view(c.topic) == opt_view(s.meta.topic)
    &&& c.priority == s.meta.priority
    &&& c.closed == (s.meta.status == Status::Closed)
    &&& opt_view(c.locked_by) == lock_name(ws, s.meta.locked_by)
}

/// Only the cassettes, the focus and the scroll window may differ, and the
/// focused cassette stays focused.
pub open spec fn merge_frame(o: App, n: App) -> bool {
    &&& n.status_msg == o.status_msg
    &&& n.notices == o.notices
    &&& n.bell == o.bell
    &&& n.same_frame(&o)
    &&& o.focus_idx < o.cassettes@.len() ==> {
        &&& n.focus_idx < n.cassettes@.len()
        &&& n.cassettes@[n.focus_idx as int].id@ == o.cassettes@[o.focus_idx as int].id@
    }
}

/// `ncs` is `cs` after merging the stored cassette `s` (see `merge_one`),
/// which `merged` tells happened.
pub open spec fn merged_one(
    cs: Seq<Cassette>,
    ncs: Seq<Cassette>,
    s: StoredCassette,
    ws: Seq<Writer>,
    merged: bool,
) -> bool {
    let id = s.meta.id@;
    match find_id(cs, id) {
        Some(k) => {
            &&& first_with_id(cs, id, k)
            &&& if cs[k].dirty {
                !merged && ncs == cs
            } else {
                &&& merged
                &&& ncs.len() == cs.len()
                &&& forall|q: int| 0 <= q < cs.len() && q != k ==> ncs[q] == cs[q]
                &&& lands(ncs[k], s, ws)
                &&& !ncs[k].dirty
            }
        },
        None => {
            &&& unknown(cs, id)
            &&& if s.meta.status == Status::Open && count_open(cs) >= MAX_CASSETTES {
                !merged && ncs == cs
            } else {
                &&& merged
                &&& ncs.len() == cs.len() + 1
                &&& forall|q: int| 0 <= q < cs.len() ==> ncs[q] == cs[q]
                &&& lands(ncs[cs.len() as int], s, ws)
                &&& !ncs[cs.len() as int].dirty
            }
        },
    }
}

/// Merge one moved cassette `s` into the editor. A cassette already on
/// screen (the first with its id) is updated in place unless it holds
/// unsaved edits; a newcomer joins at the end unless it is open and the open
/// cassettes are already at the cap. Either way the merged cassette takes
/// the stored priority and status. Returns whether anything was merged.
fn merge_one(app: &mut App, s: &StoredCassette, writers: &[Writer]) -> (merged: bool)
    requires
        old(app).layout_ok(),
    ensures
        merge_frame(*old(app), *final(app)),
        merged_one(old(app).cassettes@, final(app).cassettes@, *s, writers@, merged),
{
    let ghost cs = app.cassettes@;
    let ghost id = s.meta.id@;
    let ghost sides = body_sides(s.body@);
    let pos = position_of_id(&app.cassettes, s.meta.id.as_str());
    let at = app.cassettes.len();
    match pos {
        Some(k) => {
            proof {
                lemma_find_id(cs, id, k as int);
            }
            if app.cassettes[k].dirty {
                return false;
            }
        },
        None => {
            proof {
                assert(!exists|i: int| first_with_id(cs, id, i));
            }
            let open = match s.meta.status {
                Status::Open => true,
                Status::Closed => false,
            };
            if open && app.open_count() >= MAX_CASSETTES {
                return false;
            }
        },
    }
    let closed = match s.meta.status {
        Status::Closed => true,
        Status::Open => false,
    };
    let priority = s.meta.priority;
    let incoming = cassette_of(s, writers);
    let ghost inc = incoming;
    proof {
        lemma_trim_trim(sides.0);
        lemma_trim_trim(sides.1);
    }
    app.merge_external(s.meta.id.as_str(), incoming, at);
    let idx = match pos {
        Some(k) => k,
        None => at,
    };
    let ghost before = app.cassettes@[idx as int];
    app.cassettes[idx].priority = priority;
    app.cassettes[idx].closed = closed;
    proof {
        let c = app.cassettes@[idx as int];
        assert(c == Cassette { priority, closed, ..before });
        assert(loaded_from(inc, *s, writers@));
        if pos is Some {
            let ex = cs[idx as int];
            if unchanged_content(ex, inc) {
                assert(before == Cassette { locked_by: inc.locked_by, ..ex });
            } else {
                assert(merged_from(ex, inc, id, before));
            }
        }
    }
    true
}

/// The stored cassette `s` is one to merge: its file moved, and it is not
/// the cassette this process holds.
pub open spec fn eligible(s: StoredCassette, changed: Seq<Seq<char>>, held: Option<Seq<char>>) -> bool {
    changed.contains(s.meta.id@) && held != Some(s.meta.id@)
}

/// Some stored cassette to merge carries the id `id`.
pub open spec fn targeted(
    scan: Seq<StoredCassette>,
    changed: Seq<Seq<char>>,
    held: Option<Seq<char>>,
    id: Seq<char>,
) -> bool {
    exists|j: int|
        0 <= j < scan.len() && eligible(scan[j], changed, held) && #[trigger] scan[j].meta.id@ == id
}

/// No other stored cassette of `scan` has the id of the `j`-th.
pub open spec fn sole(scan: Seq<StoredCassette>, j: int) -> bool {
    forall|k: int| 0 <= k < scan.len() && k != j ==> #[trigger] scan[k].meta.id@ != scan[j].meta.id@
}

/// No cassette of `cs` has the id `id`.
pub open spec fn unknown(cs: Seq<Cassette>, id: Seq<char>) -> bool {
    forall|k: int| 0 <= k < cs.len() ==> #[trigger] cs[k].id@ != id
}

/// How many of the first `n` stored cassettes are ones to merge.
pub open spec fn n_eligible(
    scan: Seq<StoredCassette>,
    changed: Seq<Seq<char>>,
    held: Option<Seq<char>>,
    n: int,
) -> nat
    decreases n,
{
    if n <= 0 || n > scan.len() {
        0
    } else {
        n_eligible(scan, changed, held, n - 1) + if eligible(scan[n - 1], changed, held) {
            1nat
        } else {
            0nat
        }
    }
}

proof fn lemma_n_eligible_mono(
    scan: Seq<StoredCassette>,
    changed: Seq<Seq<char>>,
    held: Option<Seq<char>>,
    i: int,
    n: int,
)
    requires
        0 <= i <= n <= scan.len(),
    ensures
        n_eligible(scan, changed, held, i) <= n_eligible(scan, changed, held, n),
    decreases n - i,
{
    if i < n {
        lemma_n_eligible_mono(scan, changed, held, i, n - 1);
    }
}

/// Replacing one cassette moves the open count by at most one, and never
/// down when the replacement is open.
proof fn lemma_count_open_update(s: Seq<Cassette>, i: int, c: Cassette)
    requires
        0 <= i < s.len(),
    ensures
        count_open(s.update(i, c)) <= count_open(s) + 1,
        !c.closed ==> count_open(s.update(i, c)) >= count_open(s),
{
    lemma_count_open_remove(s, i);
    lemma_count_open_remove(s.update(i, c), i);
    assert(s.update(i, c).remove(i) =~= s.remove(i));
}

/// Whether `changed` lists `id`.
fn lists_id(changed: &[String], id: &str) -> (r: bool)
    ensures
        r == changed@.map_values(|x: String| x@).contains(id@),
{
    let ghost chg = changed@.map_values(|x: String| x@);
    let mut i: usize = 0;
    while i < changed.len()
        invariant
            i <= changed@.len(),
            chg == changed@.map_values(|x: String| x@),
            forall|k: int| 0 <= k < i ==> chg[k] != id@,
        decreases changed@.len() - i,
    {
        if str_eq(changed[i].as_str(), id) {
            assert(chg[i as int] == id@);
            return true;
        }
        i = i + 1;
    }
    false
}

/// What the merge pass keeps true after the first `i` stored cassettes:
/// the cassettes that were on screen keep their ids and unsaved-edit marks
/// in place, those no merge may touch are unchanged, every newcomer came
/// from one of the first `i`, the ones merged so far landed, and the open
/// count grew by at most one per cassette to merge.
pub open spec fn merge_inv(
    o: Seq<Cassette>,
    cur: Seq<Cassette>,
    sc: Seq<StoredCassette>,
    chg: Seq<Seq<char>>,
    h: Option<Seq<char>>,
    i: int,
    ws: Seq<Writer>,
    total: nat,
) -> bool {
    &&& cur.len() >= o.len()
    &&& forall|k: int|
        0 <= k < o.len() ==> (#[trigger] cur[k]).id@ == o[k].id@ && cur[k].dirty == o[k].dirty
    &&& forall|k: int|
        0 <= k < o.len() && !(first_with_id(o, o[k].id@, k) && !o[k].dirty && targeted(
            sc,
            chg,
            h,
            o[k].id@,
        )) ==> #[trigger] cur[k] == o[k]
    &&& forall|p: int|
        o.len() <= p < cur.len() ==> exists|j: int|
            0 <= j < i && #[trigger] sc[j].meta.id@ == (#[trigger] cur[p]).id@
    &&& forall|j: int, k: int|
        #![trigger first_with_id(o, sc[j].meta.id@, k)]
        0 <= j < i && eligible(sc[j], chg, h) && sole(sc, j) && first_with_id(
            o,
            sc[j].meta.id@,
            k,
        ) && !o[k].dirty ==> lands(cur[k], sc[j], ws)
    &&& forall|j: int|
        0 <= j < i && eligible(#[trigger] sc[j], chg, h) && sole(sc, j) && unknown(
            o,
            sc[j].meta.id@,
        ) && (sc[j].meta.status == Status::Closed || count_open(o) + total < MAX_CASSETTES)
            ==> exists|p: int| o.len() <= p < cur.len() && lands(#[trigger] cur[p], sc[j], ws)
    &&& count_open(cur) <= count_open(o) + n_eligible(sc, chg, h, i)
}

/// The open cassettes were at the cap before the merge pass and every
/// cassette to merge is open.
pub open spec fn at_cap(
    o: Seq<Cassette>,
    sc: Seq<StoredCassette>,
    chg: Seq<Seq<char>>,
    h: Option<Seq<char>>,
) -> bool {
    &&& count_open(o) >= MAX_CASSETTES
    &&& forall|j: int|
        0 <= j < sc.len() && eligible(#[trigger] sc[j], chg, h) ==> sc[j].meta.status
            == Status::Open
}

proof fn lemma_first_in_prefix(o: Seq<Cassette>, cur: Seq<Cassette>, id: Seq<char>, k: int)
    requires
        cur.len() >= o.len(),
        forall|q: int| 0 <= q < o.len() ==> (#[trigger] cur[q]).id@ == o[q].id@,
        0 <= k < o.len(),
    ensures
        first_with_id(o, id, k) == first_with_id(cur, id, k),
{
    if first_with_id(o, id, k) {
        assert forall|q: int| 0 <= q < k implies (#[trigger] cur[q]).id@ != id by {
            assert(o[q].id@ != id);
        }
    }
    if first_with_id(cur, id, k) {
        assert forall|q: int| 0 <= q < k implies (#[trigger] o[q]).id@ != id by {
            assert(cur[q].id@ != id);
        }
    }
}

proof fn lemma_first_unique(s: Seq<Cassette>, id: Seq<char>, a: int, b: int)
    requires
        first_with_id(s, id, a),
        first_with_id(s, id, b),
    ensures
        a == b,
{
    if a < b {
        assert(s[a].id@ != id);
    } else if b < a {
        assert(s[b].id@ != id);
    }
}

/// A stored cassette that is not one to merge leaves the merge pass's
/// bookkeeping true one step further.
proof fn lemma_skip(
    o: Seq<Cassette>,
    cur: Seq<Cassette>,
    sc: Seq<StoredCassette>,
    chg: Seq<Seq<char>>,
    h: Option<Seq<char>>,
    i: int,
    ws: Seq<Writer>,
    total: nat,
)
    requires
        0 <= i < sc.len(),
        merge_inv(o, cur, sc, chg, h, i, ws, total),
        !eligible(sc[i], chg, h),
    ensures
        merge_inv(o, cur, sc, chg, h, i + 1, ws, total),
{
    assert forall|p: int| o.len() <= p < cur.len() implies exists|j: int|
        0 <= j < i + 1 && #[trigger] sc[j].meta.id@ == (#[trigger] cur[p]).id@ by {
        let j = choose|j: int| 0 <= j < i && #[trigger] sc[j].meta.id@ == (#[trigger] cur[p]).id@;
        assert(sc[j].meta.id@ == cur[p].id@);
    }
}

/// Merging the `i`-th stored cassette, one to merge, keeps the merge pass's
/// bookkeeping true one step further.
#[verifier::rlimit(40)]
proof fn lemma_step(
    o: Seq<Cassette>,
    cur: Seq<Cassette>,
    new: Seq<Cassette>,
    sc: Seq<StoredCassette>,
    chg: Seq<Seq<char>>,
    h: Option<Seq<char>>,
    i: int,
    ws: Seq<Writer>,
    total: nat,
    merged: bool,
)
    requires
        0 <= i < sc.len(),
        total == n_eligible(sc, chg, h, sc.len() as int),
        merge_inv(o, cur, sc, chg, h, i, ws, total),
        at_cap(o, sc, chg, h) ==> cur.len() == o.len() && count_open(cur) >= MAX_CASSETTES,
        eligible(sc[i], chg, h),
        merged_one(cur, new, sc[i], ws, merged),
    ensures
        merge_inv(o, new, sc, chg, h, i + 1, ws, total),
        at_cap(o, sc, chg, h) ==> new.len() == o.len() && count_open(new) >= MAX_CASSETTES,
        !merged ==> new == cur,
{
    let s = sc[i];
    let id = s.meta.id@;
    lemma_n_eligible_mono(sc, chg, h, i + 1, sc.len() as int);
    assert(n_eligible(sc, chg, h, i + 1) == n_eligible(sc, chg, h, i) + 1);
    assert(targeted(sc, chg, h, id));
    // A newcomer already on screen came from an earlier stored cassette, so
    // a sole one has no copy beyond the cassettes that were there before.
    assert forall|p: int| o.len() <= p < cur.len() && sole(sc, i) implies (#[trigger] cur[p]).id@
        != id by {
        let j = choose|j: int| 0 <= j < i && #[trigger] sc[j].meta.id@ == (#[trigger] cur[p]).id@;
        assert(sc[j].meta.id@ == cur[p].id@);
    }
    match find_id(cur, id) {
        Some(k0) => {
            if cur[k0].dirty {
                assert forall|j: int, k: int|
                    #![trigger first_with_id(o, sc[j].meta.id@, k)]
                    0 <= j < i + 1 && eligible(sc[j], chg, h) && sole(sc, j) && first_with_id(
                        o,
                        sc[j].meta.id@,
                        k,
                    ) && !o[k].dirty implies lands(new[k], sc[j], ws) by {
                    if j == i {
                        lemma_first_in_prefix(o, cur, id, k);
                        lemma_first_unique(cur, id, k, k0);
                    }
                }
                assert forall|j: int|
                    0 <= j < i + 1 && eligible(#[trigger] sc[j], chg, h) && sole(sc, j) && unknown(
                        o,
                        sc[j].meta.id@,
                    ) && (sc[j].meta.status == Status::Closed || count_open(o) + total
                        < MAX_CASSETTES) implies exists|p: int|
                        o.len() <= p < new.len() && lands(#[trigger] new[p], sc[j], ws) by {
                    if j == i {
                        if k0 < o.len() {
                            assert(o[k0].id@ == id);
                        }
                    }
                }
                assert forall|p: int| o.len() <= p < new.len() implies exists|j: int|
                    0 <= j < i + 1 && #[trigger] sc[j].meta.id@ == (#[trigger] new[p]).id@ by {
                    let j = choose|j: int|
                        0 <= j < i && #[trigger] sc[j].meta.id@ == (#[trigger] cur[p]).id@;
                    assert(sc[j].meta.id@ == new[p].id@);
                }
            } else {
                if k0 < o.len() {
                    lemma_first_in_prefix(o, cur, id, k0);
                }
                lemma_count_open_update(cur, k0, new[k0]);
                assert(new =~= cur.update(k0, new[k0]));
                assert forall|k: int|
                    0 <= k < o.len() && !(first_with_id(o, o[k].id@, k) && !o[k].dirty && targeted(
                        sc,
                        chg,
                        h,
                        o[k].id@,
                    )) implies #[trigger] new[k] == o[k] by {
                    if k == k0 {
                        assert(o[k].id@ == id);
                    }
                }
                assert forall|p: int| o.len() <= p < new.len() implies exists|j: int|
                    0 <= j < i + 1 && #[trigger] sc[j].meta.id@ == (#[trigger] new[p]).id@ by {
                    if p == k0 {
                        assert(sc[i].meta.id@ == new[p].id@);
                    } else {
                        let j = choose|j: int|
                            0 <= j < i && #[trigger] sc[j].meta.id@ == (#[trigger] cur[p]).id@;
                        assert(sc[j].meta.id@ == new[p].id@);
                    }
                }
                assert forall|j: int, k: int|
                    #![trigger first_with_id(o, sc[j].meta.id@, k)]
                    0 <= j < i + 1 && eligible(sc[j], chg, h) && sole(sc, j) && first_with_id(
                        o,
                        sc[j].meta.id@,
                        k,
                    ) && !o[k].dirty implies lands(new[k], sc[j], ws) by {
                    lemma_first_in_prefix(o, cur, sc[j].meta.id@, k);
                    if j == i {
                        lemma_first_unique(cur, id, k, k0);
                    } else {
                        assert(sc[j].meta.id@ != sc[i].meta.id@);
                        assert(cur[k].id@ == sc[j].meta.id@);
                    }
                }
                assert forall|j: int|
                    0 <= j < i + 1 && eligible(#[trigger] sc[j], chg, h) && sole(sc, j) && unknown(
                        o,
                        sc[j].meta.id@,
                    ) && (sc[j].meta.status == Status::Closed || count_open(o) + total
                        < MAX_CASSETTES) implies exists|p: int|
                        o.len() <= p < new.len() && lands(#[trigger] new[p], sc[j], ws) by {
                    if j == i {
                        if k0 < o.len() {
                            assert(o[k0].id@ == id);
                        }
                    } else {
                        let p = choose|p: int|
                            o.len() <= p < cur.len() && lands(#[trigger] cur[p], sc[j], ws);
                        assert(sc[j].meta.id@ != sc[i].meta.id@);
                        assert(p != k0);
                        assert(lands(new[p], sc[j], ws));
                    }
                }
            }
        },
        None => {
            if s.meta.status == Status::Open && count_open(cur) >= MAX_CASSETTES {
                assert forall|j: int, k: int|
                    #![trigger first_with_id(o, sc[j].meta.id@, k)]
                    0 <= j < i + 1 && eligible(sc[j], chg, h) && sole(sc, j) && first_with_id(
                        o,
                        sc[j].meta.id@,
                        k,
                    ) && !o[k].dirty implies lands(new[k], sc[j], ws) by {
                    if j == i {
                        assert(cur[k].id@ == o[k].id@);
                    }
                }
                assert forall|p: int| o.len() <= p < new.len() implies exists|j: int|
                    0 <= j < i + 1 && #[trigger] sc[j].meta.id@ == (#[trigger] new[p]).id@ by {
                    let j = choose|j: int|
                        0 <= j < i && #[trigger] sc[j].meta.id@ == (#[trigger] cur[p]).id@;
                    assert(sc[j].meta.id@ == new[p].id@);
                }
            } else {
                let x = new[cur.len() as int];
                assert(new =~= cur.push(x));
                lemma_count_open_push(cur, x);
                assert forall|p: int| o.len() <= p < new.len() implies exists|j: int|
                    0 <= j < i + 1 && #[trigger] sc[j].meta.id@ == (#[trigger] new[p]).id@ by {
                    if p == cur.len() {
                        assert(sc[i].meta.id@ == new[p].id@);
                    } else {
                        let j = choose|j: int|
                            0 <= j < i && #[trigger] sc[j].meta.id@ == (#[trigger] cur[p]).id@;
                        assert(sc[j].meta.id@ == new[p].id@);
                    }
                }
                assert forall|j: int, k: int|
                    #![trigger first_with_id(o, sc[j].meta.id@, k)]
                    0 <= j < i + 1 && eligible(sc[j], chg, h) && sole(sc, j) && first_with_id(
                        o,
                        sc[j].meta.id@,
                        k,
                    ) && !o[k].dirty implies lands(new[k], sc[j], ws) by {
                    if j == i {
                        assert(cur[k].id@ == o[k].id@);
                    }
                }
                assert forall|j: int|
                    0 <= j < i + 1 && eligible(#[trigger] sc[j], chg, h) && sole(sc, j) && unknown(
                        o,
                        sc[j].meta.id@,
                    ) && (sc[j].meta.status == Status::Closed || count_open(o) + total
                        < MAX_CASSETTES) implies exists|p: int|
                        o.len() <= p < new.len() && lands(#[trigger] new[p], sc[j], ws) by {
                    if j == i {
                        assert(lands(new[cur.len() as int], sc[j], ws));
                    } else {
                        let p = choose|p: int|
                            o.len() <= p < cur.len() && lands(#[trigger] cur[p], sc[j], ws);
                        assert(lands(new[p], sc[j], ws));
                    }
                }
            }
        },
    }
}

/// What the merge pass promises of its result `f`, which holds the merged
/// cassettes `cur`, perhaps in another order.
pub open spec fn merge_result(
    o: Seq<Cassette>,
    f: Seq<Cassette>,
    sc: Seq<StoredCassette>,
    chg: Seq<Seq<char>>,
    h: Option<Seq<char>>,
    ws: Seq<Writer>,
) -> bool {
    let total = n_eligible(sc, chg, h, sc.len() as int);
    &&& forall|k: int|
        0 <= k < o.len() && !(first_with_id(o, o[k].id@, k) && !o[k].dirty && targeted(
            sc,
            chg,
            h,
            o[k].id@,
        )) ==> f.contains(#[trigger] o[k])
    &&& forall|j: int, k: int|
        #![trigger first_with_id(o, sc[j].meta.id@, k)]
        0 <= j < sc.len() && eligible(sc[j], chg, h) && sole(sc, j) && first_with_id(
            o,
            sc[j].meta.id@,
            k,
        ) && !o[k].dirty ==> exists|p: int| 0 <= p < f.len() && lands(#[trigger] f[p], sc[j], ws)
    &&& forall|j: int|
        0 <= j < sc.len() && eligible(#[trigger] sc[j], chg, h) && sole(sc, j) && unknown(
            o,
            sc[j].meta.id@,
        ) && (sc[j].meta.status == Status::Closed || count_open(o) + total < MAX_CASSETTES)
            ==> exists|p: int| 0 <= p < f.len() && lands(#[trigger] f[p], sc[j], ws)
    &&& at_cap(o, sc, chg, h) ==> f.len() == o.len()
}

proof fn lemma_finish(
    o: Seq<Cassette>,
    cur: Seq<Cassette>,
    f: Seq<Cassette>,
    sc: Seq<StoredCassette>,
    chg: Seq<Seq<char>>,
    h: Option<Seq<char>>,
    ws: Seq<Writer>,
)
    requires
        merge_inv(o, cur, sc, chg, h, sc.len() as int, ws, n_eligible(sc, chg, h, sc.len() as int)),
        at_cap(o, sc, chg, h) ==> cur.len() == o.len(),
        f.to_multiset() == cur.to_multiset(),
    ensures
        merge_result(o, f, sc, chg, h, ws),
{
    broadcast use vstd::seq_lib::group_to_multiset_ensures;

    let total = n_eligible(sc, chg, h, sc.len() as int);
    assert forall|x: Cassette| cur.contains(x) implies f.contains(x) by {
        vstd::seq_lib::to_multiset_contains(cur, x);
        vstd::seq_lib::to_multiset_contains(f, x);
    }
    assert forall|k: int|
        0 <= k < o.len() && !(first_with_id(o, o[k].id@, k) && !o[k].dirty && targeted(
            sc,
            chg,
            h,
            o[k].id@,
        )) implies f.contains(#[trigger] o[k]) by {
        assert(cur[k] == o[k]);
        assert(cur.contains(cur[k]));
    }
    assert forall|j: int, k: int|
        #![trigger first_with_id(o, sc[j].meta.id@, k)]
        0 <= j < sc.len() && eligible(sc[j], chg, h) && sole(sc, j) && first_with_id(
            o,
            sc[j].meta.id@,
            k,
        ) && !o[k].dirty implies exists|p: int|
        0 <= p < f.len() && lands(#[trigger] f[p], sc[j], ws) by {
        assert(lands(cur[k], sc[j], ws));
        assert(cur.contains(cur[k]));
        let p = choose|p: int| 0 <= p < f.len() && f[p] == cur[k];
        assert(lands(f[p], sc[j], ws));
    }
    assert forall|j: int|
        0 <= j < sc.len() && eligible(#[trigger] sc[j], chg, h) && sole(sc, j) && unknown(
            o,
            sc[j].meta.id@,
        ) && (sc[j].meta.status == Status::Closed || count_open(o) + total < MAX_CASSETTES)
        implies exists|p: int| 0 <= p < f.len() && lands(#[trigger] f[p], sc[j], ws) by {
        let q = choose|q: int| o.len() <= q < cur.len() && lands(#[trigger] cur[q], sc[j], ws);
        assert(cur.contains(cur[q]));
        let p = choose|p: int| 0 <= p < f.len() && f[p] == cur[q];
        assert(lands(f[p], sc[j], ws));
    }
    assert(f.len() == f.to_multiset().len());
    assert(cur.len() == cur.to_multiset().len());
}

/// The merge pass: every stored cassette of the session's scan whose file
/// moved (`changed`, from the stat pass) and that this process does not
/// hold is merged into the editor (see `merge_one`), and the queue is
/// re-sorted if anything was merged. `writers` names the holders of sticky
/// locks.
///
/// - A cassette on screen is left exactly as it was unless a moved stored
///   cassette carries its id, it is the first on screen with that id, and
///   it holds no unsaved edits.
/// - A moved cassette that is the only one with its id in the scan lands on
///   screen when its id was already there (and the first cassette with that
///   id holds no unsaved edits), and, as a newcomer, when it is closed or
///   when the open cassettes could not reach the cap even if every moved
///   one joined them.
/// - With the open cassettes already at the cap and every moved cassette
///   open, no newcomer joins.
/// - The focused cassette stays focused, and the queue is in order unless
///   nothing changed.
pub fn merge_moved(
    app: &mut App,
    scan: &Vec<StoredCassette>,
    changed: &[String],
    held: Option<&str>,
    writers: &[Writer],
)
    requires
        old(app).layout_ok(),
    ensures
        merge_frame(*old(app), *final(app)),
        merge_result(
            old(app).cassettes@,
            final(app).cassettes@,
            scan@,
            changed@.map_values(|x: String| x@),
            opt_str(held),
            writers@,
        ),
        final(app).cassettes@ == old(app).cassettes@ || crate::app::queue_sorted(
            final(app).cassettes@,
        ),
{
    let ghost oa = *app;
    let ghost o = app.cassettes@;
    let ghost chg = changed@.map_values(|x: String| x@);
    let ghost h = opt_str(held);
    let ghost sc = scan@;
    let ghost total = n_eligible(sc, chg, h, sc.len() as int);
    let mut merged_any = false;
    let mut i: usize = 0;
    while i < scan.len()
        invariant
            i <= sc.len(),
            sc == scan@,
            chg == changed@.map_values(|x: String| x@),
            h == opt_str(held),
            total == n_eligible(sc, chg, h, sc.len() as int),
            o == oa.cassettes@,
            oa.layout_ok(),
            app.layout_ok(),
            merge_frame(oa, *app),
            !merged_any ==> app.cassettes@ == o,
            merge_inv(o, app.cassettes@, sc, chg, h, i as int, writers@, total),
            at_cap(o, sc, chg, h) ==> app.cassettes@.len() == o.len() && count_open(app.cassettes@)
                >= MAX_CASSETTES,
        decreases sc.len() - i,
    {
        let s = &scan[i];
        let ghost cur = app.cassettes@;
        let listed = lists_id(changed, s.meta.id.as_str());
        let is_held = match held {
            Some(hd) => str_eq(hd, s.meta.id.as_str()),
            None => false,
        };
        if listed && !is_held {
            assert(eligible(sc[i as int], chg, h));
            let m = merge_one(app, s, writers);
            if m {
                merged_any = true;
            }
            proof {
                lemma_step(o, cur, app.cassettes@, sc, chg, h, i as int, writers@, total, m);
            }
        } else {
            proof {
                assert(!eligible(sc[i as int], chg, h));
                lemma_skip(o, cur, sc, chg, h, i as int, writers@, total);
            }
        }
        i = i + 1;
    }
    let ghost cur = app.cassettes@;
    if merged_any {
        app.sort_queue();
    }
    proof {
        lemma_finish(o, cur, app.cassettes@, sc, chg, h, writers@);
    }
}

} // verus!

//! What the editor decides when it writes a store session: re-reading a
//! cassette whose lock it just won, what a flush writes back, and whether
//! the store agrees a session it created holds nothing.

use vstd::prelude::*;

use crate::app::{blank, clone_topic, opt_str_eq, opt_view, position_of_id, App};
use crate::cassette::Cassette;
use crate::output::cassette_body;
use crate::queue::json::{body_sides, split_sides};
use crate::queue::write::body_of;
use crate::resume::{cassette_of, display_name, loaded_from, lock_name};
use crate::store::{CassetteMeta, SessionScan, StoredCassette, Writer};
use crate::sync::unknown;
use crate::text::{is_blank, owned, trim, trimmed_eq};

verus! {

/// The file `s` holds what the cassette `c` already shows: the same sides
/// (up to surrounding whitespace) and the same topic.
pub open spec fn same_on_disk(c: Cassette, s: StoredCassette) -> bool {
    let sides = body_sides(s.body@);
    &&& trim(sides.0) == trim(c.side_a_seq())
    &&& trim(sides.1) == trim(c.side_b_seq())
    &&& opt_view(s.meta.topic) == opt_view(c.topic)
}

/// `n` is the cassette `c` re-read from its file `s` (see
/// `refresh_from_disk`).
pub open spec fn refreshed(c: Cassette, n: Cassette, s: StoredCassette, ws: Seq<Writer>) -> bool {
    if c.dirty {
        n == c
    } else if same_on_disk(c, s) {
        &&& n == (Cassette { locked_by: n.locked_by, ..c })
        &&& opt_view(n.locked_by) == lock_name(ws, s.meta.locked_by)
    } else {
        &&& n.id == c.id
        &&& loaded_from(Cassette { id: s.meta.id, ..n }, s, ws)
    }
}

/// Re-read `app.cassettes[idx]` from `stored`, its file as read under the
/// lock just won, so that nothing stale is written back through that lock.
/// A cassette with unsaved edits is left alone. When the file holds what
/// the cassette shows, only the sticky lock's holder is taken from it, so
/// the cursor, the undo history and the active side survive; otherwise the
/// cassette is rebuilt from the file as a loaded one is (keeping its id).
/// `writers` names the holder of a sticky lock.
pub fn refresh_from_disk(app: &mut App, idx: usize, stored: &StoredCassette, writers: &[Writer])
    ensures
        *final(app) == (App { cassettes: final(app).cassettes, ..*old(app) }),
        ({
            let o = old(app).cassettes@;
            let n = final(app).cassettes@;
            &&& n.len() == o.len()
            &&& forall|k: int| 0 <= k < o.len() && k != idx ==> n[k] == o[k]
            &&& idx < o.len() ==> refreshed(o[idx as int], n[idx as int], *stored, writers@)
        }),
{
    if idx >= app.cassettes.len() {
        return ;
    }
    if app.cassettes[idx].dirty {
        return ;
    }
    let (a, b) = split_sides(stored.body.as_str());
    let same = {
        let c = &app.cassettes[idx];
        let ca = c.side_a_text();
        let cb = c.side_b_text();
        trimmed_eq(a.as_str(), ca.as_str()) && trimmed_eq(b.as_str(), cb.as_str()) && opt_str_eq(
            &stored.meta.topic,
            &c.topic,
        )
    };
    if same {
        let locked_by = match &stored.meta.locked_by {
            Some(id) => Some(display_name(writers, id.as_str())),
            None => None,
        };
        app.cassettes[idx].locked_by = locked_by;
        return ;
    }
    let id = app.cassettes[idx].id.clone();
    let mut fresh = cassette_of(stored, writers);
    fresh.id = id;
    app.cassettes.set(idx, fresh);
}

/// What a flush writes for cassette `c`: the frontmatter `meta` re-read
/// under the lock with only the fields the editor owns replaced (the topic,
/// the last writer `writer`, the time `now`), so a priority, status or
/// sticky lock a queue command set meanwhile survives; and the body built
/// from the cassette's two sides.
pub fn flush_record(meta: CassetteMeta, c: &Cassette, writer: &str, now: String) -> (r: (
    CassetteMeta,
    String,
))
    ensures
        r.0 == (CassetteMeta { topic: c.topic, last_writer: r.0.last_writer, updated_at: now, ..meta }),
        r.0.last_writer@ == writer@,
        r.1@ == body_of(c.side_a_seq(), c.side_b_seq()),
{
    let mut m = meta;
    m.topic = clone_topic(&c.topic);
    m.last_writer = owned(writer);
    m.updated_at = now;
    (m, cassette_body(c))
}

/// A stored cassette with no text on either side.
pub open spec fn blank_stored(s: StoredCassette) -> bool {
    let sides = body_sides(s.body@);
    trim(sides.0).len() == 0 && trim(sides.1).len() == 0
}

/// The store agrees the session holds nothing: no damaged file, every
/// cassette blank and one the editor knows (`cs`), and no lock anchor held
/// (`anchors_free`, checked by the caller; any failure to check counts as
/// held).
pub open spec fn holds_nothing(scan: SessionScan, cs: Seq<Cassette>, anchors_free: bool) -> bool {
    &&& scan.damaged@.len() == 0
    &&& forall|j: int|
        0 <= j < scan.cassettes@.len() ==> blank_stored(#[trigger] scan.cassettes@[j]) && !unknown(
            cs,
            scan.cassettes@[j].meta.id@,
        )
    &&& anchors_free
}

/// Whether the store agrees the session holds nothing (see `holds_nothing`)
/// — what must hold before a session this run created is removed again.
pub fn store_is_empty(scan: &SessionScan, app: &App, anchors_free: bool) -> (r: bool)
    ensures
        r == holds_nothing(*scan, app.cassettes@, anchors_free),
{
    if scan.damaged.len() > 0 {
        return false;
    }
    let mut j: usize = 0;
    while j < scan.cassettes.len()
        invariant
            j <= scan.cassettes@.len(),
            forall|q: int|
                0 <= q < j ==> blank_stored(#[trigger] scan.cassettes@[q]) && !unknown(
                    app.cassettes@,
                    scan.cassettes@[q].meta.id@,
                ),
        decreases scan.cassettes@.len() - j,
    {
        let s = &scan.cassettes[j];
        let (a, b) = split_sides(s.body.as_str());
        if !is_blank(a.as_str()) || !is_blank(b.as_str()) {
            return false;
        }
        match position_of_id(&app.cassettes, s.meta.id.as_str()) {
            Some(k) => {
                assert(app.cassettes@[k as int].id@ == s.meta.id@);
            },
            None => {
                return false;
            },
        }
        j = j + 1;
    }
    anchors_free
}

/// Whether finishing removes the session again, so that a session with no
/// words leaves no trace: only one this run created (`created_here`), with
/// nothing written on any side of any cassette on screen, and that the
/// store agrees holds nothing (see `holds_nothing`).
pub fn removes_session(created_here: bool, app: &App, scan: &SessionScan, anchors_free: bool) -> (r:
    bool)
    ensures
        r == (created_here && (forall|i: int|
            0 <= i < app.cassettes@.len() ==> blank(#[trigger] app.cassettes@[i])) && holds_nothing(
            *scan,
            app.cassettes@,
            anchors_free,
        )),
{
    created_here && app.is_empty() && store_is_empty(scan, app, anchors_free)
}

} // verus!

//! The decisions of the queue's editing commands: where a new or moved
//! cassette goes, when the open-cassette cap is reached, who may close a
//! claimed cassette, and how a failed lock is reported.

use vstd::prelude::*;

use crate::priority::{ascending, between, between_spec, sort_ascending, STEP};
use crate::queue::{is_error, QueueError};
use crate::app::clone_topic;
use crate::store::{Attribution, CassetteMeta, Kind, LockError, Status, StoredCassette};
use crate::text::{chars_of, dec_int, owned, push_i64, push_str, str_eq};

verus! {

/// Where a new cassette lands in the queue.
#[derive(Clone, Copy, Debug, PartialEq, Eq, Structural)]
pub enum Placement {
    /// Head of the queue.
    First,
    /// Tail of the queue — the default. An agent adding work cannot jump
    /// the human's line.
    Last,
    /// An exact sparse priority, validated positive.
    Explicit(i64),
}

/// `"--priority must be a positive integer, got {n}"`
pub open spec fn bad_priority_message(n: i64) -> Seq<char> {
    "--priority must be a positive integer, got "@ + dec_int(n as int)
}

/// Reject a non-positive priority: a stored `0` or negative priority would
/// be a value the placement rules cannot reason about.
pub fn validate_priority(n: i64) -> (r: Result<i64, QueueError>)
    ensures
        n > 0 ==> r == Ok::<i64, QueueError>(n),
        n <= 0 ==> (r matches Err(QueueError::Usage(m)) && m@ == bad_priority_message(n)),
{
    if n <= 0 {
        let mut m = owned("--priority must be a positive integer, got ");
        push_i64(&mut m, n);
        Err(QueueError::Usage(m))
    } else {
        Ok(n)
    }
}

/// Number of open cassettes among `statuses`.
pub open spec fn open_statuses(s: Seq<Status>) -> nat
    decreases s.len(),
{
    if s.len() == 0 {
        0
    } else {
        open_statuses(s.drop_last()) + if s.last() == Status::Open {
            1nat
        } else {
            0nat
        }
    }
}

/// Whether a session already holds `max_open` open cassettes. Closed
/// cassettes never count toward the cap.
pub fn is_full(statuses: &[Status], max_open: usize) -> (full: bool)
    ensures
        full == (open_statuses(statuses@) >= max_open),
{
    let mut n: usize = 0;
    let mut i: usize = 0;
    while i < statuses.len()
        invariant
            i <= statuses.len(),
            n == open_statuses(statuses@.take(i as int)),
            n <= i,
        decreases statuses.len() - i,
    {
        assert(statuses@.take(i + 1).drop_last() =~= statuses@.take(i as int));
        if statuses[i] == Status::Open {
            n = n + 1;
        }
        i = i + 1;
    }
    assert(statuses@.take(i as int) =~= statuses@);
    n >= max_open
}

/// The anchor a moved cassette lands next to, and on which side.
#[derive(Clone, Debug, PartialEq, Eq)]
pub enum MoveAnchor {
    Before(String),
    After(String),
}

/// Which side of the anchor a moved cassette lands on.
#[derive(Clone, Copy, Debug, PartialEq, Eq, Structural)]
pub enum MoveSide {
    Before,
    After,
}

impl MoveAnchor {
    /// The anchor cassette's id, regardless of side.
    pub fn id(&self) -> (id: &str)
        ensures
            id@ == match *self {
                MoveAnchor::Before(s) => s@,
                MoveAnchor::After(s) => s@,
            },
    {
        match self {
            MoveAnchor::Before(id) => id.as_str(),
            MoveAnchor::After(id) => id.as_str(),
        }
    }

    /// The side alone, with the id stripped off.
    pub fn side(&self) -> (s: MoveSide)
        ensures
            s == match *self {
                MoveAnchor::Before(_) => MoveSide::Before,
                MoveAnchor::After(_) => MoveSide::After,
            },
    {
        match self {
            MoveAnchor::Before(_) => MoveSide::Before,
            MoveAnchor::After(_) => MoveSide::After,
        }
    }
}

/// Index of the first `x` in `s` at or after `i`, or the length when there
/// is none.
pub open spec fn first_at(s: Seq<i64>, x: i64, i: int) -> int
    decreases s.len() - i,
{
    if i < 0 || i >= s.len() {
        s.len() as int
    } else if s[i] == x {
        i
    } else {
        first_at(s, x, i + 1)
    }
}

/// The priority a cassette gets landing on `side` of the anchor whose
/// priority is `anchor`, among the open priorities `open` (ascending): the
/// midpoint with the neighbour on that side; past the head, a step below the
/// anchor or, when that would not stay positive, half of it; past the tail,
/// a step above. `None` when there is no room (renumber and retry) or the
/// anchor is not among `open`.
pub open spec fn target_spec(open: Seq<i64>, anchor: i64, side: MoveSide) -> Option<i64> {
    let pos = first_at(open, anchor, 0);
    if pos >= open.len() {
        None
    } else {
        match side {
            MoveSide::Before => if pos > 0 {
                between_spec(open[pos - 1], anchor)
            } else if anchor > STEP {
                Some((anchor - STEP) as i64)
            } else if anchor >= 2 {
                Some((anchor / 2) as i64)
            } else {
                None
            },
            MoveSide::After => if pos + 1 < open.len() {
                between_spec(anchor, open[pos + 1])
            } else if anchor <= i64::MAX - STEP {
                Some((anchor + STEP) as i64)
            } else {
                None
            },
        }
    }
}

/// Placement arithmetic for moving a cassette next to an anchor (see
/// `target_spec`).
pub fn target_priority(sorted_open: &[i64], anchor_priority: i64, side: MoveSide) -> (r: Option<
    i64,
>)
    ensures
        r == target_spec(sorted_open@, anchor_priority, side),
{
    let mut pos: usize = 0;
    while pos < sorted_open.len() && sorted_open[pos] != anchor_priority
        invariant
            pos <= sorted_open.len(),
            first_at(sorted_open@, anchor_priority, 0) == first_at(
                sorted_open@,
                anchor_priority,
                pos as int,
            ),
        decreases sorted_open.len() - pos,
    {
        pos = pos + 1;
    }
    if pos == sorted_open.len() {
        return None;
    }
    match side {
        MoveSide::Before => {
            if pos > 0 {
                between(sorted_open[pos - 1], anchor_priority)
            } else if anchor_priority > STEP {
                Some(anchor_priority - STEP)
            } else if anchor_priority >= 2 {
                Some(anchor_priority / 2)
            } else {
                None
            }
        },
        MoveSide::After => {
            if pos + 1 < sorted_open.len() {
                between(anchor_priority, sorted_open[pos + 1])
            } else if anchor_priority <= i64::MAX - STEP {
                Some(anchor_priority + STEP)
            } else {
                None
            }
        },
    }
}

/// Index of the first cassette in `cs` at or after `i` whose id is `id`, or
/// the length when there is none.
pub open spec fn meta_index(cs: Seq<StoredCassette>, id: Seq<char>, i: int) -> int
    decreases cs.len() - i,
{
    if i < 0 || i >= cs.len() {
        cs.len() as int
    } else if cs[i].meta.id@ == id {
        i
    } else {
        meta_index(cs, id, i + 1)
    }
}

/// The priorities of the open cassettes among `cs`, in scan order.
pub open spec fn open_priorities(cs: Seq<StoredCassette>) -> Seq<i64>
    decreases cs.len(),
{
    if cs.len() == 0 {
        Seq::empty()
    } else if cs.last().meta.status == Status::Open {
        open_priorities(cs.drop_last()).push(cs.last().meta.priority)
    } else {
        open_priorities(cs.drop_last())
    }
}

/// `"no cassette '{id}' in session '{session}'"`
pub open spec fn no_cassette(id: Seq<char>, session: Seq<char>) -> Seq<char> {
    "no cassette '"@ + id + "' in session '"@ + session + "'"@
}

/// Why the cassette `id` cannot be moved next to the cassette `anchor_id`
/// among the session's cassettes `cs`, if it cannot: each must exist and be
/// open, the moving one checked first.
pub open spec fn move_refusal(
    cs: Seq<StoredCassette>,
    session: Seq<char>,
    id: Seq<char>,
    anchor_id: Seq<char>,
) -> Option<Seq<char>> {
    let m = meta_index(cs, id, 0);
    let a = meta_index(cs, anchor_id, 0);
    if m >= cs.len() {
        Some(no_cassette(id, session))
    } else if cs[m].meta.status != Status::Open {
        Some("'"@ + id + "' is not open — only open cassettes can be moved"@)
    } else if a >= cs.len() {
        Some(no_cassette(anchor_id, session))
    } else if cs[a].meta.status != Status::Open {
        Some("'"@ + anchor_id + "' is not open — can only move relative to an open cassette"@)
    } else {
        None
    }
}

/// The anchor's id, as characters.
pub open spec fn anchor_id(anchor: MoveAnchor) -> Seq<char> {
    match anchor {
        MoveAnchor::Before(s) => s@,
        MoveAnchor::After(s) => s@,
    }
}

/// The side of the anchor.
pub open spec fn anchor_side(anchor: MoveAnchor) -> MoveSide {
    match anchor {
        MoveAnchor::Before(_) => MoveSide::Before,
        MoveAnchor::After(_) => MoveSide::After,
    }
}

/// `meta_index`, computed.
fn find_meta(cs: &[StoredCassette], id: &str) -> (i: usize)
    ensures
        i as int == meta_index(cs@, id@, 0),
        i <= cs.len(),
{
    let mut i: usize = 0;
    while i < cs.len()
        invariant
            i <= cs.len(),
            meta_index(cs@, id@, 0) == meta_index(cs@, id@, i as int),
        decreases cs.len() - i,
    {
        if crate::text::str_eq(cs[i].meta.id.as_str(), id) {
            return i;
        }
        i = i + 1;
    }
    i
}

/// A new priority for the session's cassette `id`, landing next to the
/// anchor, computed from the session's cassettes `cassettes` as scanned:
/// both must be open; the open priorities, in ascending order, go to
/// `target_priority`. `Ok(None)` means there is no room: renumber and try
/// again.
pub fn compute_move_target(
    cassettes: &[StoredCassette],
    session: &str,
    id: &str,
    anchor: &MoveAnchor,
) -> (r: Result<Option<i64>, QueueError>)
    ensures
        match move_refusal(cassettes@, session@, id@, anchor_id(*anchor)) {
            Some(msg) => r matches Err(e) && is_error(e, (2, msg)),
            None => r matches Ok(p) && exists|s: Seq<i64>|
                {
                    &&& ascending(s)
                    &&& s.to_multiset() == open_priorities(cassettes@).to_multiset()
                    &&& p == target_spec(
                        s,
                        cassettes@[meta_index(cassettes@, anchor_id(*anchor), 0)].meta.priority,
                        anchor_side(*anchor),
                    )
                },
        },
{
    let m = find_meta(cassettes, id);
    if m >= cassettes.len() {
        let mut msg = owned("no cassette '");
        push_str(&mut msg, id);
        push_str(&mut msg, "' in session '");
        push_str(&mut msg, session);
        push_str(&mut msg, "'");
        return Err(QueueError::Usage(msg));
    }
    if cassettes[m].meta.status != Status::Open {
        let mut msg = owned("'");
        push_str(&mut msg, id);
        push_str(&mut msg, "' is not open — only open cassettes can be moved");
        return Err(QueueError::Usage(msg));
    }
    let aid = anchor.id();
    let a = find_meta(cassettes, aid);
    if a >= cassettes.len() {
        let mut msg = owned("no cassette '");
        push_str(&mut msg, aid);
        push_str(&mut msg, "' in session '");
        push_str(&mut msg, session);
        push_str(&mut msg, "'");
        return Err(QueueError::Usage(msg));
    }
    if cassettes[a].meta.status != Status::Open {
        let mut msg = owned("'");
        push_str(&mut msg, aid);
        push_str(&mut msg, "' is not open — can only move relative to an open cassette");
        return Err(QueueError::Usage(msg));
    }
    let mut open: Vec<i64> = Vec::new();
    let mut i: usize = 0;
    while i < cassettes.len()
        invariant
            i <= cassettes.len(),
            open@ == open_priorities(cassettes@.take(i as int)),
        decreases cassettes.len() - i,
    {
        assert(cassettes@.take(i + 1).drop_last() =~= cassettes@.take(i as int));
        if cassettes[i].meta.status == Status::Open {
            open.push(cassettes[i].meta.priority);
        }
        i = i + 1;
    }
    assert(cassettes@.take(cassettes.len() as int) =~= cassettes@);
    let ghost unsorted = open@;
    sort_ascending(&mut open);
    let p = target_priority(open.as_slice(), cassettes[a].meta.priority, anchor.side());
    assert(ascending(open@) && open@.to_multiset() == unsorted.to_multiset());
    Ok(p)
}

/// `"cassette is locked by '{holder}' — only a human may close it"`
pub open spec fn close_refusal(holder: Seq<char>) -> Seq<char> {
    "cassette is locked by '"@ + holder + "' — only a human may close it"@
}

/// Whether a writer of `kind` may close a cassette claimed by `locked_by`:
/// an agent may not close over a sticky claim; a human may.
pub fn close_permitted(kind: Kind, locked_by: Option<&str>) -> (r: Result<(), QueueError>)
    ensures
        match locked_by {
            Some(holder) => if kind == Kind::Agent {
                r matches Err(QueueError::Sticky(m)) && m@ == close_refusal(holder@)
            } else {
                r is Ok
            },
            None => r is Ok,
        },
{
    match (kind, locked_by) {
        (Kind::Agent, Some(holder)) => {
            let mut m = owned("cassette is locked by '");
            push_str(&mut m, holder);
            push_str(&mut m, "' — only a human may close it");
            Err(QueueError::Sticky(m))
        },
        _ => Ok(()),
    }
}

/// The close-out message as the trailing blockquote line appended to the
/// body: `"\n> {message}\n"`. A message with a newline would inject a body
/// line that is not a quote, so it is refused.
pub fn close_message_line(message: &str) -> (r: Result<String, QueueError>)
    ensures
        message@.contains('\n') ==> (r matches Err(QueueError::Usage(m)) && m@
            == "-m message must not contain a newline"@),
        !message@.contains('\n') ==> (r matches Ok(line) && line@ == "\n> "@ + message@ + "\n"@),
{
    let v = chars_of(message);
    let mut i: usize = 0;
    while i < v.len()
        invariant
            i <= v.len(),
            v@ == message@,
            forall|k: int| 0 <= k < i ==> v@[k] != '\n',
        decreases v.len() - i,
    {
        if v[i] == '\n' {
            assert(message@[i as int] == '\n');
            return Err(QueueError::Usage(owned("-m message must not contain a newline")));
        }
        i = i + 1;
    }
    let mut line = owned("\n> ");
    push_str(&mut line, message);
    push_str(&mut line, "\n");
    Ok(line)
}

/// How the holder of a busy lock is named: `"{name} (since {since})"` from
/// its attribution, or `"another writer"` when the anchor could not be read.
pub open spec fn holder_text(holder: Option<Attribution>) -> Seq<char> {
    match holder {
        Some(a) => a.name@ + " (since "@ + a.since@ + ")"@,
        None => "another writer"@,
    }
}

/// The queue error a failed lock acquisition deserves, as its exit code
/// and message: contention is `Busy` (3, retry shortly) for everyone,
/// naming the cassette that blocked and who holds it; an unknown cassette is
/// a usage error (2); anything else is `Io` (1).
pub open spec fn lock_failure(id: Seq<char>, e: LockError) -> (int, Seq<char>) {
    match e {
        LockError::Busy { id: held, holder } => (
            3,
            "'"@ + held@ + "' is open by "@ + holder_text(holder) + " — try again later"@,
        ),
        LockError::NoSuchCassette { session, id: missing } => (
            2,
            "no cassette '"@ + missing@ + "' in session '"@ + session@ + "'"@,
        ),
        LockError::Io(m) => (1, "cannot lock '"@ + id + "': "@ + m@),
    }
}

/// Turn a failed lock acquisition into the queue error it deserves (see
/// `lock_failure`).
pub fn lock_error_to_queue_error(id: &str, e: LockError) -> (q: QueueError)
    ensures
        is_error(q, lock_failure(id@, e)),
{
    match e {
        LockError::Busy { id: held, holder } => {
            let mut m = owned("'");
            push_str(&mut m, held.as_str());
            push_str(&mut m, "' is open by ");
            let ghost hd = holder;
            match holder {
                Some(a) => {
                    push_str(&mut m, a.name.as_str());
                    push_str(&mut m, " (since ");
                    push_str(&mut m, a.since.as_str());
                    push_str(&mut m, ")");
                },
                None => push_str(&mut m, "another writer"),
            }
            push_str(&mut m, " — try again later");
            assert(m@ =~= "'"@ + held@ + "' is open by "@ + holder_text(hd) + " — try again later"@);
            QueueError::Busy(m)
        },
        LockError::NoSuchCassette { session, id: missing } => {
            let mut m = owned("no cassette '");
            push_str(&mut m, missing.as_str());
            push_str(&mut m, "' in session '");
            push_str(&mut m, session.as_str());
            push_str(&mut m, "'");
            QueueError::Usage(m)
        },
        LockError::Io(err) => {
            let mut m = owned("cannot lock '");
            push_str(&mut m, id);
            push_str(&mut m, "': ");
            push_str(&mut m, err.as_str());
            QueueError::Io(m)
        },
    }
}

/// A failed lock run taken to renumber `session`: reported as any failed
/// lock is, the `Io` message saying what the run was for.
pub fn renumber_lock_error(session: &str, e: LockError) -> (q: QueueError)
    ensures
        ({
            let base = lock_failure(session@, e);
            if base.0 == 1 {
                q matches QueueError::Io(m) && m@ == "cannot lock session '"@ + session@
                    + "' for renumbering: "@ + base.1
            } else {
                is_error(q, base)
            }
        }),
{
    match lock_error_to_queue_error(session, e) {
        QueueError::Io(m) => {
            let mut out = owned("cannot lock session '");
            push_str(&mut out, session);
            push_str(&mut out, "' for renumbering: ");
            push_str(&mut out, m.as_str());
            QueueError::Io(out)
        },
        other => other,
    }
}

/// `queue move`'s first check, made before anything is read: a cassette
/// cannot move relative to itself (a usage error, exit 2).
pub fn move_self_check(id: &str, anchor: &MoveAnchor) -> (r: Result<(), QueueError>)
    ensures
        (r is Err) == (anchor_id(*anchor) == id@),
        r matches Err(e) ==> is_error(e, (2, "cannot move '"@ + id@ + "' relative to itself"@)),
{
    if str_eq(anchor.id(), id) {
        let mut m = owned("cannot move '");
        push_str(&mut m, id);
        push_str(&mut m, "' relative to itself");
        return Err(QueueError::Usage(m));
    }
    Ok(())
}

/// What `queue close` leaves of the cassette `current`, read under its
/// lock, for a writer `writer` of `kind`: the sticky-lock check first (see
/// `close_permitted`), then the status closed, the last writer and the time
/// (`now`) replaced, and the close-out `line` (see `close_message_line`), if
/// any, appended to the body.
pub fn close_step(
    current: &StoredCassette,
    kind: Kind,
    line: Option<&str>,
    writer: &str,
    now: String,
) -> (r: Result<(CassetteMeta, String), QueueError>)
    ensures
        match current.meta.locked_by {
            Some(holder) => kind == Kind::Agent ==> (r matches Err(QueueError::Sticky(m)) && m@
                == close_refusal(holder@)),
            None => true,
        },
        r is Err <==> (kind == Kind::Agent && current.meta.locked_by is Some),
        r matches Ok((m, body)) ==> {
            &&& m == (CassetteMeta {
                status: Status::Closed,
                last_writer: m.last_writer,
                updated_at: now,
                ..current.meta
            })
            &&& m.last_writer@ == writer@
            &&& body@ == current.body@ + match line {
                Some(l) => l@,
                None => Seq::<char>::empty(),
            }
        },
{
    let locked = match &current.meta.locked_by {
        Some(h) => Some(h.as_str()),
        None => None,
    };
    match close_permitted(kind, locked) {
        Err(e) => Err(e),
        Ok(()) => {
            let c = &current.meta;
            let m = CassetteMeta {
                id: c.id.clone(),
                topic: clone_topic(&c.topic),
                priority: c.priority,
                status: Status::Closed,
                locked_by: clone_topic(&c.locked_by),
                created_by: c.created_by.clone(),
                last_writer: owned(writer),
                updated_at: now,
            };
            let mut body = current.body.clone();
            match line {
                Some(l) => push_str(&mut body, l),
                None => {},
            }
            assert(body@ =~= current.body@ + match line {
                Some(l) => l@,
                None => Seq::<char>::empty(),
            });
            Ok((m, body))
        },
    }
}

/// What `queue reopen` leaves of the cassette's frontmatter `meta`, read
/// under its lock: the status open, the last writer (`writer`) and the time
/// (`now`) replaced, everything else (the body too) as it was.
pub fn reopen_step(meta: &CassetteMeta, writer: &str, now: String) -> (m: CassetteMeta)
    ensures
        m == (CassetteMeta { status: Status::Open, last_writer: m.last_writer, updated_at: now, ..*meta }),
        m.last_writer@ == writer@,
{
    CassetteMeta {
        id: meta.id.clone(),
        topic: clone_topic(&meta.topic),
        priority: meta.priority,
        status: Status::Open,
        locked_by: clone_topic(&meta.locked_by),
        created_by: meta.created_by.clone(),
        last_writer: owned(writer),
        updated_at: now,
    }
}

/// A move lands beside its anchor: before it, a priority below the
/// anchor's (and above the neighbour before the anchor, or above zero when
/// the anchor leads); after it, a priority above the anchor's (and below
/// the neighbour after it, when there is one). So the moved cassette sorts
/// on the side it was asked to.
pub proof fn lemma_target_lands_beside_anchor(open: Seq<i64>, anchor: i64, side: MoveSide, p: i64)
    requires
        target_spec(open, anchor, side) == Some(p),
    ensures
        ({
            let pos = first_at(open, anchor, 0);
            &&& 0 <= pos < open.len()
            &&& open[pos] == anchor
            &&& side == MoveSide::Before ==> {
                &&& p < anchor
                &&& pos > 0 ==> open[pos - 1] < p
                &&& pos == 0 ==> 0 < p
            }
            &&& side == MoveSide::After ==> {
                &&& anchor < p
                &&& pos + 1 < open.len() ==> p < open[pos + 1]
            }
        }),
{
    lemma_first_at_bounds(open, anchor, 0);
}

proof fn lemma_first_at_bounds(s: Seq<i64>, x: i64, i: int)
    requires
        0 <= i <= s.len(),
    ensures
        i <= first_at(s, x, i) <= s.len(),
        first_at(s, x, i) < s.len() ==> s[first_at(s, x, i)] == x,
    decreases s.len() - i,
{
    if i < s.len() && s[i] != x {
        lemma_first_at_bounds(s, x, i + 1);
    }
}

} // verus!

//! The store's records, as the library reads them: a cassette's status, a
//! writer's kind, who holds a lock, and why taking one failed.

use vstd::prelude::*;

use std::path::PathBuf;

use crate::text::{lemma_seq_lt_irrefl, lemma_seq_lt_total, lemma_seq_lt_trans, seq_lt, str_less};

verus! {

#[verifier::external_type_specification]
#[verifier::external_body]
pub struct ExPathBuf(PathBuf);

/// Whether a cassette is still being worked on.
#[derive(Clone, Copy, Debug, PartialEq, Eq, Structural)]
pub enum Status {
    Open,
    Closed,
}

impl Status {
    /// The wire spelling: `"open"` or `"closed"`.
    pub fn as_str(&self) -> (s: &'static str)
        ensures
            s@ == status_text(*self),
    {
        match self {
            Status::Open => "open",
            Status::Closed => "closed",
        }
    }
}

/// The wire spelling of a status.
pub open spec fn status_text(s: Status) -> Seq<char> {
    match s {
        Status::Open => "open"@,
        Status::Closed => "closed"@,
    }
}

/// What a registered writer is: a person, or an agent acting for one.
#[derive(Clone, Copy, Debug, PartialEq, Eq, Structural)]
pub enum Kind {
    Human,
    Agent,
}

impl Kind {
    /// The wire spelling: `"human"` or `"agent"`.
    pub fn as_str(&self) -> (s: &'static str)
        ensures
            s@ == kind_text(*self),
    {
        match self {
            Kind::Human => "human",
            Kind::Agent => "agent",
        }
    }
}

/// The wire spelling of a kind.
pub open spec fn kind_text(k: Kind) -> Seq<char> {
    match k {
        Kind::Human => "human"@,
        Kind::Agent => "agent"@,
    }
}

/// A registered writer: its id, the name it is shown by, and its kind.
#[derive(Clone, Debug)]
pub struct Writer {
    pub id: String,
    pub name: String,
    pub kind: Kind,
}

/// Who holds a cassette's lock, as its lock anchor records it.
#[derive(Clone, Debug)]
pub struct Attribution {
    /// The holder's writer id.
    pub writer: String,
    /// The holder's display name.
    pub name: String,
    pub pid: u32,
    /// When the lock was taken (RFC 3339).
    pub since: String,
}

/// Why a cassette's lock could not be taken.
#[derive(Clone, Debug)]
pub enum LockError {
    /// Another writer holds it; `holder` is its attribution when the anchor
    /// could be read.
    Busy { id: String, holder: Option<Attribution> },
    /// The session holds no such cassette.
    NoSuchCassette { session: String, id: String },
    /// Anything else, as its message.
    Io(String),
}

/// The name to show for a busy cassette's holder, straight from the lock
/// anchor's attribution; `None` when there is no name to show (the anchor
/// could not be read, or the failure was not contention).
pub fn busy_holder_name(e: &LockError) -> (r: Option<String>)
    ensures
        match *e {
            LockError::Busy { holder: Some(a), .. } => r matches Some(n) && n@ == a.name@,
            _ => r is None,
        },
{
    match e {
        LockError::Busy { holder: Some(a), .. } => Some(a.name.clone()),
        _ => None,
    }
}

/// A cassette's frontmatter.
#[derive(Clone, Debug)]
pub struct CassetteMeta {
    pub id: String,
    pub topic: Option<String>,
    pub priority: i64,
    pub status: Status,
    /// Writer id holding a sticky claim on it, if any.
    pub locked_by: Option<String>,
    pub created_by: String,
    pub last_writer: String,
    pub updated_at: String,
}

/// A cassette file as read from a session: where it lives, its
/// frontmatter and its body.
#[derive(Debug)]
pub struct StoredCassette {
    pub path: PathBuf,
    pub meta: CassetteMeta,
    pub body: String,
}

/// A session's own record.
#[derive(Clone, Debug)]
pub struct SessionMeta {
    /// Display label; it never resolves in place of the id.
    pub alias: Option<String>,
    /// When the session was created (RFC 3339).
    pub created: String,
    pub timer_secs: Option<u32>,
    pub word_goal: Option<usize>,
}

/// A cassette file a scan could not read, and why.
#[derive(Clone, Debug)]
pub struct Damaged {
    /// How the file is named to a reader.
    pub label: String,
    /// Why it could not be read.
    pub reason: String,
}

impl Damaged {
    /// How the file is named to a reader.
    pub fn label(&self) -> (s: String)
        ensures
            s@ == self.label@,
    {
        self.label.clone()
    }
}

/// A session as scanned: its readable cassettes in queue order, and the
/// files that could not be read.
#[derive(Debug)]
pub struct SessionScan {
    pub cassettes: Vec<StoredCassette>,
    pub damaged: Vec<Damaged>,
}

/// Queue order for stored cassettes: open before closed, then priority,
/// then id.
pub open spec fn meta_lt(a: CassetteMeta, b: CassetteMeta) -> bool {
    if a.status != b.status {
        a.status == Status::Open
    } else if a.priority != b.priority {
        a.priority < b.priority
    } else {
        seq_lt(a.id@, b.id@)
    }
}

/// `a` may come before `b` in queue order.
pub open spec fn meta_le(a: CassetteMeta, b: CassetteMeta) -> bool {
    !meta_lt(b, a)
}

/// `s` is in queue order.
pub open spec fn metas_sorted(s: Seq<CassetteMeta>) -> bool {
    forall|i: int, j: int| 0 <= i < j < s.len() ==> meta_le(#[trigger] s[i], #[trigger] s[j])
}

proof fn lemma_meta_le_trans(a: CassetteMeta, b: CassetteMeta, c: CassetteMeta)
    requires
        meta_le(a, b),
        meta_le(b, c),
    ensures
        meta_le(a, c),
{
    lemma_seq_lt_total(a.id@, b.id@);
    lemma_seq_lt_total(b.id@, c.id@);
    lemma_seq_lt_total(a.id@, c.id@);
    if seq_lt(c.id@, a.id@) && seq_lt(a.id@, b.id@) {
        lemma_seq_lt_trans(c.id@, a.id@, b.id@);
    }
    if seq_lt(b.id@, c.id@) && seq_lt(c.id@, a.id@) {
        lemma_seq_lt_trans(b.id@, c.id@, a.id@);
    }
}

proof fn lemma_meta_lt_asym(a: CassetteMeta, b: CassetteMeta)
    requires
        meta_lt(a, b),
    ensures
        meta_le(a, b),
{
    if seq_lt(a.id@, b.id@) && seq_lt(b.id@, a.id@) {
        lemma_seq_lt_trans(a.id@, b.id@, a.id@);
        lemma_seq_lt_irrefl(a.id@);
    }
}

/// Whether `a` sorts strictly before `b` in queue order.
fn meta_less(a: &CassetteMeta, b: &CassetteMeta) -> (r: bool)
    ensures
        r == meta_lt(*a, *b),
{
    if a.status != b.status {
        return a.status == Status::Open;
    }
    if a.priority != b.priority {
        return a.priority < b.priority;
    }
    str_less(a.id.as_str(), b.id.as_str())
}

/// Put cassette metadata in queue order, stably (insertion sort).
pub fn queue_order(v: &mut Vec<CassetteMeta>)
    ensures
        final(v)@.to_multiset() == old(v)@.to_multiset(),
        final(v)@.len() == old(v)@.len(),
        metas_sorted(final(v)@),
{
    broadcast use vstd::seq_lib::group_to_multiset_ensures;

    let n = v.len();
    if n == 0 {
        return;
    }
    let mut j: usize = 1;
    while j < n
        invariant
            1 <= j <= n,
            v@.len() == n,
            v@.to_multiset() == old(v)@.to_multiset(),
            forall|a: int, b: int| 0 <= a < b < j ==> meta_le(#[trigger] v@[a], #[trigger] v@[b]),
        decreases n - j,
    {
        let ghost before = v@;
        let c = v.remove(j);
        let mut p: usize = j;
        while p > 0 && meta_less(&c, &v[p - 1])
            invariant
                p <= j < n,
                before.len() == n,
                v@ == before.remove(j as int),
                c == before[j as int],
                forall|k: int| p <= k < j ==> meta_lt(c, #[trigger] v@[k]),
            decreases p,
        {
            p = p - 1;
        }
        let ghost mid = v@;
        v.insert(p, c);
        proof {
            assert(v@ == mid.insert(p as int, c));
            assert forall|a: int, b: int| 0 <= a < b < j + 1 implies meta_le(
                #[trigger] v@[a],
                #[trigger] v@[b],
            ) by {
                if b < p {
                    assert(v@[a] == mid[a] && v@[b] == mid[b]);
                    assert(mid[a] == before[a] && mid[b] == before[b]);
                } else if b == p {
                    assert(v@[b] == c);
                    assert(v@[a] == mid[a]);
                    assert(mid[a] == before[a]);
                    assert(!meta_lt(c, mid[p - 1]));
                    assert(mid[p - 1] == before[p - 1]);
                    if a < p - 1 {
                        lemma_meta_le_trans(before[a], before[p - 1], c);
                    }
                } else if a == p {
                    assert(v@[a] == c);
                    assert(v@[b] == mid[b - 1]);
                    lemma_meta_lt_asym(c, mid[b - 1]);
                } else if a < p {
                    assert(v@[a] == mid[a] && v@[b] == mid[b - 1]);
                    assert(mid[a] == before[a] && mid[b - 1] == before[b - 1]);
                } else {
                    assert(v@[a] == mid[a - 1] && v@[b] == mid[b - 1]);
                    assert(mid[a - 1] == before[a - 1] && mid[b - 1] == before[b - 1]);
                }
            }
            vstd::seq_lib::to_multiset_remove(before, j as int);
            vstd::seq_lib::to_multiset_insert(mid, p as int, c);
            vstd::seq_lib::to_multiset_contains(before, c);
            assert(before.contains(c)) by {
                assert(before[j as int] == c);
            }
            assert(before.to_multiset().remove(c).insert(c) =~= before.to_multiset());
        }
        j = j + 1;
    }
}

/// `s` is in queue order by its cassettes' metadata.
pub open spec fn stored_sorted(s: Seq<StoredCassette>) -> bool {
    forall|i: int, j: int| 0 <= i < j < s.len() ==> meta_le(#[trigger] s[i].meta, #[trigger] s[j].meta)
}

/// Put stored cassettes in queue order by their metadata, stably (insertion
/// sort).
pub fn queue_order_stored(v: &mut Vec<StoredCassette>)
    ensures
        final(v)@.to_multiset() == old(v)@.to_multiset(),
        final(v)@.len() == old(v)@.len(),
        stored_sorted(final(v)@),
{
    broadcast use vstd::seq_lib::group_to_multiset_ensures;

    let n = v.len();
    if n == 0 {
        return;
    }
    let mut j: usize = 1;
    while j < n
        invariant
            1 <= j <= n,
            v@.len() == n,
            v@.to_multiset() == old(v)@.to_multiset(),
            forall|a: int, b: int| 0 <= a < b < j ==> meta_le(#[trigger] v@[a].meta, #[trigger] v@[b].meta),
        decreases n - j,
    {
        let ghost before = v@;
        let c = v.remove(j);
        let mut p: usize = j;
        while p > 0 && meta_less(&c.meta, &v[p - 1].meta)
            invariant
                p <= j < n,
                before.len() == n,
                v@ == before.remove(j as int),
                c == before[j as int],
                forall|k: int| p <= k < j ==> meta_lt(c.meta, #[trigger] v@[k].meta),
            decreases p,
        {
            p = p - 1;
        }
        let ghost mid = v@;
        v.insert(p, c);
        proof {
            assert(v@ == mid.insert(p as int, c));
            assert forall|a: int, b: int| 0 <= a < b < j + 1 implies meta_le(
                #[trigger] v@[a].meta,
                #[trigger] v@[b].meta,
            ) by {
                if b < p {
                    assert(v@[a] == mid[a] && v@[b] == mid[b]);
                    assert(mid[a] == before[a] && mid[b] == before[b]);
                } else if b == p {
                    assert(v@[b] == c);
                    assert(v@[a] == mid[a]);
                    assert(mid[a] == before[a]);
                    assert(!meta_lt(c.meta, mid[p - 1].meta));
                    assert(mid[p - 1] == before[p - 1]);
                    if a < p - 1 {
                        lemma_meta_le_trans(before[a].meta, before[p - 1].meta, c.meta);
                    }
                } else if a == p {
                    assert(v@[a] == c);
                    assert(v@[b] == mid[b - 1]);
                    lemma_meta_lt_asym(c.meta, mid[b - 1].meta);
                } else if a < p {
                    assert(v@[a] == mid[a] && v@[b] == mid[b - 1]);
                    assert(mid[a] == before[a] && mid[b - 1] == before[b - 1]);
                } else {
                    assert(v@[a] == mid[a - 1] && v@[b] == mid[b - 1]);
                    assert(mid[a - 1] == before[a - 1] && mid[b - 1] == before[b - 1]);
                }
            }
            vstd::seq_lib::to_multiset_remove(before, j as int);
            vstd::seq_lib::to_multiset_insert(mid, p as int, c);
            vstd::seq_lib::to_multiset_contains(before, c);
            assert(before.contains(c)) by {
                assert(before[j as int] == c);
            }
            assert(before.to_multiset().remove(c).insert(c) =~= before.to_multiset());
        }
        j = j + 1;
    }
}

} // verus!

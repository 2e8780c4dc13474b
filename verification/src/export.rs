//! A session rendered to one flat markdown file: every cassette in queue
//! order under a heading of its own, closed ones marked, unreadable ones
//! named rather than dropped.

use vstd::prelude::*;

use crate::store::{Damaged, SessionScan, Status, StoredCassette};
use crate::text::{dec, push_str, push_usize, trim, trimmed};

verus! {

/// The heading of cassette `n`: `"# Cassette N[ — topic][ (closed)]"`.
pub open spec fn cassette_heading(n: nat, topic: Option<String>, closed: bool) -> Seq<char> {
    "# Cassette "@ + dec(n) + (match topic {
        Some(t) => " — "@ + t@,
        None => Seq::empty(),
    }) + (if closed {
        " (closed)"@
    } else {
        Seq::empty()
    }) + "\n\n"@
}

/// The export of the first `k` cassettes: each heading, then the body
/// trimmed and re-terminated.
pub open spec fn cassettes_text(cs: Seq<StoredCassette>, k: int) -> Seq<char>
    decreases k,
{
    if k <= 0 {
        Seq::empty()
    } else {
        cassettes_text(cs, k - 1) + cassette_heading(
            k as nat,
            cs[k - 1].meta.topic,
            cs[k - 1].meta.status == Status::Closed,
        ) + trim(cs[k - 1].body@) + "\n\n"@
    }
}

/// The headings of the first `k` damaged files, numbered on from the
/// `first` readable cassettes.
pub open spec fn damaged_text(ds: Seq<Damaged>, first: nat, k: int) -> Seq<char>
    decreases k,
{
    if k <= 0 {
        Seq::empty()
    } else {
        damaged_text(ds, first, k - 1) + "# Cassette "@ + dec(first + k as nat) + " — "@ + ds[k
            - 1].label@ + " (unreadable: "@ + ds[k - 1].reason@ + ")\n\n"@
    }
}

/// A scanned session as flat markdown (see `cassettes_text` and
/// `damaged_text`).
pub fn render(scan: &SessionScan) -> (out: String)
    requires
        scan.cassettes@.len() + scan.damaged@.len() < usize::MAX,
    ensures
        out@ == cassettes_text(scan.cassettes@, scan.cassettes@.len() as int) + damaged_text(
            scan.damaged@,
            scan.cassettes@.len() as nat,
            scan.damaged@.len() as int,
        ),
{
    let mut out = String::new();
    let mut i: usize = 0;
    while i < scan.cassettes.len()
        invariant
            i <= scan.cassettes@.len(),
            out@ == cassettes_text(scan.cassettes@, i as int),
        decreases scan.cassettes@.len() - i,
    {
        let c = &scan.cassettes[i];
        let ghost before = out@;
        push_str(&mut out, "# Cassette ");
        push_usize(&mut out, i + 1);
        if let Some(t) = &c.meta.topic {
            push_str(&mut out, " — ");
            push_str(&mut out, t.as_str());
        }
        if c.meta.status == Status::Closed {
            push_str(&mut out, " (closed)");
        }
        push_str(&mut out, "\n\n");
        let body = trimmed(c.body.as_str());
        push_str(&mut out, body.as_str());
        push_str(&mut out, "\n\n");
        assert(out@ =~= before + cassette_heading(
            (i + 1) as nat,
            c.meta.topic,
            c.meta.status == Status::Closed,
        ) + trim(c.body@) + "\n\n"@);
        i = i + 1;
    }
    let ghost head = out@;
    let n = scan.cassettes.len();
    let mut j: usize = 0;
    while j < scan.damaged.len()
        invariant
            j <= scan.damaged@.len(),
            n == scan.cassettes@.len(),
            scan.cassettes@.len() + scan.damaged@.len() < usize::MAX,
            out@ == head + damaged_text(scan.damaged@, n as nat, j as int),
        decreases scan.damaged@.len() - j,
    {
        let d = &scan.damaged[j];
        let ghost before = out@;
        push_str(&mut out, "# Cassette ");
        push_usize(&mut out, n + j + 1);
        push_str(&mut out, " — ");
        let label = d.label();
        push_str(&mut out, label.as_str());
        push_str(&mut out, " (unreadable: ");
        push_str(&mut out, d.reason.as_str());
        push_str(&mut out, ")\n\n");
        assert(out@ =~= before + "# Cassette "@ + dec((n + j + 1) as nat) + " — "@ + d.label@
            + " (unreadable: "@ + d.reason@ + ")\n\n"@);
        j = j + 1;
    }
    out
}

} // verus!

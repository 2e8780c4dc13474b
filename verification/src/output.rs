//! The store-shaped cassette body the editor writes.

use vstd::prelude::*;

use crate::cassette::Cassette;
use crate::queue::write::{body_of, build_body};

verus! {

/// A store cassette's body: `## Side A` always, `## Side B` only when it
/// has text — the same builder `queue write` uses, so a cassette's body never
/// depends on which of the two wrote it last.
pub fn cassette_body(c: &Cassette) -> (body: String)
    ensures
        body@ == body_of(c.side_a_seq(), c.side_b_seq()),
{
    let a = c.side_a_text();
    let b = c.side_b_text();
    build_body(a.as_str(), b.as_str())
}

} // verus!

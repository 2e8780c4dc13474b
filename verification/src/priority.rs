//! Sparse queue priorities: a cassette's place in the queue is an integer
//! with gaps left between neighbours, so most moves need no renumbering.

use vstd::prelude::*;

verus! {

/// The gap left between neighbouring priorities.
pub const STEP: i64 = 10;

/// A priority strictly between `lo` and `hi` (their midpoint), if the gap
/// between them has room for one.
pub open spec fn between_spec(lo: i64, hi: i64) -> Option<i64> {
    if hi - lo >= 2 {
        Some((lo + (hi - lo) / 2) as i64)
    } else {
        None
    }
}

/// A priority strictly between `lo` and `hi`, or `None` when they are
/// adjacent (or out of order): the signal to renumber.
pub fn between(lo: i64, hi: i64) -> (r: Option<i64>)
    ensures
        r == between_spec(lo, hi),
        r matches Some(p) ==> lo < p < hi,
{
    let gap: i128 = hi as i128 - lo as i128;
    if gap >= 2 {
        let mid = lo as i128 + gap / 2;
        Some(mid as i64)
    } else {
        None
    }
}

/// `s` is in ascending order.
pub open spec fn ascending(s: Seq<i64>) -> bool {
    forall|i: int, j: int| 0 <= i <= j < s.len() ==> s[i] <= s[j]
}

/// Sorts priorities into ascending order (insertion sort).
pub fn sort_ascending(v: &mut Vec<i64>)
    ensures
        final(v)@.to_multiset() == old(v)@.to_multiset(),
        ascending(final(v)@),
{
    broadcast use vstd::seq_lib::group_to_multiset_ensures;

    let n = v.len();
    let mut j: usize = 1;
    if n == 0 {
        return;
    }
    while j < n
        invariant
            1 <= j <= n,
            v@.len() == n,
            v@.to_multiset() == old(v)@.to_multiset(),
            forall|a: int, b: int| 0 <= a <= b < j ==> #[trigger] v@[a] <= #[trigger] v@[b],
        decreases n - j,
    {
        let ghost before = v@;
        let c = v.remove(j);
        let mut p: usize = j;
        while p > 0 && c < v[p - 1]
            invariant
                p <= j < n,
                before.len() == n,
                v@ == before.remove(j as int),
                c == before[j as int],
                forall|k: int| p <= k < j ==> c < #[trigger] v@[k],
            decreases p,
        {
            p = p - 1;
        }
        let ghost mid = v@;
        v.insert(p, c);
        proof {
            assert forall|a: int, b: int| 0 <= a <= b < j + 1 implies #[trigger] v@[a]
                <= #[trigger] v@[b] by {
                if b < p {
                    assert(v@[a] == mid[a] && v@[b] == mid[b]);
                } else if b == p {
                    if a < p {
                        assert(v@[a] == mid[a]);
                        assert(mid[p - 1] <= c);
                    }
                } else if a == p {
                    assert(v@[b] == mid[b - 1]);
                } else if a < p {
                    assert(v@[a] == mid[a] && v@[b] == mid[b - 1]);
                } else {
                    assert(v@[a] == mid[a - 1] && v@[b] == mid[b - 1]);
                }
            }
            vstd::seq_lib::to_multiset_remove(before, j as int);
            vstd::seq_lib::to_multiset_insert(mid, p as int, c);
            assert(before.contains(c)) by {
                assert(before[j as int] == c);
            }
            vstd::seq_lib::to_multiset_contains(before, c);
            assert(before.to_multiset().remove(c).insert(c) =~= before.to_multiset());
        }
        j = j + 1;
    }
}

} // verus!

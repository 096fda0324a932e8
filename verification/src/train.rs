//! The integer layer of training: partitioning the key stream into leaf
//! ranges from the top model's (clamped, non-decreasing) leaf assignments,
//! and bounding a leaf's prediction error.  The numeric fits that produce
//! the assignments and predictions are floating point and live outside the
//! verified core; they hand their integer outputs to these functions.

use vstd::prelude::*;

verus! {

/// Largest absolute difference `|pred[i] - i|` over `[start, stop)`: the
/// per-leaf error bound.
pub open spec fn spec_max_err(preds: Seq<u64>, start: int, stop: int) -> u64
    decreases stop - start,
{
    if stop <= start {
        0
    } else {
        let last = stop - 1;
        let d = if preds[last] >= last {
            (preds[last] - last) as u64
        } else {
            (last - preds[last]) as u64
        };
        let rest = spec_max_err(preds, start, last);
        if d >= rest {
            d
        } else {
            rest
        }
    }
}

/// The per-leaf error bound: the largest `|pred[i] - i|` over the leaf's
/// index range.
pub fn max_abs_error(preds: &Vec<u64>, start: usize, stop: usize) -> (r: u64)
    requires
        start <= stop <= preds@.len(),
        preds@.len() <= u64::MAX,
    ensures
        r == spec_max_err(preds@, start as int, stop as int),
{
    let mut best: u64 = 0;
    let mut i: usize = start;
    while i < stop
        invariant
            start <= i <= stop <= preds@.len(),
            preds@.len() <= u64::MAX,
            best == spec_max_err(preds@, start as int, i as int),
        decreases stop - i,
    {
        let p = preds[i];
        let d: u64 = if p >= i as u64 {
            p - (i as u64)
        } else {
            (i as u64) - p
        };
        if d > best {
            best = d;
        }
        i += 1;
    }
    best
}

/// Split `[0, len)` into one half-open range per leaf, from the top model's
/// leaf assignment of each entry.  The assignments are the clamped
/// `predict_to_int` outputs, so they are below `b` and non-decreasing.
/// The ranges tile the input: `start_j <= stop_j`, `stop_j == start_{j+1}`,
/// the first range starts at 0 and the last ends at `len`, and every index
/// inside range `j` is assigned to leaf `j`.  An empty leaf has
/// `start_j == stop_j`.
pub fn leaf_partitions(assignments: &Vec<u64>, b: u64) -> (r: Vec<(u64, u64)>)
    requires
        b >= 2,
        b <= usize::MAX,
        assignments@.len() <= u64::MAX,
        forall|i: int| 0 <= i < assignments@.len() ==> #[trigger] assignments@[i] < b,
        forall|i: int, j: int|
            0 <= i <= j < assignments@.len() ==> assignments@[i] <= assignments@[j],
    ensures
        r@.len() == b,
        forall|j: int| 0 <= j < b ==> (#[trigger] r@[j]).0 <= r@[j].1 <= assignments@.len(),
        forall|j: int| 0 <= j < b - 1 ==> (#[trigger] r@[j]).1 == r@[j + 1].0,
        r@[0].0 == 0,
        r@[b - 1].1 == assignments@.len(),
        forall|j: int, i: int|
            #![trigger r@[j], assignments@[i]]
            0 <= j < b && r@[j].0 <= i < r@[j].1 ==> assignments@[i] == j,
{
    let n = assignments.len();
    let mut r: Vec<(u64, u64)> = Vec::new();
    let mut idx: usize = 0;
    let mut j: u64 = 0;
    while j < b
        invariant
            j <= b,
            b >= 2,
            idx <= n,
            n == assignments@.len(),
            n <= u64::MAX,
            r@.len() == j,
            forall|i: int| 0 <= i < assignments@.len() ==> #[trigger] assignments@[i] < b,
            forall|i: int, k: int|
                0 <= i <= k < assignments@.len() ==> assignments@[i] <= assignments@[k],
            forall|q: int| 0 <= q < j ==> (#[trigger] r@[q]).0 <= r@[q].1 <= idx,
            forall|q: int| 0 <= q < j - 1 ==> (#[trigger] r@[q]).1 == r@[q + 1].0,
            j > 0 ==> r@[0].0 == 0 && r@[j - 1].1 == idx,
            j == 0 ==> idx == 0,
            forall|q: int, i: int|
                #![trigger r@[q], assignments@[i]]
                0 <= q < j && r@[q].0 <= i < r@[q].1 ==> assignments@[i] == q,
            forall|i: int| idx <= i < n ==> #[trigger] assignments@[i] >= j,
        decreases b - j,
    {
        let start = idx;
        while idx < n && assignments[idx] == j
            invariant
                start <= idx <= n,
                n == assignments@.len(),
                forall|i: int| start <= i < idx ==> #[trigger] assignments@[i] == j,
                forall|i: int, k: int|
                    0 <= i <= k < assignments@.len() ==> assignments@[i] <= assignments@[k],
                forall|i: int| start <= i < n ==> #[trigger] assignments@[i] >= j,
            decreases n - idx,
        {
            idx += 1;
        }
        r.push((start as u64, idx as u64));
        proof {
            assert(r@[r@.len() - 1] == (start as u64, idx as u64));
            assert forall|i: int| idx <= i < n implies #[trigger] assignments@[i] >= j + 1 by {
                assert(assignments@[idx as int] <= assignments@[i]);
                assert(assignments@[idx as int] != j);
                assert(assignments@[idx as int] >= j);
            }
        }
        j += 1;
    }
    proof {
        if idx < n {
            assert(assignments@[idx as int] >= b);
            assert(assignments@[idx as int] < b);
        }
        assert(idx == n);
        assert(r@[b - 1].1 == idx as u64);
    }
    r
}

} // verus!

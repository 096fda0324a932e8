//! The Pareto-based autotuner: dominance between measured configurations,
//! the Pareto front, the narrowing of the front to a handful of entries, and
//! the two-phase configuration grid.
//!
//! The two log2-error statistics are carried as IEEE-754 binary64 bit
//! patterns.  Training only ever produces non-negative finite errors, and on
//! such patterns (sign bit clear) unsigned order of the bits agrees with the
//! numeric order of the values, so every comparison here is an integer
//! comparison of the patterns.

use vstd::prelude::*;
use vstd::seq_lib::*;
use vstd::string::StringExecFns;

verus! {

/// The compact summary of one trained RMI the autotuner works with:
/// the `"top,leaf"` kind string, the branching factor, the two log2-error
/// statistics (as binary64 bit patterns), and the artifact size in bytes.
pub struct RMIStatistics {
    pub models: String,
    pub branching_factor: u64,
    pub average_log2_error: u64,
    pub max_log2_error: u64,
    pub size: u64,
}

impl Clone for RMIStatistics {
    /// An equal summary, field for field.
    fn clone(&self) -> (res: Self)
        ensures
            res == *self,
    {
        RMIStatistics {
            models: self.models.clone(),
            branching_factor: self.branching_factor,
            average_log2_error: self.average_log2_error,
            max_log2_error: self.max_log2_error,
            size: self.size,
        }
    }
}

/// `b` dominates `a` when `b` is no larger and no less accurate, and strictly
/// better on at least one of the two axes.
pub open spec fn spec_dominates(b: RMIStatistics, a: RMIStatistics) -> bool {
    &&& b.size <= a.size
    &&& b.average_log2_error <= a.average_log2_error
    &&& (b.size < a.size || b.average_log2_error < a.average_log2_error)
}

/// No element of `s` dominates `x`.
pub open spec fn on_front(s: Seq<RMIStatistics>, x: RMIStatistics) -> bool {
    forall|k: int| 0 <= k < s.len() ==> !spec_dominates(s[k], x)
}

/// The predicate the front keeps: membership of the front of `s`.
pub open spec fn front_pred(s: Seq<RMIStatistics>) -> spec_fn(RMIStatistics) -> bool {
    |x: RMIStatistics| on_front(s, x)
}

/// The Pareto front of `s`: its non-dominated elements, in order.
pub open spec fn spec_pareto_front(s: Seq<RMIStatistics>) -> Seq<RMIStatistics> {
    s.filter(front_pred(s))
}

impl RMIStatistics {
    /// Whether `other` dominates this summary.
    pub fn dominated_by(&self, other: &RMIStatistics) -> (r: bool)
        ensures
            r == spec_dominates(*other, *self),
    {
        if self.size < other.size {
            return false;
        }
        if self.average_log2_error < other.average_log2_error {
            return false;
        }
        if self.size == other.size && self.average_log2_error <= other.average_log2_error {
            return false;
        }
        if self.size <= other.size && self.average_log2_error == other.average_log2_error {
            return false;
        }
        true
    }

    /// Whether this summary measures exactly the configuration
    /// `(models, branching_factor)`.
    pub fn has_config(&self, models: &String, branching_factor: u64) -> (r: bool)
        ensures
            r == (self.models@ == models@ && self.branching_factor == branching_factor),
    {
        self.models.eq(models) && self.branching_factor == branching_factor
    }
}

/// The Pareto front of `results`: every entry no other entry dominates, in
/// input order.
pub fn pareto_front(results: &[RMIStatistics]) -> (r: Vec<RMIStatistics>)
    ensures
        r@ == spec_pareto_front(results@),
{
    let n = results.len();
    let mut out: Vec<RMIStatistics> = Vec::new();
    let mut i: usize = 0;
    while i < n
        invariant
            i <= n,
            n == results@.len(),
            out@ == results@.take(i as int).filter(front_pred(results@)),
        decreases n - i,
    {
        let mut dominated = false;
        let mut k: usize = 0;
        while k < n && !dominated
            invariant
                k <= n,
                n == results@.len(),
                i < n,
                !dominated ==> forall|j: int|
                    0 <= j < k ==> !spec_dominates(results@[j], results@[i as int]),
                dominated ==> exists|j: int|
                    0 <= j < n && spec_dominates(results@[j], results@[i as int]),
            decreases n - k,
        {
            if results[i].dominated_by(&results[k]) {
                dominated = true;
            }
            k += 1;
        }
        proof {
            if dominated {
                let j = choose|j: int|
                    0 <= j < n && spec_dominates(results@[j], results@[i as int]);
                assert(!on_front(results@, results@[i as int]));
            } else {
                assert(k == n);
                assert(on_front(results@, results@[i as int]));
            }
            assert(front_pred(results@)(results@[i as int]) == on_front(results@, results@[i as int]));
            assert(dominated == !front_pred(results@)(results@[i as int]));
            reveal(Seq::filter);
            assert(results@.take(i + 1).drop_last() =~= results@.take(i as int));
            assert(results@.take(i + 1).last() == results@[i as int]);
        }
        if !dominated {
            let kept = results[i].clone();
            out.push(kept);
        }
        i += 1;
    }
    proof {
        assert(results@.take(n as int) =~= results@);
    }
    out
}

/// Every element a filter keeps is an element of the original sequence.
proof fn lemma_filter_elements_contained<A>(s: Seq<A>, pred: spec_fn(A) -> bool)
    ensures
        forall|i: int| 0 <= i < s.filter(pred).len() ==> #[trigger] s.contains(s.filter(pred)[i]),
    decreases s.len(),
{
    reveal(Seq::filter);
    if s.len() > 0 {
        lemma_filter_elements_contained(s.drop_last(), pred);
        assert forall|i: int| 0 <= i < s.filter(pred).len() implies #[trigger] s.contains(
            s.filter(pred)[i],
        ) by {
            let sub = s.drop_last().filter(pred);
            if i < sub.len() {
                assert(s.drop_last().contains(sub[i]));
                let w = choose|w: int| 0 <= w < s.drop_last().len() && s.drop_last()[w] == sub[i];
                assert(s[w] == sub[i]);
            } else {
                assert(s.filter(pred)[i] == s.last());
            }
        }
    }
}

/// A filter whose predicate holds of every element keeps the sequence intact.
proof fn lemma_filter_keeps_all<A>(s: Seq<A>, pred: spec_fn(A) -> bool)
    requires
        forall|i: int| 0 <= i < s.len() ==> pred(#[trigger] s[i]),
    ensures
        s.filter(pred) == s,
    decreases s.len(),
{
    reveal(Seq::filter);
    if s.len() > 0 {
        assert(forall|i: int| 0 <= i < s.drop_last().len() ==> pred(#[trigger] s.drop_last()[i]));
        lemma_filter_keeps_all(s.drop_last(), pred);
        assert(s.filter(pred) =~= s);
    }
}

/// Taking the Pareto front is idempotent: the front of the front is the
/// front itself.
pub proof fn lemma_pareto_front_idempotent(s: Seq<RMIStatistics>)
    ensures
        spec_pareto_front(spec_pareto_front(s)) == spec_pareto_front(s),
{
    let pred = front_pred(s);
    let front = spec_pareto_front(s);
    lemma_filter_elements_contained(s, pred);
    assert forall|i: int| 0 <= i < front.len() implies on_front(front, #[trigger] front[i]) by {
        broadcast use Seq::lemma_filter_pred;

        assert forall|k: int| 0 <= k < front.len() implies !spec_dominates(
            front[k],
            front[i],
        ) by {
            assert(s.contains(front[k]));
            let w = choose|w: int| 0 <= w < s.len() && s[w] == front[k];
            assert(pred(front[i]));
            assert(!spec_dominates(s[w], front[i]));
        }
    }
    let pred2 = |x: RMIStatistics| on_front(front, x);
    assert(forall|i: int| 0 <= i < front.len() ==> pred2(#[trigger] front[i]));
    lemma_filter_keeps_all(front, pred2);
}


/// The axis a sort orders by: artifact size, or average log2 error.
pub open spec fn stat_key(x: RMIStatistics, by_error: bool) -> u64 {
    if by_error {
        x.average_log2_error
    } else {
        x.size
    }
}

/// Non-decreasing along the chosen axis.
pub open spec fn sorted_by(s: Seq<RMIStatistics>, by_error: bool) -> bool {
    forall|a: int, b: int|
        0 <= a <= b < s.len() ==> stat_key(s[a], by_error) <= stat_key(s[b], by_error)
}

/// The chosen sort key of one summary.
fn key_of(x: &RMIStatistics, by_error: bool) -> (r: u64)
    ensures
        r == stat_key(*x, by_error),
{
    if by_error {
        x.average_log2_error
    } else {
        x.size
    }
}

/// Sort summaries along the chosen axis (selection of the first minimum, so
/// the result is a permutation: same multiset of entries).
fn sort_stats(v: Vec<RMIStatistics>, by_error: bool) -> (r: Vec<RMIStatistics>)
    ensures
        sorted_by(r@, by_error),
        r@.to_multiset() == v@.to_multiset(),
        r@.len() == v@.len(),
{
    broadcast use vstd::seq_lib::group_to_multiset_ensures;
    broadcast use vstd::multiset::group_multiset_axioms;

    let mut rest = v;
    let mut out: Vec<RMIStatistics> = Vec::new();
    proof {
        assert(out@.to_multiset().add(rest@.to_multiset()) =~= rest@.to_multiset());
    }
    let ghost whole = rest@.to_multiset();
    while rest.len() > 0
        invariant
            out@.to_multiset().add(rest@.to_multiset()) == whole,
            whole.len() == out@.len() + rest@.len(),
            sorted_by(out@, by_error),
            forall|i: int, j: int|
                0 <= i < out@.len() && 0 <= j < rest@.len() ==> stat_key(#[trigger] out@[i], by_error)
                    <= stat_key(#[trigger] rest@[j], by_error),
        decreases rest.len(),
    {
        broadcast use vstd::seq_lib::group_to_multiset_ensures;
        broadcast use vstd::multiset::group_multiset_axioms;

        let mut m: usize = 0;
        let mut k: usize = 1;
        while k < rest.len()
            invariant
                m < k <= rest@.len(),
                rest@.len() > 0,
                forall|j: int|
                    0 <= j < k ==> stat_key(rest@[m as int], by_error) <= stat_key(
                        #[trigger] rest@[j],
                        by_error,
                    ),
            decreases rest@.len() - k,
        {
            if key_of(&rest[k], by_error) < key_of(&rest[m], by_error) {
                m = k;
            }
            k += 1;
        }
        let ghost out_before = out@;
        let ghost rest_before = rest@;
        let x = rest.remove(m);
        out.push(x);
        proof {
            assert(rest@.to_multiset() =~= rest_before.to_multiset().remove(x));
            assert(out@.to_multiset() =~= out_before.to_multiset().insert(x));
            assert(rest_before.to_multiset().count(x) >= 1);
            assert(out@.to_multiset().add(rest@.to_multiset()) =~= out_before.to_multiset().add(
                rest_before.to_multiset(),
            ));
            assert forall|i: int, j: int|
                0 <= i < out@.len() && 0 <= j < rest@.len() implies stat_key(
                #[trigger] out@[i],
                by_error,
            ) <= stat_key(#[trigger] rest@[j], by_error) by {
                let orig_j: int = if j < m { j } else { j + 1 };
                assert(rest@[j] == rest_before[orig_j]);
                if i < out@.len() - 1 {
                    assert(out@[i] == out_before[i]);
                } else {
                    assert(out@[i] == x);
                }
            }
        }
    }
    proof {
        assert(rest@.to_multiset().len() == 0);
        assert(out@.to_multiset().add(rest@.to_multiset()) =~= out@.to_multiset());
        assert(out@.len() == whole.len());
        assert(v@.to_multiset() == whole);
    }
    out
}

/// Exact comparison of the two size ratios `n1 / d1 < n2 / d2` by cross
/// multiplication, with no rounding.
fn ratio_lt(n1: u64, d1: u64, n2: u64, d2: u64) -> (r: bool)
    ensures
        r == ((n1 as int) * (d2 as int) < (n2 as int) * (d1 as int)),
{
    proof {
        assert((n1 as int) * (d2 as int) <= 0xffff_ffff_ffff_ffff * 0xffff_ffff_ffff_ffff
            && (n2 as int) * (d1 as int) <= 0xffff_ffff_ffff_ffff * 0xffff_ffff_ffff_ffff)
            by (nonlinear_arith)
            requires
                n1 <= 0xffff_ffff_ffff_ffffu64,
                d1 <= 0xffff_ffff_ffff_ffffu64,
                n2 <= 0xffff_ffff_ffff_ffffu64,
                d2 <= 0xffff_ffff_ffff_ffffu64,
        ;
        assert((n1 as u128) * (d2 as u128) == (n1 as int) * (d2 as int)) by (nonlinear_arith);
        assert((n2 as u128) * (d1 as u128) == (n2 as int) * (d1 as int)) by (nonlinear_arith);
    }
    let a: u128 = (n1 as u128) * (d2 as u128);
    let b: u128 = (n2 as u128) * (d1 as u128);
    a < b
}

/// Element-for-element copy of a slice of summaries.
fn clone_stats(results: &[RMIStatistics]) -> (r: Vec<RMIStatistics>)
    ensures
        r@ == results@,
{
    let mut out: Vec<RMIStatistics> = Vec::new();
    let mut i: usize = 0;
    while i < results.len()
        invariant
            i <= results@.len(),
            out@ == results@.take(i as int),
        decreases results@.len() - i,
    {
        out.push(results[i].clone());
        proof {
            assert(results@.take(i + 1) =~= results@.take(i as int).push(results@[i as int]));
        }
        i += 1;
    }
    proof {
        assert(results@.take(results@.len() as int) =~= results@);
    }
    out
}

/// `sz` is no larger than the size of any entry of `s`.
pub open spec fn size_le_all(sz: u64, s: Seq<RMIStatistics>) -> bool {
    forall|j: int| 0 <= j < s.len() ==> sz <= (#[trigger] s[j]).size
}

/// Some entry of `s` has a size that is minimal over `over`.
pub open spec fn holds_min_size(s: Seq<RMIStatistics>, over: Seq<RMIStatistics>) -> bool {
    exists|i: int| 0 <= i < s.len() && size_le_all((#[trigger] s[i]).size, over)
}

/// Every non-empty sequence holds an entry of minimal size.
proof fn lemma_has_min_size(s: Seq<RMIStatistics>)
    requires
        s.len() > 0,
    ensures
        holds_min_size(s, s),
    decreases s.len(),
{
    if s.len() == 1 {
        assert(size_le_all(s[0].size, s));
        assert(0 <= 0 < s.len() && size_le_all(s[0].size, s));
    } else {
        lemma_has_min_size(s.drop_last());
        let i = choose|i: int|
            0 <= i < s.drop_last().len() && size_le_all(
                (#[trigger] s.drop_last()[i]).size,
                s.drop_last(),
            );
        assert(s.drop_last()[i] == s[i]);
        if s[i].size <= s.last().size {
            assert forall|j: int| 0 <= j < s.len() implies s[i].size <= (#[trigger] s[j]).size by {
                if j < s.len() - 1 {
                    assert(s.drop_last()[j] == s[j]);
                }
            }
            assert(size_le_all(s[i].size, s));
        } else {
            assert forall|j: int|
                0 <= j < s.len() implies s.last().size <= (#[trigger] s[j]).size by {
                if j < s.len() - 1 {
                    assert(s.drop_last()[j] == s[j]);
                    assert(s[i].size <= s[j].size);
                }
            }
            assert(size_le_all(s[s.len() - 1].size, s));
        }
    }
}

/// Narrow a front to at most `desired_size` entries.  A front that already
/// fits is returned unchanged.  Otherwise the entries are sorted by size, the
/// smallest entry is set aside as the anchor, the less accurate entry of the
/// two adjacent entries whose size ratio is smallest is removed until
/// `desired_size - 1` remain, and the anchor is reinserted at the head: the
/// result keeps the smallest entry and spaces the rest on a log-size scale.
pub fn narrow_front(results: &[RMIStatistics], desired_size: usize) -> (r: Vec<RMIStatistics>)
    requires
        desired_size >= 2,
    ensures
        r@.to_multiset().subset_of(results@.to_multiset()),
        results@.len() > 0 ==> holds_min_size(r@, results@),
        results@.len() <= desired_size ==> r@ == results@,
        results@.len() > desired_size ==> {
            &&& r@.len() == desired_size
            &&& (forall|i: int| 0 <= i < r@.len() ==> results@.contains(#[trigger] r@[i]))
            &&& (forall|j: int|
                0 <= j < results@.len() ==> r@[0].size <= #[trigger] results@[j].size)
            &&& (forall|a: int, b: int| 1 <= a <= b < r@.len() ==> r@[a].size <= r@[b].size)
        },
{
    broadcast use vstd::seq_lib::group_to_multiset_ensures;
    broadcast use vstd::multiset::group_multiset_axioms;

    let n = results.len();
    if n <= desired_size {
        let whole = clone_stats(results);
        proof {
            assert(whole@.to_multiset().subset_of(results@.to_multiset()));
            if results@.len() > 0 {
                lemma_has_min_size(results@);
            }
        }
        return whole;
    }
    let tmp = clone_stats(results);
    let mut tmp = sort_stats(tmp, false);
    proof {
        assert forall|i: int| 0 <= i < tmp@.len() implies results@.contains(#[trigger] tmp@[i]) by {
            assert(tmp@.contains(tmp@[i]));
            assert(tmp@.to_multiset().count(tmp@[i]) > 0);
            assert(results@.to_multiset().count(tmp@[i]) > 0);
        }
        assert forall|j: int| 0 <= j < results@.len() implies tmp@[0].size
            <= #[trigger] results@[j].size by {
            assert(results@.contains(results@[j]));
            assert(results@.to_multiset().count(results@[j]) > 0);
            assert(tmp@.to_multiset().count(results@[j]) > 0);
            assert(tmp@.contains(results@[j]));
            let w = choose|w: int| 0 <= w < tmp@.len() && tmp@[w] == results@[j];
            assert(stat_key(tmp@[0], false) <= stat_key(tmp@[w], false));
        }
    }
    let ghost sorted_all = tmp@;
    let best_mod = tmp.remove(0);
    proof {
        assert forall|i: int| 0 <= i < tmp@.len() implies best_mod.size
            <= #[trigger] tmp@[i].size by {
            assert(tmp@[i] == sorted_all[i + 1]);
        }
        assert(tmp@.to_multiset() =~= sorted_all.to_multiset().remove(best_mod));
        assert forall|x: RMIStatistics| #[trigger] tmp@.to_multiset().insert(best_mod).count(x)
            <= results@.to_multiset().count(x) by {
            assert(sorted_all.to_multiset().count(best_mod) >= 1);
        }
        assert(tmp@.to_multiset().insert(best_mod).subset_of(results@.to_multiset()));
    }
    while tmp.len() > desired_size - 1
        invariant
            desired_size >= 2,
            tmp@.len() >= desired_size - 1,
            sorted_by(tmp@, false),
            forall|i: int| 0 <= i < tmp@.len() ==> results@.contains(#[trigger] tmp@[i]),
            results@.contains(best_mod),
            forall|j: int| 0 <= j < results@.len() ==> best_mod.size <= #[trigger] results@[j].size,
            forall|i: int| 0 <= i < tmp@.len() ==> best_mod.size <= #[trigger] tmp@[i].size,
            tmp@.to_multiset().insert(best_mod).subset_of(results@.to_multiset()),
        decreases tmp.len(),
    {
        let mut best_i: usize = 0;
        let mut k: usize = 1;
        while k < tmp.len() - 1
            invariant
                tmp@.len() >= 2,
                best_i + 1 < tmp@.len(),
                1 <= k,
            decreases tmp@.len() - k,
        {
            if ratio_lt(tmp[k + 1].size, tmp[k].size, tmp[best_i + 1].size, tmp[best_i].size) {
                best_i = k;
            }
            k += 1;
        }
        let ghost before = tmp@;
        let err1 = tmp[best_i].average_log2_error;
        let err2 = tmp[best_i + 1].average_log2_error;
        let removed_at: usize = if err1 > err2 {
            best_i
        } else {
            best_i + 1
        };
        tmp.remove(removed_at);
        proof {
            broadcast use vstd::seq_lib::group_to_multiset_ensures;
            broadcast use vstd::multiset::group_multiset_axioms;

            assert(tmp@.to_multiset() =~= before.to_multiset().remove(before[removed_at as int]));
            assert forall|x: RMIStatistics| #[trigger] tmp@.to_multiset().insert(best_mod).count(x)
                <= results@.to_multiset().count(x) by {
                assert(before.to_multiset().insert(best_mod).count(x) <= results@.to_multiset().count(
                    x,
                ));
            }
            assert(tmp@.to_multiset().insert(best_mod).subset_of(results@.to_multiset()));
            assert forall|a: int, b: int| 0 <= a <= b < tmp@.len() implies tmp@[a].size
                <= tmp@[b].size by {
                let oa: int = if a < removed_at { a } else { a + 1 };
                let ob: int = if b < removed_at { b } else { b + 1 };
                assert(tmp@[a] == before[oa]);
                assert(tmp@[b] == before[ob]);
            }
            assert forall|i: int| 0 <= i < tmp@.len() implies results@.contains(
                #[trigger] tmp@[i],
            ) by {
                let oi: int = if i < removed_at { i } else { i + 1 };
                assert(tmp@[i] == before[oi]);
            }
            assert forall|i: int| 0 <= i < tmp@.len() implies best_mod.size
                <= #[trigger] tmp@[i].size by {
                let oi: int = if i < removed_at { i } else { i + 1 };
                assert(tmp@[i] == before[oi]);
            }
        }
    }
    let ghost trimmed = tmp@;
    tmp.insert(0, best_mod);
    proof {
        assert(tmp@[0] == best_mod);
        assert forall|i: int| 0 <= i < tmp@.len() implies results@.contains(#[trigger] tmp@[i]) by {
            if i >= 1 {
                assert(tmp@[i] == trimmed[i - 1]);
            }
        }
        assert forall|a: int, b: int| 1 <= a <= b < tmp@.len() implies tmp@[a].size
            <= tmp@[b].size by {
            assert(tmp@[a] == trimmed[a - 1]);
            assert(tmp@[b] == trimmed[b - 1]);
        }
        assert(tmp@.to_multiset() =~= trimmed.to_multiset().insert(best_mod));
        assert(tmp@.to_multiset().subset_of(results@.to_multiset()));
        assert(size_le_all(tmp@[0].size, results@));
        assert(holds_min_size(tmp@, results@));
    }
    tmp
}

/// The final selection of the autotuner: the Pareto front of the measured
/// results, narrowed to at most `restrict` entries, sorted by average log2
/// error ascending.
pub fn final_front(results: &[RMIStatistics], restrict: usize) -> (r: Vec<RMIStatistics>)
    requires
        restrict >= 2,
    ensures
        sorted_by(r@, true),
        forall|i: int|
            0 <= i < r@.len() ==> spec_pareto_front(results@).contains(#[trigger] r@[i]),
        spec_pareto_front(results@).len() <= restrict ==> r@.to_multiset() == spec_pareto_front(
            results@,
        ).to_multiset(),
        spec_pareto_front(results@).len() > restrict ==> r@.len() == restrict,
        spec_pareto_front(results@).len() > 0 ==> holds_min_size(r@, spec_pareto_front(results@)),
{
    broadcast use vstd::seq_lib::group_to_multiset_ensures;
    broadcast use vstd::multiset::group_multiset_axioms;

    let front = pareto_front(results);
    let narrowed = narrow_front(front.as_slice(), restrict);
    proof {
        assert(forall|i: int|
            0 <= i < narrowed@.len() ==> front@.contains(#[trigger] narrowed@[i]));
    }
    let r = sort_stats(narrowed, true);
    proof {
        assert forall|i: int| 0 <= i < r@.len() implies front@.contains(#[trigger] r@[i]) by {
            assert(r@.contains(r@[i]));
            assert(r@.to_multiset().count(r@[i]) > 0);
            assert(narrowed@.to_multiset().count(r@[i]) > 0);
            assert(narrowed@.contains(r@[i]));
            let w = choose|w: int| 0 <= w < narrowed@.len() && narrowed@[w] == r@[i];
            assert(front@.contains(narrowed@[w]));
        }
        if front@.len() <= restrict {
            assert(narrowed@ == front@);
        }
        if front@.len() > 0 {
            let i = choose|i: int|
                0 <= i < narrowed@.len() && size_le_all((#[trigger] narrowed@[i]).size, front@);
            assert(narrowed@.contains(narrowed@[i]));
            assert(narrowed@.to_multiset().count(narrowed@[i]) > 0);
            assert(r@.to_multiset().count(narrowed@[i]) > 0);
            assert(r@.contains(narrowed@[i]));
            let w = choose|w: int| 0 <= w < r@.len() && r@[w] == narrowed@[i];
            assert(size_le_all(r@[w].size, front@));
            assert(holds_min_size(r@, front@));
        }
    }
    r
}


/// All candidate branching factors: the powers of two from 2^6 to 2^24.
pub fn get_branching_factors() -> (r: Vec<u64>)
    ensures
        r@.len() == 19,
        forall|j: int| 0 <= j < 19 ==> r@[j] == (1u64 << ((j + 6) as u64)),
{
    let mut out: Vec<u64> = Vec::new();
    let mut i: u64 = 6;
    while i < 25
        invariant
            6 <= i <= 25,
            out@.len() == i - 6,
            forall|j: int| 0 <= j < out@.len() ==> out@[j] == (1u64 << ((j + 6) as u64)),
        decreases 25 - i,
    {
        out.push(1u64 << i);
        i += 1;
    }
    out
}

/// The candidate top-layer kinds, restricted-to-top kinds first.
pub open spec fn spec_top_layer(i: int) -> Seq<char> {
    if i == 0 {
        "radix"@
    } else if i == 1 {
        "radix18"@
    } else if i == 2 {
        "radix22"@
    } else if i == 3 {
        "robust_linear"@
    } else if i == 4 {
        "linear"@
    } else if i == 5 {
        "cubic"@
    } else {
        "linear_spline"@
    }
}

/// The candidate leaf-layer kinds (usable anywhere).
pub open spec fn spec_leaf_layer(i: int) -> Seq<char> {
    if i == 0 {
        "linear"@
    } else if i == 1 {
        "cubic"@
    } else {
        "linear_spline"@
    }
}

/// The branching factors sampled in the first phase: every fifth power of
/// two, 2^6, 2^11, 2^16 and 2^21.
pub open spec fn spec_phase1_branching(i: int) -> u64 {
    if i == 0 {
        64
    } else if i == 1 {
        2048
    } else if i == 2 {
        65536
    } else {
        2097152
    }
}

/// The first-phase grid entry at position `i`: top kinds vary slowest, leaf
/// kinds next, sampled branching factors fastest.
pub open spec fn spec_phase1_config(i: int) -> (Seq<char>, u64) {
    (
        spec_top_layer(i / 12) + ","@ + spec_leaf_layer((i / 4) % 3),
        spec_phase1_branching(i % 4),
    )
}

/// Join a top kind and a leaf kind into the canonical `"top,leaf"` string.
fn join_pair(top: &str, leaf: &str) -> (r: String)
    ensures
        r@ == top@ + ","@ + leaf@,
{
    let mut s = top.to_owned();
    s.append(",");
    s.append(leaf);
    proof {
        assert(s@ =~= top@ + ","@ + leaf@);
    }
    s
}

/// The whole first-phase grid: every (top, leaf) pair from the candidate
/// kinds, at each sampled branching factor.
pub fn first_phase_configs() -> (r: Vec<(String, u64)>)
    ensures
        r@.len() == 84,
        forall|i: int|
            0 <= i < 84 ==> (#[trigger] r@[i]).0@ == spec_phase1_config(i).0 && r@[i].1
                == spec_phase1_config(i).1,
{
    let tops: Vec<&str> = vec![
        "radix",
        "radix18",
        "radix22",
        "robust_linear",
        "linear",
        "cubic",
        "linear_spline",
    ];
    let leafs: Vec<&str> = vec!["linear", "cubic", "linear_spline"];
    let bfs: Vec<u64> = vec![64, 2048, 65536, 2097152];
    proof {
        assert(forall|k: int| 0 <= k < 7 ==> tops@[k]@ == spec_top_layer(k));
        assert(forall|k: int| 0 <= k < 3 ==> leafs@[k]@ == spec_leaf_layer(k));
        assert(forall|k: int| 0 <= k < 4 ==> bfs@[k] == spec_phase1_branching(k));
    }
    let mut out: Vec<(String, u64)> = Vec::new();
    let mut t: usize = 0;
    while t < 7
        invariant
            t <= 7,
            tops@.len() == 7,
            leafs@.len() == 3,
            bfs@.len() == 4,
            forall|k: int| 0 <= k < 7 ==> tops@[k]@ == spec_top_layer(k),
            forall|k: int| 0 <= k < 3 ==> leafs@[k]@ == spec_leaf_layer(k),
            forall|k: int| 0 <= k < 4 ==> bfs@[k] == spec_phase1_branching(k),
            out@.len() == t * 12,
            forall|i: int|
                0 <= i < out@.len() ==> (#[trigger] out@[i]).0@ == spec_phase1_config(i).0
                    && out@[i].1 == spec_phase1_config(i).1,
        decreases 7 - t,
    {
        let mut l: usize = 0;
        while l < 3
            invariant
                t < 7,
                l <= 3,
                tops@.len() == 7,
                leafs@.len() == 3,
                bfs@.len() == 4,
                forall|k: int| 0 <= k < 7 ==> tops@[k]@ == spec_top_layer(k),
                forall|k: int| 0 <= k < 3 ==> leafs@[k]@ == spec_leaf_layer(k),
                forall|k: int| 0 <= k < 4 ==> bfs@[k] == spec_phase1_branching(k),
                out@.len() == t * 12 + l * 4,
                forall|i: int|
                    0 <= i < out@.len() ==> (#[trigger] out@[i]).0@ == spec_phase1_config(i).0
                        && out@[i].1 == spec_phase1_config(i).1,
            decreases 3 - l,
        {
            let mut b: usize = 0;
            while b < 4
                invariant
                    t < 7,
                    l < 3,
                    b <= 4,
                    tops@.len() == 7,
                    leafs@.len() == 3,
                    bfs@.len() == 4,
                    forall|k: int| 0 <= k < 7 ==> tops@[k]@ == spec_top_layer(k),
                    forall|k: int| 0 <= k < 3 ==> leafs@[k]@ == spec_leaf_layer(k),
                    forall|k: int| 0 <= k < 4 ==> bfs@[k] == spec_phase1_branching(k),
                    out@.len() == t * 12 + l * 4 + b,
                    forall|i: int|
                        0 <= i < out@.len() ==> (#[trigger] out@[i]).0@ == spec_phase1_config(i).0
                            && out@[i].1 == spec_phase1_config(i).1,
                decreases 4 - b,
            {
                let s = join_pair(tops[t], leafs[l]);
                let ghost idx = (t * 12 + l * 4 + b) as int;
                out.push((s, bfs[b]));
                proof {
                    assert(idx / 12 == t && (idx / 4) % 3 == l && idx % 4 == b)
                        by (nonlinear_arith)
                        requires
                            idx == (t * 12 + l * 4 + b) as int,
                            t < 7,
                            l < 3,
                            b < 4,
                    ;
                }
                b += 1;
            }
            l += 1;
        }
        t += 1;
    }
    out
}

/// Whether some summary in `s` already measures `(models, bf)`.
pub open spec fn spec_config_measured(s: Seq<RMIStatistics>, models: Seq<char>, bf: u64) -> bool {
    exists|k: int|
        0 <= k < s.len() && (#[trigger] s[k]).models@ == models && s[k].branching_factor == bf
}

/// The branching factor at position `b` of the full grid.
pub open spec fn spec_branching_factor(b: int) -> u64 {
    1u64 << ((b + 6) as u64)
}

/// Whether `bf` is one of the nineteen grid branching factors.
pub open spec fn is_grid_factor(bf: u64) -> bool {
    exists|b: int| 0 <= b < 19 && bf == #[trigger] spec_branching_factor(b)
}

/// Whether some summary in `s` names the model pair `m`.
pub open spec fn appears_in(s: Seq<RMIStatistics>, m: Seq<char>) -> bool {
    exists|j: int| 0 <= j < s.len() && (#[trigger] s[j]).models@ == m
}

/// Whether the configuration list `s` holds `(m, bf)`.
pub open spec fn config_listed(s: Seq<(String, u64)>, m: Seq<char>, bf: u64) -> bool {
    exists|i: int| 0 <= i < s.len() && (#[trigger] s[i]).0@ == m && s[i].1 == bf
}

/// Whether the string pool `pool` lists `m`.
pub open spec fn string_listed(pool: Seq<String>, m: Seq<char>) -> bool {
    exists|q: int| 0 <= q < pool.len() && (#[trigger] pool[q])@ == m
}

/// Whether one of the first `hi` strings of `pool` is `m`.
pub open spec fn model_among(pool: Seq<String>, hi: int, m: Seq<char>) -> bool {
    exists|q: int| 0 <= q < hi && (#[trigger] pool[q])@ == m
}

/// No two listed configurations are the same `(models, branching factor)`
/// pair.
pub open spec fn configs_distinct(s: Seq<(String, u64)>) -> bool {
    forall|i1: int, i2: int|
        0 <= i1 < i2 < s.len() ==> !((#[trigger] s[i1]).0@ == (#[trigger] s[i2]).0@ && s[i1].1
            == s[i2].1)
}

/// The grid branching factors grow strictly with their position.
proof fn lemma_grid_factor_increasing(b1: int, b2: int)
    requires
        0 <= b1 < b2 <= 19,
    ensures
        spec_branching_factor(b1) < spec_branching_factor(b2),
{
    let x = (b1 + 6) as u64;
    let y = (b2 + 6) as u64;
    assert(1u64 << x < 1u64 << y) by (bit_vector)
        requires
            x < y,
            y < 26,
    ;
}

/// Whether any summary in `measured` already covers `(models, bf)`.
fn config_measured(measured: &[RMIStatistics], models: &String, bf: u64) -> (r: bool)
    ensures
        r == spec_config_measured(measured@, models@, bf),
{
    let mut k: usize = 0;
    while k < measured.len()
        invariant
            k <= measured@.len(),
            forall|j: int|
                0 <= j < k ==> !((#[trigger] measured@[j]).models@ == models@
                    && measured@[j].branching_factor == bf),
        decreases measured@.len() - k,
    {
        if measured[k].has_config(models, bf) {
            return true;
        }
        k += 1;
    }
    false
}

/// Whether `pool` already holds a string equal to `s`.
fn contains_string(pool: &Vec<String>, s: &String) -> (r: bool)
    ensures
        r == string_listed(pool@, s@),
{
    let mut k: usize = 0;
    while k < pool.len()
        invariant
            k <= pool@.len(),
            forall|j: int| 0 <= j < k ==> (#[trigger] pool@[j])@ != s@,
        decreases pool@.len() - k,
    {
        if pool[k].eq(s) {
            return true;
        }
        k += 1;
    }
    false
}

/// The distinct model-pair strings of a front, first appearance first.
fn qualifying_models(front: &Vec<RMIStatistics>) -> (r: Vec<String>)
    ensures
        forall|q: int| 0 <= q < r@.len() ==> appears_in(front@, (#[trigger] r@[q])@),
        forall|j: int| 0 <= j < front@.len() ==> string_listed(r@, (#[trigger] front@[j]).models@),
        forall|q1: int, q2: int| 0 <= q1 < q2 < r@.len() ==> (#[trigger] r@[q1])@ != (#[trigger] r@[q2])@,
{
    let mut qualifying: Vec<String> = Vec::new();
    let mut fi: usize = 0;
    while fi < front.len()
        invariant
            fi <= front@.len(),
            forall|q: int|
                0 <= q < qualifying@.len() ==> appears_in(front@, (#[trigger] qualifying@[q])@),
            forall|j: int|
                0 <= j < fi ==> string_listed(qualifying@, (#[trigger] front@[j]).models@),
            forall|q1: int, q2: int|
                0 <= q1 < q2 < qualifying@.len() ==> (#[trigger] qualifying@[q1])@ != (
                #[trigger] qualifying@[q2])@,
        decreases front@.len() - fi,
    {
        let ghost before = qualifying@;
        let listed = contains_string(&qualifying, &front[fi].models);
        if !listed {
            qualifying.push(front[fi].models.clone());
            proof {
                assert(qualifying@[qualifying@.len() - 1]@ == front@[fi as int].models@);
                assert(appears_in(front@, qualifying@[qualifying@.len() - 1]@));
            }
        }
        proof {
            assert forall|j: int|
                0 <= j < fi + 1 implies string_listed(
                qualifying@,
                (#[trigger] front@[j]).models@,
            ) by {
                if j < fi {
                    let q = choose|q: int|
                        0 <= q < before.len() && (#[trigger] before[q])@ == front@[j].models@;
                    assert(qualifying@[q]@ == front@[j].models@);
                } else {
                    if listed {
                        let q = choose|q: int|
                            0 <= q < before.len() && (#[trigger] before[q])@
                                == front@[fi as int].models@;
                        assert(qualifying@[q]@ == front@[fi as int].models@);
                    } else {
                        assert(qualifying@[qualifying@.len() - 1]@ == front@[fi as int].models@);
                    }
                }
            }
        }
        fi += 1;
    }
    qualifying
}

/// For one model pair: every branching factor of the full grid that
/// `first_phase` has not already measured for that pair — and none that it
/// has.
fn configs_for_model(
    first_phase: &[RMIStatistics],
    models: &String,
    factors: &Vec<u64>,
) -> (r: Vec<(String, u64)>)
    requires
        factors@.len() == 19,
        forall|j: int| 0 <= j < 19 ==> factors@[j] == spec_branching_factor(j),
    ensures
        forall|i: int|
            0 <= i < r@.len() ==> (#[trigger] r@[i]).0@ == models@ && !spec_config_measured(
                first_phase@,
                models@,
                r@[i].1,
            ) && is_grid_factor(r@[i].1),
        forall|b: int|
            0 <= b < 19 && !spec_config_measured(
                first_phase@,
                models@,
                #[trigger] spec_branching_factor(b),
            ) ==> config_listed(r@, models@, spec_branching_factor(b)),
        forall|i1: int, i2: int| 0 <= i1 < i2 < r@.len() ==> (#[trigger] r@[i1]).1 < (#[trigger] r@[i2]).1,
{
    let mut out: Vec<(String, u64)> = Vec::new();
    let mut bi: usize = 0;
    while bi < factors.len()
        invariant
            bi <= 19,
            factors@.len() == 19,
            forall|j: int| 0 <= j < 19 ==> factors@[j] == spec_branching_factor(j),
            forall|i: int|
                0 <= i < out@.len() ==> (#[trigger] out@[i]).0@ == models@ && !spec_config_measured(
                    first_phase@,
                    models@,
                    out@[i].1,
                ) && is_grid_factor(out@[i].1),
            forall|b: int|
                0 <= b < bi && !spec_config_measured(
                    first_phase@,
                    models@,
                    #[trigger] spec_branching_factor(b),
                ) ==> config_listed(out@, models@, spec_branching_factor(b)),
            forall|i1: int, i2: int|
                0 <= i1 < i2 < out@.len() ==> (#[trigger] out@[i1]).1 < (#[trigger] out@[i2]).1,
            forall|i: int|
                0 <= i < out@.len() ==> (#[trigger] out@[i]).1 < spec_branching_factor(bi as int),
        decreases 19 - bi,
    {
        let ghost before = out@;
        let bf = factors[bi];
        let unmeasured = !config_measured(first_phase, models, bf);
        if unmeasured {
            let m = models.clone();
            out.push((m, bf));
        }
        proof {
            assert(bf == spec_branching_factor(bi as int));
            if unmeasured {
                let last = out@.len() - 1;
                assert(out@[last].0@ == models@ && out@[last].1 == bf);
                assert(is_grid_factor(bf));
                assert(config_listed(out@, models@, spec_branching_factor(bi as int)));
            }
            assert(forall|i: int| 0 <= i < before.len() ==> out@[i] == #[trigger] before[i]);
            assert forall|b: int|
                0 <= b < bi + 1 && !spec_config_measured(
                    first_phase@,
                    models@,
                    #[trigger] spec_branching_factor(b),
                ) implies config_listed(out@, models@, spec_branching_factor(b)) by {
                if b < bi {
                    assert(config_listed(before, models@, spec_branching_factor(b)));
                    let i0 = choose|i0: int|
                        0 <= i0 < before.len() && (#[trigger] before[i0]).0@ == models@
                            && before[i0].1 == spec_branching_factor(b);
                    assert(out@[i0] == before[i0]);
                }
            }
            lemma_grid_factor_increasing(bi as int, bi + 1);
            assert forall|i: int|
                0 <= i < out@.len() implies (#[trigger] out@[i]).1 < spec_branching_factor(
                bi + 1,
            ) by {
                if i < before.len() {
                    assert(out@[i] == before[i]);
                    assert(out@[i].1 < spec_branching_factor(bi as int));
                } else {
                    assert(out@[i].1 == spec_branching_factor(bi as int));
                }
            }
        }
        bi += 1;
    }
    out
}

/// The second-phase grid, exactly: for every model pair that reached the
/// Pareto front of the first phase, every branching factor of the full grid
/// that the first phase did not already measure for that pair — each such
/// configuration listed, nothing else listed, and no configuration listed
/// twice.
pub fn second_phase_configs(first_phase: &[RMIStatistics]) -> (r: Vec<(String, u64)>)
    ensures
        forall|i: int|
            0 <= i < r@.len() ==> appears_in(
                spec_pareto_front(first_phase@),
                (#[trigger] r@[i]).0@,
            ) && !spec_config_measured(first_phase@, r@[i].0@, r@[i].1) && is_grid_factor(r@[i].1),
        forall|k: int, b: int|
            #![trigger spec_pareto_front(first_phase@)[k], spec_branching_factor(b)]
            0 <= k < spec_pareto_front(first_phase@).len() && 0 <= b < 19 && !spec_config_measured(
                first_phase@,
                spec_pareto_front(first_phase@)[k].models@,
                spec_branching_factor(b),
            ) ==> config_listed(
                r@,
                spec_pareto_front(first_phase@)[k].models@,
                spec_branching_factor(b),
            ),
        configs_distinct(r@),
{
    let front = pareto_front(first_phase);
    let qualifying = qualifying_models(&front);
    let factors = get_branching_factors();
    proof {
        assert(forall|j: int| 0 <= j < 19 ==> factors@[j] == spec_branching_factor(j));
    }
    let mut out: Vec<(String, u64)> = Vec::new();
    let mut qi: usize = 0;
    while qi < qualifying.len()
        invariant
            qi <= qualifying@.len(),
            factors@.len() == 19,
            front@ == spec_pareto_front(first_phase@),
            forall|j: int| 0 <= j < 19 ==> factors@[j] == spec_branching_factor(j),
            forall|q: int|
                0 <= q < qualifying@.len() ==> appears_in(front@, (#[trigger] qualifying@[q])@),
            forall|q1: int, q2: int|
                0 <= q1 < q2 < qualifying@.len() ==> (#[trigger] qualifying@[q1])@ != (
                #[trigger] qualifying@[q2])@,
            forall|i: int|
                0 <= i < out@.len() ==> appears_in(front@, (#[trigger] out@[i]).0@)
                    && !spec_config_measured(first_phase@, out@[i].0@, out@[i].1) && is_grid_factor(
                    out@[i].1,
                ) && model_among(qualifying@, qi as int, out@[i].0@),
            forall|q: int, b: int|
                #![trigger qualifying@[q], spec_branching_factor(b)]
                0 <= q < qi && 0 <= b < 19 && !spec_config_measured(
                    first_phase@,
                    qualifying@[q]@,
                    spec_branching_factor(b),
                ) ==> config_listed(out@, qualifying@[q]@, spec_branching_factor(b)),
            configs_distinct(out@),
        decreases qualifying@.len() - qi,
    {
        let ghost out_before = out@;
        let mut chunk = configs_for_model(first_phase, &qualifying[qi], &factors);
        let ghost chunk_view = chunk@;
        out.append(&mut chunk);
        proof {
            assert(out@ == out_before + chunk_view);
            assert forall|i: int|
                0 <= i < out@.len() implies appears_in(front@, (#[trigger] out@[i]).0@)
                && !spec_config_measured(first_phase@, out@[i].0@, out@[i].1) && is_grid_factor(
                out@[i].1,
            ) && model_among(qualifying@, qi + 1, out@[i].0@) by {
                if i < out_before.len() {
                    assert(out@[i] == out_before[i]);
                    let q = choose|q: int|
                        0 <= q < qi && (#[trigger] qualifying@[q])@ == out_before[i].0@;
                    assert(0 <= q < qi + 1 && qualifying@[q]@ == out@[i].0@);
                } else {
                    assert(out@[i] == chunk_view[i - out_before.len()]);
                    assert(out@[i].0@ == qualifying@[qi as int]@);
                    assert(0 <= qi < qi + 1 && qualifying@[qi as int]@ == out@[i].0@);
                }
            }
            assert forall|q: int, b: int|
                #![trigger qualifying@[q], spec_branching_factor(b)]
                0 <= q < qi + 1 && 0 <= b < 19 && !spec_config_measured(
                    first_phase@,
                    qualifying@[q]@,
                    spec_branching_factor(b),
                ) implies config_listed(out@, qualifying@[q]@, spec_branching_factor(b)) by {
                if q < qi {
                    let i0 = choose|i0: int|
                        0 <= i0 < out_before.len() && (#[trigger] out_before[i0]).0@
                            == qualifying@[q]@ && out_before[i0].1 == spec_branching_factor(b);
                    assert(out@[i0] == out_before[i0]);
                } else {
                    assert(config_listed(chunk_view, qualifying@[qi as int]@, spec_branching_factor(b)));
                    let i0 = choose|i0: int|
                        0 <= i0 < chunk_view.len() && (#[trigger] chunk_view[i0]).0@
                            == qualifying@[q]@ && chunk_view[i0].1 == spec_branching_factor(b);
                    assert(out@[out_before.len() + i0] == chunk_view[i0]);
                }
            }
            assert forall|i1: int, i2: int|
                0 <= i1 < i2 < out@.len() implies !((#[trigger] out@[i1]).0@ == (
            #[trigger] out@[i2]).0@ && out@[i1].1 == out@[i2].1) by {
                if i2 < out_before.len() {
                    assert(out@[i1] == out_before[i1]);
                    assert(out@[i2] == out_before[i2]);
                } else if i1 >= out_before.len() {
                    assert(out@[i1] == chunk_view[i1 - out_before.len()]);
                    assert(out@[i2] == chunk_view[i2 - out_before.len()]);
                    assert(out@[i1].1 < out@[i2].1);
                } else {
                    assert(out@[i1] == out_before[i1]);
                    assert(out@[i2] == chunk_view[i2 - out_before.len()]);
                    assert(out@[i2].0@ == qualifying@[qi as int]@);
                    let q = choose|q: int|
                        0 <= q < qi && (#[trigger] qualifying@[q])@ == out_before[i1].0@;
                    assert(qualifying@[q]@ != qualifying@[qi as int]@);
                }
            }
        }
        qi += 1;
    }
    proof {
        assert forall|k: int, b: int|
            #![trigger spec_pareto_front(first_phase@)[k], spec_branching_factor(b)]
            0 <= k < spec_pareto_front(first_phase@).len() && 0 <= b < 19 && !spec_config_measured(
                first_phase@,
                spec_pareto_front(first_phase@)[k].models@,
                spec_branching_factor(b),
            ) implies config_listed(
            out@,
            spec_pareto_front(first_phase@)[k].models@,
            spec_branching_factor(b),
        ) by {
            assert(string_listed(qualifying@, front@[k].models@));
            let q = choose|q: int|
                0 <= q < qualifying@.len() && (#[trigger] qualifying@[q])@ == front@[k].models@;
            assert(!spec_config_measured(first_phase@, qualifying@[q]@, spec_branching_factor(b)));
            assert(config_listed(out@, qualifying@[q]@, spec_branching_factor(b)));
        }
    }
    out
}

} // verus!

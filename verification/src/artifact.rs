//! The logical artifact: the parameters of a trained two-layer index and
//! their emission as one little-endian blob — top-model parameters first,
//! then, leaf by leaf, the leaf's parameters followed (when bounds checks
//! are enabled) by its error bound as a `u64`.  The descriptor header that
//! leads the on-disk file is the emitter's, so the blob here starts at the
//! first parameter and `rmi_size` accounts for the header by its fixed
//! width.

use vstd::prelude::*;
use vstd::bytes::spec_u64_to_le_bytes;

use crate::params::ModelParam;
use crate::params::push_u64_le;
use crate::params::spec_param_bytes;
use crate::params::spec_param_size;

verus! {

/// Width in bytes of the fixed descriptor header an artifact file carries
/// in front of the parameter blob.
pub const ARTIFACT_HEADER_SIZE: u64 = 8;

/// Total encoded size of a parameter list.
pub open spec fn spec_params_size(s: Seq<ModelParam>) -> int
    decreases s.len(),
{
    if s.len() == 0 {
        0
    } else {
        spec_params_size(s.drop_last()) + spec_param_size(s.last())
    }
}

/// The concatenated encoding of a parameter list, in declaration order.
pub open spec fn spec_params_bytes(s: Seq<ModelParam>) -> Seq<u8>
    decreases s.len(),
{
    if s.len() == 0 {
        Seq::empty()
    } else {
        spec_params_bytes(s.drop_last()) + spec_param_bytes(s.last())
    }
}

/// The parameters and error bounds of one trained RMI, ready for emission.
pub struct RmiArtifact {
    pub top_params: Vec<ModelParam>,
    pub leaf_params: Vec<Vec<ModelParam>>,
    pub leaf_errors: Vec<u64>,
    pub bounds_checked: bool,
}

/// Total encoded size of the leaves: each leaf's parameters, plus one `u64`
/// per leaf when bounds checks are enabled.
pub open spec fn spec_leaves_size(leaves: Seq<Vec<ModelParam>>, checked: bool) -> int
    decreases leaves.len(),
{
    if leaves.len() == 0 {
        0
    } else {
        spec_leaves_size(leaves.drop_last(), checked) + spec_params_size(leaves.last()@) + (
        if checked {
            8int
        } else {
            0int
        })
    }
}

/// The concatenated encoding of the leaves, in leaf-index order.
pub open spec fn spec_leaves_bytes(
    leaves: Seq<Vec<ModelParam>>,
    errs: Seq<u64>,
    checked: bool,
) -> Seq<u8>
    recommends
        errs.len() == leaves.len(),
    decreases leaves.len(),
{
    if leaves.len() == 0 {
        Seq::empty()
    } else {
        spec_leaves_bytes(leaves.drop_last(), errs.drop_last(), checked) + spec_params_bytes(
            leaves.last()@,
        ) + (if checked {
            spec_u64_to_le_bytes(errs.last())
        } else {
            Seq::empty()
        })
    }
}

impl RmiArtifact {
    /// Leaf error bounds and leaf parameter lists pair up, and every single
    /// parameter's size fits the machine.
    pub open spec fn wf(&self) -> bool {
        &&& self.leaf_errors@.len() == self.leaf_params@.len()
        &&& forall|p: int|
            0 <= p < self.top_params@.len() ==> spec_param_size(#[trigger] self.top_params@[p])
                <= usize::MAX
        &&& forall|l: int, p: int|
            0 <= l < self.leaf_params@.len() && 0 <= p < self.leaf_params@[l]@.len()
                ==> spec_param_size(#[trigger] self.leaf_params@[l]@[p]) <= usize::MAX
    }

    /// The artifact's total size in bytes: every parameter of the top model
    /// and the leaves, one `u64` per leaf when bounds checks are enabled,
    /// and the fixed header when `include_header` is set.
    pub open spec fn spec_size(&self, include_header: bool) -> int {
        spec_params_size(self.top_params@) + spec_leaves_size(
            self.leaf_params@,
            self.bounds_checked,
        ) + (if include_header {
            ARTIFACT_HEADER_SIZE as int
        } else {
            0int
        })
    }

    /// Total size in bytes of the emitted artifact.
    pub fn rmi_size(&self, include_header: bool) -> (r: u64)
        requires
            self.wf(),
            self.spec_size(include_header) <= u64::MAX,
        ensures
            r == self.spec_size(include_header),
    {
        proof {
            lemma_leaves_size_nonneg(self.leaf_params@, self.bounds_checked);
        }
        let mut total: u64 = params_size_sum(
            &self.top_params,
            Ghost(self.spec_size(include_header) - spec_leaves_size(
                self.leaf_params@,
                self.bounds_checked,
            ) - (if include_header {
                ARTIFACT_HEADER_SIZE as int
            } else {
                0int
            })),
        );
        let mut l: usize = 0;
        while l < self.leaf_params.len()
            invariant
                self.wf(),
                self.spec_size(include_header) <= u64::MAX,
                l <= self.leaf_params@.len(),
                total == spec_params_size(self.top_params@) + spec_leaves_size(
                    self.leaf_params@.take(l as int),
                    self.bounds_checked,
                ),
            decreases self.leaf_params@.len() - l,
        {
            proof {
                lemma_leaves_prefix_bound(self.leaf_params@, l as int, self.bounds_checked);
                lemma_leaves_prefix_bound(self.leaf_params@, l + 1, self.bounds_checked);
                lemma_leaves_size_nonneg(self.leaf_params@.take(l as int), self.bounds_checked);
                lemma_params_size_nonneg(self.top_params@);
                lemma_params_size_nonneg(self.leaf_params@[l as int]@);
                assert(self.leaf_params@.take(l + 1).drop_last() =~= self.leaf_params@.take(
                    l as int,
                ));
                assert(self.leaf_params@.take(l + 1).last() == self.leaf_params@[l as int]);
            }
            let leaf_sum = params_size_sum(
                &self.leaf_params[l],
                Ghost(self.spec_size(include_header) - spec_params_size(self.top_params@)
                    - spec_leaves_size(self.leaf_params@.take(l as int), self.bounds_checked) - (
                if self.bounds_checked {
                    8int
                } else {
                    0int
                }) - (if include_header {
                    ARTIFACT_HEADER_SIZE as int
                } else {
                    0int
                })),
            );
            total = total + leaf_sum;
            if self.bounds_checked {
                total = total + 8;
            }
            l += 1;
        }
        proof {
            assert(self.leaf_params@.take(self.leaf_params@.len() as int) =~= self.leaf_params@);
        }
        if include_header {
            total = total + ARTIFACT_HEADER_SIZE;
        }
        total
    }

    /// Append the parameter blob to `out`: top-model parameters in
    /// declaration order, then for each leaf its parameters followed, when
    /// bounds checks are enabled, by its error bound little-endian.
    pub fn write_params(&self, out: &mut Vec<u8>)
        requires
            self.wf(),
        ensures
            final(out)@ == old(out)@ + spec_params_bytes(self.top_params@) + spec_leaves_bytes(
                self.leaf_params@,
                self.leaf_errors@,
                self.bounds_checked,
            ),
    {
        write_param_list(&self.top_params, out);
        let ghost mid = out@;
        let mut l: usize = 0;
        while l < self.leaf_params.len()
            invariant
                self.wf(),
                l <= self.leaf_params@.len(),
                out@ == mid + spec_leaves_bytes(
                    self.leaf_params@.take(l as int),
                    self.leaf_errors@.take(l as int),
                    self.bounds_checked,
                ),
            decreases self.leaf_params@.len() - l,
        {
            write_param_list(&self.leaf_params[l], out);
            if self.bounds_checked {
                push_u64_le(out, self.leaf_errors[l]);
            }
            proof {
                assert(self.leaf_params@.take(l + 1).drop_last() =~= self.leaf_params@.take(
                    l as int,
                ));
                assert(self.leaf_errors@.take(l + 1).drop_last() =~= self.leaf_errors@.take(
                    l as int,
                ));
                assert(self.leaf_params@.take(l + 1).last() == self.leaf_params@[l as int]);
                assert(self.leaf_errors@.take(l + 1).last() == self.leaf_errors@[l as int]);
            }
            l += 1;
        }
        proof {
            assert(self.leaf_params@.take(self.leaf_params@.len() as int) =~= self.leaf_params@);
            assert(self.leaf_errors@.take(self.leaf_errors@.len() as int) =~= self.leaf_errors@);
        }
    }
}

proof fn lemma_params_size_nonneg(s: Seq<ModelParam>)
    ensures
        spec_params_size(s) >= 0,
    decreases s.len(),
{
    if s.len() > 0 {
        lemma_params_size_nonneg(s.drop_last());
    }
}

proof fn lemma_leaves_size_nonneg(s: Seq<Vec<ModelParam>>, checked: bool)
    ensures
        spec_leaves_size(s, checked) >= 0,
    decreases s.len(),
{
    if s.len() > 0 {
        lemma_leaves_size_nonneg(s.drop_last(), checked);
        lemma_params_size_nonneg(s.last()@);
    }
}

/// A prefix of the leaves never takes more bytes than all of them.
proof fn lemma_leaves_prefix_bound(s: Seq<Vec<ModelParam>>, i: int, checked: bool)
    requires
        0 <= i <= s.len(),
    ensures
        spec_leaves_size(s.take(i), checked) <= spec_leaves_size(s, checked),
    decreases s.len() - i,
{
    if i == s.len() {
        assert(s.take(i) =~= s);
    } else {
        lemma_leaves_prefix_bound(s, i + 1, checked);
        assert(s.take(i + 1).drop_last() =~= s.take(i));
        assert(s.take(i + 1).last() == s[i]);
        lemma_params_size_nonneg(s[i]@);
    }
}

/// Sum the encoded sizes of a parameter list.  The ghost `bound` carries the
/// caller's knowledge that this list is one non-negative part of a total
/// that fits in `u64`.
fn params_size_sum(params: &Vec<ModelParam>, Ghost(bound): Ghost<int>) -> (r: u64)
    requires
        forall|p: int|
            0 <= p < params@.len() ==> spec_param_size(#[trigger] params@[p]) <= usize::MAX,
        spec_params_size(params@) <= bound <= u64::MAX,
    ensures
        r == spec_params_size(params@),
{
    let mut total: u64 = 0;
    let mut i: usize = 0;
    while i < params.len()
        invariant
            i <= params@.len(),
            forall|p: int|
                0 <= p < params@.len() ==> spec_param_size(#[trigger] params@[p]) <= usize::MAX,
            spec_params_size(params@) <= bound <= u64::MAX,
            total == spec_params_size(params@.take(i as int)),
        decreases params@.len() - i,
    {
        proof {
            assert(params@.take(i + 1).drop_last() =~= params@.take(i as int));
            assert(params@.take(i + 1).last() == params@[i as int]);
            lemma_params_prefix_bound(params@, i + 1);
        }
        total = total + params[i].size() as u64;
        i += 1;
    }
    proof {
        assert(params@.take(params@.len() as int) =~= params@);
    }
    total
}

/// Append every parameter of a list to `out`, in declaration order.
fn write_param_list(params: &Vec<ModelParam>, out: &mut Vec<u8>)
    ensures
        final(out)@ == old(out)@ + spec_params_bytes(params@),
{
    let ghost orig = out@;
    let mut i: usize = 0;
    while i < params.len()
        invariant
            i <= params@.len(),
            out@ == orig + spec_params_bytes(params@.take(i as int)),
        decreases params@.len() - i,
    {
        params[i].write_to(out);
        proof {
            assert(params@.take(i + 1).drop_last() =~= params@.take(i as int));
            assert(params@.take(i + 1).last() == params@[i as int]);
        }
        i += 1;
    }
    proof {
        assert(params@.take(params@.len() as int) =~= params@);
    }
}

/// A prefix of a parameter list never encodes to more bytes than the whole.
proof fn lemma_params_prefix_bound(s: Seq<ModelParam>, i: int)
    requires
        0 <= i <= s.len(),
    ensures
        spec_params_size(s.take(i)) <= spec_params_size(s),
    decreases s.len() - i,
{
    if i == s.len() {
        assert(s.take(i) =~= s);
    } else {
        lemma_params_prefix_bound(s, i + 1);
        assert(s.take(i + 1).drop_last() =~= s.take(i));
        assert(s.take(i + 1).last() == s[i]);
    }
}

} // verus!

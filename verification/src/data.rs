//! The training input: a sorted `(key, position)` stream in one of four
//! numeric shapes, and the scaled view the trainer reads it through.
//!
//! Float keys and float positions are held as IEEE-754 binary64 bit patterns,
//! so every variant stores `(u64, u64)` words; the tag says how to read them.
//! The view's scale factor is an exact rational `num / den`, applied to
//! integer positions as `floor(p * num / den)` — the mapping the trainer uses
//! to squeeze a top model's output range into `[0, B)`.  The float-facing
//! accessors (real-valued reads, float scales) live outside the verified
//! core.

use vstd::prelude::*;
use vstd::pervasive::unreached;
use superslice::Ext;

use crate::floatbits::f64_bits_trunc;
use crate::floatbits::f64_bits_to_u64_trunc;

verus! {

/// One training input: keys sorted ascending, positions non-decreasing.
/// Float-valued keys or positions are carried as binary64 bit patterns.
pub enum ModelData {
    IntKeyToIntPos(Vec<(u64, u64)>),
    FloatKeyToIntPos(Vec<(u64, u64)>),
    IntKeyToFloatPos(Vec<(u64, u64)>),
    FloatKeyToFloatPos(Vec<(u64, u64)>),
}

/// The raw `(key word, position word)` pairs behind any variant.
pub open spec fn spec_entries(d: ModelData) -> Seq<(u64, u64)> {
    match d {
        ModelData::IntKeyToIntPos(v) => v@,
        ModelData::FloatKeyToIntPos(v) => v@,
        ModelData::IntKeyToFloatPos(v) => v@,
        ModelData::FloatKeyToFloatPos(v) => v@,
    }
}

/// Whether keys are integers (rather than float bit patterns).
pub open spec fn has_int_keys(d: ModelData) -> bool {
    d is IntKeyToIntPos || d is IntKeyToFloatPos
}

/// Whether positions are integers (rather than float bit patterns).
pub open spec fn has_int_positions(d: ModelData) -> bool {
    d is IntKeyToIntPos || d is FloatKeyToIntPos
}

/// The key at index `i` as the `u64` the view hands out: integer keys as
/// they are, float keys rounded toward zero.
pub open spec fn spec_key_at(d: ModelData, i: int) -> u64 {
    if has_int_keys(d) {
        spec_entries(d)[i].0
    } else {
        f64_bits_trunc(spec_entries(d)[i].0)
    }
}

/// Same variant and the same words: the two values are indistinguishable.
pub open spec fn data_eq(a: ModelData, b: ModelData) -> bool {
    &&& (a is IntKeyToIntPos <==> b is IntKeyToIntPos)
    &&& (a is FloatKeyToIntPos <==> b is FloatKeyToIntPos)
    &&& (a is IntKeyToFloatPos <==> b is IntKeyToFloatPos)
    &&& (a is FloatKeyToFloatPos <==> b is FloatKeyToFloatPos)
    &&& spec_entries(a) == spec_entries(b)
}

/// Integer keys sorted ascending — the order `lower_bound` relies on.
pub open spec fn keys_sorted(d: ModelData) -> bool {
    forall|i: int, j: int|
        0 <= i <= j < spec_entries(d).len() ==> spec_entries(d)[i].0 <= spec_entries(d)[j].0
}

/// A position scaled by the exact rational `num / den`, rounded toward minus
/// infinity and saturated to the `u64` range.
pub open spec fn spec_scaled(p: u64, num: u64, den: u64) -> u64
    recommends
        den >= 1,
{
    let q = (p as int) * (num as int) / (den as int);
    if q > u64::MAX {
        u64::MAX
    } else {
        q as u64
    }
}

/// Multiply a position by the exact rational `num / den`, rounding down,
/// saturating at `u64::MAX`.
pub fn scale_position(p: u64, num: u64, den: u64) -> (r: u64)
    requires
        den >= 1,
    ensures
        r == spec_scaled(p, num, den),
{
    proof {
        assert((p as int) * (num as int) <= 0xffff_ffff_ffff_ffff * 0xffff_ffff_ffff_ffff)
            by (nonlinear_arith)
            requires
                p <= 0xffff_ffff_ffff_ffffu64,
                num <= 0xffff_ffff_ffff_ffffu64,
        ;
    }
    let prod: u128 = (p as u128) * (num as u128);
    let q: u128 = prod / (den as u128);
    proof {
        assert((p as u128) * (num as u128) == (p as int) * (num as int)) by (nonlinear_arith);
        assert(prod / (den as u128) == (prod as int) / (den as int)) by (nonlinear_arith)
            requires
                den >= 1,
        ;
    }
    if q > u64::MAX as u128 {
        u64::MAX
    } else {
        q as u64
    }
}

/// Relies on superslice's `Ext::lower_bound_by`: on a slice ordered under the
/// comparator, it returns the first index whose element does not compare
/// `Less`, i.e. the first entry whose key is at least `lookup`.
#[verifier::external_body]
fn slice_lower_bound(entries: &[(u64, u64)], lookup: u64) -> (r: usize)
    requires
        forall|i: int, j: int|
            0 <= i <= j < entries@.len() ==> entries@[i].0 <= entries@[j].0,
    ensures
        r <= entries@.len(),
        forall|i: int| 0 <= i < r ==> entries@[i].0 < lookup,
        forall|i: int| r <= i < entries@.len() ==> entries@[i].0 >= lookup,
{
    entries.lower_bound_by(|e| e.0.cmp(&lookup))
}

impl ModelData {
    /// An empty stream (of the float/float shape, as the neutral default).
    pub fn empty() -> (r: ModelData)
        ensures
            r is FloatKeyToFloatPos,
            spec_entries(r).len() == 0,
    {
        ModelData::FloatKeyToFloatPos(Vec::new())
    }

    /// Number of entries.
    pub fn len(&self) -> (r: usize)
        ensures
            r == spec_entries(*self).len(),
    {
        match self {
            ModelData::IntKeyToIntPos(v) => v.len(),
            ModelData::FloatKeyToIntPos(v) => v.len(),
            ModelData::IntKeyToFloatPos(v) => v.len(),
            ModelData::FloatKeyToFloatPos(v) => v.len(),
        }
    }

    /// The key at `idx` as a `u64`; float keys are rounded toward zero.
    pub fn get_key(&self, idx: usize) -> (r: u64)
        requires
            idx < spec_entries(*self).len(),
        ensures
            r == spec_key_at(*self, idx as int),
    {
        match self {
            ModelData::IntKeyToIntPos(v) => v[idx].0,
            ModelData::FloatKeyToIntPos(v) => f64_bits_to_u64_trunc(v[idx].0),
            ModelData::IntKeyToFloatPos(v) => v[idx].0,
            ModelData::FloatKeyToFloatPos(v) => f64_bits_to_u64_trunc(v[idx].0),
        }
    }

    /// The raw `(key word, position word)` pair at `idx`, whatever the
    /// variant: float keys or positions come out as their bit patterns.
    pub fn get_raw(&self, idx: usize) -> (r: (u64, u64))
        requires
            idx < spec_entries(*self).len(),
        ensures
            r == spec_entries(*self)[idx as int],
    {
        match self {
            ModelData::IntKeyToIntPos(v) => v[idx],
            ModelData::FloatKeyToIntPos(v) => v[idx],
            ModelData::IntKeyToFloatPos(v) => v[idx],
            ModelData::FloatKeyToFloatPos(v) => v[idx],
        }
    }

    /// Direct slice view of an integer/integer stream.  Calling this on any
    /// other variant is a programmer error, so those are ruled out here.
    pub fn as_int_int(&self) -> (r: &[(u64, u64)])
        requires
            *self is IntKeyToIntPos,
        ensures
            r@ == spec_entries(*self),
    {
        match self {
            ModelData::IntKeyToIntPos(v) => v.as_slice(),
            _ => unreached(),
        }
    }

    /// Rescale integer positions in place so that the position range
    /// `[0, max_pos)` maps onto `[0, max_target)`: each position becomes
    /// `floor(p * max_target / max_pos)`.
    pub fn scale_targets_to(&mut self, max_target: u64, max_pos: u64)
        requires
            has_int_positions(*old(self)),
            max_pos >= 1,
        ensures
            (*final(self) is IntKeyToIntPos <==> *old(self) is IntKeyToIntPos),
            (*final(self) is FloatKeyToIntPos <==> *old(self) is FloatKeyToIntPos),
            spec_entries(*final(self)).len() == spec_entries(*old(self)).len(),
            forall|i: int|
                0 <= i < spec_entries(*old(self)).len() ==> spec_entries(*final(self))[i] == (
                spec_entries(*old(self))[i].0,
                spec_scaled(spec_entries(*old(self))[i].1, max_target, max_pos),
            ),
    {
        match self {
            ModelData::IntKeyToIntPos(v) => {
                let ghost orig = v@;
                let mut out: Vec<(u64, u64)> = Vec::new();
                let mut i: usize = 0;
                while i < v.len()
                    invariant
                        i <= v.len(),
                        v@ == orig,
                        max_pos >= 1,
                        out@.len() == i,
                        forall|j: int|
                            0 <= j < i ==> out@[j] == (
                            orig[j].0,
                            spec_scaled(orig[j].1, max_target, max_pos),
                        ),
                    decreases v.len() - i,
                {
                    let (k, p) = v[i];
                    out.push((k, scale_position(p, max_target, max_pos)));
                    i += 1;
                }
                *v = out;
            },
            ModelData::FloatKeyToIntPos(v) => {
                let ghost orig = v@;
                let mut out: Vec<(u64, u64)> = Vec::new();
                let mut i: usize = 0;
                while i < v.len()
                    invariant
                        i <= v.len(),
                        v@ == orig,
                        max_pos >= 1,
                        out@.len() == i,
                        forall|j: int|
                            0 <= j < i ==> out@[j] == (
                            orig[j].0,
                            spec_scaled(orig[j].1, max_target, max_pos),
                        ),
                    decreases v.len() - i,
                {
                    let (k, p) = v[i];
                    out.push((k, scale_position(p, max_target, max_pos)));
                    i += 1;
                }
                *v = out;
            },
            _ => {
                proof {
                    assert(false);
                }
            },
        }
    }
}

/// A bounded, non-restartable pass over an integer/integer stream, handing
/// out `(key, floor(pos * num / den))` pairs for indices in `[idx, stop)`.
pub struct ModelDataIIIterator<'a> {
    pub data: &'a ModelData,
    pub idx: usize,
    pub stop: usize,
    pub num: u64,
    pub den: u64,
}

impl<'a> ModelDataIIIterator<'a> {
    /// The iterator points into an integer/integer stream, its window is
    /// inside the data, and its scale denominator is positive.
    pub open spec fn wf(&self) -> bool {
        &&& *self.data is IntKeyToIntPos
        &&& self.idx <= self.stop <= spec_entries(*self.data).len()
        &&& self.num >= 1
        &&& self.den >= 1
    }

    fn new(data: &'a ModelData, num: u64, den: u64) -> (r: ModelDataIIIterator<'a>)
        requires
            *data is IntKeyToIntPos,
            num >= 1,
            den >= 1,
        ensures
            r.wf(),
            r.data == data,
            r.idx == 0,
            r.stop == spec_entries(*data).len(),
            r.num == num,
            r.den == den,
    {
        let stop = data.len();
        ModelDataIIIterator { data, idx: 0, stop, num, den }
    }

    /// Restrict the pass to the half-open index window `[start, stop)`.
    pub fn bound(&mut self, start: usize, stop: usize)
        requires
            old(self).wf(),
            start < stop <= spec_entries(*old(self).data).len(),
        ensures
            final(self).wf(),
            final(self).data == old(self).data,
            final(self).idx == start,
            final(self).stop == stop,
            final(self).num == old(self).num,
            final(self).den == old(self).den,
    {
        self.idx = start;
        self.stop = stop;
    }

    /// The next `(key, scaled position)` pair, or `None` past the window.
    pub fn next(&mut self) -> (r: Option<(u64, u64)>)
        requires
            old(self).wf(),
        ensures
            final(self).wf(),
            final(self).data == old(self).data,
            final(self).stop == old(self).stop,
            final(self).num == old(self).num,
            final(self).den == old(self).den,
            old(self).idx >= old(self).stop ==> r is None && final(self).idx == old(self).idx,
            old(self).idx < old(self).stop ==> {
                &&& final(self).idx == old(self).idx + 1
                &&& r == Some(
                    (
                        spec_entries(*old(self).data)[old(self).idx as int].0,
                        spec_scaled(
                            spec_entries(*old(self).data)[old(self).idx as int].1,
                            old(self).num,
                            old(self).den,
                        ),
                    ),
                )
            },
    {
        if self.idx >= self.stop {
            return None;
        }
        let (k, p) = match self.data {
            ModelData::IntKeyToIntPos(v) => v[self.idx],
            _ => unreached(),
        };
        self.idx += 1;
        Some((k, scale_position(p, self.num, self.den)))
    }

    /// Drain the rest of the window into a vector of scaled pairs.
    pub fn collect_remaining(&mut self) -> (r: Vec<(u64, u64)>)
        requires
            old(self).wf(),
        ensures
            final(self).wf(),
            final(self).data == old(self).data,
            final(self).stop == old(self).stop,
            final(self).num == old(self).num,
            final(self).den == old(self).den,
            final(self).idx == old(self).stop,
            r@.len() == old(self).stop - old(self).idx,
            forall|j: int|
                0 <= j < r@.len() ==> r@[j] == (
                spec_entries(*old(self).data)[old(self).idx + j].0,
                spec_scaled(
                    spec_entries(*old(self).data)[old(self).idx + j].1,
                    old(self).num,
                    old(self).den,
                ),
            ),
    {
        let mut out: Vec<(u64, u64)> = Vec::new();
        let ghost start = self.idx as int;
        while self.idx < self.stop
            invariant
                self.wf(),
                self.data == old(self).data,
                self.stop == old(self).stop,
                self.num == old(self).num,
                self.den == old(self).den,
                start <= self.idx as int,
                self.idx <= self.stop,
                out@.len() == self.idx - start,
                forall|j: int|
                    0 <= j < out@.len() ==> out@[j] == (
                    spec_entries(*self.data)[start + j].0,
                    spec_scaled(spec_entries(*self.data)[start + j].1, self.num, self.den),
                ),
            decreases self.stop - self.idx,
        {
            let (k, p) = match self.data {
                ModelData::IntKeyToIntPos(v) => v[self.idx],
                _ => unreached(),
            };
            out.push((k, scale_position(p, self.num, self.den)));
            self.idx += 1;
        }
        out
    }
}

/// Uniform access to a training input with an output scale applied on read.
/// The scale is the exact rational `num / den`; the float-facing view with a
/// real-valued scale lives outside the verified core.
pub struct ModelDataWrapper<'a> {
    pub model_data: &'a ModelData,
    pub scale_num: u64,
    pub scale_den: u64,
}

impl<'a> ModelDataWrapper<'a> {
    /// The scale is a positive rational.
    pub open spec fn wf(&self) -> bool {
        self.scale_num >= 1 && self.scale_den >= 1
    }

    /// A view of `md` with the neutral scale 1.
    pub fn new(md: &'a ModelData) -> (r: ModelDataWrapper<'a>)
        ensures
            r.wf(),
            r.model_data == md,
            r.scale_num == 1,
            r.scale_den == 1,
    {
        ModelDataWrapper { model_data: md, scale_num: 1, scale_den: 1 }
    }

    /// Set the output scale to the positive rational `num / den`.
    pub fn set_scale(&mut self, num: u64, den: u64)
        requires
            num >= 1,
            den >= 1,
        ensures
            final(self).wf(),
            final(self).model_data == old(self).model_data,
            final(self).scale_num == num,
            final(self).scale_den == den,
    {
        self.scale_num = num;
        self.scale_den = den;
    }

    /// Number of entries in the underlying stream.
    pub fn len(&self) -> (r: usize)
        ensures
            r == spec_entries(*self.model_data).len(),
    {
        self.model_data.len()
    }

    /// The entry at `idx` of an integer/integer stream with the scale applied
    /// to the position.  With the neutral scale this is exactly the stored
    /// entry.
    pub fn get(&self, idx: usize) -> (r: (u64, u64))
        requires
            self.wf(),
            *self.model_data is IntKeyToIntPos,
            idx < spec_entries(*self.model_data).len(),
        ensures
            r == (
                spec_entries(*self.model_data)[idx as int].0,
                spec_scaled(
                    spec_entries(*self.model_data)[idx as int].1,
                    self.scale_num,
                    self.scale_den,
                ),
            ),
            (self.scale_num == 1 && self.scale_den == 1) ==> r == spec_entries(
                *self.model_data,
            )[idx as int],
    {
        let (k, p) = match self.model_data {
            ModelData::IntKeyToIntPos(v) => v[idx],
            _ => unreached(),
        };
        (k, scale_position(p, self.scale_num, self.scale_den))
    }

    /// The key at `idx` as a `u64`; float keys are rounded toward zero.
    pub fn get_key(&self, idx: usize) -> (r: u64)
        requires
            idx < spec_entries(*self.model_data).len(),
        ensures
            r == spec_key_at(*self.model_data, idx as int),
    {
        self.model_data.get_key(idx)
    }

    /// The smallest index whose key is at least `lookup`, on a sorted
    /// integer/integer stream.
    pub fn lower_bound(&self, lookup: u64) -> (r: usize)
        requires
            *self.model_data is IntKeyToIntPos,
            keys_sorted(*self.model_data),
        ensures
            r <= spec_entries(*self.model_data).len(),
            forall|i: int| 0 <= i < r ==> spec_entries(*self.model_data)[i].0 < lookup,
            forall|i: int|
                r <= i < spec_entries(*self.model_data).len() ==> spec_entries(
                    *self.model_data,
                )[i].0 >= lookup,
    {
        slice_lower_bound(self.as_int_int(), lookup)
    }

    /// A bounded pass over an integer/integer stream with this view's scale.
    pub fn iter_int_int(&self) -> (r: ModelDataIIIterator<'a>)
        requires
            self.wf(),
            *self.model_data is IntKeyToIntPos,
        ensures
            r.wf(),
            r.data == self.model_data,
            r.idx == 0,
            r.stop == spec_entries(*self.model_data).len(),
            r.num == self.scale_num,
            r.den == self.scale_den,
    {
        ModelDataIIIterator::new(self.model_data, self.scale_num, self.scale_den)
    }

    /// Direct slice view of an integer/integer stream.
    pub fn as_int_int(&self) -> (r: &[(u64, u64)])
        requires
            *self.model_data is IntKeyToIntPos,
        ensures
            r@ == spec_entries(*self.model_data),
    {
        self.model_data.as_int_int()
    }

    /// A copy of the underlying stream.
    pub fn into_data(self) -> (r: ModelData)
        ensures
            data_eq(r, *self.model_data),
    {
        self.model_data.clone()
    }
}

impl ModelData {
    /// A bounded pass over an integer/integer stream with the neutral scale.
    pub fn iter_int_int(&self) -> (r: ModelDataIIIterator<'_>)
        requires
            *self is IntKeyToIntPos,
        ensures
            r.wf(),
            r.data == self,
            r.idx == 0,
            r.stop == spec_entries(*self).len(),
            r.num == 1,
            r.den == 1,
    {
        ModelDataIIIterator::new(self, 1, 1)
    }
}

impl Clone for ModelData {
    /// A copy with the same variant and the same words.
    fn clone(&self) -> (res: Self)
        ensures
            data_eq(res, *self),
    {
        match self {
            ModelData::IntKeyToIntPos(v) => ModelData::IntKeyToIntPos(copy_pairs(v)),
            ModelData::FloatKeyToIntPos(v) => ModelData::FloatKeyToIntPos(copy_pairs(v)),
            ModelData::IntKeyToFloatPos(v) => ModelData::IntKeyToFloatPos(copy_pairs(v)),
            ModelData::FloatKeyToFloatPos(v) => ModelData::FloatKeyToFloatPos(copy_pairs(v)),
        }
    }
}

/// Element-for-element copy of a vector of word pairs.
fn copy_pairs(v: &Vec<(u64, u64)>) -> (r: Vec<(u64, u64)>)
    ensures
        r@ == v@,
{
    let mut out: Vec<(u64, u64)> = Vec::new();
    let mut i: usize = 0;
    while i < v.len()
        invariant
            i <= v.len(),
            out@ == v@.take(i as int),
        decreases v.len() - i,
    {
        out.push(v[i]);
        proof {
            assert(v@.take(i + 1) =~= v@.take(i as int).push(v@[i as int]));
        }
        i += 1;
    }
    proof {
        assert(v@.take(v@.len() as int) =~= v@);
    }
    out
}

} // verus!

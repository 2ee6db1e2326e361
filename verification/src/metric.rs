//! The metric primitives: counters, gauges and histograms.
//!
//! A counter is a monotonically driven 64-bit value with wrapping addition, a
//! gauge a signed value, and a histogram a family of cumulative bucket counts
//! over a fixed, ascending sequence of upper bounds. The histogram carries the
//! sequence of all observed values as its ghost model, so the bucket counts
//! are pinned exactly: each one is the number of observations at or below its
//! bound, modulo 64-bit wrap.

use vstd::prelude::*;

verus! {

/// 64-bit wrap of an unbounded integer.
pub open spec fn w64(n: int) -> u64 {
    (n % 0x1_0000_0000_0000_0000) as u64
}

/// Wrapping increment of a signed 64-bit value.
pub open spec fn winc_i64(v: i64) -> i64 {
    if v == i64::MAX {
        i64::MIN
    } else {
        (v + 1) as i64
    }
}

/// Wrapping decrement of a signed 64-bit value.
pub open spec fn wdec_i64(v: i64) -> i64 {
    if v == i64::MIN {
        i64::MAX
    } else {
        (v - 1) as i64
    }
}

/// Wrapping 64-bit addition, the semantics of driving a counter.
pub fn wrap_add_u64(a: u64, b: u64) -> (r: u64)
    ensures
        r == w64(a + b),
{
    if b <= u64::MAX - a {
        proof {
            vstd::arithmetic::div_mod::lemma_small_mod((a + b) as nat, 0x1_0000_0000_0000_0000nat);
        }
        a + b
    } else {
        let r = b - (u64::MAX - a) - 1;
        proof {
            assert(r == a + b - 0x1_0000_0000_0000_0000);
            assert((a + b) % 0x1_0000_0000_0000_0000 == r) by (nonlinear_arith)
                requires
                    0x1_0000_0000_0000_0000 <= a + b < 2 * 0x1_0000_0000_0000_0000,
                    r == a + b - 0x1_0000_0000_0000_0000,
            ;
        }
        r
    }
}

/// Folding a wrapped value into a wrapped sum loses nothing modulo 2^64.
pub proof fn lemma_w64_add(s: int, v: int)
    requires
        0 <= v < 0x1_0000_0000_0000_0000,
    ensures
        w64(w64(s) + v) == w64(s + v),
{
    vstd::arithmetic::div_mod::lemma_add_mod_noop(s, v, 0x1_0000_0000_0000_0000);
    vstd::arithmetic::div_mod::lemma_small_mod(v as nat, 0x1_0000_0000_0000_0000nat);
    vstd::arithmetic::div_mod::lemma_mod_bound(s, 0x1_0000_0000_0000_0000);
    vstd::arithmetic::div_mod::lemma_mod_twice(s, 0x1_0000_0000_0000_0000);
}

/// A monotone counter; its model is its current wrapped value.
pub struct Counter {
    value: u64,
}

impl View for Counter {
    type V = u64;

    closed spec fn view(&self) -> u64 {
        self.value
    }
}

impl Counter {
    /// A fresh counter starts at zero.
    pub fn new() -> (r: Counter)
        ensures
            r@ == 0,
    {
        Counter { value: 0 }
    }

    /// Adds `n` to the counter, wrapping on 64-bit overflow.
    pub fn inc_by(&mut self, n: u64)
        ensures
            final(self)@ == w64(old(self)@ + n),
    {
        self.value = wrap_add_u64(self.value, n);
    }

    /// Adds one to the counter, wrapping on 64-bit overflow.
    pub fn inc(&mut self)
        ensures
            final(self)@ == w64(old(self)@ + 1),
    {
        self.inc_by(1);
    }

    /// The current value.
    pub fn get(&self) -> (r: u64)
        ensures
            r == self@,
    {
        self.value
    }
}

/// A gauge; its model is its current signed value.
pub struct Gauge {
    value: i64,
}

impl View for Gauge {
    type V = i64;

    closed spec fn view(&self) -> i64 {
        self.value
    }
}

impl Gauge {
    /// A fresh gauge starts at zero.
    pub fn new() -> (r: Gauge)
        ensures
            r@ == 0,
    {
        Gauge { value: 0 }
    }

    /// Sets the gauge to `v`.
    pub fn set(&mut self, v: i64)
        ensures
            final(self)@ == v,
    {
        self.value = v;
    }

    /// Adds one, wrapping on signed 64-bit overflow.
    pub fn inc(&mut self)
        ensures
            final(self)@ == winc_i64(old(self)@),
    {
        if self.value == i64::MAX {
            self.value = i64::MIN;
        } else {
            self.value = self.value + 1;
        }
    }

    /// Subtracts one, wrapping on signed 64-bit overflow.
    pub fn dec(&mut self)
        ensures
            final(self)@ == wdec_i64(old(self)@),
    {
        if self.value == i64::MIN {
            self.value = i64::MAX;
        } else {
            self.value = self.value - 1;
        }
    }

    /// The current value.
    pub fn get(&self) -> (r: i64)
        ensures
            r == self@,
    {
        self.value
    }
}

/// The number of observations in `s` at or below `b`.
pub open spec fn count_le(s: Seq<u64>, b: u64) -> int
    decreases s.len(),
{
    if s.len() == 0 {
        0
    } else {
        count_le(s.drop_last(), b) + if s.last() <= b {
            1int
        } else {
            0int
        }
    }
}

/// The sum of all observations in `s`.
pub open spec fn sum_obs(s: Seq<u64>) -> int
    decreases s.len(),
{
    if s.len() == 0 {
        0
    } else {
        sum_obs(s.drop_last()) + s.last()
    }
}

/// Strictly ascending bucket bounds.
pub open spec fn sorted_strict(s: Seq<u64>) -> bool {
    forall|i: int, j: int| 0 <= i < j < s.len() ==> s[i] < s[j]
}

/// The model of a histogram: its bucket bounds and every value it observed.
pub struct HistogramModel {
    pub bounds: Seq<u64>,
    pub obs: Seq<u64>,
}

/// A histogram over fixed ascending bucket upper bounds.
pub struct Histogram {
    bounds: Vec<u64>,
    counts: Vec<u64>,
    total: u64,
    sum: u64,
    obs: Ghost<Seq<u64>>,
}

impl View for Histogram {
    type V = HistogramModel;

    closed spec fn view(&self) -> HistogramModel {
        HistogramModel { bounds: self.bounds@, obs: self.obs@ }
    }
}

impl Histogram {
    /// Well-formed: the stored cumulative counts, total and sum are exactly
    /// what the observation model dictates, modulo 64-bit wrap.
    pub closed spec fn wf(&self) -> bool {
        &&& self.counts@.len() == self.bounds@.len()
        &&& sorted_strict(self.bounds@)
        &&& forall|i: int|
            0 <= i < self.bounds@.len() ==> self.counts@[i] == w64(
                count_le(self.obs@, self.bounds@[i]),
            )
        &&& self.total == w64(self.obs@.len() as int)
        &&& self.sum == w64(sum_obs(self.obs@))
    }

    /// A fresh histogram with the given bounds and no observations.
    pub fn new(bounds: Vec<u64>) -> (r: Histogram)
        requires
            sorted_strict(bounds@),
        ensures
            r.wf(),
            r@.bounds == bounds@,
            r@.obs == Seq::<u64>::empty(),
    {
        let n = bounds.len();
        let counts: Vec<u64> = vec![0u64; n];
        proof {
            assert(forall|i: int| 0 <= i < n ==> counts@[i] == 0) by {
                assert(forall|i: int|
                    0 <= i < n ==> vstd::prelude::cloned::<u64>(0u64, #[trigger] counts@[i]));
            }
            vstd::arithmetic::div_mod::lemma_small_mod(0nat, 0x1_0000_0000_0000_0000nat);
        }
        Histogram { bounds, counts, total: 0, sum: 0, obs: Ghost(Seq::empty()) }
    }

    /// Records one observation.
    pub fn observe(&mut self, v: u64)
        requires
            old(self).wf(),
        ensures
            final(self).wf(),
            final(self)@.bounds == old(self)@.bounds,
            final(self)@.obs == old(self)@.obs.push(v),
    {
        let ghost obs0 = self.obs@;
        let n = self.bounds.len();
        let mut i: usize = 0;
        while i < n
            invariant
                old(self).wf(),
                obs0 == old(self).obs@,
                n == self.bounds@.len(),
                0 <= i <= n,
                self.bounds == old(self).bounds,
                self.total == old(self).total,
                self.sum == old(self).sum,
                self.obs == old(self).obs,
                self.counts@.len() == n,
                forall|j: int|
                    0 <= j < i ==> self.counts@[j] == w64(count_le(obs0.push(v), self.bounds@[j])),
                forall|j: int| i <= j < n ==> self.counts@[j] == old(self).counts@[j],
            decreases n - i,
        {
            let ghost bi = self.bounds@[i as int];
            proof {
                assert(obs0.push(v).drop_last() =~= obs0);
                assert(obs0.push(v).last() == v);
                assert(count_le(obs0.push(v), bi) == count_le(obs0, bi) + if v <= bi {
                    1int
                } else {
                    0int
                });
                assert(self.counts@[i as int] == old(self).counts@[i as int]);
                assert(bi == old(self).bounds@[i as int]);
                assert(obs0 == old(self).obs@);
                assert(old(self).counts@[i as int] == w64(
                    count_le(old(self).obs@, old(self).bounds@[i as int]),
                ));
                assert(self.counts@[i as int] == w64(count_le(obs0, bi)));
            }
            if v <= self.bounds[i] {
                let c = self.counts[i];
                let c2 = wrap_add_u64(c, 1);
                self.counts[i] = c2;
                proof {
                    lemma_w64_add(count_le(obs0, bi), 1);
                    assert(self.counts@[i as int] == w64(count_le(obs0.push(v), bi)));
                }
            } else {
                proof {
                    assert(self.counts@[i as int] == w64(count_le(obs0.push(v), bi)));
                }
            }
            i = i + 1;
        }
        let t2 = wrap_add_u64(self.total, 1);
        self.total = t2;
        let s2 = wrap_add_u64(self.sum, v);
        self.sum = s2;
        proof {
            self.obs@ = obs0.push(v);
            assert(obs0.push(v).drop_last() =~= obs0);
            lemma_w64_add(obs0.len() as int, 1);
            lemma_w64_add(sum_obs(obs0), v as int);
        }
    }

    /// How many buckets the histogram has.
    pub fn num_buckets(&self) -> (r: usize)
        requires
            self.wf(),
        ensures
            r == self@.bounds.len(),
    {
        self.bounds.len()
    }

    /// The upper bound of bucket `i`.
    pub fn bucket_bound(&self, i: usize) -> (r: u64)
        requires
            self.wf(),
            i < self@.bounds.len(),
        ensures
            r == self@.bounds[i as int],
    {
        self.bounds[i]
    }

    /// The cumulative count of bucket `i`: the number of observations at or
    /// below its bound, modulo 64-bit wrap.
    pub fn bucket_count(&self, i: usize) -> (r: u64)
        requires
            self.wf(),
            i < self@.bounds.len(),
        ensures
            r == w64(count_le(self@.obs, self@.bounds[i as int])),
    {
        self.counts[i]
    }

    /// The total number of observations, modulo 64-bit wrap; this is also the
    /// count reported for the unbounded bucket.
    pub fn total_count(&self) -> (r: u64)
        requires
            self.wf(),
        ensures
            r == w64(self@.obs.len() as int),
    {
        self.total
    }

    /// The sum of all observations, modulo 64-bit wrap.
    pub fn sum(&self) -> (r: u64)
        requires
            self.wf(),
        ensures
            r == w64(sum_obs(self@.obs)),
    {
        self.sum
    }
}

/// A pure constructor of fresh histograms over one fixed bucket spec; handed
/// to a registry so that every newly observed label combination of a
/// histogram family gets its own instance with these bounds.
#[derive(Clone)]
pub struct HistogramBuilder {
    /// The ascending upper bounds of the buckets of every histogram built.
    pub buckets: Vec<u64>,
}

impl HistogramBuilder {
    /// Builds a fresh, empty histogram with this spec's bounds.
    pub fn new_metric(&self) -> (r: Histogram)
        requires
            sorted_strict(self.buckets@),
        ensures
            r.wf(),
            r@.bounds == self.buckets@,
            r@.obs == Seq::<u64>::empty(),
    {
        let bounds = self.buckets.clone();
        proof {
            assert(forall|i: int| #![all_triggers] 0 <= i < self.buckets@.len()
                ==> bounds@[i] == self.buckets@[i]);
            assert(bounds@ =~= self.buckets@);
        }
        Histogram::new(bounds)
    }
}

} // verus!

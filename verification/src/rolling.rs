//! Fixed-length rolling statistic window.
//!
//! Each detector keeps the last ten observations in a FIFO window that is
//! zero-seeded, so early averages are biased toward zero until ten real
//! samples have accumulated. The average always divides by the full window
//! length, zero-seeded slots included.

use vstd::prelude::*;
use crate::ratio::Ratio;

verus! {

/// Number of samples a rolling window holds; the length never changes.
pub const WINDOW_LEN: usize = 10;

/// Largest admissible sample: `u64::MAX / WINDOW_LEN`, so that the sum of a
/// full window always fits in a `u64`.
pub const SAMPLE_MAX: u64 = 0x1999_9999_9999_9999;

/// Sum of a sequence of samples, as an unbounded integer.
pub open spec fn sum_of(s: Seq<u64>) -> int
    decreases s.len(),
{
    if s.len() == 0 {
        0
    } else {
        sum_of(s.drop_last()) + s.last()
    }
}

/// The window contents after one push: the oldest sample is dropped and the
/// new one appended.
pub open spec fn pushed(w: Seq<u64>, sample: u64) -> Seq<u64> {
    w.subrange(1, w.len() as int).push(sample)
}

/// The window contents after pushing every sample of `xs` in order.
pub open spec fn pushed_all(w: Seq<u64>, xs: Seq<u64>) -> Seq<u64>
    decreases xs.len(),
{
    if xs.len() == 0 {
        w
    } else {
        pushed(pushed_all(w, xs.drop_last()), xs.last())
    }
}

/// The zero-seeded contents of a fresh window.
pub open spec fn zero_window() -> Seq<u64> {
    Seq::new(WINDOW_LEN as nat, |i: int| 0u64)
}

/// A sequence of samples is bounded when each fits the admissible range.
pub open spec fn samples_bounded(s: Seq<u64>) -> bool {
    forall|i: int| 0 <= i < s.len() ==> s[i] <= SAMPLE_MAX
}

/// The sum of a bounded sequence is at most `len * SAMPLE_MAX`.
pub proof fn lemma_sum_bounded(s: Seq<u64>)
    requires
        samples_bounded(s),
    ensures
        0 <= sum_of(s) <= s.len() * SAMPLE_MAX,
    decreases s.len(),
{
    if s.len() == 0 {
    } else {
        assert(samples_bounded(s.drop_last())) by {
            assert(forall|i: int| 0 <= i < s.len() - 1 ==> s.drop_last()[i] == s[i]);
        }
        lemma_sum_bounded(s.drop_last());
        assert((s.len() - 1) * SAMPLE_MAX + SAMPLE_MAX == s.len() * SAMPLE_MAX)
            by (nonlinear_arith);
    }
}

/// If every sample of a sequence is zero, its sum is zero.
pub proof fn lemma_sum_all_zero(s: Seq<u64>)
    requires
        forall|i: int| 0 <= i < s.len() ==> s[i] == 0,
    ensures
        sum_of(s) == 0,
    decreases s.len(),
{
    if s.len() > 0 {
        lemma_sum_all_zero(s.drop_last());
    }
}

/// After pushing the samples `xs` (at most a window's worth) onto a full
/// window `w`, the length is unchanged, the head holds the surviving tail of
/// `w`, and the tail holds `xs` in order.
pub proof fn lemma_pushed_all(w: Seq<u64>, xs: Seq<u64>)
    requires
        w.len() == WINDOW_LEN,
        xs.len() <= WINDOW_LEN,
    ensures
        pushed_all(w, xs).len() == WINDOW_LEN,
        forall|i: int|
            0 <= i < WINDOW_LEN - xs.len() ==> #[trigger] pushed_all(w, xs)[i] == w[i + xs.len()],
        forall|i: int|
            WINDOW_LEN - xs.len() <= i < WINDOW_LEN ==> #[trigger] pushed_all(w, xs)[i] == xs[i
                - (WINDOW_LEN - xs.len())],
    decreases xs.len(),
{
    if xs.len() == 0 {
    } else {
        lemma_pushed_all(w, xs.drop_last());
    }
}

/// Law of warm-up: starting from the zero-seeded window, after pushing the
/// samples `xs` (fewer than or exactly the window length of them), the first
/// `WINDOW_LEN - xs.len()` slots still hold zero and the tail holds `xs` in
/// order, so the window length never leaves `WINDOW_LEN`.
pub proof fn lemma_warm_up(xs: Seq<u64>)
    requires
        xs.len() <= WINDOW_LEN,
    ensures
        pushed_all(zero_window(), xs).len() == WINDOW_LEN,
        forall|i: int|
            0 <= i < WINDOW_LEN - xs.len() ==> #[trigger] pushed_all(zero_window(), xs)[i] == 0,
        forall|i: int|
            WINDOW_LEN - xs.len() <= i < WINDOW_LEN
                ==> #[trigger] pushed_all(zero_window(), xs)[i] == xs[i - (WINDOW_LEN
                - xs.len())],
{
    lemma_pushed_all(zero_window(), xs);
}

/// Law of steady state: once a full window's worth of zero samples has been
/// pushed, the window sum — hence the rolling average — is exactly zero,
/// whatever the window held before.
pub proof fn lemma_converges_to_zero(w: Seq<u64>, xs: Seq<u64>)
    requires
        w.len() == WINDOW_LEN,
        xs.len() == WINDOW_LEN,
        forall|i: int| 0 <= i < xs.len() ==> xs[i] == 0,
    ensures
        sum_of(pushed_all(w, xs)) == 0,
{
    lemma_pushed_all(w, xs);
    lemma_sum_all_zero(pushed_all(w, xs));
}

/// Rolling FIFO window of exactly `WINDOW_LEN` samples.
pub struct RollingWindow {
    samples: Vec<u64>,
}

impl RollingWindow {
    /// The abstract contents, oldest first.
    pub closed spec fn view(&self) -> Seq<u64> {
        self.samples@
    }

    /// Length is exactly `WINDOW_LEN` and every sample fits the admissible
    /// range, so the window sum fits a `u64`.
    pub closed spec fn wf(&self) -> bool {
        self.samples@.len() == WINDOW_LEN && samples_bounded(self.samples@)
    }

    /// Fresh window, seeded with zeros.
    pub fn new() -> (w: RollingWindow)
        ensures
            w.wf(),
            w.view() == zero_window(),
    {
        let mut samples: Vec<u64> = Vec::new();
        let mut k: usize = 0;
        while k < WINDOW_LEN
            invariant
                k <= WINDOW_LEN,
                samples@.len() == k,
                forall|i: int| 0 <= i < k ==> samples@[i] == 0,
            decreases WINDOW_LEN - k,
        {
            samples.push(0);
            k = k + 1;
        }
        let w = RollingWindow { samples };
        proof {
            assert(w.view() =~= zero_window());
        }
        w
    }

    /// Pushes a new sample: drops the oldest, appends the newest.
    pub fn push(&mut self, sample: u64)
        requires
            old(self).wf(),
            sample <= SAMPLE_MAX,
        ensures
            final(self).wf(),
            final(self).view() == pushed(old(self).view(), sample),
    {
        self.samples.remove(0);
        self.samples.push(sample);
        proof {
            assert(self.view() =~= pushed(old(self).view(), sample));
        }
    }

    /// The stored samples, oldest first.
    pub fn samples(&self) -> (r: &Vec<u64>)
        ensures
            r@ == self.view(),
    {
        &self.samples
    }

    /// Most recently pushed sample.
    pub fn latest(&self) -> (r: u64)
        requires
            self.wf(),
        ensures
            r == self.view().last(),
    {
        self.samples[WINDOW_LEN - 1]
    }

    /// Sum of all samples in the window.
    pub fn sum(&self) -> (r: u64)
        requires
            self.wf(),
        ensures
            r == sum_of(self.view()),
    {
        proof {
            lemma_sum_bounded(self.samples@);
        }
        let mut acc: u64 = 0;
        let mut k: usize = 0;
        while k < WINDOW_LEN
            invariant
                self.wf(),
                k <= WINDOW_LEN,
                acc == sum_of(self.samples@.take(k as int)),
                sum_of(self.samples@.take(k as int))
                    <= sum_of(self.samples@.take(k as int)) + (WINDOW_LEN - k) * SAMPLE_MAX,
                sum_of(self.samples@) <= WINDOW_LEN * SAMPLE_MAX,
            decreases WINDOW_LEN - k,
        {
            proof {
                assert(self.samples@.take(k as int + 1).drop_last() =~= self.samples@.take(
                    k as int,
                ));
                lemma_sum_bounded(self.samples@.take(k as int));
                assert(samples_bounded(self.samples@.take(k as int))) by {
                    assert(forall|i: int|
                        0 <= i < k ==> self.samples@.take(k as int)[i] == self.samples@[i]);
                }
                assert(sum_of(self.samples@.take(k as int)) <= k * SAMPLE_MAX);
                assert(k * SAMPLE_MAX + SAMPLE_MAX <= WINDOW_LEN * SAMPLE_MAX)
                    by (nonlinear_arith)
                    requires
                        k < 10,
                        WINDOW_LEN == 10,
                ;
            }
            acc = acc + self.samples[k];
            k = k + 1;
        }
        proof {
            assert(self.samples@.take(WINDOW_LEN as int) =~= self.samples@);
        }
        acc
    }

    /// Mean over the full window: the sum divided by `WINDOW_LEN`, including
    /// any zero-seeded slots.
    pub fn average(&self) -> (r: Ratio)
        requires
            self.wf(),
        ensures
            r.num == sum_of(self.view()),
            r.den == WINDOW_LEN,
            r.wf(),
    {
        Ratio::new(self.sum(), WINDOW_LEN as u64)
    }
}

} // verus!

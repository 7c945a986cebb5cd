//! Reduction of the sample rate by keeping every `n`th sample, with the
//! largest factor that stays safe for the cutoff frequency.

use vstd::prelude::*;
use vstd::arithmetic::div_mod::{lemma_add_mod_noop, lemma_mod_self_0, lemma_small_mod};
use crate::frequencies::ValidInputFrequencies;

verus! {

/// `f` is a factor by which `rate` can be divided while the reduced rate stays
/// at or above four times the cutoff frequency (the Nyquist rate with a margin
/// for the roll-off of the lowpass filter).
pub open spec fn is_safe_factor(rate: nat, cutoff: nat, f: nat) -> bool {
    1 <= f && f <= rate / 2 && rate % f == 0 && rate / f >= cutoff * 4
}

/// `f` is the largest safe factor, or `1` when no factor is safe.
pub open spec fn is_chosen_factor(rate: nat, cutoff: nat, f: nat) -> bool {
    if exists|g: nat| is_safe_factor(rate, cutoff, g) {
        is_safe_factor(rate, cutoff, f) && forall|g: nat| #[trigger]
            is_safe_factor(rate, cutoff, g) ==> g <= f
    } else {
        f == 1
    }
}

/// The downsampling factor and the sample rate that results from it.
#[derive(Debug, Clone, Copy)]
pub struct DownsamplingMetrics {
    factor: usize,
    effective_sample_rate_hz: u32,
    input: ValidInputFrequencies,
}

/// Searches the largest safe factor, from `rate / 2` down to `1`.
fn max_safe_factor(rate: u32, cutoff: u32) -> (f: u32)
    ensures
        is_chosen_factor(rate as nat, cutoff as nat, f as nat),
{
    let min_safe_hz: u64 = cutoff as u64 * 4;
    let mut f: u32 = rate / 2;
    while f >= 1
        invariant
            f <= rate / 2,
            min_safe_hz == cutoff as nat * 4,
            forall|g: nat| f < g ==> !#[trigger] is_safe_factor(rate as nat, cutoff as nat, g),
        decreases f,
    {
        if rate % f == 0 && (rate / f) as u64 >= min_safe_hz {
            assert(is_safe_factor(rate as nat, cutoff as nat, f as nat));
            return f;
        }
        f = f - 1;
    }
    assert forall|g: nat| !#[trigger] is_safe_factor(rate as nat, cutoff as nat, g) by {
        if g == 0 {
        }
    }
    1
}

impl DownsamplingMetrics {
    /// The factor (`n`: every `n`th sample is kept).
    pub closed spec fn factor_spec(&self) -> nat {
        self.factor as nat
    }

    /// The sample rate after downsampling (Hz).
    pub closed spec fn effective_rate(&self) -> nat {
        self.effective_sample_rate_hz as nat
    }

    /// The frequencies that the metrics were computed from.
    pub closed spec fn input_spec(&self) -> ValidInputFrequencies {
        self.input
    }

    /// The factor is at least one, divides the sample rate, and gives the
    /// effective rate.
    pub open spec fn wf(&self) -> bool {
        &&& self.factor_spec() >= 1
        &&& self.input_spec().rate() % self.factor_spec() == 0
        &&& self.effective_rate() == self.input_spec().rate() / self.factor_spec()
        &&& self.input_spec().wf()
    }

    /// Metrics with the largest factor that is safe for `input`.
    pub fn new(input: ValidInputFrequencies) -> (r: Self)
        requires
            input.wf(),
        ensures
            r.wf(),
            r.input_spec() == input,
            is_chosen_factor(input.rate(), input.cutoff(), r.factor_spec()),
    {
        let rate = input.sample_rate_hz();
        let f = max_safe_factor(rate, input.cutoff_fr_hz());
        Self { factor: f as usize, effective_sample_rate_hz: rate / f, input }
    }

    /// Metrics that keep every sample.
    pub fn new_disabled(input: ValidInputFrequencies) -> (r: Self)
        requires
            input.wf(),
        ensures
            r.wf(),
            r.input_spec() == input,
            r.factor_spec() == 1,
    {
        let rate = input.sample_rate_hz();
        Self { factor: 1, effective_sample_rate_hz: rate, input }
    }

    /// The downsampling factor.
    pub fn factor(&self) -> (r: usize)
        ensures
            r as nat == self.factor_spec(),
    {
        self.factor
    }

    /// The sample rate after downsampling (Hz).
    pub fn effective_sample_rate_hz(&self) -> (r: u32)
        ensures
            r as nat == self.effective_rate(),
    {
        self.effective_sample_rate_hz
    }

    /// The frequencies that the metrics were computed from.
    pub fn input(&self) -> (r: ValidInputFrequencies)
        ensures
            r == self.input_spec(),
    {
        self.input
    }
}

/// Whatever the chosen factor, it divides the sample rate; and where the
/// sample rate is at least four times the cutoff frequency, the reduced rate
/// is too.
pub proof fn lemma_chosen_factor_is_safe(rate: nat, cutoff: nat, f: nat)
    requires
        cutoff * 2 <= rate,
        is_chosen_factor(rate, cutoff, f),
    ensures
        f >= 1,
        rate % f == 0,
        cutoff * 4 <= rate ==> rate / f >= cutoff * 4,
{
    if !(exists|g: nat| is_safe_factor(rate, cutoff, g)) {
        assert(rate % 1 == 0);
        assert(rate / 1 == rate);
    }
}

/// The samples that the downsampler keeps from `s` when its phase counter
/// starts at `phase`: those at the positions `k` with `(phase + k) % n == 0`.
pub open spec fn kept<T>(s: Seq<T>, phase: nat, n: nat) -> Seq<T>
    decreases s.len(),
{
    if s.len() == 0 {
        Seq::empty()
    } else {
        let k = (s.len() - 1) as nat;
        let rest = kept(s.drop_last(), phase, n);
        if (phase + k) % n == 0 {
            rest.push(s[k as int])
        } else {
            rest
        }
    }
}

/// Keeps every `n`th sample of a stream that arrives in chunks.
#[derive(Debug, Clone, Copy)]
pub struct Downsampler {
    /// Position within the current group of `n` samples; the sample at
    /// position `0` is kept.
    i: usize,
    n_th: usize,
    metrics: DownsamplingMetrics,
}

impl Downsampler {
    /// The phase counter.
    pub closed spec fn phase_spec(&self) -> nat {
        self.i as nat
    }

    /// The factor `n`.
    pub closed spec fn n(&self) -> nat {
        self.n_th as nat
    }

    /// The metrics the downsampler was made with.
    pub closed spec fn metrics_spec(&self) -> DownsamplingMetrics {
        self.metrics
    }

    /// The phase counter stays below the factor, which is the metrics' one.
    pub open spec fn wf(&self) -> bool {
        &&& self.phase_spec() < self.n()
        &&& self.n() == self.metrics_spec().factor_spec()
        &&& self.metrics_spec().wf()
    }

    /// A downsampler that keeps the first sample it sees.
    pub fn new(metrics: DownsamplingMetrics) -> (r: Self)
        requires
            metrics.wf(),
        ensures
            r.wf(),
            r.phase_spec() == 0,
            r.metrics_spec() == metrics,
    {
        Self { i: 0, n_th: metrics.factor(), metrics }
    }

    /// Returns the samples of `samples` that fall on phase `0`, in order, and
    /// advances the phase counter by `samples.len()` modulo the factor.
    pub fn downsample<T: Copy>(&mut self, samples: &[T]) -> (r: Vec<T>)
        requires
            old(self).wf(),
        ensures
            final(self).wf(),
            final(self).n() == old(self).n(),
            final(self).metrics_spec() == old(self).metrics_spec(),
            final(self).phase_spec() == (old(self).phase_spec() + samples@.len()) % old(self).n(),
            r@ == kept(samples@, old(self).phase_spec(), old(self).n()),
    {
        let ghost phase0 = self.i as nat;
        let ghost n = self.n_th as nat;
        let mut out: Vec<T> = Vec::new();
        let mut k: usize = 0;
        proof {
            lemma_small_mod(phase0, n);
        }
        while k < samples.len()
            invariant
                self.wf(),
                self.n() == n,
                self.metrics_spec() == old(self).metrics_spec(),
                phase0 == old(self).phase_spec(),
                n == old(self).n(),
                k <= samples@.len(),
                self.i as int == (phase0 + k) % (n as int),
                out@ == kept(samples@.take(k as int), phase0, n),
            decreases samples@.len() - k,
        {
            let x = samples[k];
            if self.i == 0 {
                out.push(x);
            }
            proof {
                let s1 = samples@.take(k as int + 1);
                assert(s1.drop_last() =~= samples@.take(k as int));
                assert(s1[k as int] == x);
                lemma_add_mod_noop((phase0 + k) as int, 1, n as int);
                if n == 1 {
                    assert((phase0 + k + 1) % 1 == 0);
                } else {
                    lemma_small_mod(1, n);
                    if self.i + 1 < n {
                        lemma_small_mod((self.i + 1) as nat, n);
                    } else {
                        lemma_mod_self_0(n as int);
                    }
                }
            }
            self.i = self.i + 1;
            if self.i == self.n_th {
                self.i = 0;
            }
            k = k + 1;
        }
        assert(samples@.take(k as int) =~= samples@);
        out
    }

    /// The metrics the downsampler was made with.
    pub fn metrics(&self) -> (r: &DownsamplingMetrics)
        ensures
            *r == self.metrics_spec(),
    {
        &self.metrics
    }

    /// The phase counter: how many samples after the last kept one were seen,
    /// modulo the factor.
    pub fn phase(&self) -> (r: usize)
        ensures
            r as nat == self.phase_spec(),
    {
        self.i
    }
}

} // verus!

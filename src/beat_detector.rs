//! The beat detector: downsampling, history and envelope search, with each
//! beat reported once.

use vstd::prelude::*;
use vstd::arithmetic::div_mod::lemma_fundamental_div_mod;
use crate::audio_history::{window, AudioHistory};
use crate::downsampling::{is_chosen_factor, kept, Downsampler, DownsamplingMetrics};
use crate::envelope_iterator::{
    dominates, envelope_step, first_candidate, first_dominant, lemma_first_candidate_bounds,
    lemma_first_dominant_bounds, magnitude_sum, overlaps, run_max, trend_end, trend_len,
    EnvelopeInfo, EnvelopeIterator,
};
use crate::frequencies::ValidInputFrequencies;
use crate::max_min_iterator::{lemma_peak_start_bounds, lemma_peaks_from_bounds, peak_start, peaks_from};
use crate::root_iterator::{lemma_next_root_bounds, magnitude};

verus! {

/// A detected beat.
pub type BeatInfo = EnvelopeInfo;

/// Where the search for the next beat starts: at the end of the previous
/// beat while the history still holds it, else at the oldest sample.
pub open spec fn search_begin(h: AudioHistory, previous: Option<EnvelopeInfo>) -> int {
    match previous {
        Some(b) => match h.index_of(b.to.total_index as nat) {
            Some(i) => i as int,
            None => 0,
        },
        None => 0,
    }
}

/// The beat found in the history `h` after the `previous` one.
pub open spec fn detection(h: AudioHistory, previous: Option<EnvelopeInfo>) -> Option<EnvelopeInfo> {
    if h.samples().len() == 0 {
        None
    } else {
        envelope_step(h, search_begin(h, previous)).0
    }
}

/// The beat was found in `h`: it starts before it ends, and it ended before
/// the latest sample of `h`.
pub open spec fn beat_fits(h: AudioHistory, b: EnvelopeInfo) -> bool {
    b.from.total_index < b.to.total_index && b.to.total_index < h.total()
}

/// Detects beats in a stream of mono samples that arrives in chunks.
#[derive(Debug)]
pub struct BeatDetector {
    downsampler: Downsampler,
    history: AudioHistory,
    previous_beat: Option<EnvelopeInfo>,
}

impl BeatDetector {
    /// The downsampler.
    pub closed spec fn downsampler_spec(&self) -> Downsampler {
        self.downsampler
    }

    /// The audio history.
    pub closed spec fn history_spec(&self) -> AudioHistory {
        self.history
    }

    /// The beat reported last, if any.
    pub closed spec fn previous_beat(&self) -> Option<EnvelopeInfo> {
        self.previous_beat
    }

    /// The history receives samples at the downsampler's factor; the last
    /// beat lies within what the history received.
    pub open spec fn wf(&self) -> bool {
        &&& self.downsampler_spec().wf()
        &&& self.history_spec().wf()
        &&& self.history_spec().factor() == self.downsampler_spec().n()
        &&& (self.previous_beat() matches Some(b) ==> beat_fits(self.history_spec(), b))
    }

    /// A detector for samples at `frequencies.sample_rate_hz()`, already
    /// lowpass filtered at the cutoff frequency (or band-limited). With
    /// `do_downsample` the samples are reduced by the largest safe factor.
    /// `filter_group_delay` is the delay of that filter in samples.
    pub fn new(
        frequencies: ValidInputFrequencies,
        do_downsample: bool,
        filter_group_delay: Option<usize>,
    ) -> (r: Self)
        requires
            frequencies.wf(),
            frequencies.rate() > 0,
        ensures
            r.wf(),
            r.previous_beat() is None,
            r.history_spec().total() == 0,
            r.downsampler_spec().phase_spec() == 0,
            r.downsampler_spec().metrics_spec().input_spec() == frequencies,
            do_downsample ==> is_chosen_factor(
                frequencies.rate(),
                frequencies.cutoff(),
                r.downsampler_spec().n(),
            ),
            !do_downsample ==> r.downsampler_spec().n() == 1,
            r.history_spec().rate() == r.downsampler_spec().metrics_spec().effective_rate(),
            r.history_spec().group_delay() == match filter_group_delay {
                Some(d) => d as nat,
                None => 0,
            },
    {
        let metrics = if do_downsample {
            DownsamplingMetrics::new(frequencies)
        } else {
            DownsamplingMetrics::new_disabled(frequencies)
        };
        proof {
            let rate = frequencies.rate() as int;
            let f = metrics.factor_spec() as int;
            lemma_fundamental_div_mod(rate, f);
            let q = rate / f;
            assert(q > 0) by (nonlinear_arith)
                requires
                    rate == f * q,
                    rate > 0,
                    f >= 1,
                    q >= 0,
            ;
        }
        let history = AudioHistory::new(
            frequencies.sample_rate_hz(),
            Some(metrics),
            filter_group_delay,
        );
        let downsampler = Downsampler::new(metrics);
        Self { downsampler, history, previous_beat: None }
    }

    /// Adds the samples (downsampled) to the history and returns the next
    /// beat after the last one reported, if the history holds one; that beat
    /// is then the last one reported.
    pub fn update_and_detect_beat(&mut self, mono_samples: &[i16]) -> (r: Option<BeatInfo>)
        requires
            old(self).wf(),
            (old(self).history_spec().total() + mono_samples@.len())
                * old(self).history_spec().factor() <= usize::MAX,
        ensures
            final(self).wf(),
            final(self).history_spec().samples() == window(
                old(self).history_spec().samples() + kept(
                    mono_samples@,
                    old(self).downsampler_spec().phase_spec(),
                    old(self).downsampler_spec().n(),
                ),
            ),
            final(self).history_spec().total() == old(self).history_spec().total() + kept(
                mono_samples@,
                old(self).downsampler_spec().phase_spec(),
                old(self).downsampler_spec().n(),
            ).len(),
            final(self).history_spec().rate() == old(self).history_spec().rate(),
            final(self).history_spec().factor() == old(self).history_spec().factor(),
            final(self).history_spec().group_delay() == old(self).history_spec().group_delay(),
            final(self).downsampler_spec().phase_spec() == (old(self).downsampler_spec().phase_spec()
                + mono_samples@.len()) % old(self).downsampler_spec().n(),
            final(self).downsampler_spec().metrics_spec()
                == old(self).downsampler_spec().metrics_spec(),
            mono_samples@.len() == 0 ==> final(self).history_spec().samples() == old(
                self,
            ).history_spec().samples() && final(self).history_spec().total() == old(
                self,
            ).history_spec().total(),
            r == detection(final(self).history_spec(), old(self).previous_beat()),
            final(self).previous_beat() == (if r is Some {
                r
            } else {
                old(self).previous_beat()
            }),
            r matches Some(b) ==> b.from.total_index < b.to.total_index,
            r matches Some(b) ==> (old(self).previous_beat() matches Some(p)
                ==> p.to.total_index <= b.from.total_index),
    {
        proof {
            lemma_kept_len(
                mono_samples@,
                self.downsampler.phase_spec(),
                self.downsampler.n(),
            );
            vstd::arithmetic::mul::lemma_mul_inequality(
                (self.history.total() + kept(
                    mono_samples@,
                    self.downsampler.phase_spec(),
                    self.downsampler.n(),
                ).len()) as int,
                (self.history.total() + mono_samples@.len()) as int,
                self.history.factor() as int,
            );
        }
        assert(window(self.history.samples()) == self.history.samples());
        assert(self.history.samples() + Seq::<i16>::empty() =~= self.history.samples());
        let samples = self.downsampler.downsample(mono_samples);
        self.history.update(samples.as_slice());
        if self.history.len() == 0 {
            return None;
        }
        let begin = match self.previous_beat {
            Some(b) => self.history.total_index_to_index(b.to.total_index),
            None => None,
        };
        let mut envelopes = EnvelopeIterator::new(&self.history, begin);
        let beat = envelopes.next();
        proof {
            let h = self.history;
            let c = search_begin(h, old(self).previous_beat());
            lemma_envelope_bounds(h, c);
        }
        if let Some(b) = beat {
            self.previous_beat = Some(b);
        }
        beat
    }

    /// The beat reported last, if any.
    pub fn last_beat(&self) -> (r: Option<BeatInfo>)
        ensures
            r == self.previous_beat(),
    {
        self.previous_beat
    }

    /// The audio history.
    pub fn history(&self) -> (r: &AudioHistory)
        ensures
            *r == self.history_spec(),
    {
        &self.history
    }
}

/// Detection reads no more of a history than its samples, its count, its
/// rate and its bookkeeping parameters. An empty feed leaves those as they
/// are, so repeating an empty feed repeats its result: after an empty feed
/// that found no beat, the next one finds none either.
pub proof fn lemma_empty_feed_is_idempotent(
    h1: AudioHistory,
    h2: AudioHistory,
    previous: Option<EnvelopeInfo>,
)
    requires
        h1.samples() == h2.samples(),
        h1.total() == h2.total(),
        h1.rate() == h2.rate(),
        h1.factor() == h2.factor(),
        h1.group_delay() == h2.group_delay(),
    ensures
        detection(h1, previous) == detection(h2, previous),
{
    assert forall|i: int| #[trigger] h1.info_at(i) == h2.info_at(i) by {}
    assert(search_begin(h1, previous) == search_begin(h2, previous));
    let c = search_begin(h1, previous);
    assert(envelope_step(h1, c) == envelope_step(h2, c));
}

/// The downsampler never keeps more samples than it is given.
pub proof fn lemma_kept_len(s: Seq<i16>, phase: nat, n: nat)
    ensures
        kept(s, phase, n).len() <= s.len(),
    decreases s.len(),
{
    if s.len() > 0 {
        lemma_kept_len(s.drop_last(), phase, n);
    }
}

proof fn lemma_run_max_bounds(
    s: Seq<i16>,
    ps: Seq<int>,
    j: int,
    acc: int,
    count: nat,
    sum: nat,
    lo: int,
    hi: int,
)
    requires
        lo <= acc < hi,
        forall|i: int| 0 <= i < ps.len() ==> lo <= #[trigger] ps[i] < hi,
    ensures
        lo <= run_max(s, ps, j, acc, count, sum) < hi,
    decreases ps.len() - j,
{
    if !(j < 0 || j >= ps.len() || !dominates(s, ps[j], count, sum)) {
        let next_acc = if magnitude(s[acc]) > magnitude(
            s[ps[j]],
        ) {
            acc
        } else {
            ps[j]
        };
        lemma_run_max_bounds(s, ps, j + 1, next_acc, count, sum, lo, hi);
    }
}

proof fn lemma_trend_len_bound(s: Seq<i16>, ps: Seq<int>, i: int)
    requires
        0 <= i,
    ensures
        trend_len(s, ps, i) > 0 ==> i + trend_len(s, ps, i) + 2 <= ps.len(),
    decreases ps.len() - i,
{
    if i + 2 < ps.len() {
        lemma_trend_len_bound(s, ps, i + 1);
    }
}

/// An envelope found from cursor `c` begins at or after `c`, and its loudest
/// peak lies strictly after its begin and at or before its end.
proof fn lemma_envelope_bounds(h: AudioHistory, c: int)
    requires
        h.wf(),
        0 <= c < h.samples().len(),
    ensures
        envelope_step(h, c).0 matches Some(b) ==> c + h.lost() <= b.from.total_index
            && b.from.total_index < b.to.total_index && b.to.total_index < h.total(),
{
    let s = h.samples();
    assert(h.total() <= usize::MAX) by (nonlinear_arith)
        requires
            h.total() * h.factor() <= usize::MAX,
            h.factor() >= 1,
    ;
    lemma_peak_start_bounds(s, c);
    lemma_next_root_bounds(s, c);
    let ps = peaks_from(s, peak_start(s, c));
    lemma_peaks_from_bounds(s, peak_start(s, c));
    lemma_first_candidate_bounds(s, ps, 0);
    let j = first_candidate(s, ps, 0);
    if j < ps.len() {
        let begin = ps[j];
        assert(c <= begin && begin + 1 < s.len());
        let all = peaks_from(s, peak_start(s, 0));
        let count = all.len();
        let sum = magnitude_sum(s, all);
        lemma_peak_start_bounds(s, begin + 1);
        lemma_next_root_bounds(s, begin + 1);
        let qs = peaks_from(s, peak_start(s, begin + 1));
        lemma_peaks_from_bounds(s, peak_start(s, begin + 1));
        lemma_first_dominant_bounds(s, qs, 0, count, sum);
        let k = first_dominant(s, qs, 0, count, sum);
        if count != 0 && k < qs.len() {
            lemma_run_max_bounds(s, qs, k + 1, qs[k], count, sum, begin + 1, s.len() as int);
            let max = run_max(s, qs, k + 1, qs[k], count, sum);
            assert(begin < max < s.len());
            lemma_peak_start_bounds(s, max);
            lemma_next_root_bounds(s, max);
            let rs = peaks_from(s, peak_start(s, max));
            lemma_peaks_from_bounds(s, peak_start(s, max));
            lemma_trend_len_bound(s, rs, 0);
            let t = trend_len(s, rs, 0);
            if t > 0 {
                let end = rs[t - 1];
                assert(max <= end && end < s.len());
                assert(trend_end(s, max) == Some(end));
                assert(envelope_step(h, c).0 matches Some(b) ==> b.from == h.info_at(begin)
                    && b.to == h.info_at(end));
            }
        }
    }
}

/// Beats that each start before they end, and each at or after the end of
/// the one before, never overlap: a sequence of beats that the detector
/// reported, in the order reported, holds no two with overlapping ranges.
pub proof fn lemma_reported_beats_do_not_overlap(beats: Seq<EnvelopeInfo>)
    requires
        forall|i: int| 0 <= i < beats.len() ==> #[trigger] beats[i].from.total_index
            < beats[i].to.total_index,
        forall|i: int|
            0 < i < beats.len() ==> beats[i - 1].to.total_index
                <= #[trigger] beats[i].from.total_index,
    ensures
        forall|i: int, j: int|
            0 <= i < j < beats.len() ==> !overlaps(#[trigger] beats[i], #[trigger] beats[j])
                && !overlaps(beats[j], beats[i]),
{
    assert forall|i: int, j: int| 0 <= i < j < beats.len() implies !overlaps(
        #[trigger] beats[i],
        #[trigger] beats[j],
    ) && !overlaps(beats[j], beats[i]) by {
        lemma_ends_before(beats, i, j);
    }
}

proof fn lemma_ends_before(beats: Seq<EnvelopeInfo>, i: int, j: int)
    requires
        0 <= i < j < beats.len(),
        forall|x: int| 0 <= x < beats.len() ==> #[trigger] beats[x].from.total_index
            < beats[x].to.total_index,
        forall|x: int|
            0 < x < beats.len() ==> beats[x - 1].to.total_index
                <= #[trigger] beats[x].from.total_index,
    ensures
        beats[i].to.total_index <= beats[j].from.total_index,
    decreases j - i,
{
    if j > i + 1 {
        lemma_ends_before(beats, i, j - 1);
        assert(beats[j - 1].from.total_index < beats[j - 1].to.total_index);
    }
}

} // verus!

//! Envelopes of the waveform: the rise, peak and decay of the energy of one
//! beat.

use vstd::prelude::*;
use core::cmp::Ordering;
use crate::audio_history::{AudioHistory, SampleInfo};
use crate::max_min_iterator::{
    lemma_peak_start_bounds, lemma_peak_step_bounds, lemma_peaks_from_bounds, peak_start,
    peak_step, peaks_from, MaxMinIterator,
};
use crate::ring::HISTORY_CAPACITY;
use crate::root_iterator::{magnitude, magnitude_of};

verus! {

/// Peaks quieter than this (10% of full scale) start no envelope.
pub const ENVELOPE_MIN_VALUE: u16 = 3276;

/// How many times louder than the average peak the loudest peak of an
/// envelope must be at least.
pub const ENVELOPE_MAX_PEAK_TO_AVG_MIN_RATIO: u64 = 2;

/// The shortest realistic duration of an envelope (milliseconds). An envelope
/// that starts less than this before the latest sample is not looked at yet.
pub const ENVELOPE_MIN_DURATION_MS: u64 = 140;

/// [`ENVELOPE_MIN_DURATION_MS`] in nanoseconds.
pub const ENVELOPE_MIN_DURATION_NS: u128 = 140_000_000;

/// Within a descending trend of peaks, one peak may be louder than the one
/// before it by up to this percentage.
pub const MAX_NEXT_TO_CURR_OUT_OF_LINE_PERCENT: u64 = 105;

/// The position in `ps` (from `j` on) of the first peak that is loud enough to
/// start an envelope, or `ps.len()`.
pub open spec fn first_candidate(s: Seq<i16>, ps: Seq<int>, j: int) -> int
    decreases ps.len() - j,
{
    if j < 0 || j >= ps.len() {
        ps.len() as int
    } else if magnitude(s[ps[j]]) >= ENVELOPE_MIN_VALUE {
        j
    } else {
        first_candidate(s, ps, j + 1)
    }
}

/// The sum of the magnitudes of the peaks at the positions `ps`.
pub open spec fn magnitude_sum(s: Seq<i16>, ps: Seq<int>) -> nat
    decreases ps.len(),
{
    if ps.len() == 0 {
        0
    } else {
        magnitude_sum(s, ps.drop_last()) + magnitude(s[ps.last()]) as nat
    }
}

/// The peak at `p` is at least twice as loud as the average of `count` peaks
/// whose magnitudes sum to `sum`.
pub open spec fn dominates(s: Seq<i16>, p: int, count: nat, sum: nat) -> bool {
    magnitude(s[p]) * count >= ENVELOPE_MAX_PEAK_TO_AVG_MIN_RATIO * sum
}

/// The position in `ps` (from `j` on) of the first dominant peak, or
/// `ps.len()`.
pub open spec fn first_dominant(s: Seq<i16>, ps: Seq<int>, j: int, count: nat, sum: nat) -> int
    decreases ps.len() - j,
{
    if j < 0 || j >= ps.len() {
        ps.len() as int
    } else if dominates(s, ps[j], count, sum) {
        j
    } else {
        first_dominant(s, ps, j + 1, count, sum)
    }
}

/// The loudest peak of the run of dominant peaks that goes on at `ps[j]`,
/// given the loudest one `acc` so far; of equally loud peaks the last one.
pub open spec fn run_max(s: Seq<i16>, ps: Seq<int>, j: int, acc: int, count: nat, sum: nat) -> int
    decreases ps.len() - j,
{
    if j < 0 || j >= ps.len() || !dominates(s, ps[j], count, sum) {
        acc
    } else {
        let next_acc = if magnitude(s[acc]) > magnitude(s[ps[j]]) {
            acc
        } else {
            ps[j]
        };
        run_max(s, ps, j + 1, next_acc, count, sum)
    }
}

/// Three consecutive peak magnitudes keep up a descending trend: the second
/// is not louder than the first, or louder by at most 5% and the third falls
/// back to the first or below.
pub open spec fn continues_descent(cur: int, next: int, next_next: int) -> bool {
    next <= cur || (next * 100 <= cur * MAX_NEXT_TO_CURR_OUT_OF_LINE_PERCENT && next_next <= cur)
}

/// How many consecutive triples of peaks, from `ps[i]` on, keep up a
/// descending trend.
pub open spec fn trend_len(s: Seq<i16>, ps: Seq<int>, i: int) -> nat
    decreases ps.len() - i,
{
    if i < 0 || i + 2 >= ps.len() || !continues_descent(
        magnitude(s[ps[i]]),
        magnitude(s[ps[i + 1]]),
        magnitude(s[ps[i + 2]]),
    ) {
        0
    } else {
        1 + trend_len(s, ps, i + 1)
    }
}

/// The last peak of the descending trend of the peaks after the first root at
/// or after `m`; `None` where not even the first triple descends.
pub open spec fn trend_end(s: Seq<i16>, m: int) -> Option<int> {
    let ps = peaks_from(s, peak_start(s, m));
    let t = trend_len(s, ps, 0);
    if t == 0 {
        None
    } else {
        Some(ps[t - 1])
    }
}

/// One beat: where its envelope begins and ends, and its loudest peak.
///
/// Two values are equal where their ranges `[from, to]` overlap; they are
/// ordered by `from`.
#[derive(Clone, Copy, Debug, Default)]
pub struct EnvelopeInfo {
    pub from: SampleInfo,
    pub to: SampleInfo,
    pub max: SampleInfo,
}

/// The ranges `[a_from, a_to)` and `[b_from, b_to)` of total indices share a
/// position, as [`EnvelopeInfo::overlap`] decides it.
pub open spec fn overlaps(a: EnvelopeInfo, b: EnvelopeInfo) -> bool {
    if b.from.total_index >= a.from.total_index {
        b.from.total_index < a.to.total_index
    } else {
        b.to.total_index > a.from.total_index
    }
}

impl EnvelopeInfo {
    /// Whether two envelopes overlap: the one that starts later starts before
    /// the other ends.
    pub fn overlap(&self, other: &Self) -> (r: bool)
        ensures
            r == overlaps(*self, *other),
    {
        let self_from = self.from.total_index;
        let self_to = self.to.total_index;
        let other_from = other.from.total_index;
        let other_to = other.to.total_index;
        if other_from >= self_from {
            other_from < self_to
        } else {
            other_to > self_from
        }
    }

    /// The duration of the envelope (nanoseconds).
    pub fn duration(&self) -> (r: u128)
        requires
            self.from.timestamp_ns <= self.to.timestamp_ns,
        ensures
            r == self.to.timestamp_ns - self.from.timestamp_ns,
    {
        self.to.timestamp_ns - self.from.timestamp_ns
    }

    /// The time of the beat, that of its loudest peak (nanoseconds since the
    /// start of the stream).
    pub fn timestamp(&self) -> (r: u128)
        ensures
            r == self.max.timestamp_ns,
    {
        self.max.timestamp_ns
    }
}

impl PartialEq for EnvelopeInfo {
    fn eq(&self, other: &EnvelopeInfo) -> (r: bool) {
        self.overlap(other)
    }
}

impl vstd::std_specs::cmp::PartialEqSpecImpl for EnvelopeInfo {
    open spec fn obeys_eq_spec() -> bool {
        true
    }

    open spec fn eq_spec(&self, other: &EnvelopeInfo) -> bool {
        overlaps(*self, *other)
    }
}

impl PartialOrd for EnvelopeInfo {
    fn partial_cmp(&self, other: &EnvelopeInfo) -> (r: Option<Ordering>) {
        self.from.partial_cmp(&other.from)
    }
}

impl vstd::std_specs::cmp::PartialOrdSpecImpl for EnvelopeInfo {
    open spec fn obeys_partial_cmp_spec() -> bool {
        true
    }

    open spec fn partial_cmp_spec(&self, other: &EnvelopeInfo) -> Option<Ordering> {
        if self.from.total_index < other.from.total_index {
            Some(Ordering::Less)
        } else if self.from.total_index > other.from.total_index {
            Some(Ordering::Greater)
        } else {
            Some(Ordering::Equal)
        }
    }
}

/// What one step of the envelope iterator at cursor `c` yields, and the
/// cursor after it.
pub open spec fn envelope_step(h: AudioHistory, c: int) -> (Option<EnvelopeInfo>, int) {
    let s = h.samples();
    let ps = peaks_from(s, peak_start(s, c));
    let j = first_candidate(s, ps, 0);
    if j >= ps.len() {
        (None, c)
    } else {
        let begin = ps[j];
        if h.info_at(begin).duration_behind_ns <= ENVELOPE_MIN_DURATION_NS {
            (None, begin + 1)
        } else {
            let all = peaks_from(s, peak_start(s, 0));
            let count = all.len();
            let sum = magnitude_sum(s, all);
            let qs = peaks_from(s, peak_start(s, begin + 1));
            let k = first_dominant(s, qs, 0, count, sum);
            if count == 0 || k >= qs.len() {
                (None, begin + 1)
            } else {
                let max = run_max(s, qs, k + 1, qs[k], count, sum);
                match trend_end(s, max) {
                    None => (None, begin + 1),
                    Some(end) => (
                        Some(
                            EnvelopeInfo {
                                from: h.info_at(begin),
                                to: h.info_at(end),
                                max: h.info_at(max),
                            },
                        ),
                        end + 1,
                    ),
                }
            }
        }
    }
}

/// The peaks that come after the first one of an iterator's remaining peaks.
proof fn lemma_step_remaining(it: MaxMinIterator, p: int, next: int)
    requires
        it.wf(),
        peak_step(it.history().samples(), it.cursor()) == Some((p, next)),
    ensures
        it.remaining() == seq![p].add(peaks_from(it.history().samples(), next)),
{
}

/// The first candidate lies between `j` and the end.
pub proof fn lemma_first_candidate_bounds(s: Seq<i16>, ps: Seq<int>, j: int)
    requires
        0 <= j <= ps.len(),
    ensures
        j <= first_candidate(s, ps, j) <= ps.len(),
    decreases ps.len() - j,
{
    if j < ps.len() && magnitude(s[ps[j]]) < ENVELOPE_MIN_VALUE {
        lemma_first_candidate_bounds(s, ps, j + 1);
    }
}

/// The first dominant peak lies between `j` and the end.
pub proof fn lemma_first_dominant_bounds(s: Seq<i16>, ps: Seq<int>, j: int, count: nat, sum: nat)
    requires
        0 <= j <= ps.len(),
    ensures
        j <= first_dominant(s, ps, j, count, sum) <= ps.len(),
    decreases ps.len() - j,
{
    if j < ps.len() && !dominates(s, ps[j], count, sum) {
        lemma_first_dominant_bounds(s, ps, j + 1, count, sum);
    }
}

/// Where the remaining peaks `ps[j..]` start with `p`, `p` is `ps[j]` and the
/// rest is `ps[j + 1..]`.
proof fn lemma_advance(ps: Seq<int>, j: int, p: int, rest: Seq<int>)
    requires
        0 <= j <= ps.len(),
        ps.subrange(j, ps.len() as int) == seq![p].add(rest),
    ensures
        j < ps.len(),
        ps[j] == p,
        ps.subrange(j + 1, ps.len() as int) == rest,
{
    let t = ps.subrange(j, ps.len() as int);
    let u = seq![p].add(rest);
    assert(t.len() == u.len());
    assert(u.len() == rest.len() + 1);
    assert(u[0] == p);
    assert(t[0] == ps[j]);
    assert forall|i: int| 0 <= i < rest.len() implies ps.subrange(j + 1, ps.len() as int)[i]
        == rest[i] by {
        assert(u[i + 1] == rest[i]);
        assert(t[i + 1] == ps[j + 1 + i]);
    }
    assert(ps.subrange(j + 1, ps.len() as int) =~= rest);
}

/// The first peak at or after `c` that is loud enough to start an envelope.
fn find_envelope_begin(history: &AudioHistory, c: usize) -> (r: Option<SampleInfo>)
    requires
        history.wf(),
        c < history.samples().len(),
    ensures
        ({
            let s = history.samples();
            let ps = peaks_from(s, peak_start(s, c as int));
            let j = first_candidate(s, ps, 0);
            &&& r is Some <==> j < ps.len()
            &&& r matches Some(info) ==> info == history.info_at(ps[j])
        }),
{
    let ghost s = history.samples();
    let mut it = MaxMinIterator::new(history, Some(c));
    let ghost ps = it.remaining();
    let ghost mut j: int = 0;
    loop
        invariant
            it.wf(),
            it.history() == *history,
            s == history.samples(),
            ps == peaks_from(s, peak_start(s, c as int)),
            0 <= j <= ps.len(),
            ps.subrange(j, ps.len() as int) == it.remaining(),
            first_candidate(s, ps, 0) == first_candidate(s, ps, j),
        decreases s.len() - it.cursor(),
    {
        let ghost before = it;
        proof {
            lemma_peak_step_bounds(s, it.cursor());
        }
        match it.next() {
            None => {
                assert(ps.subrange(j, ps.len() as int).len() == 0);
                return None;
            },
            Some(info) => {
                proof {
                    let (p, next) = peak_step(s, before.cursor()).unwrap();
                    lemma_step_remaining(before, p, next);
                    lemma_advance(ps, j, p, it.remaining());
                }
                if magnitude_of(info.amplitude) >= ENVELOPE_MIN_VALUE {
                    return Some(info);
                }
                proof {
                    j = j + 1;
                }
            },
        }
    }
}

/// The number of all peaks in the history and the sum of their magnitudes.
fn peak_statistics(history: &AudioHistory) -> (r: (u64, u64))
    requires
        history.wf(),
        history.samples().len() > 0,
    ensures
        ({
            let s = history.samples();
            let all = peaks_from(s, peak_start(s, 0));
            &&& r.0 as nat == all.len()
            &&& r.1 as nat == magnitude_sum(s, all)
            &&& r.0 <= HISTORY_CAPACITY
            &&& r.1 <= r.0 * 32768
        }),
{
    let ghost s = history.samples();
    let mut it = MaxMinIterator::new(history, None);
    let ghost ps = it.remaining();
    proof {
        lemma_peaks_from_bounds(s, it.cursor());
    }
    let mut count: u64 = 0;
    let mut sum: u64 = 0;
    loop
        invariant
            it.wf(),
            it.history() == *history,
            s == history.samples(),
            s.len() <= HISTORY_CAPACITY,
            ps == peaks_from(s, peak_start(s, 0)),
            ps.len() <= s.len(),
            0 <= count <= ps.len(),
            ps.subrange(count as int, ps.len() as int) == it.remaining(),
            sum as nat == magnitude_sum(s, ps.take(count as int)),
            sum <= count * 32768,
        decreases s.len() - it.cursor(),
    {
        let ghost before = it;
        proof {
            lemma_peak_step_bounds(s, it.cursor());
        }
        match it.next() {
            None => {
                assert(ps.subrange(count as int, ps.len() as int).len() == 0);
                assert(ps.take(count as int) =~= ps);
                return (count, sum);
            },
            Some(info) => {
                let ghost j = count as int;
                proof {
                    let (p, next) = peak_step(s, before.cursor()).unwrap();
                    lemma_step_remaining(before, p, next);
                    lemma_advance(ps, j, p, it.remaining());
                    assert(ps.take(j + 1).drop_last() =~= ps.take(j));
                }
                sum = sum + magnitude_of(info.amplitude) as u64;
                count = count + 1;
            },
        }
    }
}

/// Advances `it` past its first dominant peak and returns that peak; `None`
/// where no peak dominates.
fn next_dominant(it: &mut MaxMinIterator, count: u64, sum: u64) -> (r: Option<SampleInfo>)
    requires
        old(it).wf(),
        count <= HISTORY_CAPACITY,
        sum <= count * 32768,
    ensures
        final(it).wf(),
        final(it).history() == old(it).history(),
        ({
            let h = old(it).history();
            let qs = old(it).remaining();
            let k = first_dominant(h.samples(), qs, 0, count as nat, sum as nat);
            &&& r is Some <==> k < qs.len()
            &&& r matches Some(info) ==> info == h.info_at(qs[k]) && final(it).remaining()
                == qs.subrange(k + 1, qs.len() as int)
        }),
{
    let ghost h = it.history();
    let ghost s = h.samples();
    let ghost qs = it.remaining();
    let ghost n = count as nat;
    let ghost total = sum as nat;
    let ghost mut j: int = 0;
    assert(qs.subrange(0, qs.len() as int) =~= qs);
    loop
        invariant
            it.wf(),
            it.history() == h,
            s == h.samples(),
            qs == old(it).remaining(),
            h == old(it).history(),
            n == count,
            total == sum,
            count <= HISTORY_CAPACITY,
            sum <= count * 32768,
            0 <= j <= qs.len(),
            qs.subrange(j, qs.len() as int) == it.remaining(),
            first_dominant(s, qs, 0, n, total) == first_dominant(s, qs, j, n, total),
        decreases s.len() - it.cursor(),
    {
        let ghost before = *it;
        proof {
            lemma_peak_step_bounds(s, it.cursor());
        }
        match it.next() {
            None => {
                assert(qs.subrange(j, qs.len() as int).len() == 0);
                return None;
            },
            Some(info) => {
                proof {
                    let (p, next) = peak_step(s, before.cursor()).unwrap();
                    lemma_step_remaining(before, p, next);
                    lemma_advance(qs, j, p, it.remaining());
                }
                if is_dominant(info.amplitude, count, sum) {
                    return Some(info);
                }
                proof {
                    j = j + 1;
                }
            },
        }
    }
}

/// The loudest peak of the first run of dominant peaks after `begin`.
fn find_envelope_max(history: &AudioHistory, begin: usize, count: u64, sum: u64) -> (r: Option<
    SampleInfo,
>)
    requires
        history.wf(),
        begin + 1 < history.samples().len(),
        count <= HISTORY_CAPACITY,
        sum <= count * 32768,
    ensures
        ({
            let s = history.samples();
            let qs = peaks_from(s, peak_start(s, begin + 1));
            let k = first_dominant(s, qs, 0, count as nat, sum as nat);
            &&& r is Some <==> k < qs.len()
            &&& r matches Some(info) ==> info == history.info_at(
                run_max(s, qs, k + 1, qs[k], count as nat, sum as nat),
            ) && info.index < s.len() && info.index as int == run_max(
                s,
                qs,
                k + 1,
                qs[k],
                count as nat,
                sum as nat,
            )
        }),
{
    let ghost s = history.samples();
    let ghost n = count as nat;
    let ghost total = sum as nat;
    let mut it = MaxMinIterator::new(history, Some(begin + 1));
    let ghost qs = it.remaining();
    proof {
        lemma_peaks_from_bounds(s, it.cursor());
    }
    let first = match next_dominant(&mut it, count, sum) {
        None => {
            return None;
        },
        Some(f) => f,
    };
    let ghost k = first_dominant(s, qs, 0, n, total);
    let ghost mut j: int = k + 1;
    proof {
        lemma_first_dominant_bounds(s, qs, 0, n, total);
    }
    let mut acc = first;
    loop
        invariant
            it.wf(),
            it.history() == *history,
            s == history.samples(),
            qs == peaks_from(s, peak_start(s, begin + 1)),
            n == count,
            total == sum,
            count <= HISTORY_CAPACITY,
            sum <= count * 32768,
            0 <= k < j <= qs.len(),
            k == first_dominant(s, qs, 0, n, total),
            qs.subrange(j, qs.len() as int) == it.remaining(),
            0 <= acc.index < s.len(),
            acc == history.info_at(acc.index as int),
            run_max(s, qs, k + 1, qs[k], n, total) == run_max(s, qs, j, acc.index as int, n, total),
        decreases s.len() - it.cursor(),
    {
        let ghost before = it;
        proof {
            lemma_peak_step_bounds(s, it.cursor());
        }
        match it.next() {
            None => {
                assert(qs.subrange(j, qs.len() as int).len() == 0);
                return Some(acc);
            },
            Some(info) => {
                proof {
                    let (p, next) = peak_step(s, before.cursor()).unwrap();
                    lemma_step_remaining(before, p, next);
                    lemma_advance(qs, j, p, it.remaining());
                    lemma_peaks_from_bounds(s, peak_start(s, begin + 1));
                }
                if !is_dominant(info.amplitude, count, sum) {
                    return Some(acc);
                }
                if !(magnitude_of(acc.amplitude) > magnitude_of(info.amplitude)) {
                    acc = info;
                }
                proof {
                    j = j + 1;
                }
            },
        }
    }
}

/// Whether a peak of amplitude `x` dominates `count` peaks whose magnitudes
/// sum to `sum`, see [`dominates`].
fn is_dominant(x: i16, count: u64, sum: u64) -> (r: bool)
    requires
        count <= HISTORY_CAPACITY,
        sum <= count * 32768,
    ensures
        r == (magnitude(x) * count >= ENVELOPE_MAX_PEAK_TO_AVG_MIN_RATIO * sum),
{
    let m = magnitude_of(x) as u64;
    assert(m * count <= 32768 * HISTORY_CAPACITY) by (nonlinear_arith)
        requires
            m <= 32768,
            count <= HISTORY_CAPACITY,
    ;
    m * count >= ENVELOPE_MAX_PEAK_TO_AVG_MIN_RATIO * sum
}

/// Whether the peaks `cur`, `next`, `next_next` keep up a descending trend,
/// see [`continues_descent`].
fn descends(cur: i16, next: i16, next_next: i16) -> (r: bool)
    ensures
        r == continues_descent(magnitude(cur), magnitude(next), magnitude(next_next)),
{
    let cur = magnitude_of(cur) as u64;
    let next = magnitude_of(next) as u64;
    let next_next = magnitude_of(next_next) as u64;
    next <= cur || (next * 100 <= cur * MAX_NEXT_TO_CURR_OUT_OF_LINE_PERCENT && next_next <= cur)
}

/// The end of an envelope: the last peak of the descending trend of the
/// peaks after the first root at or after `begin_index`, see [`trend_end`].
pub fn find_descending_peak_trend_end(history: &AudioHistory, begin_index: usize) -> (r: Option<
    SampleInfo,
>)
    requires
        history.wf(),
        begin_index < history.samples().len(),
    ensures
        match trend_end(history.samples(), begin_index as int) {
            Some(e) => r == Some(history.info_at(e)) && 0 <= e && e + 1 < history.samples().len(),
            None => r is None,
        },
{
    let ghost s = history.samples();
    let mut it = MaxMinIterator::new(history, Some(begin_index));
    let ghost ps = it.remaining();
    proof {
        lemma_peak_step_bounds(s, it.cursor());
        lemma_peaks_from_bounds(s, it.cursor());
    }
    let ghost c0 = it;
    let cur = match it.next() {
        None => {
            return None;
        },
        Some(info) => info,
    };
    proof {
        let (p, next) = peak_step(s, c0.cursor()).unwrap();
        lemma_step_remaining(c0, p, next);
        assert(ps.subrange(0, ps.len() as int) =~= ps);
        lemma_advance(ps, 0, p, it.remaining());
        lemma_peak_step_bounds(s, it.cursor());
    }
    let ghost c1 = it;
    let mut next = match it.next() {
        None => {
            return None;
        },
        Some(info) => info,
    };
    proof {
        let (p, n) = peak_step(s, c1.cursor()).unwrap();
        lemma_step_remaining(c1, p, n);
        lemma_advance(ps, 1, p, it.remaining());
    }
    let mut cur = cur;
    let mut last: Option<SampleInfo> = None;
    let ghost mut i: int = 0;
    loop
        invariant
            it.wf(),
            it.history() == *history,
            s == history.samples(),
            ps == peaks_from(s, peak_start(s, begin_index as int)),
            forall|x: int| 0 <= x < ps.len() ==> 0 <= #[trigger] ps[x] && ps[x] + 1 < s.len(),
            0 <= i,
            i + 2 <= ps.len(),
            ps.subrange(i + 2, ps.len() as int) == it.remaining(),
            cur == history.info_at(ps[i]),
            next == history.info_at(ps[i + 1]),
            trend_len(s, ps, 0) == i + trend_len(s, ps, i),
            match last {
                Some(l) => i > 0 && l == history.info_at(ps[i - 1]),
                None => i == 0,
            },
        decreases s.len() - it.cursor(),
    {
        let ghost before = it;
        proof {
            lemma_peak_step_bounds(s, it.cursor());
        }
        match it.next() {
            None => {
                assert(ps.subrange(i + 2, ps.len() as int).len() == 0);
                return last;
            },
            Some(next_next) => {
                proof {
                    let (p, n) = peak_step(s, before.cursor()).unwrap();
                    lemma_step_remaining(before, p, n);
                    lemma_advance(ps, i + 2, p, it.remaining());
                }
                if !descends(cur.amplitude, next.amplitude, next_next.amplitude) {
                    return last;
                }
                last = Some(cur);
                cur = next;
                next = next_next;
                proof {
                    i = i + 1;
                }
            },
        }
    }
}

/// Iterates the envelopes of the waveform, from a start position on.
///
/// The iterator reads the history it was made for; a change of the history
/// calls for a new iterator.
#[derive(Debug, Clone, Copy)]
pub struct EnvelopeIterator<'a> {
    index: usize,
    buffer: &'a AudioHistory,
}

impl<'a> EnvelopeIterator<'a> {
    /// Where the next search starts.
    pub closed spec fn cursor(&self) -> int {
        self.index as int
    }

    /// The history that is searched.
    pub closed spec fn history(&self) -> AudioHistory {
        *self.buffer
    }

    /// The cursor lies within the history.
    pub open spec fn wf(&self) -> bool {
        &&& self.history().wf()
        &&& 0 <= self.cursor() < self.history().samples().len()
    }

    /// An iterator that starts at `begin_index` (at the first sample where it
    /// is `None`).
    pub fn new(buffer: &'a AudioHistory, begin_index: Option<usize>) -> (r: Self)
        requires
            buffer.wf(),
            (match begin_index {
                Some(i) => i,
                None => 0,
            }) < buffer.samples().len(),
        ensures
            r.wf(),
            r.history() == *buffer,
            r.cursor() == match begin_index {
                Some(i) => i as int,
                None => 0,
            },
    {
        let index = match begin_index {
            Some(i) => i,
            None => 0,
        };
        Self { index, buffer }
    }

    /// The next envelope, see [`envelope_step`]: from the first peak that is
    /// not noise, once it lies far enough behind the latest sample, to the end
    /// of the descending trend after the loudest of the dominant peaks that
    /// follow.
    pub fn next(&mut self) -> (r: Option<EnvelopeInfo>)
        requires
            old(self).wf(),
        ensures
            final(self).wf(),
            final(self).history() == old(self).history(),
            (r, final(self).cursor()) == envelope_step(old(self).history(), old(self).cursor()),
    {
        let ghost h = *self.buffer;
        let ghost s = h.samples();
        let ghost c = self.index as int;
        let ghost ps = peaks_from(s, peak_start(s, c));
        proof {
            lemma_peak_start_bounds(s, c);
            lemma_peaks_from_bounds(s, peak_start(s, c));
            lemma_first_candidate_bounds(s, ps, 0);
        }
        let begin = match find_envelope_begin(self.buffer, self.index) {
            None => {
                return None;
            },
            Some(b) => b,
        };
        let ghost j = first_candidate(s, ps, 0);
        assert(begin.index as int == ps[j]);
        self.index = begin.index + 1;
        if begin.duration_behind_ns <= ENVELOPE_MIN_DURATION_NS {
            return None;
        }
        let (count, sum) = peak_statistics(self.buffer);
        let max = find_envelope_max(self.buffer, begin.index, count, sum);
        if count == 0 {
            return None;
        }
        let max = match max {
            None => {
                return None;
            },
            Some(m) => m,
        };
        let end = match find_descending_peak_trend_end(self.buffer, max.index) {
            None => {
                return None;
            },
            Some(e) => e,
        };
        self.index = end.index + 1;
        Some(EnvelopeInfo { from: begin, to: end, max })
    }
}

} // verus!

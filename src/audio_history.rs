//! The audio history: the latest samples in a ring buffer of fixed capacity,
//! with the bookkeeping that maps a position in the buffer to its place in the
//! whole stream and in time.

use vstd::prelude::*;
use vstd::arithmetic::div_mod::lemma_div_is_ordered;
use vstd::arithmetic::mul::lemma_mul_inequality;
use ringbuffer::ConstGenericRingBuffer;
use core::cmp::Ordering;
use crate::downsampling::DownsamplingMetrics;
use crate::ring::{
    ring_get, ring_len, ring_new, ring_push, ring_pushes, ring_samples, HISTORY_CAPACITY,
};

verus! {

/// Nanoseconds per second.
pub const NANOS_PER_SECOND: u128 = 1_000_000_000;

/// One sample of the history, with its place in the stream and in time.
///
/// Two values compare by `total_index` alone.
#[derive(Copy, Clone, Debug, Default)]
pub struct SampleInfo {
    /// The value of the sample.
    pub amplitude: i16,
    /// The position in the audio history.
    pub index: usize,
    /// The position among all samples that the history ever received.
    pub total_index: usize,
    /// The position in the stream before downsampling, moved back by the
    /// group delay of the lowpass filter (not below zero).
    pub total_index_original: usize,
    /// Time since the first sample of the stream (nanoseconds).
    pub timestamp_ns: u128,
    /// How long before the latest sample of the history this one came
    /// (nanoseconds).
    pub duration_behind_ns: u128,
}

impl PartialEq for SampleInfo {
    fn eq(&self, other: &SampleInfo) -> (r: bool) {
        self.total_index == other.total_index
    }
}

impl vstd::std_specs::cmp::PartialEqSpecImpl for SampleInfo {
    open spec fn obeys_eq_spec() -> bool {
        true
    }

    open spec fn eq_spec(&self, other: &SampleInfo) -> bool {
        self.total_index == other.total_index
    }
}

impl PartialOrd for SampleInfo {
    fn partial_cmp(&self, other: &SampleInfo) -> (r: Option<Ordering>) {
        if self.total_index < other.total_index {
            Some(Ordering::Less)
        } else if self.total_index > other.total_index {
            Some(Ordering::Greater)
        } else {
            Some(Ordering::Equal)
        }
    }
}

impl vstd::std_specs::cmp::PartialOrdSpecImpl for SampleInfo {
    open spec fn obeys_partial_cmp_spec() -> bool {
        true
    }

    open spec fn partial_cmp_spec(&self, other: &SampleInfo) -> Option<Ordering> {
        if self.total_index < other.total_index {
            Some(Ordering::Less)
        } else if self.total_index > other.total_index {
            Some(Ordering::Greater)
        } else {
            Some(Ordering::Equal)
        }
    }
}

/// The last `HISTORY_CAPACITY` samples of `s` (all of them if there are
/// fewer).
pub open spec fn window(s: Seq<i16>) -> Seq<i16> {
    if s.len() <= HISTORY_CAPACITY {
        s
    } else {
        s.subrange(s.len() - HISTORY_CAPACITY, s.len() as int)
    }
}

/// `a - b`, or zero where `b > a`.
pub open spec fn saturating_sub(a: nat, b: nat) -> nat {
    if a >= b {
        (a - b) as nat
    } else {
        0
    }
}

/// The time (nanoseconds, rounded down) of the sample at `total_index` for a
/// sample rate of `rate` Hz.
pub open spec fn nanos_at(total_index: nat, rate: nat) -> nat {
    total_index * 1_000_000_000 / rate
}

/// The time of a sample never decreases with its position.
pub proof fn lemma_nanos_monotonic(a: nat, b: nat, rate: nat)
    requires
        a <= b,
        rate > 0,
    ensures
        nanos_at(a, rate) <= nanos_at(b, rate),
{
    lemma_mul_inequality(a as int, b as int, 1_000_000_000);
    lemma_div_is_ordered((a * 1_000_000_000) as int, (b * 1_000_000_000) as int, rate as int);
}

/// The captured audio: a ring buffer of the latest samples and the count of
/// all samples it ever received.
#[derive(Debug)]
pub struct AudioHistory {
    audio_buffer: ConstGenericRingBuffer<i16, HISTORY_CAPACITY>,
    total_consumed_samples: usize,
    /// The rate at which samples arrive here, after downsampling (Hz).
    sample_rate_hz: u32,
    downsampling_factor: usize,
    filter_group_delay: usize,
}

impl AudioHistory {
    /// The samples held, oldest first.
    pub closed spec fn samples(&self) -> Seq<i16> {
        ring_samples(self.audio_buffer)
    }

    /// How many samples the history ever received.
    pub closed spec fn total(&self) -> nat {
        self.total_consumed_samples as nat
    }

    /// The effective sample rate (Hz).
    pub closed spec fn rate(&self) -> nat {
        self.sample_rate_hz as nat
    }

    /// The downsampling factor of the samples received.
    pub closed spec fn factor(&self) -> nat {
        self.downsampling_factor as nat
    }

    /// The group delay of the lowpass filter, in samples of the original
    /// stream.
    pub closed spec fn group_delay(&self) -> nat {
        self.filter_group_delay as nat
    }

    /// The ring buffer counted every sample it received.
    pub closed spec fn inv(&self) -> bool {
        ring_pushes(self.audio_buffer) == self.total_consumed_samples
    }

    /// The buffer holds the latest samples, as many as fit; positions in the
    /// original stream fit in `usize`.
    pub open spec fn wf(&self) -> bool {
        &&& self.samples().len() == (if self.total() <= HISTORY_CAPACITY {
            self.total()
        } else {
            HISTORY_CAPACITY as nat
        })
        &&& self.rate() > 0
        &&& self.factor() >= 1
        &&& self.total() * self.factor() <= usize::MAX
        &&& self.inv()
    }

    /// How many samples were pushed out of the buffer.
    pub open spec fn lost(&self) -> nat {
        if self.total() <= HISTORY_CAPACITY {
            0
        } else {
            (self.total() - HISTORY_CAPACITY) as nat
        }
    }

    /// The time of the sample at `total_index` (nanoseconds).
    pub open spec fn nanos(&self, total_index: nat) -> nat {
        nanos_at(total_index, self.rate())
    }

    /// What [`Self::index_to_sample_info`] returns for `index`.
    pub open spec fn info_at(&self, index: int) -> SampleInfo {
        let total_index = (index + self.lost()) as nat;
        let latest = (self.samples().len() - 1 + self.lost()) as nat;
        SampleInfo {
            amplitude: self.samples()[index],
            index: index as usize,
            total_index: total_index as usize,
            total_index_original: saturating_sub(
                total_index * self.factor(),
                self.group_delay(),
            ) as usize,
            timestamp_ns: self.nanos(total_index) as u128,
            duration_behind_ns: (self.nanos(latest) - self.nanos(total_index)) as u128,
        }
    }

    /// An empty history. Samples arrive at the effective rate of
    /// `downsampling_metrics`, or at `original_sample_rate_hz` without them.
    pub fn new(
        original_sample_rate_hz: u32,
        downsampling_metrics: Option<DownsamplingMetrics>,
        filter_group_delay: Option<usize>,
    ) -> (r: Self)
        requires
            match downsampling_metrics {
                Some(m) => m.wf() && m.effective_rate() > 0,
                None => original_sample_rate_hz > 0,
            },
        ensures
            r.wf(),
            r.total() == 0,
            r.samples() == Seq::<i16>::empty(),
            r.rate() == match downsampling_metrics {
                Some(m) => m.effective_rate(),
                None => original_sample_rate_hz as nat,
            },
            r.factor() == match downsampling_metrics {
                Some(m) => m.factor_spec(),
                None => 1,
            },
            r.group_delay() == match filter_group_delay {
                Some(d) => d as nat,
                None => 0,
            },
    {
        let (sample_rate_hz, downsampling_factor) = match downsampling_metrics {
            Some(m) => (m.effective_sample_rate_hz(), m.factor()),
            None => (original_sample_rate_hz, 1),
        };
        let filter_group_delay = match filter_group_delay {
            Some(d) => d,
            None => 0,
        };
        Self {
            audio_buffer: ring_new(),
            total_consumed_samples: 0,
            sample_rate_hz,
            downsampling_factor,
            filter_group_delay,
        }
    }

    /// Appends the samples in order. Where they outnumber the free places, the
    /// oldest samples are dropped.
    pub fn update(&mut self, mono_samples: &[i16])
        requires
            old(self).wf(),
            (old(self).total() + mono_samples@.len()) * old(self).factor() <= usize::MAX,
        ensures
            final(self).wf(),
            final(self).total() == old(self).total() + mono_samples@.len(),
            final(self).samples() == window(old(self).samples() + mono_samples@),
            final(self).rate() == old(self).rate(),
            final(self).factor() == old(self).factor(),
            final(self).group_delay() == old(self).group_delay(),
    {
        let ghost start = self.samples();
        let mut k: usize = 0;
        assert(start + mono_samples@.take(0) =~= start);
        while k < mono_samples.len()
            invariant
                k <= mono_samples@.len(),
                self.inv(),
                self.total() == old(self).total() + k,
                self.samples() == window(start + mono_samples@.take(k as int)),
                start == old(self).samples(),
                start.len() <= HISTORY_CAPACITY,
                old(self).wf(),
                self.rate() == old(self).rate(),
                self.factor() == old(self).factor(),
                self.group_delay() == old(self).group_delay(),
                (old(self).total() + mono_samples@.len()) * old(self).factor() <= usize::MAX,
            decreases mono_samples@.len() - k,
        {
            let x = mono_samples[k];
            let ghost a = start + mono_samples@.take(k as int);
            let ghost b = start + mono_samples@.take(k as int + 1);
            assert(b =~= a.push(x));
            proof {
                lemma_mul_inequality(
                    (old(self).total() + k + 1) as int,
                    (old(self).total() + mono_samples@.len()) as int,
                    old(self).factor() as int,
                );
                let t = (old(self).total() + k + 1) as int;
                let f = old(self).factor() as int;
                assert(t <= t * f) by (nonlinear_arith)
                    requires
                        f >= 1,
                        t >= 0,
                ;
            }
            ring_push(&mut self.audio_buffer, x);
            self.total_consumed_samples = self.total_consumed_samples + 1;
            proof {
                if a.len() >= HISTORY_CAPACITY {
                    assert(window(a).drop_first().push(x) =~= window(b));
                } else {
                    assert(window(a).push(x) =~= window(b));
                }
            }
            k = k + 1;
        }
        assert(mono_samples@.take(k as int) =~= mono_samples@);
        proof {
            lemma_mul_inequality(
                (old(self).total() + mono_samples@.len()) as int,
                (old(self).total() + mono_samples@.len()) as int,
                old(self).factor() as int,
            );
        }
    }

    /// The time of all samples received so far (nanoseconds).
    pub fn passed_time(&self) -> (r: u128)
        requires
            self.wf(),
        ensures
            r as nat == self.nanos(self.total()),
    {
        nanos_of(self.total_consumed_samples, self.sample_rate_hz)
    }

    /// The underlying ring buffer.
    pub fn data(&self) -> (r: &ConstGenericRingBuffer<i16, HISTORY_CAPACITY>)
        ensures
            ring_samples(*r) == self.samples(),
    {
        &self.audio_buffer
    }

    /// The number of samples held.
    pub fn len(&self) -> (r: usize)
        ensures
            r as nat == self.samples().len(),
    {
        ring_len(&self.audio_buffer)
    }

    /// The sample at `index`.
    pub fn amplitude(&self, index: usize) -> (r: i16)
        requires
            index < self.samples().len(),
        ensures
            r == self.samples()[index as int],
    {
        ring_get(&self.audio_buffer, index)
    }

    /// The effective sample rate (Hz).
    pub fn sample_rate(&self) -> (r: u32)
        ensures
            r as nat == self.rate(),
    {
        self.sample_rate_hz
    }

    /// The downsampling factor of the samples received.
    pub fn downsampling_factor(&self) -> (r: usize)
        ensures
            r as nat == self.factor(),
    {
        self.downsampling_factor
    }

    /// How many samples were pushed out of the buffer.
    fn lost_samples(&self) -> (r: usize)
        requires
            self.wf(),
        ensures
            r as nat == self.lost(),
    {
        if self.total_consumed_samples <= HISTORY_CAPACITY {
            0
        } else {
            self.total_consumed_samples - HISTORY_CAPACITY
        }
    }

    /// How many samples the history ever received.
    pub fn total_consumed_samples(&self) -> (r: usize)
        ensures
            r as nat == self.total(),
    {
        self.total_consumed_samples
    }

    /// The position in the stream of the sample at `index`; `index` may be
    /// the length, the place of the next sample.
    pub fn index_to_sample_number(&self, index: usize) -> (r: usize)
        requires
            self.wf(),
            index <= self.samples().len(),
        ensures
            r == index + self.lost(),
    {
        index + self.lost_samples()
    }

    /// The time of the sample at `index` (nanoseconds); `index` may be the
    /// length, the place of the next sample.
    pub fn timestamp_of_index(&self, index: usize) -> (r: u128)
        requires
            self.wf(),
            index <= self.samples().len(),
        ensures
            r as nat == self.nanos((index + self.lost()) as nat),
    {
        nanos_of(self.index_to_sample_number(index), self.sample_rate_hz)
    }

    /// The sample at `index` with its place in the stream and in time.
    pub fn index_to_sample_info(&self, index: usize) -> (r: SampleInfo)
        requires
            self.wf(),
            index < self.samples().len(),
        ensures
            r == self.info_at(index as int),
    {
        let lost = self.lost_samples();
        let len = self.len();
        let total_index = index + lost;
        let latest = len - 1 + lost;
        proof {
            lemma_mul_inequality(total_index as int, self.total() as int, self.factor() as int);
            lemma_nanos_monotonic(total_index as nat, latest as nat, self.rate());
        }
        let scaled = total_index * self.downsampling_factor;
        let timestamp_ns = nanos_of(total_index, self.sample_rate_hz);
        let latest_ns = nanos_of(latest, self.sample_rate_hz);
        SampleInfo {
            amplitude: self.amplitude(index),
            index,
            total_index,
            total_index_original: scaled.saturating_sub(self.filter_group_delay),
            timestamp_ns,
            duration_behind_ns: latest_ns - timestamp_ns,
        }
    }

    /// The position in the buffer of the sample at `total_index` of the
    /// stream; `None` where that sample was pushed out or has not arrived.
    pub open spec fn index_of(&self, total_index: nat) -> Option<nat> {
        if self.lost() <= total_index && total_index < self.total() {
            Some((total_index - self.lost()) as nat)
        } else {
            None
        }
    }

    /// The position in the buffer of the sample at `total_index` of the
    /// stream, see [`Self::index_of`].
    pub fn total_index_to_index(&self, total_index: usize) -> (r: Option<usize>)
        requires
            self.wf(),
        ensures
            r is Some <==> self.index_of(total_index as nat) is Some,
            r matches Some(i) ==> self.index_of(total_index as nat) == Some(i as nat),
    {
        let lost = self.lost_samples();
        if total_index < lost || total_index >= self.total_consumed_samples {
            None
        } else {
            Some(total_index - lost)
        }
    }
}

/// Once a history has received `n >= HISTORY_CAPACITY` samples, `n -
/// HISTORY_CAPACITY` of them are lost; a position of the stream maps into the
/// buffer exactly when it lies between the lost ones and the end, and the
/// mapping keeps the order of positions.
pub proof fn lemma_ring_bookkeeping(h: AudioHistory)
    requires
        h.wf(),
        h.total() >= HISTORY_CAPACITY,
    ensures
        h.lost() == h.total() - HISTORY_CAPACITY,
        h.samples().len() == HISTORY_CAPACITY,
        forall|i: nat| i < h.lost() ==> #[trigger] h.index_of(i) is None,
        forall|i: nat| h.lost() <= i < h.total() ==> #[trigger] h.index_of(i) == Some(
            (i - h.lost()) as nat,
        ),
        forall|i: nat| #[trigger] h.index_of(i) matches Some(k) ==> k < h.samples().len(),
        forall|i: nat, j: nat|
            h.lost() <= i < j < h.total() ==> (#[trigger] h.index_of(i))->0 < (
            #[trigger] h.index_of(j))->0,
{
}

/// The time of the sample at `total_index` for `rate` Hz (nanoseconds).
fn nanos_of(total_index: usize, rate: u32) -> (r: u128)
    requires
        rate > 0,
    ensures
        r as nat == nanos_at(total_index as nat, rate as nat),
{
    assert((total_index as nat) * 1_000_000_000 <= 0xFFFF_FFFF_FFFF_FFFFnat * 1_000_000_000)
        by (nonlinear_arith)
        requires
            total_index <= 0xFFFF_FFFF_FFFF_FFFFnat,
    ;
    (total_index as u128) * NANOS_PER_SECOND / (rate as u128)
}

} // verus!

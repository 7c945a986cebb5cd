//! Peaks of the waveform: the loudest sample of each half-wave between two
//! roots.

use vstd::prelude::*;
use crate::audio_history::{AudioHistory, SampleInfo};
use crate::ring::HISTORY_CAPACITY;
use crate::root_iterator::{
    find_root, lemma_next_root_bounds, magnitude, magnitude_of, next_root,
};

verus! {

/// Only every `PEAK_SCAN_STRIDE`th sample of a half-wave is looked at when its
/// peak is searched.
pub const PEAK_SCAN_STRIDE: usize = 2;

/// The loudest of the candidates `b, b + 2, ..., b + 2 * m`, taken from left
/// to right: a later candidate replaces the one kept so far unless that one is
/// strictly louder. So of equally loud candidates the last one wins.
pub open spec fn loudest(s: Seq<i16>, b: int, m: nat) -> int
    decreases m,
{
    if m == 0 {
        b
    } else {
        let acc = loudest(s, b, (m - 1) as nat);
        let y = b + 2 * m;
        if magnitude(s[acc]) > magnitude(s[y]) {
            acc
        } else {
            y
        }
    }
}

/// The peak of the half-wave `[b, e)`.
pub open spec fn segment_peak(s: Seq<i16>, b: int, e: int) -> int {
    loudest(s, b, ((e - b - 1) / 2) as nat)
}

/// One step of the peak iterator at cursor `c`: the peak of the half-wave from
/// `c` to the next root, and the cursor after it. `None` where no root
/// follows, or where the half-wave is empty.
pub open spec fn peak_step(s: Seq<i16>, c: int) -> Option<(int, int)> {
    match next_root(s, c) {
        None => None,
        Some(e) => if e == c {
            None
        } else {
            Some((segment_peak(s, c, e), e + 1))
        },
    }
}

/// Where a peak iterator made for `begin` starts: at the first root at or
/// after `begin`, or at the last sample where there is none.
pub open spec fn peak_start(s: Seq<i16>, begin: int) -> int {
    match next_root(s, begin) {
        Some(r) => r,
        None => s.len() - 1,
    }
}

/// The positions of all peaks that a peak iterator at cursor `c` yields.
pub open spec fn peaks_from(s: Seq<i16>, c: int) -> Seq<int>
    decreases s.len() - c,
    via peaks_from_decreases
{
    if c < 0 || c >= s.len() {
        Seq::empty()
    } else {
        match peak_step(s, c) {
            None => Seq::empty(),
            Some((p, next)) => seq![p].add(peaks_from(s, next)),
        }
    }
}

#[via_fn]
proof fn peaks_from_decreases(s: Seq<i16>, c: int) {
    if 0 <= c < s.len() {
        lemma_next_root_bounds(s, c);
    }
}

proof fn lemma_loudest_bounds(s: Seq<i16>, b: int, m: nat)
    ensures
        b <= loudest(s, b, m) <= b + 2 * m,
    decreases m,
{
    if m > 0 {
        lemma_loudest_bounds(s, b, (m - 1) as nat);
    }
}

/// A step moves the cursor forward, past the peak it yields, and keeps it
/// before the last sample.
pub proof fn lemma_peak_step_bounds(s: Seq<i16>, c: int)
    requires
        0 <= c < s.len(),
    ensures
        peak_step(s, c) matches Some((p, next)) ==> c <= p && p + 2 <= next && next + 1
            <= s.len(),
{
    lemma_next_root_bounds(s, c);
    if let Some(e) = next_root(s, c) {
        if e != c {
            lemma_loudest_bounds(s, c, ((e - c - 1) / 2) as nat);
        }
    }
}

/// A peak iterator starts within the history.
pub proof fn lemma_peak_start_bounds(s: Seq<i16>, begin: int)
    requires
        0 <= begin < s.len(),
    ensures
        0 <= peak_start(s, begin) < s.len(),
{
    lemma_next_root_bounds(s, begin);
}

/// The peaks from cursor `c` lie at or after `c`, in increasing order, and
/// before the last sample.
pub proof fn lemma_peaks_from_bounds(s: Seq<i16>, c: int)
    requires
        0 <= c < s.len(),
    ensures
        peaks_from(s, c).len() <= s.len() - c,
        forall|i: int|
            0 <= i < peaks_from(s, c).len() ==> c <= #[trigger] peaks_from(s, c)[i] && peaks_from(
                s,
                c,
            )[i] + 1 < s.len(),
        forall|i: int, j: int|
            0 <= i < j < peaks_from(s, c).len() ==> #[trigger] peaks_from(s, c)[i]
                < #[trigger] peaks_from(s, c)[j],
    decreases s.len() - c,
{
    lemma_peak_step_bounds(s, c);
    if let Some((p, next)) = peak_step(s, c) {
        lemma_peaks_from_bounds(s, next);
        let rest = peaks_from(s, next);
        assert(peaks_from(s, c) == seq![p].add(rest));
        assert forall|i: int, j: int|
            0 <= i < j < peaks_from(s, c).len() implies #[trigger] peaks_from(s, c)[i]
            < #[trigger] peaks_from(s, c)[j] by {
            if i > 0 {
                assert(peaks_from(s, c)[i] == rest[i - 1]);
            }
            assert(peaks_from(s, c)[j] == rest[j - 1]);
        }
        assert forall|i: int| 0 <= i < peaks_from(s, c).len() implies c <= #[trigger] peaks_from(
            s,
            c,
        )[i] && peaks_from(s, c)[i] + 1 < s.len() by {
            if i > 0 {
                assert(peaks_from(s, c)[i] == rest[i - 1]);
            }
        }
    }
}

/// The position of the peak of the half-wave `[b, e)`, see [`segment_peak`].
fn find_segment_peak(history: &AudioHistory, b: usize, e: usize) -> (r: usize)
    requires
        history.wf(),
        b < e <= history.samples().len(),
    ensures
        r as int == segment_peak(history.samples(), b as int, e as int),
        b <= r < e,
{
    let ghost s = history.samples();
    assert(s.len() <= HISTORY_CAPACITY);
    let mut acc: usize = b;
    let mut acc_magnitude = magnitude_of(history.amplitude(b));
    let mut j: usize = b + PEAK_SCAN_STRIDE;
    let ghost mut m: nat = 0;
    while j < e
        invariant
            b < e <= s.len(),
            s.len() <= HISTORY_CAPACITY,
            s == history.samples(),
            j == b + 2 * (m + 1),
            j <= e + 1,
            b + 2 * m < e,
            acc as int == loudest(s, b as int, m),
            acc_magnitude as int == magnitude(s[acc as int]),
            b <= acc < e,
        decreases e + 1 - j,
    {
        let y = magnitude_of(history.amplitude(j));
        if !(acc_magnitude > y) {
            acc = j;
            acc_magnitude = y;
        }
        proof {
            m = m + 1;
        }
        j = j + PEAK_SCAN_STRIDE;
    }
    assert((e - b - 1) / 2 == m);
    acc
}

/// Iterates the peaks (crests and troughs) of the waveform.
///
/// The iterator reads the history it was made for; a change of the history
/// calls for a new iterator.
#[derive(Debug, Clone, Copy)]
pub struct MaxMinIterator<'a> {
    index: usize,
    buffer: &'a AudioHistory,
}

impl<'a> MaxMinIterator<'a> {
    /// Where the next half-wave starts.
    pub closed spec fn cursor(&self) -> int {
        self.index as int
    }

    /// The history that is searched.
    pub closed spec fn history(&self) -> AudioHistory {
        *self.buffer
    }

    /// The cursor lies within the history.
    pub open spec fn wf(&self) -> bool {
        &&& self.history().wf()
        &&& 0 <= self.cursor() < self.history().samples().len()
    }

    /// The peaks that are still to come, in order.
    pub open spec fn remaining(&self) -> Seq<int> {
        peaks_from(self.history().samples(), self.cursor())
    }

    /// An iterator over the peaks after the first root at or after
    /// `begin_index` (the first sample where it is `None`): a half-wave cut
    /// off by the start is never taken for one.
    pub fn new(buffer: &'a AudioHistory, begin_index: Option<usize>) -> (r: Self)
        requires
            buffer.wf(),
            (match begin_index {
                Some(i) => i,
                None => 0,
            }) < buffer.samples().len(),
        ensures
            r.wf(),
            r.history() == *buffer,
            r.cursor() == peak_start(
                buffer.samples(),
                match begin_index {
                    Some(i) => i as int,
                    None => 0,
                },
            ),
    {
        let begin = match begin_index {
            Some(i) => i,
            None => 0,
        };
        proof {
            lemma_next_root_bounds(buffer.samples(), begin as int);
        }
        let index = match find_root(buffer, begin) {
            Some(r) => r,
            None => buffer.len() - 1,
        };
        Self { index, buffer }
    }

    /// The next peak, see [`peak_step`].
    pub fn next(&mut self) -> (r: Option<SampleInfo>)
        requires
            old(self).wf(),
        ensures
            final(self).wf(),
            final(self).history() == old(self).history(),
            match peak_step(old(self).history().samples(), old(self).cursor()) {
                Some((p, next)) => r == Some(old(self).history().info_at(p))
                    && final(self).cursor() == next,
                None => r is None && final(self).cursor() == old(self).cursor(),
            },
    {
        let begin = self.index;
        proof {
            lemma_next_root_bounds(self.buffer.samples(), begin as int);
            lemma_peak_step_bounds(self.buffer.samples(), begin as int);
        }
        match find_root(self.buffer, begin) {
            None => None,
            Some(end) => {
                if end == begin {
                    return None;
                }
                let p = find_segment_peak(self.buffer, begin, end);
                self.index = end + 1;
                Some(self.buffer.index_to_sample_info(p))
            },
        }
    }
}

} // verus!

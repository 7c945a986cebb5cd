//! Zero crossings ("roots") of the waveform in the audio history.

use vstd::prelude::*;
use crate::audio_history::{AudioHistory, SampleInfo};

verus! {

/// Samples quieter than this (5% of full scale) are noise and start no
/// half-wave.
pub const IGNORE_NOISE_THRESHOLD: u16 = 1638;

/// The magnitude of a sample.
pub open spec fn magnitude(x: i16) -> int {
    if x < 0 {
        -x
    } else {
        x as int
    }
}

/// The sample lies above the x-axis (zero counts as below).
pub open spec fn is_above(x: i16) -> bool {
    x > 0
}

/// The first position at or after `k` whose sample is not noise, or `s.len()`.
pub open spec fn first_loud(s: Seq<i16>, k: int) -> int
    decreases s.len() - k,
{
    if k < 0 || k >= s.len() {
        s.len() as int
    } else if magnitude(s[k]) >= IGNORE_NOISE_THRESHOLD {
        k
    } else {
        first_loud(s, k + 1)
    }
}

/// The first position at or after `k` whose sample is not on the side
/// `above`, or `s.len()`.
pub open spec fn first_flip(s: Seq<i16>, k: int, above: bool) -> int
    decreases s.len() - k,
{
    if k < 0 || k >= s.len() {
        s.len() as int
    } else if is_above(s[k]) != above {
        k
    } else {
        first_flip(s, k + 1, above)
    }
}

/// The next root at or after `k`: after skipping noise, the last sample
/// before the waveform changes side. `None` where it does not change side
/// again within `s`.
pub open spec fn next_root(s: Seq<i16>, k: int) -> Option<int> {
    let a = first_loud(s, k);
    if a >= s.len() {
        None
    } else {
        let b = first_flip(s, a + 1, is_above(s[a]));
        if b >= s.len() {
            None
        } else {
            Some(b - 1)
        }
    }
}

proof fn lemma_first_loud_bounds(s: Seq<i16>, k: int)
    requires
        0 <= k <= s.len(),
    ensures
        k <= first_loud(s, k) <= s.len(),
    decreases s.len() - k,
{
    if k < s.len() && magnitude(s[k]) < IGNORE_NOISE_THRESHOLD {
        lemma_first_loud_bounds(s, k + 1);
    }
}

proof fn lemma_first_flip_bounds(s: Seq<i16>, k: int, above: bool)
    requires
        0 <= k <= s.len(),
    ensures
        k <= first_flip(s, k, above) <= s.len(),
    decreases s.len() - k,
{
    if k < s.len() && is_above(s[k]) == above {
        lemma_first_flip_bounds(s, k + 1, above);
    }
}

/// A root found from `k` lies at or after `k`, and at least one sample
/// follows it.
pub proof fn lemma_next_root_bounds(s: Seq<i16>, k: int)
    requires
        0 <= k <= s.len(),
    ensures
        next_root(s, k) matches Some(e) ==> k <= e && e + 2 <= s.len(),
{
    lemma_first_loud_bounds(s, k);
    let a = first_loud(s, k);
    if a < s.len() {
        lemma_first_flip_bounds(s, a + 1, is_above(s[a]));
    }
}

/// The magnitude of a sample, exactly (also for `i16::MIN`).
pub fn magnitude_of(x: i16) -> (r: u16)
    ensures
        r as int == magnitude(x),
{
    if x < 0 {
        (-(x as i32)) as u16
    } else {
        x as u16
    }
}

/// The position of the next root at or after `from`, see [`next_root`].
pub fn find_root(history: &AudioHistory, from: usize) -> (r: Option<usize>)
    requires
        from <= history.samples().len(),
    ensures
        r is Some <==> next_root(history.samples(), from as int) is Some,
        r matches Some(e) ==> next_root(history.samples(), from as int) == Some(e as int),
{
    let ghost s = history.samples();
    let n = history.len();
    let mut a: usize = from;
    while a < n && magnitude_of(history.amplitude(a)) < IGNORE_NOISE_THRESHOLD
        invariant
            from <= a <= n,
            n == s.len(),
            s == history.samples(),
            first_loud(s, from as int) == first_loud(s, a as int),
        decreases n - a,
    {
        a = a + 1;
    }
    if a >= n {
        return None;
    }
    let above = history.amplitude(a) > 0;
    let mut b: usize = a + 1;
    while b < n && (history.amplitude(b) > 0) == above
        invariant
            a < b <= n,
            n == s.len(),
            s == history.samples(),
            first_flip(s, a + 1, above) == first_flip(s, b as int, above),
        decreases n - b,
    {
        b = b + 1;
    }
    if b >= n {
        None
    } else {
        Some(b - 1)
    }
}

/// Iterates the roots of the waveform, from a start position on.
///
/// The iterator reads the history it was made for; a change of the history
/// calls for a new iterator.
#[derive(Debug, Clone, Copy)]
pub struct RootIterator<'a> {
    index: usize,
    buffer: &'a AudioHistory,
}

impl<'a> RootIterator<'a> {
    /// Where the next search starts.
    pub closed spec fn cursor(&self) -> int {
        self.index as int
    }

    /// The history that is searched.
    pub closed spec fn history(&self) -> AudioHistory {
        *self.buffer
    }

    /// The cursor lies within the history.
    pub open spec fn wf(&self) -> bool {
        &&& self.history().wf()
        &&& 0 <= self.cursor() < self.history().samples().len()
    }

    /// An iterator that starts at `begin_index` (at the first sample where it
    /// is `None`).
    pub fn new(buffer: &'a AudioHistory, begin_index: Option<usize>) -> (r: Self)
        requires
            buffer.wf(),
            (match begin_index {
                Some(i) => i,
                None => 0,
            }) < buffer.samples().len(),
        ensures
            r.wf(),
            r.history() == *buffer,
            r.cursor() == match begin_index {
                Some(i) => i as int,
                None => 0,
            },
    {
        let index = match begin_index {
            Some(i) => i,
            None => 0,
        };
        Self { index, buffer }
    }

    /// The next root, see [`next_root`]; the search goes on after it.
    pub fn next(&mut self) -> (r: Option<SampleInfo>)
        requires
            old(self).wf(),
        ensures
            final(self).wf(),
            final(self).history() == old(self).history(),
            match next_root(old(self).history().samples(), old(self).cursor()) {
                Some(e) => r == Some(old(self).history().info_at(e)) && final(self).cursor()
                    == e + 1,
                None => r is None && final(self).cursor() == old(self).cursor(),
            },
    {
        match find_root(self.buffer, self.index) {
            Some(e) => {
                proof {
                    lemma_next_root_bounds(self.buffer.samples(), self.index as int);
                }
                self.index = e + 1;
                Some(self.buffer.index_to_sample_info(e))
            },
            None => None,
        }
    }
}

} // verus!

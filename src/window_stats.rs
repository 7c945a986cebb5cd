//! Statistics of a window of samples.

use vstd::prelude::*;
use crate::root_iterator::magnitude;

verus! {

/// The magnitude of a sample, with `i16::MIN` counted as `-i16::MAX`.
pub open spec fn clamped_magnitude(x: i16) -> int {
    if x == i16::MIN {
        i16::MAX as int
    } else {
        magnitude(x)
    }
}

/// Information about a window of 16-bit samples.
#[derive(Debug)]
pub struct WindowStats {
    /// The largest magnitude of a sample in the window.
    max: u16,
}

impl WindowStats {
    /// The largest magnitude in the window.
    pub closed spec fn max_spec(&self) -> nat {
        self.max as nat
    }

    /// The statistics of a non-empty window.
    pub fn from_samples(samples: &[i16]) -> (r: Self)
        requires
            samples@.len() > 0,
        ensures
            forall|i: int| 0 <= i < samples@.len() ==> clamped_magnitude(#[trigger] samples@[i]) <= r.max_spec(),
            exists|i: int| 0 <= i < samples@.len() && clamped_magnitude(#[trigger] samples@[i]) == r.max_spec(),
    {
        let mut max: u16 = 0;
        let mut at: usize = 0;
        let mut k: usize = 0;
        while k < samples.len()
            invariant
                k <= samples@.len(),
                samples@.len() > 0,
                at < samples@.len(),
                k > 0 ==> at < k && clamped_magnitude(samples@[at as int]) == max as int,
                k == 0 ==> max == 0,
                forall|i: int| 0 <= i < k ==> clamped_magnitude(#[trigger] samples@[i]) <= max as int,
            decreases samples@.len() - k,
        {
            let x = samples[k];
            let m: u16 = if x == i16::MIN {
                i16::MAX as u16
            } else if x < 0 {
                (-x) as u16
            } else {
                x as u16
            };
            if k == 0 || m > max {
                max = m;
                at = k;
            }
            k = k + 1;
        }
        Self { max }
    }

    /// The largest magnitude in the window.
    pub fn max(&self) -> (r: u16)
        ensures
            r as nat == self.max_spec(),
    {
        self.max
    }
}

} // verus!

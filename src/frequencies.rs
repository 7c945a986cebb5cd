//! A validated pair of sample rate and cutoff frequency.

use vstd::prelude::*;

verus! {

/// Why a pair of frequencies was refused.
#[derive(Debug, Clone, Copy, PartialEq, Eq, Structural)]
pub enum InvalidFrequencyError {
    /// The cutoff frequency breaks the Nyquist rule: `cutoff * 2` exceeds the
    /// sample rate. Holds the sample rate, then the cutoff frequency (Hz).
    InvalidCutoffFrequency(u32, u32),
}

/// A sample rate and a cutoff frequency, both in whole Hertz, such that
/// `cutoff_fr_hz * 2 <= sample_rate_hz`.
#[derive(Debug, Clone, Copy, PartialEq, Eq, Structural)]
pub struct ValidInputFrequencies {
    sample_rate_hz: u32,
    cutoff_fr_hz: u32,
}

impl ValidInputFrequencies {
    /// The sample rate (Hz).
    pub closed spec fn rate(&self) -> nat {
        self.sample_rate_hz as nat
    }

    /// The cutoff frequency (Hz).
    pub closed spec fn cutoff(&self) -> nat {
        self.cutoff_fr_hz as nat
    }

    /// The Nyquist rule holds.
    pub open spec fn wf(&self) -> bool {
        self.cutoff() * 2 <= self.rate()
    }

    /// Pairs a sample rate with a cutoff frequency; refuses the pair when
    /// `cutoff_fr_hz * 2 > sample_rate_hz`.
    pub fn new(sample_rate_hz: u32, cutoff_fr_hz: u32) -> (r: Result<Self, InvalidFrequencyError>)
        ensures
            (cutoff_fr_hz as nat) * 2 <= sample_rate_hz as nat <==> r is Ok,
            r is Ok ==> r->Ok_0.wf() && r->Ok_0.rate() == sample_rate_hz as nat
                && r->Ok_0.cutoff() == cutoff_fr_hz as nat,
            r is Err ==> r->Err_0 == InvalidFrequencyError::InvalidCutoffFrequency(
                sample_rate_hz,
                cutoff_fr_hz,
            ),
    {
        if cutoff_fr_hz as u64 * 2 > sample_rate_hz as u64 {
            return Err(InvalidFrequencyError::InvalidCutoffFrequency(sample_rate_hz, cutoff_fr_hz));
        }
        Ok(Self { sample_rate_hz, cutoff_fr_hz })
    }

    /// The sample rate (Hz).
    pub fn sample_rate_hz(&self) -> (r: u32)
        ensures
            r as nat == self.rate(),
    {
        self.sample_rate_hz
    }

    /// The cutoff frequency (Hz).
    pub fn cutoff_fr_hz(&self) -> (r: u32)
        ensures
            r as nat == self.cutoff(),
    {
        self.cutoff_fr_hz
    }
}

} // verus!

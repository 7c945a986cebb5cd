//! Conversions of 16-bit samples at the boundary of the library.

use vstd::prelude::*;

verus! {

/// `a / 2`, rounded toward zero.
pub open spec fn half_toward_zero(a: int) -> int {
    if a >= 0 {
        a / 2
    } else {
        -((-a) / 2)
    }
}

/// Transforms two stereo samples (the same point in time on the left and the
/// right channel) into one mono sample: their average, rounded toward zero.
pub fn stereo_to_mono(l: i16, r: i16) -> (m: i16)
    ensures
        m as int == half_toward_zero(l as int + r as int),
{
    let sum = l as i32 + r as i32;
    let avg = if sum >= 0 {
        sum / 2
    } else {
        -((-sum) / 2)
    };
    avg as i16
}

/// Transforms unsigned 16-bit samples to signed ones by subtracting
/// `i16::MAX / 2` and keeping the low 16 bits.
pub fn u16_data_to_i16(data: &[u16]) -> (r: Vec<i16>)
    ensures
        r@.len() == data@.len(),
        forall|i: int|
            0 <= i < data@.len() ==> #[trigger] r@[i] == (data@[i] as int - i16::MAX / 2) as i16,
{
    let mut out: Vec<i16> = Vec::new();
    let mut k: usize = 0;
    while k < data.len()
        invariant
            k <= data@.len(),
            out@.len() == k,
            forall|i: int|
                0 <= i < k ==> #[trigger] out@[i] == (data@[i] as int - i16::MAX / 2) as i16,
        decreases data@.len() - k,
    {
        let x = data[k] as i32 - (i16::MAX / 2) as i32;
        out.push(x as i16);
        k = k + 1;
    }
    out
}

} // verus!

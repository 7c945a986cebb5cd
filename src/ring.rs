//! Storage of the audio history: a fixed-capacity ring buffer of the
//! `ringbuffer` crate.

use vstd::prelude::*;
use ringbuffer::{ConstGenericRingBuffer, RingBuffer};

verus! {

/// Number of samples that the audio history keeps: three times the shortest
/// envelope (140 ms) at 44.1 kHz, the highest rate expected without
/// downsampling.
pub const HISTORY_CAPACITY: usize = 140 * 3 * 44100 / 1000;

#[verifier::external_type_specification]
#[verifier::external_body]
#[verifier::reject_recursive_types(T)]
pub struct ExConstGenericRingBuffer<T, const CAP: usize>(ConstGenericRingBuffer<T, CAP>);

/// The samples that a ring buffer holds, oldest first.
pub uninterp spec fn ring_samples(r: ConstGenericRingBuffer<i16, HISTORY_CAPACITY>) -> Seq<i16>;

/// How many samples were ever pushed into a ring buffer.
pub uninterp spec fn ring_pushes(r: ConstGenericRingBuffer<i16, HISTORY_CAPACITY>) -> nat;

/// Relies on `ConstGenericRingBuffer::new`: a new buffer is empty.
#[verifier::external_body]
pub(crate) fn ring_new() -> (r: ConstGenericRingBuffer<i16, HISTORY_CAPACITY>)
    ensures
        ring_samples(r) == Seq::<i16>::empty(),
        ring_pushes(r) == 0,
{
    ConstGenericRingBuffer::new()
}

/// Relies on `RingBuffer::push` of `ConstGenericRingBuffer`: when the buffer
/// is full, the oldest sample is dropped, then the new one is appended. Each
/// push advances a `usize` write counter, which must not overflow.
#[verifier::external_body]
pub(crate) fn ring_push(r: &mut ConstGenericRingBuffer<i16, HISTORY_CAPACITY>, x: i16)
    requires
        ring_pushes(*old(r)) < usize::MAX,
    ensures
        ring_samples(*final(r)) == (if ring_samples(*old(r)).len() == HISTORY_CAPACITY {
            ring_samples(*old(r)).drop_first().push(x)
        } else {
            ring_samples(*old(r)).push(x)
        }),
        ring_pushes(*final(r)) == ring_pushes(*old(r)) + 1,
{
    r.push(x)
}

/// Relies on `RingBuffer::len`: the number of samples held.
#[verifier::external_body]
pub(crate) fn ring_len(r: &ConstGenericRingBuffer<i16, HISTORY_CAPACITY>) -> (n: usize)
    ensures
        n == ring_samples(*r).len(),
        n <= HISTORY_CAPACITY,
{
    r.len()
}

/// Relies on `RingBuffer::get`: for an index below the length, the sample at
/// that position counted from the oldest one.
#[verifier::external_body]
pub(crate) fn ring_get(r: &ConstGenericRingBuffer<i16, HISTORY_CAPACITY>, i: usize) -> (x: i16)
    requires
        i < ring_samples(*r).len(),
    ensures
        x == ring_samples(*r)[i as int],
{
    r[i]
}

} // verus!

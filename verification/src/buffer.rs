//! Trusted view of the bounded pulse buffer.
//!
//! The pulse train is accumulated in a `heapless::Vec`, a fixed-capacity
//! vector that never allocates. Verified code reaches it only through the
//! small wrappers below; their contracts state what `heapless` 0.8's source
//! shows of `new`, `push`, `len` and indexing.

use vstd::prelude::*;

use crate::protocol::LevelDuration;
use crate::protocol::MAX_TIMINGS;

verus! {

#[verifier::external_type_specification]
#[verifier::external_body]
#[verifier::reject_recursive_types(T)]
pub struct ExHeaplessVec<T, const N: usize>(heapless::Vec<T, N>);

/// A fixed-capacity buffer of pulses, at most `MAX_TIMINGS` of them.
pub type PulseVec = heapless::Vec<LevelDuration, MAX_TIMINGS>;

/// The pulses a buffer holds, oldest first.
pub uninterp spec fn pulse_seq(v: PulseVec) -> Seq<LevelDuration>;

/// Relies on `heapless::Vec::new`: the new vector is empty.
#[verifier::external_body]
pub(crate) fn pulse_vec_new() -> (v: PulseVec)
    ensures
        pulse_seq(v) == Seq::<LevelDuration>::empty(),
{
    heapless::Vec::new()
}

/// Relies on `heapless::Vec::push`: below the capacity `N` (here
/// `MAX_TIMINGS`), the item is appended at the back and `Ok` is returned.
#[verifier::external_body]
pub(crate) fn pulse_vec_push(v: &mut PulseVec, p: LevelDuration)
    requires
        pulse_seq(*old(v)).len() < MAX_TIMINGS,
    ensures
        pulse_seq(*final(v)) == pulse_seq(*old(v)).push(p),
{
    let _ = v.push(p);
}

/// Relies on `heapless::Vec::len`: the number of items held.
#[verifier::external_body]
pub(crate) fn pulse_vec_len(v: &PulseVec) -> (n: usize)
    ensures
        n == pulse_seq(*v).len(),
{
    v.len()
}

/// Relies on indexing through `heapless::Vec`'s deref to a slice: the item
/// at position `i`.
#[verifier::external_body]
pub(crate) fn pulse_vec_get(v: &PulseVec, i: usize) -> (p: LevelDuration)
    requires
        i < pulse_seq(*v).len(),
    ensures
        p == pulse_seq(*v)[i as int],
{
    v[i]
}

} // verus!

//! Observation sequence numbers: a shared counter that advances by one per
//! observation and fails closed instead of wrapping.
use vstd::prelude::*;
use std::sync::atomic::AtomicU64;
use std::sync::atomic::Ordering;
use crate::observation::error::ProviderError;

verus! {

/// The number after `current`, if there is one.
pub fn successor(current: u64) -> (r: Option<u64>)
    ensures
        match r {
            Some(n) => current < u64::MAX && n == current + 1,
            None => current == u64::MAX,
        },
{
    current.checked_add(1)
}

/// `AtomicU64::fetch_update` with [`successor`] as the update: atomically
/// replaces the value by its successor. Per the `std` documentation it
/// returns `Ok` with the value it replaced when the update function gave a
/// new value, and `Err` with the value it found when the function gave
/// none; so `Ok` holds a value below `u64::MAX` and `Err` holds `u64::MAX`.
/// Which value it finds depends on the other users of the counter.
#[verifier::external_body]
fn fetch_successor(sequence: &AtomicU64) -> (r: Result<u64, u64>)
    ensures
        match r {
            Ok(previous) => previous < u64::MAX,
            Err(previous) => previous == u64::MAX,
        },
{
    sequence.fetch_update(Ordering::Relaxed, Ordering::Relaxed, |value| successor(value))
}

/// The sequence number that follows `previous`; an exhausted counter is an
/// error, never a wrap to zero.
pub fn next_sequence_after(previous: u64) -> (r: Result<u64, ProviderError>)
    ensures
        previous < u64::MAX ==> r == Ok::<u64, ProviderError>((previous + 1) as u64),
        previous == u64::MAX ==> (r matches Err(e) && e is Internal),
{
    match successor(previous) {
        Some(n) => Ok(n),
        None => Err(ProviderError::Internal("observation sequence exhausted".to_string())),
    }
}

/// Advances the shared counter and returns the new sequence number. Every
/// number handed out is the successor of the value the counter held, so it
/// is at least one; an exhausted counter stays exhausted and yields an error.
pub fn next_sequence(sequence: &AtomicU64) -> (r: Result<u64, ProviderError>)
    ensures
        r matches Ok(n) ==> n >= 1,
        r matches Err(e) ==> e is Internal,
{
    match fetch_successor(sequence) {
        Ok(previous) => next_sequence_after(previous),
        Err(_) => Err(ProviderError::Internal("observation sequence exhausted".to_string())),
    }
}

} // verus!

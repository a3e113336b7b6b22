//! Locks shared between a session and the code that polls or pools it.
use std::sync::{Arc, Mutex, MutexGuard};
use vstd::prelude::*;

verus! {

#[verifier::external_type_specification]
#[verifier::external_body]
#[verifier::reject_recursive_types(T)]
pub struct ExMutex<T: ?Sized>(Mutex<T>);

#[verifier::external_type_specification]
#[verifier::external_body]
#[verifier::reject_recursive_types(T)]
pub struct ExMutexGuard<'a, T: ?Sized + 'a>(MutexGuard<'a, T>);

/// `Arc::clone`: another handle to the same value.
#[verifier::external_body]
pub fn share<T: ?Sized>(a: &Arc<T>) -> (r: Arc<T>)
    ensures
        r == *a,
{
    Arc::clone(a)
}

/// `Mutex::new`: a lock around `value`.
#[verifier::external_body]
pub fn new_mutex<T>(value: T) -> Mutex<T> {
    Mutex::new(value)
}

/// `Mutex::try_lock`: the guard when the lock is free at once, else `None`: when
/// another holder has it (this thread included) or a former holder panicked. It
/// never blocks, so a thread that already holds the lock gets `None` rather than
/// the deadlock or panic that `Mutex::lock` leaves open.
#[verifier::external_body]
pub fn try_lock<'a, T>(m: &'a Mutex<T>) -> Option<MutexGuard<'a, T>> {
    match m.try_lock() {
        Ok(guard) => Some(guard),
        Err(_) => None,
    }
}

/// `std::mem::replace` through a held lock: puts `value` in and returns what was
/// there.
#[verifier::external_body]
pub fn replace_locked<'a, T>(guard: &mut MutexGuard<'a, T>, value: T) -> T {
    std::mem::replace(&mut **guard, value)
}

} // verus!

//! What the handles need of `std::sync`: a mutex that owns the shared state and
//! the count of the handles that share it.
//!
//! Nothing here is proved. The standard library's `Mutex` gives the holder of
//! its guard exclusive access to the value inside; that is all the library
//! relies on, and no contract below says anything of the value that is found
//! there.

use std::sync::Arc;
use std::sync::Mutex;
use std::sync::MutexGuard;
use vstd::prelude::*;

verus! {

/// `std::sync::Mutex`, opaque to the verifier.
#[verifier::external_type_specification]
#[verifier::external_body]
#[verifier::reject_recursive_types(T)]
pub struct ExMutex<T: ?Sized>(Mutex<T>);

/// `std::sync::MutexGuard`, opaque to the verifier.
#[verifier::external_type_specification]
#[verifier::external_body]
#[verifier::reject_recursive_types(T)]
pub struct ExMutexGuard<'a, T: ?Sized + 'a>(MutexGuard<'a, T>);

/// `Mutex::new`: a mutex that owns `value`. Nothing is claimed of it.
pub assume_specification<T>[ Mutex::<T>::new ](value: T) -> (mutex: Mutex<T>)
;

/// `Mutex::lock`: waits until the mutex is free and returns its guard; the mutex is
/// released when the guard goes out of scope. A mutex poisoned by a panic in another
/// holder is taken all the same, with `PoisonError::into_inner`. Claimed: the call
/// does not unwind. Nothing is claimed of the value behind the guard.
///
/// The standard library leaves open what happens when the calling thread already
/// holds the guard: the call may panic or never return. The library keeps that case
/// out. Between a call of `lock` and the end of the guard it runs only its own code on
/// the shared state, which calls no `lock` and no code of the element type: no
/// destructor, no `clone`. A value that has to be dropped is handed out and dropped
/// after the guard.
#[verifier::external_body]
pub(crate) fn lock<'a, V>(mutex: &'a Mutex<V>) -> (guard: MutexGuard<'a, V>)
    opens_invariants none
    no_unwind
{
    match mutex.lock() {
        Ok(guard) => guard,
        Err(poisoned) => poisoned.into_inner(),
    }
}

/// `DerefMut::deref_mut` of `MutexGuard`: the value that the mutex owns, for as long as
/// the guard is borrowed. Claimed: the call does not unwind. Nothing is claimed of the
/// value.
#[verifier::external_body]
pub(crate) fn guarded<'a, 'b, V>(guard: &'a mut MutexGuard<'b, V>) -> (value: &'a mut V)
    opens_invariants none
    no_unwind
{
    std::ops::DerefMut::deref_mut(guard)
}

/// `Arc::clone`: another handle to the allocation that `shared` leads to. Claimed: the
/// new handle leads to the same value, as the standard library documents.
#[verifier::external_body]
pub(crate) fn share<V>(shared: &Arc<V>) -> (other: Arc<V>)
    ensures
        other == *shared,
{
    Arc::clone(shared)
}

/// `Arc::strong_count`: how many handles share the allocation at the moment of the
/// call. The count changes whenever a handle is cloned or dropped, so nothing is
/// claimed of it.
#[verifier::external_body]
pub(crate) fn strong_count<V>(shared: &Arc<V>) -> (count: usize) {
    Arc::strong_count(shared)
}

} // verus!

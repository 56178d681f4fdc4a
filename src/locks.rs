use vstd::prelude::*;
use parking_lot::{Mutex, MutexGuard, ReentrantMutex, ReentrantMutexGuard};

verus! {

/// parking_lot's `Mutex<T>` is lock_api's `Mutex<RawMutex, T>`; carried
/// through opaquely.
#[verifier::external_type_specification]
#[verifier::external_body]
#[verifier::reject_recursive_types(R)]
#[verifier::reject_recursive_types(T)]
pub struct ExLockApiMutex<R, T: ?Sized>(parking_lot::lock_api::Mutex<R, T>);

/// parking_lot's `ReentrantMutex<T>` is lock_api's
/// `ReentrantMutex<RawMutex, RawThreadId, T>`; carried through opaquely.
#[verifier::external_type_specification]
#[verifier::external_body]
#[verifier::reject_recursive_types(R)]
#[verifier::reject_recursive_types(G)]
#[verifier::reject_recursive_types(T)]
pub struct ExLockApiReentrantMutex<R, G, T: ?Sized>(parking_lot::lock_api::ReentrantMutex<R, G, T>);

/// The raw lock inside parking_lot's mutexes; carried through opaquely.
#[verifier::external_type_specification]
#[verifier::external_body]
pub struct ExRawMutex(parking_lot::RawMutex);

/// The thread identity of parking_lot's `ReentrantMutex`; carried through
/// opaquely.
#[verifier::external_type_specification]
#[verifier::external_body]
pub struct ExRawThreadId(parking_lot::RawThreadId);

/// A held fork or place mutex; dropping it releases the mutex. parking_lot's
/// guard type carries a bound on an outside trait that cannot be declared
/// here, so it is kept in a private field.
#[verifier::external_body]
pub struct Guard<'a> {
    guard: MutexGuard<'a, ()>,
}

/// A held reentrant mutex; dropping it releases one level of it. Kept in a
/// private field for the same reason as `Guard`.
#[verifier::external_body]
pub struct ReentrantGuard<'a> {
    guard: ReentrantMutexGuard<'a, ()>,
}

/// Relies on parking_lot's `Mutex::new`: a new mutex.
#[verifier::external_body]
pub(crate) fn new_lock() -> (r: Mutex<()>) {
    Mutex::new(())
}

/// Relies on parking_lot's `ReentrantMutex::new`: a new reentrant mutex.
#[verifier::external_body]
pub(crate) fn new_reentrant_lock() -> (r: ReentrantMutex<()>) {
    ReentrantMutex::new(())
}

/// Relies on parking_lot's `Mutex::try_lock`: never blocks; returns a guard
/// only if the mutex was free at that moment. Whether it was depends on other
/// threads, so nothing is promised of the outcome.
#[verifier::external_body]
pub(crate) fn try_acquire(m: &Mutex<()>) -> (r: Option<Guard<'_>>) {
    m.try_lock().map(|guard| Guard { guard })
}

/// Relies on parking_lot's `ReentrantMutex::lock`: blocks while another
/// thread holds the mutex and returns a guard; a thread that already holds it
/// gets a further level at once, so it cannot wait on itself.
#[verifier::external_body]
pub(crate) fn acquire_reentrant(m: &ReentrantMutex<()>) -> (r: ReentrantGuard<'_>) {
    ReentrantGuard { guard: m.lock() }
}

} // verus!

//! The lock-and-wait pairing the dynamic strategy's callers block on. The
//! mutex and condition variable are std's; Verus sees them as opaque values,
//! and the counter protocol they guard is verified in the admission module.
use vstd::prelude::*;

verus! {

/// Relies on std::sync::Mutex being an opaque lock value.
#[verifier::external_type_specification]
#[verifier::external_body]
#[verifier::reject_recursive_types(T)]
pub struct ExMutex<T: ?Sized>(std::sync::Mutex<T>);

/// Relies on std::sync::Condvar being an opaque wait-condition value.
#[verifier::external_type_specification]
#[verifier::external_body]
pub struct ExCondvar(std::sync::Condvar);

/// Relies on std::sync::Mutex::new: wraps the data in a fresh lock.
pub assume_specification<T>[ std::sync::Mutex::<T>::new ](t: T) -> std::sync::Mutex<T>;

/// Relies on std::sync::Condvar::new: a fresh wait condition.
pub assume_specification[ std::sync::Condvar::new ]() -> std::sync::Condvar;

/// A lock around some data, with a condition variable for notifying and
/// waiting on it.
#[verifier::reject_recursive_types(T)]
pub struct CvarLock<T> {
    pub mutex: std::sync::Mutex<T>,
    pub condvar: std::sync::Condvar,
}

impl<T> CvarLock<T> {
    /// Pair the data's fresh lock with a fresh condition variable.
    pub fn new(data: T) -> Self {
        let mutex = std::sync::Mutex::new(data);
        let condvar = std::sync::Condvar::new();
        CvarLock { mutex, condvar }
    }
}

} // verus!

//! The handle of the database that the tasks of the server share.

use std::collections::HashMap;
use std::sync::Arc;
use std::sync::Mutex;
use vstd::prelude::*;

verus! {

/// `std::sync::Mutex`, of which nothing is known here.
#[verifier::external_type_specification]
#[verifier::external_body]
#[verifier::reject_recursive_types(T)]
pub struct ExMutex<T: ?Sized>(Mutex<T>);

/// A database that can be shared between tasks: a table behind a lock.
pub type Db = Arc<Mutex<HashMap<u32, ()>>>;

/// `Mutex::new`: a lock around `t` that nobody holds. What the lock guards
/// can change under every handle, so nothing is said of it.
pub assume_specification<T>[ Mutex::<T>::new ](t: T) -> (lock: Mutex<T>)
;

/// A database with nothing in it. No clause says so: the table is behind
/// the lock, where every holder of the handle can change it, so it is no
/// part of what the handle is.
pub fn init_db() -> Db {
    Arc::new(Mutex::new(HashMap::new()))
}

} // verus!

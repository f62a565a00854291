//! The fast path for per-thread values: on targets whose compiler and
//! runtime provide a true per-thread cell, a key is simply that cell, and
//! access is direct.
//!
//! A [`Tls`] value is one thread's cell; cells of different threads are
//! different values, so nothing observed through one is affected by
//! another.

use vstd::prelude::*;
use crate::Ref;

verus! {

/// One thread's native cell holding its value directly.
pub struct Tls<T> {
    /// The value the cell holds.
    pub inner: T,
}

impl<T> Tls<T> {
    /// Borrow this thread's value.
    pub fn get(&self) -> (r: Ref<T>)
        ensures
            r@ == self.inner,
    {
        Ref::new(&self.inner)
    }

    /// Borrow this thread's value exclusively.
    pub fn get_mut(&mut self) -> (r: &mut T)
        ensures
            *r == old(self).inner,
            final(self).inner == *final(r),
    {
        &mut self.inner
    }
}

} // verus!

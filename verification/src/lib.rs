//! Thread-local storage primitives, modeled and verified.
//!
//! Four cooperating flavors of per-thread slots are provided, each backed by
//! an explicit, verified model of the state that the native facilities keep:
//!
//! * `os` — the raw slot layer: process-wide key allocation with lazy,
//!   race-reconciled descriptors, per-thread untyped slots, a destructor
//!   table drained to quiescence at thread detach, and a registry of
//!   explicitly-owned keys reclaimed at process exit.
//! * `statik` — an owning, statically-initialized per-thread value with a
//!   `Live` / `Destroying` / `Destroyed` lifecycle and destructor
//!   registration, built above the raw layer.
//! * `scoped` — a borrowed value bound to a slot for a bounded dynamic
//!   extent, restored on every exit path.
//! * `dynamic` — a lazily-initialized owned value above the owning layer.
//!
//! Untyped per-thread pointer storage is modeled as typed containers owned
//! per key, and the native callbacks as explicit state machines, so every
//! transition carries a contract.

use vstd::prelude::*;

pub mod dynamic;
pub mod fallback;
pub mod os;
pub mod scoped;
pub mod statik;
pub mod thread_local;

verus! {

/// A shared handle to a thread-confined value.
pub struct Ref<'a, T> {
    inner: &'a T,
}

impl<'a, T> Ref<'a, T> {
    /// The value behind the handle, as seen in contracts.
    pub closed spec fn view(&self) -> T {
        *self.inner
    }

    /// Wrap a shared borrow of a thread's value.
    pub fn new(inner: &'a T) -> (r: Ref<'a, T>)
        ensures
            r@ == *inner,
    {
        Ref { inner }
    }

    /// Read the value behind the handle.
    pub fn value(&self) -> (v: &T)
        ensures
            *v == self@,
    {
        self.inner
    }
}

} // verus!

//! The dynamic layer: a lazily-initialized owned value above the owning
//! static layer.
//!
//! A key here wraps an owning key whose payload is optional, plus a
//! zero-argument initializer. The first access on a thread finds the
//! payload empty, evaluates the initializer — exactly once for that
//! thread — and stores its result; every later access returns the same
//! instance. Nothing is ever synchronized across threads: each thread's
//! key value initializes its own instance. When the underlying key is
//! being or has been torn down, access yields no value, as the owning
//! layer has it.
//!
//! A re-entrant initializer — one that reaches back into the key it is
//! initializing — is excluded by construction: the access holds the key
//! exclusively while the initializer runs, so no such call can be
//! written.

use vstd::prelude::*;
use crate::statik;
use crate::statik::ExitDtors;
use crate::statik::KeyState;

verus! {

/// A shared handle to this thread's lazily-constructed instance.
pub struct Ref<'a, T> {
    inner: &'a T,
}

impl<'a, T> Ref<'a, T> {
    /// The value behind the handle, as seen in contracts.
    pub closed spec fn view(&self) -> T {
        *self.inner
    }

    /// Wrap a shared borrow of a thread's instance.
    pub fn new(inner: &'a T) -> (r: Ref<'a, T>)
        ensures
            r@ == *inner,
    {
        Ref { inner }
    }

    /// Read the value behind the handle.
    pub fn value(&self) -> (v: &'a T)
        ensures
            *v == self@,
    {
        self.inner
    }
}

/// One thread's dynamically initialized key: an owning key whose payload
/// starts empty, and the initializer whose result fills it on the
/// thread's first access.
pub struct Key<T, F> {
    inner: statik::Key<Option<T>>,
    init: F,
}

impl<T, F: Fn() -> T> Key<T, F> {
    /// The instance this thread's slot holds, once constructed.
    pub closed spec fn payload(self) -> Option<T> {
        match self.inner.stored() {
            Some(p) => p,
            None => None,
        }
    }

    /// The initialization routine evaluated on first per-thread access.
    pub closed spec fn init_fn(self) -> F {
        self.init
    }

    /// Where the underlying owning key is in its lifecycle.
    pub closed spec fn lifecycle(self) -> KeyState {
        self.inner.lifecycle()
    }

    /// Whether this thread has registered the key's teardown.
    pub closed spec fn dtor_registered(self) -> bool {
        self.inner.dtor_registered()
    }

    /// The underlying owning key is well-formed, and holds a payload cell
    /// exactly while it is live.
    pub closed spec fn wf(self) -> bool {
        self.inner.wf()
    }

    /// A key whose per-thread instance will be built by `init` on first
    /// access; nothing is constructed yet.
    pub fn new(init: F) -> (k: Key<T, F>)
        ensures
            k.wf(),
            k.lifecycle() == KeyState::Live,
            k.payload() is None,
            k.init_fn() == init,
            !k.dtor_registered(),
    {
        Key { inner: statik::Key::new(None), init }
    }

    /// Borrow this thread's instance, evaluating the initializer if this
    /// is the thread's first access — exactly once per thread, never
    /// again while the instance exists. Yields nothing while or after the
    /// underlying key is torn down. The first successful access registers
    /// `handle` for teardown at thread exit.
    pub fn get(&mut self, exits: &mut ExitDtors, handle: usize) -> (r: Option<Ref<T>>)
        requires
            old(self).wf(),
            call_requires(old(self).init_fn(), ()),
        ensures
            final(self).wf(),
            final(self).lifecycle() == old(self).lifecycle(),
            final(self).init_fn() == old(self).init_fn(),
            old(self).lifecycle() == KeyState::Live ==> match r {
                Some(h) => {
                    &&& final(self).payload() == Some(h@)
                    &&& match old(self).payload() {
                        Some(existing) => h@ == existing,
                        None => call_ensures(old(self).init_fn(), (), h@),
                    }
                    &&& final(self).dtor_registered()
                },
                None => false,
            },
            old(self).lifecycle() != KeyState::Live ==> r is None && final(self).payload() == old(
                self,
            ).payload() && *final(exits) == *old(exits),
            old(self).lifecycle() == KeyState::Live && !old(self).dtor_registered() ==> {
                &&& final(exits).pending_view() =~= old(exits).pending_view().push(handle)
                &&& final(exits).rounds() == old(exits).rounds()
            },
            old(self).dtor_registered() ==> *final(exits) == *old(exits),
    {
        let present = match self.inner.get(exits, handle) {
            Some(h) => h.value().is_some(),
            None => {
                return None;
            },
        };
        if !present {
            let constructed = (self.init)();
            self.inner.set(Some(constructed));
        }
        match self.inner.get(exits, handle) {
            Some(h) => match h.value() {
                Some(v) => Some(Ref::new(v)),
                None => None,
            },
            None => None,
        }
    }
}

/// Sequential accesses on one thread return the same lazily-constructed
/// instance — the initializer runs once, on the first of them — while a
/// second thread's key builds an instance of its own, untouched by the
/// first thread's.
pub fn sequential_gets_share_instance<T, F: Fn() -> T>(
    this_thread: F,
    other_thread: F,
    exits: &mut ExitDtors,
    handle: usize,
)
    requires
        forall|u: ()| call_requires(this_thread, u),
        forall|u: ()| call_requires(other_thread, u),
{
    let ghost f = this_thread;
    let mut k = Key::new(this_thread);
    let first = k.get(exits, handle);
    proof {
        assert(match first {
            Some(h) => call_ensures(f, (), h@) && k.payload() == Some(h@),
            None => false,
        });
    }
    let ghost constructed = k.payload();
    let second = k.get(exits, handle);
    proof {
        // The same instance, not a second evaluation of the initializer.
        assert(match second {
            Some(h) => Some(h@) == constructed,
            None => false,
        });
        assert(k.payload() == constructed);
    }
    // Another thread's instance of the same key: its own construction,
    // independent of everything the first thread did.
    let ghost g = other_thread;
    let mut peer = Key::new(other_thread);
    let theirs = peer.get(exits, handle);
    proof {
        assert(match theirs {
            Some(h) => call_ensures(g, (), h@),
            None => false,
        });
        assert(k.payload() == constructed);
    }
}

} // verus!

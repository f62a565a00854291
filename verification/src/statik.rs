//! The owning, statically-initialized layer: a per-thread value seeded
//! from one initializer, with automatic teardown at thread exit.
//!
//! Each thread's instance of a key is independent; a [`Key`] value here is
//! one thread's instance, so nothing done to one thread's key can be seen
//! through another's. The per-thread lifecycle is an explicit state
//! machine: `Live` from initialization, `Destroying` while the destructor
//! body runs — any access from inside it already observes no value — and
//! `Destroyed` afterwards, terminal for that thread. Access during or
//! after destruction follows the soft policy throughout: it yields no
//! value rather than failing.

use vstd::prelude::*;

verus! {

/// Per-thread lifecycle of an owning key's value.
#[derive(PartialEq, Eq, Structural, Clone, Copy, Debug)]
pub enum KeyState {
    /// The value is present and may be borrowed.
    Live,
    /// The destructor body is running; the slot never hands out the
    /// half-torn-down value.
    Destroying,
    /// The destructor has finished; terminal for this thread.
    Destroyed,
}

/// A shared handle to this thread's value.
pub struct Ref<'a, T> {
    inner: &'a T,
}

impl<'a, T> Ref<'a, T> {
    /// The value behind the handle, as seen in contracts.
    pub closed spec fn view(&self) -> T {
        *self.inner
    }

    /// Wrap a shared borrow of a thread's value.
    pub fn new(inner: &'a T) -> (r: Ref<'a, T>)
        ensures
            r@ == *inner,
    {
        Ref { inner }
    }

    /// Read the value behind the handle; the borrow lives as long as the
    /// underlying value does.
    pub fn value(&self) -> (v: &'a T)
        ensures
            *v == self@,
    {
        self.inner
    }
}

/// The per-thread list of pending teardown registrations, kept against one
/// sentinel slot when the runtime offers no direct thread-exit hook. Its
/// drain loops while destructor bodies keep registering new entries, but
/// only a bounded number of rounds, so a self-repopulating chain leaks
/// instead of looping forever.
pub struct ExitDtors {
    pending: Vec<usize>,
    rounds_left: usize,
}

impl ExitDtors {
    /// Handles awaiting teardown, in registration order.
    pub closed spec fn pending_view(self) -> Seq<usize> {
        self.pending@
    }

    /// How many drain rounds remain before the list gives up.
    pub closed spec fn rounds(self) -> usize {
        self.rounds_left
    }

    /// An empty list that will drain at most `bound` rounds.
    pub fn new(bound: usize) -> (r: ExitDtors)
        ensures
            r.pending_view() =~= Seq::<usize>::empty(),
            r.rounds() == bound,
    {
        ExitDtors { pending: Vec::new(), rounds_left: bound }
    }

    /// Append one handle; a destructor body may do this while a drain is
    /// under way, which is what makes the drain loop.
    pub fn register(&mut self, handle: usize)
        ensures
            final(self).pending_view() =~= old(self).pending_view().push(handle),
            final(self).rounds() == old(self).rounds(),
    {
        self.pending.push(handle);
    }

    /// One drain round: hand the caller the whole pending list, oldest
    /// first, and empty it; the caller runs each handle's destructor,
    /// which may register new entries for the next round. Yields nothing
    /// when the list is empty — quiescence — or when the bound is spent,
    /// and then whatever is pending leaks.
    pub fn drain_round(&mut self) -> (batch: Option<Vec<usize>>)
        ensures
            old(self).pending_view().len() == 0 ==> batch is None && *final(self) == *old(self),
            old(self).rounds() == 0 ==> batch is None && *final(self) == *old(self),
            old(self).pending_view().len() > 0 && old(self).rounds() > 0 ==> match batch {
                Some(b) => {
                    &&& b@ == old(self).pending_view()
                    &&& final(self).pending_view() =~= Seq::<usize>::empty()
                    &&& final(self).rounds() == old(self).rounds() - 1
                },
                None => false,
            },
    {
        if self.pending.len() == 0 || self.rounds_left == 0 {
            return None;
        }
        self.rounds_left = self.rounds_left - 1;
        let mut batch: Vec<usize> = Vec::new();
        core::mem::swap(&mut batch, &mut self.pending);
        Some(batch)
    }
}

/// One thread's instance of an owning, statically-initialized key: the
/// owned value, its lifecycle state, and whether this thread has already
/// registered the key's teardown.
pub struct Key<T> {
    value: Option<T>,
    state: KeyState,
    registered: bool,
}

impl<T> Key<T> {
    /// The value this thread's slot owns, while it owns one.
    pub closed spec fn stored(self) -> Option<T> {
        self.value
    }

    /// Where this thread's instance is in its lifecycle.
    pub closed spec fn lifecycle(self) -> KeyState {
        self.state
    }

    /// Whether this thread has registered the key's teardown.
    pub closed spec fn dtor_registered(self) -> bool {
        self.registered
    }

    /// The value is present exactly while the instance is `Live`.
    pub open spec fn wf(self) -> bool {
        (self.lifecycle() == KeyState::Live) == (self.stored() is Some)
    }

    /// This thread's instance, seeded from the static initializer.
    pub fn new(init: T) -> (k: Key<T>)
        ensures
            k.wf(),
            k.lifecycle() == KeyState::Live,
            k.stored() == Some(init),
            !k.dtor_registered(),
    {
        Key { value: Some(init), state: KeyState::Live, registered: false }
    }

    /// Borrow this thread's value. The first successful access registers
    /// `handle` for teardown at thread exit, once per thread per key.
    /// During or after destruction there is no value — in particular, a
    /// destructor that reaches back to its own key observes none.
    pub fn get(&mut self, exits: &mut ExitDtors, handle: usize) -> (r: Option<Ref<T>>)
        requires
            old(self).wf(),
        ensures
            final(self).wf(),
            final(self).lifecycle() == old(self).lifecycle(),
            final(self).stored() == old(self).stored(),
            old(self).lifecycle() == KeyState::Live ==> {
                &&& match r {
                    Some(h) => Some(h@) == old(self).stored(),
                    None => false,
                }
                &&& final(self).dtor_registered()
            },
            old(self).lifecycle() != KeyState::Live ==> r is None && *final(self) == *old(self)
                && *final(exits) == *old(exits),
            old(self).lifecycle() == KeyState::Live && !old(self).dtor_registered() ==> {
                &&& final(exits).pending_view() =~= old(exits).pending_view().push(handle)
                &&& final(exits).rounds() == old(exits).rounds()
            },
            old(self).dtor_registered() ==> *final(exits) == *old(exits),
    {
        match self.state {
            KeyState::Live => {
                if !self.registered {
                    exits.register(handle);
                    self.registered = true;
                }
                match &self.value {
                    Some(v) => Some(Ref::new(v)),
                    None => None,
                }
            },
            _ => None,
        }
    }

    /// Borrow this thread's value exclusively; nothing during or after
    /// destruction. The caller's writes through the borrow are the only
    /// change.
    pub fn get_mut(&mut self) -> (r: Option<&mut T>)
        requires
            old(self).wf(),
        ensures
            final(self).wf(),
            final(self).lifecycle() == old(self).lifecycle(),
            final(self).dtor_registered() == old(self).dtor_registered(),
            old(self).lifecycle() == KeyState::Live ==> match r {
                Some(v) => Some(*v) == old(self).stored() && final(self).stored() == Some(
                    *final(v),
                ),
                None => false,
            },
            old(self).lifecycle() != KeyState::Live ==> r is None && *final(self) == *old(self),
    {
        match self.state {
            KeyState::Live => {
                match &mut self.value {
                    Some(v) => Some(v),
                    None => None,
                }
            },
            _ => None,
        }
    }

    /// Replace this thread's value in place; refused during or after
    /// destruction. Reports whether the store happened.
    pub fn set(&mut self, v: T) -> (ok: bool)
        requires
            old(self).wf(),
        ensures
            final(self).wf(),
            final(self).lifecycle() == old(self).lifecycle(),
            final(self).dtor_registered() == old(self).dtor_registered(),
            ok == (old(self).lifecycle() == KeyState::Live),
            ok ==> final(self).stored() == Some(v),
            !ok ==> final(self).stored() == old(self).stored(),
    {
        match self.state {
            KeyState::Live => {
                self.value = Some(v);
                true
            },
            _ => false,
        }
    }

    /// Thread exit starts tearing this instance down: the state moves to
    /// `Destroying` before anything else, so accesses from the destructor
    /// body itself already find no value; the owned value is handed out,
    /// and dropping it is the destructor body.
    pub fn destroy_value(&mut self) -> (r: Option<T>)
        requires
            old(self).wf(),
        ensures
            final(self).wf(),
            final(self).dtor_registered() == old(self).dtor_registered(),
            old(self).lifecycle() == KeyState::Live ==> {
                &&& final(self).lifecycle() == KeyState::Destroying
                &&& r == old(self).stored()
                &&& r is Some
            },
            old(self).lifecycle() != KeyState::Live ==> r is None && *final(self) == *old(self),
    {
        match self.state {
            KeyState::Live => {
                self.state = KeyState::Destroying;
                let mut taken: Option<T> = None;
                core::mem::swap(&mut taken, &mut self.value);
                taken
            },
            _ => None,
        }
    }

    /// The destructor body finished: terminal for this thread.
    pub fn finish_destroy(&mut self)
        requires
            old(self).wf(),
            old(self).lifecycle() == KeyState::Destroying,
        ensures
            final(self).wf(),
            final(self).lifecycle() == KeyState::Destroyed,
            final(self).dtor_registered() == old(self).dtor_registered(),
            final(self).stored() is None,
    {
        self.state = KeyState::Destroyed;
    }
}

/// Lazy initialization is idempotent: on one thread, every access before
/// any mutation yields a value equal to the static initializer's result,
/// however often it is repeated.
pub fn repeated_get_before_mutation<T>(init: T, exits: &mut ExitDtors, handle: usize) {
    let ghost seed = init;
    let mut k = Key::new(init);
    let a = k.get(exits, handle);
    proof {
        assert(match a {
            Some(h) => h@ == seed,
            None => false,
        });
    }
    let b = k.get(exits, handle);
    proof {
        assert(match b {
            Some(h) => h@ == seed,
            None => false,
        });
    }
    let c = k.get(exits, handle);
    proof {
        assert(match c {
            Some(h) => h@ == seed,
            None => false,
        });
    }
}

/// During its own teardown a key observes no value: the state machine
/// moves to `Destroying` before the destructor body can run, so a
/// self-referential destructor gets none — never the half-destroyed
/// payload — and the slot stays empty afterwards.
pub fn self_access_during_destruction<T>(k: &mut Key<T>, exits: &mut ExitDtors, handle: usize)
    requires
        old(k).wf(),
        old(k).lifecycle() == KeyState::Live,
    ensures
        final(k).wf(),
        final(k).lifecycle() == KeyState::Destroyed,
{
    let torn = k.destroy_value();
    proof {
        assert(torn is Some);
    }
    // What the destructor body for `torn` would observe via its own key:
    let reentrant = k.get(exits, handle);
    proof {
        assert(reentrant is None);
    }
    k.finish_destroy();
    let after = k.get(exits, handle);
    proof {
        assert(after is None);
    }
}

} // verus!

//! The scoped layer: a caller-owned value bound into a slot for the
//! dynamic extent of a call, restored on every exit path.
//!
//! A slot here never owns its content in the original sense — it holds a
//! borrowed binding — so a [`Key`] starts empty, `set` binds a value for
//! the duration of a body, and nesting restores outward bindings in LIFO
//! order, implicit in the call frames themselves rather than in an
//! explicit stack. Each thread's slot is independent: a `Key` value is one
//! thread's slot.

use vstd::prelude::*;

verus! {

/// The raw slot behind a scoped key: it holds the current binding, or
/// nothing, exactly as the native slot holds a possibly-null pointer.
pub struct KeyInner<T> {
    slot: Option<T>,
}

impl<T> KeyInner<T> {
    /// The current binding; nothing stands for the null pointer.
    pub closed spec fn binding(self) -> Option<T> {
        self.slot
    }

    /// An empty slot.
    pub fn new() -> (r: KeyInner<T>)
        ensures
            r.binding() is None,
    {
        KeyInner { slot: None }
    }

    /// Read the slot, as the native layer reads the stored pointer.
    pub fn get(&self) -> (r: Option<&T>)
        ensures
            match r {
                Some(v) => self.binding() == Some(*v),
                None => self.binding() is None,
            },
    {
        match &self.slot {
            Some(v) => Some(v),
            None => None,
        }
    }

    /// Store into the slot, handing back what it held — the native
    /// read-then-write a scoped `set` opens with.
    pub fn set(&mut self, ptr: Option<T>) -> (prev: Option<T>)
        ensures
            final(self).binding() == ptr,
            prev == old(self).binding(),
    {
        let mut prev = ptr;
        core::mem::swap(&mut prev, &mut self.slot);
        prev
    }
}

/// One thread's scoped key: empty until a `set` binds a value for the
/// extent of a body.
pub struct Key<T> {
    /// The slot itself.
    pub inner: KeyInner<T>,
}

impl<T> Key<T> {
    /// The current binding of this thread's slot.
    pub open spec fn binding(self) -> Option<T> {
        self.inner.binding()
    }

    /// A scoped key starts with no binding.
    pub fn new() -> (r: Key<T>)
        ensures
            r.binding() is None,
    {
        Key { inner: KeyInner::new() }
    }

    /// Bind `t` in this slot while `body` runs, then restore the previous
    /// binding unconditionally: whatever the body did to the slot — bind,
    /// rebind, nest further — the binding that comes back out is exactly
    /// what went in, and the other component of the result is exactly what
    /// the body returned, so the body's own postcondition carries over.
    /// The key is threaded through the body by value, which is the
    /// call-frame discipline made explicit.
    pub fn set<R, F: FnOnce(Key<T>) -> (Key<T>, R)>(self, t: T, body: F) -> (out: (Key<T>, R))
        requires
            forall|k: Key<T>| k.binding() == Some(t) ==> call_requires(body, (k,)),
        ensures
            out.0.binding() == self.binding(),
            exists|entered: Key<T>, left: Key<T>|
                entered.binding() == Some(t) && #[trigger] call_ensures(
                    body,
                    (entered,),
                    (left, out.1),
                ),
    {
        let mut k = self;
        let prev = k.inner.set(Some(t));
        proof {
            assert(k.binding() == Some(t));
            assert(call_requires(body, (k,)));
        }
        let ghost entered = k;
        let (mut k, r) = body(k);
        let ghost left = k;
        k.inner.set(prev);
        let out = (k, r);
        proof {
            assert(entered.binding() == Some(t));
            assert(call_ensures(body, (entered,), (left, out.1)));
        }
        out
    }

    /// Hand the current binding to the caller: a reference whose validity
    /// is bounded by the borrow, never an escape of the slot's content.
    pub fn with(&self) -> (r: Option<&T>)
        ensures
            match r {
                Some(v) => self.binding() == Some(*v),
                None => self.binding() is None,
            },
    {
        self.inner.get()
    }

    /// Open a scoped binding by hand: bind `t`, handing back the previous
    /// binding, which the matching `exit` must restore. `set` is this,
    /// a body, and the `exit`, fused with the call frame.
    pub fn enter(&mut self, t: T) -> (prev: Option<T>)
        ensures
            final(self).binding() == Some(t),
            prev == old(self).binding(),
    {
        self.inner.set(Some(t))
    }

    /// Close a scoped binding by hand, restoring what `enter` displaced.
    pub fn exit(&mut self, prev: Option<T>)
        ensures
            final(self).binding() == prev,
    {
        self.inner.set(prev);
    }
}

/// What `set` hands back beside the key is the body's own result, with
/// the body's postcondition attached: a body that returns the value it
/// observes in the slot delivers the in-extent binding to the caller.
pub fn set_returns_body_result<T: Copy>(k: Key<T>, a: T) -> (r: (Key<T>, Option<T>))
    ensures
        r.1 == Some(a),
        r.0.binding() == k.binding(),
{
    let ghost bound = a;
    let body = |key: Key<T>| -> (res: (Key<T>, Option<T>))
        requires
            key.binding() == Some(bound),
        ensures
            res.1 == Some(bound),
        {
            let observed = match key.with() {
                Some(x) => Some(*x),
                None => None,
            };
            (key, observed)
        };
    k.set(a, body)
}

/// Scoped bindings nest in LIFO order: inside the inner extent the inner
/// value is observed, the outer value is observed again as soon as the
/// inner extent closes, and once the outer extent closes the slot is back
/// to exactly its original binding — empty, if it started empty.
pub fn nested_bindings_restore<T>(k: &mut Key<T>, a: T, b: T)
    ensures
        final(k).binding() == old(k).binding(),
{
    let ghost first = a;
    let ghost second = b;
    let outer = k.enter(a);
    let observed_outer = k.with();
    proof {
        assert(match observed_outer {
            Some(v) => *v == first,
            None => false,
        });
    }
    let inner = k.enter(b);
    let observed_inner = k.with();
    proof {
        assert(match observed_inner {
            Some(v) => *v == second,
            None => false,
        });
    }
    k.exit(inner);
    let observed_restored = k.with();
    proof {
        assert(match observed_restored {
            Some(v) => *v == first,
            None => false,
        });
    }
    k.exit(outer);
}

} // verus!

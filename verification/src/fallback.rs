//! The fallback for the owning fast path: when no true per-thread cell
//! exists, the value lives behind a lazily allocated raw key. Each thread
//! gets its own heap copy of the initial bits on first access; the raw
//! slot for that thread marks that the copy exists.
//!
//! The payload is a machine word, as the raw layer stores machine words;
//! the owning static layer holds typed values. The per-thread copies are
//! kept here, beside the cell, and the raw slot's non-null marker says
//! which threads have one.

use vstd::prelude::*;
use crate::os;
use crate::os::OsTls;
use crate::os::TlsError;

verus! {

/// A per-thread word, statically initialized, backed by a lazily
/// allocated raw key.
pub struct Tls {
    init: usize,
    cell: os::StaticKeyInner,
    values: Vec<usize>,
}

impl Tls {
    /// The statically known initial bits every thread starts from.
    pub closed spec fn initial(self) -> usize {
        self.init
    }

    /// The raw key the cell resolved to; 0 while unallocated.
    pub closed spec fn raw_key(self) -> usize {
        self.cell.resolved()
    }

    /// The heap copy thread `t` owns, once it has one.
    pub closed spec fn local_copy(self, t: int) -> usize {
        if 0 <= t < self.values@.len() {
            self.values@[t]
        } else {
            0
        }
    }

    /// Thread `t` already made its copy: its raw slot is marked.
    pub open spec fn present(self, os: OsTls, t: int) -> bool {
        self.raw_key() != 0 && os.slot(t, self.raw_key() as int) != 0
    }

    /// What thread `t` observes: its own copy once it made one, the
    /// initial bits before that.
    pub open spec fn value_of(self, os: OsTls, t: int) -> usize {
        if self.present(os, t) {
            self.local_copy(t)
        } else {
            self.initial()
        }
    }

    /// Ties the cell to the process: a resolved key is live, and every
    /// thread whose slot is marked has a copy here.
    pub open spec fn wf(self, os: OsTls) -> bool {
        self.raw_key() != 0 ==> os.key_live(self.raw_key()) && (forall|t: int|
            0 <= t && #[trigger] os.slot(t, self.raw_key() as int) != 0 ==> t
                < self.local_len())
    }

    /// How many threads have storage here.
    pub closed spec fn local_len(self) -> nat {
        self.values@.len()
    }

    /// What locating thread `t`'s copy does: the initial bits and every
    /// other thread's view are kept, nothing of the raw layer changes but
    /// this thread's marker slot — and, when no key existed yet, exactly
    /// one fresh allocation, registered for the exit sweep.
    pub open spec fn located(pre: Tls, pre_os: OsTls, post: Tls, post_os: OsTls, t: int) -> bool {
        &&& post.raw_key() != 0
        &&& post_os.key_live(post.raw_key())
        &&& post.initial() == pre.initial()
        &&& post_os.n_threads() == pre_os.n_threads()
        &&& post_os.key_limit() == pre_os.key_limit()
        &&& post_os.dtor_table() == pre_os.dtor_table()
        &&& forall|t2: int, k2: int|
            !(t2 == t && k2 == post.raw_key() as int) ==> post_os.slot(t2, k2) == pre_os.slot(
                t2,
                k2,
            )
        &&& forall|t2: int| t2 != t ==> post.value_of(post_os, t2) == pre.value_of(pre_os, t2)
        &&& if pre.raw_key() != 0 {
            &&& post.raw_key() == pre.raw_key()
            &&& post_os.n_keys() == pre_os.n_keys()
            &&& post_os.registry_keys() == pre_os.registry_keys()
            &&& forall|k2: usize| post_os.key_live(k2) == pre_os.key_live(k2)
        } else {
            &&& post.raw_key() as nat == pre_os.n_keys()
            &&& !pre_os.key_live(post.raw_key())
            &&& post_os.n_keys() == pre_os.n_keys() + 1
            &&& forall|k2: usize|
                k2 != post.raw_key() ==> post_os.key_live(k2) == pre_os.key_live(k2)
            &&& post_os.registry_keys() =~= pre_os.registry_keys().push(post.raw_key())
        }
    }

    /// A cell that every thread will see as `init` until it writes.
    pub fn new(init: usize) -> (r: Tls)
        ensures
            r.initial() == init,
            r.raw_key() == 0,
            forall|os: OsTls, t: int| r.value_of(os, t) == init,
            forall|os: OsTls| r.wf(os),
    {
        Tls { init, cell: os::StaticKeyInner::new(), values: Vec::new() }
    }

    /// Allocate the raw key on first use and resolve the race: the winner
    /// schedules its key for reclamation at process exit, a loser discards
    /// its redundant one. Fails only when the process is out of keys.
    pub fn lazy_init(&mut self, os: &mut OsTls) -> (r: Result<usize, TlsError>)
        requires
            old(self).raw_key() == 0,
            old(os).inv(),
        ensures
            final(os).inv(),
            r is Ok <==> old(os).n_keys() <= old(os).key_limit(),
            final(self).initial() == old(self).initial(),
            final(self).local_len() == old(self).local_len(),
            forall|t: int| final(self).local_copy(t) == old(self).local_copy(t),
            match r {
                Ok(k) => {
                    &&& k != 0
                    &&& final(self).raw_key() == k
                    &&& k as nat == old(os).n_keys()
                    &&& !old(os).key_live(k)
                    &&& final(os).key_live(k)
                    &&& final(os).n_keys() == old(os).n_keys() + 1
                    &&& forall|k2: usize|
                        k2 != k ==> final(os).key_live(k2) == old(os).key_live(k2)
                    &&& forall|t: int, k2: int| final(os).slot(t, k2) == old(os).slot(t, k2)
                    &&& forall|t: int| final(os).slot(t, k as int) == 0
                    &&& final(os).registry_keys() =~= old(os).registry_keys().push(k)
                    &&& final(os).dtor_table() == old(os).dtor_table()
                },
                Err(e) => {
                    &&& e == TlsError::AllocationExhausted
                    &&& *final(os) == *old(os)
                    &&& *final(self) == *old(self)
                },
            },
            final(os).n_threads() == old(os).n_threads(),
            final(os).key_limit() == old(os).key_limit(),
    {
        let ghost os_pre = *os;
        let created = match os::create(os, None) {
            Ok(c) => c,
            Err(e) => {
                return Err(e);
            },
        };
        proof {
            os_pre.lemma_fresh_not_registered(created);
            assert(os.registry_keys() == os_pre.registry_keys());
            assert(created != 0);
        }
        let k = os::install_or_discard(&mut self.cell, os, created);
        Ok(k)
    }

    /// Locate this thread's copy, making the key and the copy on the way
    /// if this is the first access: afterwards the copy exists and holds
    /// what the thread observed before. Fails only when the key had to be
    /// allocated and the process is out of keys, and then changes nothing.
    fn ptr(&mut self, os: &mut OsTls, t: usize) -> (r: Result<(), TlsError>)
        requires
            old(self).wf(*old(os)),
            old(os).inv(),
            t < old(os).n_threads(),
        ensures
            final(os).inv(),
            final(self).wf(*final(os)),
            final(self).initial() == old(self).initial(),
            r is Err ==> old(self).raw_key() == 0 && old(os).n_keys() > old(os).key_limit()
                && *final(os) == *old(os) && *final(self) == *old(self),
            match r {
                Ok(u) => {
                    &&& Tls::located(*old(self), *old(os), *final(self), *final(os), t as int)
                    &&& t < final(self).local_len()
                    &&& final(self).present(*final(os), t as int)
                    &&& final(self).value_of(*final(os), t as int) == old(self).value_of(
                        *old(os),
                        t as int,
                    )
                },
                Err(e) => e == TlsError::AllocationExhausted,
            },
    {
        let cur = self.cell.read();
        let k = if cur == 0 {
            match self.lazy_init(os) {
                Ok(k) => k,
                Err(e) => {
                    return Err(e);
                },
            }
        } else {
            cur
        };
        let marker = os::get(os, t, k);
        if marker == 0 {
            // First access on this thread: copy the initial bits.
            let ghost vals0 = self.values@;
            let ghost init0 = self.init;
            let ghost cell0 = self.cell;
            while self.values.len() <= t
                invariant
                    self.init == init0,
                    self.cell == cell0,
                    vals0.len() <= self.values@.len(),
                    self.values@.len() <= vals0.len() || self.values@.len() <= t + 1,
                    forall|j: int|
                        0 <= j < self.values@.len() ==> self.values@[j] == (if 0 <= j
                            < vals0.len() {
                            vals0[j]
                        } else {
                            0
                        }),
                decreases t + 1 - self.values@.len(),
            {
                self.values.push(0);
            }
            self.values.set(t, self.init);
            os::set(os, t, k, 1);
        }
        proof {
            let kk = self.raw_key() as int;
            assert forall|t2: int|
                0 <= t2 && #[trigger] os.slot(t2, kk) != 0 implies t2 < self.local_len() by {
                if t2 != t as int {
                    if old(self).raw_key() != 0 {
                        assert(os.slot(t2, kk) == old(os).slot(t2, kk));
                    } else {
                        assert(os.slot(t2, kk) == 0);
                    }
                }
            }
            assert forall|t2: int|
                t2 != t implies self.value_of(*os, t2) == old(self).value_of(*old(os), t2) by {
                assert(os.slot(t2, kk) == (if old(self).raw_key() != 0 {
                    old(os).slot(t2, kk)
                } else {
                    0
                }));
            }
        }
        Ok(())
    }

    /// Read this thread's word, lazily allocating the key and this
    /// thread's copy of the initial bits on first access.
    pub fn get(&mut self, os: &mut OsTls, t: usize) -> (r: Result<usize, TlsError>)
        requires
            old(self).wf(*old(os)),
            old(os).inv(),
            t < old(os).n_threads(),
        ensures
            final(os).inv(),
            final(self).wf(*final(os)),
            final(self).initial() == old(self).initial(),
            r is Err ==> old(self).raw_key() == 0 && old(os).n_keys() > old(os).key_limit()
                && *final(os) == *old(os) && *final(self) == *old(self),
            match r {
                Ok(v) => {
                    &&& Tls::located(*old(self), *old(os), *final(self), *final(os), t as int)
                    &&& v == old(self).value_of(*old(os), t as int)
                    &&& final(self).value_of(*final(os), t as int) == v
                },
                Err(e) => e == TlsError::AllocationExhausted,
            },
    {
        match self.ptr(os, t) {
            Ok(u) => {},
            Err(e) => {
                return Err(e);
            },
        }
        Ok(self.values[t])
    }

    /// Borrow this thread's word exclusively, lazily allocating the key
    /// and this thread's copy on first access; what the caller writes
    /// through the borrow is this thread's value afterwards, and no other
    /// thread's view changes.
    pub fn get_mut(&mut self, os: &mut OsTls, t: usize) -> (r: Result<&mut usize, TlsError>)
        requires
            old(self).wf(*old(os)),
            old(os).inv(),
            t < old(os).n_threads(),
        ensures
            final(os).inv(),
            final(self).wf(*final(os)),
            final(self).initial() == old(self).initial(),
            r is Err ==> old(self).raw_key() == 0 && old(os).n_keys() > old(os).key_limit()
                && *final(os) == *old(os) && *final(self) == *old(self),
            match r {
                Ok(p) => {
                    &&& Tls::located(*old(self), *old(os), *final(self), *final(os), t as int)
                    &&& *p == old(self).value_of(*old(os), t as int)
                    &&& final(self).value_of(*final(os), t as int) == *final(p)
                },
                Err(e) => e == TlsError::AllocationExhausted,
            },
    {
        match self.ptr(os, t) {
            Ok(u) => {},
            Err(e) => {
                return Err(e);
            },
        }
        Ok(&mut self.values[t])
    }

    /// Write this thread's word, lazily allocating the key and this
    /// thread's copy on the way; no other thread's view changes.
    pub fn set(&mut self, os: &mut OsTls, t: usize, v: usize) -> (r: Result<(), TlsError>)
        requires
            old(self).wf(*old(os)),
            old(os).inv(),
            t < old(os).n_threads(),
        ensures
            final(os).inv(),
            final(self).wf(*final(os)),
            final(self).initial() == old(self).initial(),
            r is Err ==> old(self).raw_key() == 0 && old(os).n_keys() > old(os).key_limit()
                && *final(os) == *old(os) && *final(self) == *old(self),
            match r {
                Ok(u) => {
                    &&& Tls::located(*old(self), *old(os), *final(self), *final(os), t as int)
                    &&& final(self).value_of(*final(os), t as int) == v
                },
                Err(e) => e == TlsError::AllocationExhausted,
            },
    {
        match self.ptr(os, t) {
            Ok(u) => {},
            Err(e) => {
                return Err(e);
            },
        }
        self.values.set(t, v);
        Ok(())
    }
}

} // verus!

//! The raw slot layer: process-wide key allocation, per-thread untyped
//! slots, lazily resolved static descriptors, a destructor table drained to
//! quiescence at thread detach, and a registry of keys reclaimed at process
//! exit.
//!
//! The state the native facility keeps is modeled as one owned value,
//! [`OsTls`]: a key is an index, a slot holds a machine word, and `0` stands
//! for both "no key yet" and "slot unset", as the native interfaces have it.
//! Every thread's slots are independent; no operation on one thread's slots
//! changes what another thread observes.

use vstd::prelude::*;

verus! {

/// Reasons a raw-layer operation can fail.
#[derive(PartialEq, Eq, Structural, Clone, Copy, Debug)]
pub enum TlsError {
    /// The process refused to hand out another slot key. Fatal on the
    /// target platforms: no recovery path exists.
    AllocationExhausted,
}

/// What a native destructor does when it is invoked at thread detach: it
/// may store values back into tracked slots of the exiting thread, in
/// order. A destructor that stores nothing has an empty list.
pub struct Dtor {
    /// Slot writes `(key, value)` performed by the destructor body.
    pub sets: Vec<(usize, usize)>,
}

/// The process-wide state behind the raw layer: which keys are allocated,
/// what every thread's slots hold, which destructors are tracked, and which
/// keys await reclamation at process exit.
pub struct OsTls {
    /// Largest key index the process will hand out.
    limit: usize,
    /// `live[k]` iff key `k` is allocated and not destroyed; index 0 is
    /// reserved so that 0 can mean "no key".
    live: Vec<bool>,
    /// `threads[t][k]` is thread `t`'s slot for key `k`; missing entries
    /// read as 0.
    threads: Vec<Vec<usize>>,
    /// The `(key, destructor)` table kept for the platform with no native
    /// per-key destructor callback.
    dtors: Vec<(usize, Dtor)>,
    /// Keys registered for the exit sweep.
    registry: Vec<usize>,
}

impl OsTls {
    /// How many key indices exist so far (live or destroyed), the reserved
    /// index 0 included. The next fresh key is this number.
    pub closed spec fn n_keys(self) -> nat {
        self.live@.len()
    }

    /// Largest key index the process will hand out.
    pub closed spec fn key_limit(self) -> usize {
        self.limit
    }

    /// Key `k` is allocated and has not been destroyed.
    pub closed spec fn key_live(self, k: usize) -> bool {
        0 < k < self.live@.len() && self.live@[k as int]
    }

    /// How many threads the process has seen.
    pub closed spec fn n_threads(self) -> nat {
        self.threads@.len()
    }

    /// What thread `t` observes in the slot of key `k`; 0 when unset.
    pub closed spec fn slot(self, t: int, k: int) -> usize {
        if 0 <= t < self.threads@.len() && 0 <= k < self.threads@[t]@.len() {
            self.threads@[t]@[k]
        } else {
            0
        }
    }

    /// Thread `t`'s slots for every key index that exists, as one sequence.
    pub open spec fn thread_view(self, t: int) -> Seq<usize> {
        Seq::new(self.n_keys(), |k: int| self.slot(t, k))
    }

    /// The tracked `(key, destructor)` table, in registration order.
    pub closed spec fn dtor_table(self) -> Seq<(usize, Dtor)> {
        self.dtors@
    }

    /// The keys the exit sweep will reclaim, in registration order.
    pub closed spec fn registry_keys(self) -> Seq<usize> {
        self.registry@
    }

    /// Well-formedness: the reserved index, bounded allocation, bounded
    /// per-thread storage, and a destructor table and registry that speak
    /// only of live keys, each key at most once.
    pub closed spec fn inv(self) -> bool {
        &&& 1 <= self.live@.len() <= self.limit + 1
        &&& !self.live@[0]
        &&& forall|t: int|
            0 <= t < self.threads@.len() ==> (#[trigger] self.threads@[t])@.len()
                <= self.live@.len()
        &&& forall|i: int|
            0 <= i < self.dtors@.len() ==> self.key_live((#[trigger] self.dtors@[i]).0)
        &&& forall|i: int, j: int|
            0 <= i < j < self.dtors@.len() ==> (self.dtors@[i]).0 != (self.dtors@[j]).0
        &&& forall|i: int|
            0 <= i < self.registry@.len() ==> self.key_live(#[trigger] self.registry@[i])
        &&& forall|i: int, j: int|
            0 <= i < j < self.registry@.len() ==> self.registry@[i] != self.registry@[j]
    }

    /// A live key is one of the indices that exist.
    pub proof fn lemma_live_in_range(self, k: usize)
        requires
            self.key_live(k),
        ensures
            0 < k < self.n_keys(),
    {
    }

    /// A key index that does not exist yet stands in no registry entry.
    pub proof fn lemma_fresh_not_registered(self, k: usize)
        requires
            self.inv(),
            k as nat >= self.n_keys(),
        ensures
            !self.registry_keys().contains(k),
    {
        assert forall|i: int| 0 <= i < self.registry_keys().len() implies self.registry_keys()[i]
            != k by {
            self.lemma_live_in_range(self.registry_keys()[i] as usize);
        }
    }

    /// The destructor table tracks every key at most once.
    pub proof fn lemma_table_keys_distinct(self)
        requires
            self.inv(),
        ensures
            forall|i: int, j: int|
                0 <= i < j < self.dtor_table().len() ==> (self.dtor_table()[i]).0 != (
                self.dtor_table()[j]).0,
    {
    }

    /// Every key the destructor table tracks is live, and so one of the
    /// indices that exist.
    pub proof fn lemma_table_keys_live(self)
        requires
            self.inv(),
        ensures
            forall|i: int|
                0 <= i < self.dtor_table().len() ==> self.key_live(
                    (#[trigger] self.dtor_table()[i]).0,
                ) && 0 < (self.dtor_table()[i]).0 < self.n_keys(),
    {
    }

    /// A fresh process: no keys beyond the reserved index, no threads, an
    /// empty destructor table and an empty registry.
    pub fn new(limit: usize) -> (r: OsTls)
        ensures
            r.inv(),
            r.n_keys() == 1,
            r.key_limit() == limit,
            r.n_threads() == 0,
            r.dtor_table() =~= Seq::<(usize, Dtor)>::empty(),
            r.registry_keys() =~= Seq::<usize>::empty(),
            forall|k: usize| !r.key_live(k),
    {
        let mut live: Vec<bool> = Vec::new();
        live.push(false);
        OsTls { limit, live, threads: Vec::new(), dtors: Vec::new(), registry: Vec::new() }
    }

    /// A new thread starts with every slot unset; nothing any other thread
    /// observes changes.
    pub fn add_thread(&mut self) -> (t: usize)
        requires
            old(self).inv(),
        ensures
            final(self).inv(),
            t as nat == old(self).n_threads(),
            final(self).n_threads() == old(self).n_threads() + 1,
            final(self).n_keys() == old(self).n_keys(),
            final(self).key_limit() == old(self).key_limit(),
            forall|k: usize| final(self).key_live(k) == old(self).key_live(k),
            final(self).dtor_table() == old(self).dtor_table(),
            final(self).registry_keys() == old(self).registry_keys(),
            forall|t2: int, k: int|
                0 <= t2 < old(self).n_threads() ==> final(self).slot(t2, k) == old(self).slot(t2, k),
            forall|k: int| final(self).slot(t as int, k) == 0,
    {
        let t = self.threads.len();
        self.threads.push(Vec::new());
        t
    }
}

/// Allocate a fresh key, never handed out before; its slot reads as unset
/// on every thread. Fails with `AllocationExhausted` exactly when the
/// process is out of key indices, and then changes nothing.
pub fn create(os: &mut OsTls, dtor: Option<Dtor>) -> (r: Result<usize, TlsError>)
    requires
        old(os).inv(),
    ensures
        final(os).inv(),
        r is Ok <==> old(os).n_keys() <= old(os).key_limit(),
        match r {
            Ok(k) => {
                &&& k != 0
                &&& k as nat == old(os).n_keys()
                &&& !old(os).key_live(k)
                &&& final(os).key_live(k)
                &&& final(os).n_keys() == old(os).n_keys() + 1
                &&& forall|k2: usize| k2 != k ==> final(os).key_live(k2) == old(os).key_live(k2)
                &&& forall|t: int, k2: int| final(os).slot(t, k2) == old(os).slot(t, k2)
                &&& forall|t: int| final(os).slot(t, k as int) == 0
                &&& match dtor {
                    Some(d) => final(os).dtor_table() =~= old(os).dtor_table().push((k, d)),
                    None => final(os).dtor_table() == old(os).dtor_table(),
                }
            },
            Err(e) => e == TlsError::AllocationExhausted && *final(os) == *old(os),
        },
        final(os).n_threads() == old(os).n_threads(),
        final(os).key_limit() == old(os).key_limit(),
        final(os).registry_keys() == old(os).registry_keys(),
{
    if os.live.len() > os.limit {
        return Err(TlsError::AllocationExhausted);
    }
    let k = os.live.len();
    os.live.push(true);
    match dtor {
        Some(d) => {
            os.dtors.push((k, d));
        },
        None => {},
    }
    Ok(k)
}

/// Store `value` in thread `t`'s slot for key `k`; no other slot, of this
/// thread or of any other, changes.
pub fn set(os: &mut OsTls, t: usize, k: usize, value: usize)
    requires
        old(os).inv(),
        t < old(os).n_threads(),
        old(os).key_live(k),
    ensures
        final(os).inv(),
        final(os).slot(t as int, k as int) == value,
        forall|t2: int, k2: int|
            !(t2 == t as int && k2 == k as int) ==> final(os).slot(t2, k2) == old(os).slot(t2, k2),
        final(os).n_keys() == old(os).n_keys(),
        final(os).key_limit() == old(os).key_limit(),
        final(os).n_threads() == old(os).n_threads(),
        forall|k2: usize| final(os).key_live(k2) == old(os).key_live(k2),
        final(os).dtor_table() == old(os).dtor_table(),
        final(os).registry_keys() == old(os).registry_keys(),
{
    proof {
        os.lemma_live_in_range(k);
    }
    let row = &mut os.threads[t];
    let ghost row0 = row@;
    while row.len() <= k
        invariant
            row0.len() <= row@.len(),
            row@.len() <= row0.len() || row@.len() <= k + 1,
            forall|j: int|
                0 <= j < row@.len() ==> row@[j] == (if 0 <= j < row0.len() {
                    row0[j]
                } else {
                    0
                }),
        decreases k + 1 - row@.len(),
    {
        row.push(0);
    }
    row.set(k, value);
    proof {
        assert(k < old(os).live@.len());
        assert(old(os).threads@[t as int]@.len() <= old(os).live@.len());
        assert forall|t2: int|
            0 <= t2 < os.threads@.len() implies (#[trigger] os.threads@[t2])@.len()
            <= os.live@.len() by {
            if t2 != t as int {
                assert(os.threads@[t2] == old(os).threads@[t2]);
            }
        }
    }
}

/// Writes through a key on one thread never affect what another thread
/// observes via the same key: the other thread reads exactly what it read
/// before.
pub fn cross_thread_isolation(os: &mut OsTls, k: usize, t1: usize, t2: usize, value: usize)
    requires
        old(os).inv(),
        t1 < old(os).n_threads(),
        t2 < old(os).n_threads(),
        t1 != t2,
        old(os).key_live(k),
    ensures
        final(os).inv(),
        final(os).slot(t1 as int, k as int) == old(os).slot(t1 as int, k as int),
        final(os).slot(t2 as int, k as int) == value,
{
    let observed_before = get(os, t1, k);
    set(os, t2, k, value);
    let observed_after = get(os, t1, k);
    proof {
        assert(observed_after == observed_before);
    }
}

/// Read thread `t`'s slot for key `k`: the last value this thread stored
/// there, or 0 if it never stored one.
pub fn get(os: &OsTls, t: usize, k: usize) -> (v: usize)
    requires
        os.inv(),
        t < os.n_threads(),
        os.key_live(k),
    ensures
        v == os.slot(t as int, k as int),
{
    let row = &os.threads[t];
    if k < row.len() {
        row[k]
    } else {
        0
    }
}

/// Drop the tracked destructor entry for key `k`, if one exists; report
/// whether one did. Nothing else changes.
pub fn unregister_dtor(os: &mut OsTls, k: usize) -> (found: bool)
    requires
        old(os).inv(),
    ensures
        final(os).inv(),
        forall|i: int| 0 <= i < final(os).dtor_table().len() ==> (#[trigger] final(os).dtor_table()[i]).0 != k,
        found == exists|i: int|
            0 <= i < old(os).dtor_table().len() && (#[trigger] old(os).dtor_table()[i]).0 == k,
        found ==> exists|i: int|
            0 <= i < old(os).dtor_table().len() && (#[trigger] old(os).dtor_table()[i]).0 == k
                && final(os).dtor_table() =~= old(os).dtor_table().remove(i),
        !found ==> final(os).dtor_table() == old(os).dtor_table(),
        final(os).n_keys() == old(os).n_keys(),
        final(os).key_limit() == old(os).key_limit(),
        final(os).n_threads() == old(os).n_threads(),
        forall|k2: usize| final(os).key_live(k2) == old(os).key_live(k2),
        forall|t2: int, k2: int| final(os).slot(t2, k2) == old(os).slot(t2, k2),
        final(os).registry_keys() == old(os).registry_keys(),
{
    let mut i: usize = 0;
    while i < os.dtors.len()
        invariant
            *os == *old(os),
            old(os).inv(),
            i <= os.dtors@.len(),
            forall|j: int| 0 <= j < i ==> (#[trigger] os.dtors@[j]).0 != k,
        decreases os.dtors@.len() - i,
    {
        if os.dtors[i].0 == k {
            let ghost table = os.dtors@;
            let ghost idx = i as int;
            os.dtors.remove(i);
            proof {
                assert(os.dtors@ =~= table.remove(idx));
                assert forall|a: int| 0 <= a < os.dtors@.len() implies (
                #[trigger] os.dtors@[a]).0 != k by {
                    if a < idx {
                    } else {
                        assert(os.dtors@[a] == table[a + 1]);
                    }
                }
                assert(0 <= idx < old(os).dtor_table().len() && (#[trigger] old(
                    os,
                ).dtor_table()[idx]).0 == k && os.dtor_table() =~= old(os).dtor_table().remove(
                    idx,
                ));
            }
            return true;
        }
        i += 1;
    }
    false
}

/// Put key `k` into the exit-sweep registry.
pub fn register_key(os: &mut OsTls, k: usize)
    requires
        old(os).inv(),
        old(os).key_live(k),
        !old(os).registry_keys().contains(k),
    ensures
        final(os).inv(),
        final(os).registry_keys() =~= old(os).registry_keys().push(k),
        final(os).n_keys() == old(os).n_keys(),
        final(os).key_limit() == old(os).key_limit(),
        final(os).n_threads() == old(os).n_threads(),
        forall|k2: usize| final(os).key_live(k2) == old(os).key_live(k2),
        forall|t2: int, k2: int| final(os).slot(t2, k2) == old(os).slot(t2, k2),
        final(os).dtor_table() == old(os).dtor_table(),
{
    os.registry.push(k);
}

/// Take key `k` out of the exit-sweep registry, if it is there; report
/// whether it was. Nothing else changes.
pub fn unregister_key(os: &mut OsTls, k: usize) -> (found: bool)
    requires
        old(os).inv(),
    ensures
        final(os).inv(),
        !final(os).registry_keys().contains(k),
        found == old(os).registry_keys().contains(k),
        found ==> exists|i: int|
            0 <= i < old(os).registry_keys().len() && old(os).registry_keys()[i] == k
                && final(os).registry_keys() =~= old(os).registry_keys().remove(i),
        !found ==> final(os).registry_keys() == old(os).registry_keys(),
        final(os).n_keys() == old(os).n_keys(),
        final(os).key_limit() == old(os).key_limit(),
        final(os).n_threads() == old(os).n_threads(),
        forall|k2: usize| final(os).key_live(k2) == old(os).key_live(k2),
        forall|t2: int, k2: int| final(os).slot(t2, k2) == old(os).slot(t2, k2),
        final(os).dtor_table() == old(os).dtor_table(),
{
    let mut i: usize = 0;
    while i < os.registry.len()
        invariant
            *os == *old(os),
            old(os).inv(),
            i <= os.registry@.len(),
            forall|j: int| 0 <= j < i ==> os.registry@[j] != k,
        decreases os.registry@.len() - i,
    {
        if os.registry[i] == k {
            let ghost reg = os.registry@;
            let ghost idx = i as int;
            os.registry.remove(i);
            proof {
                assert(os.registry@ =~= reg.remove(idx));
                assert forall|a: int| 0 <= a < os.registry@.len() implies os.registry@[a] != k by {
                    if a < idx {
                    } else {
                        assert(os.registry@[a] == reg[a + 1]);
                    }
                }
                assert(!os.registry_keys().contains(k));
                assert(0 <= idx < old(os).registry_keys().len() && old(os).registry_keys()[idx]
                    == k && os.registry_keys() =~= old(os).registry_keys().remove(idx));
                assert(old(os).registry_keys().contains(k));
            }
            return true;
        }
        i += 1;
    }
    proof {
        assert(!os.registry_keys().contains(k));
    }
    false
}

/// Free key `k`: it stops being live and its destructor-table entry, if
/// any, is dropped. Slot storage is retained, as the native layer retains
/// the memory; the key index is never reused.
pub fn destroy(os: &mut OsTls, k: usize)
    requires
        old(os).inv(),
        old(os).key_live(k),
        !old(os).registry_keys().contains(k),
    ensures
        final(os).inv(),
        !final(os).key_live(k),
        forall|k2: usize| k2 != k ==> final(os).key_live(k2) == old(os).key_live(k2),
        final(os).n_keys() == old(os).n_keys(),
        final(os).key_limit() == old(os).key_limit(),
        final(os).n_threads() == old(os).n_threads(),
        forall|t2: int, k2: int| final(os).slot(t2, k2) == old(os).slot(t2, k2),
        forall|i: int| 0 <= i < final(os).dtor_table().len() ==> (#[trigger] final(os).dtor_table()[i]).0 != k,
        (exists|i: int|
            0 <= i < old(os).dtor_table().len() && (#[trigger] old(os).dtor_table()[i]).0 == k
                && final(os).dtor_table() =~= old(os).dtor_table().remove(i))
            || final(os).dtor_table() == old(os).dtor_table(),
        final(os).registry_keys() == old(os).registry_keys(),
{
    unregister_dtor(os, k);
    proof {
        os.lemma_live_in_range(k);
    }
    os.live.set(k, false);
}

/// The atomic cell of a static descriptor: the resolved key, or 0 while no
/// allocation has won yet. It moves from 0 to nonzero exactly once, and
/// back to 0 only through an explicit destroy.
pub struct StaticKeyInner {
    key: usize,
}

impl StaticKeyInner {
    /// The key the descriptor resolved to; 0 while unallocated.
    pub closed spec fn resolved(self) -> usize {
        self.key
    }

    /// A descriptor cell that no allocation has touched.
    pub fn new() -> (r: StaticKeyInner)
        ensures
            r.resolved() == 0,
    {
        StaticKeyInner { key: 0 }
    }

    /// Load the cell, as the lazily resolving paths do first.
    pub fn read(&self) -> (k: usize)
        ensures
            k == self.resolved(),
    {
        self.key
    }
}

/// A statically allocated descriptor over the raw layer: a cell that
/// resolves to a key on first use, plus the native destructor the key is
/// created with. The descriptor does not protect against use after its own
/// destroy; that is the caller's responsibility.
pub struct StaticKey {
    /// The lazily resolved cell.
    pub inner: StaticKeyInner,
    /// Destructor the key is created with; moved into the destructor table
    /// when the allocation wins.
    pub dtor: Option<Dtor>,
}

/// What resolving a descriptor does to the process: nothing at all when the
/// cell already held a key, and exactly one fresh allocation — key `k`
/// live, registered for the exit sweep, its destructor tracked — when the
/// cell was empty. Slots read the same either way.
pub open spec fn resolution_effects(
    pre_s: StaticKey,
    pre_os: OsTls,
    post_s: StaticKey,
    post_os: OsTls,
    k: usize,
) -> bool {
    &&& k != 0
    &&& post_s.inner.resolved() == k
    &&& post_os.key_live(k)
    &&& forall|t: int, k2: int| post_os.slot(t, k2) == pre_os.slot(t, k2)
    &&& post_os.n_threads() == pre_os.n_threads()
    &&& post_os.key_limit() == pre_os.key_limit()
    &&& if pre_s.inner.resolved() != 0 {
        post_s == pre_s && post_os == pre_os && k == pre_s.inner.resolved()
    } else {
        &&& k as nat == pre_os.n_keys()
        &&& !pre_os.key_live(k)
        &&& post_s.dtor is None
        &&& post_os.n_keys() == pre_os.n_keys() + 1
        &&& forall|k2: usize| k2 != k ==> post_os.key_live(k2) == pre_os.key_live(k2)
        &&& post_os.registry_keys() =~= pre_os.registry_keys().push(k)
        &&& match pre_s.dtor {
            Some(d) => post_os.dtor_table() =~= pre_os.dtor_table().push((k, d)),
            None => post_os.dtor_table() == pre_os.dtor_table(),
        }
    }
}

/// The decision after the one-time compare-and-swap on a descriptor
/// cell: given what the cell held (`prev`, 0 when the swap installed
/// `created`), the key to use, and the redundant key to free, if any. The
/// native layer performs the swap and the freeing; this fixes what it
/// must do with each outcome.
pub fn cas_outcome(prev: usize, created: usize) -> (r: (usize, Option<usize>))
    requires
        created != 0,
        prev != created,
    ensures
        r.0 != 0,
        prev == 0 ==> r == (created, None::<usize>),
        prev != 0 ==> r == (prev, Some(created)),
{
    if prev == 0 {
        (created, None)
    } else {
        (prev, Some(created))
    }
}

/// Resolve the one-time allocation race for a descriptor cell: the thread
/// that allocated `created` looks at the cell; the first writer wins and
/// registers its key for the exit sweep, while a loser finds the cell
/// already filled, destroys its redundant key and uses the winner's. Race
/// losers are not errors.
pub fn install_or_discard(cell: &mut StaticKeyInner, os: &mut OsTls, created: usize) -> (k: usize)
    requires
        old(os).inv(),
        old(os).key_live(created),
        !old(os).registry_keys().contains(created),
        old(cell).resolved() != 0 ==> old(os).key_live(old(cell).resolved()),
        old(cell).resolved() != created,
    ensures
        final(os).inv(),
        k != 0,
        final(cell).resolved() == k,
        final(os).key_live(k),
        final(os).n_keys() == old(os).n_keys(),
        final(os).key_limit() == old(os).key_limit(),
        final(os).n_threads() == old(os).n_threads(),
        forall|t2: int, k2: int| final(os).slot(t2, k2) == old(os).slot(t2, k2),
        old(cell).resolved() == 0 ==> k == created && final(os).registry_keys() =~= old(
            os,
        ).registry_keys().push(created) && (forall|k2: usize|
            final(os).key_live(k2) == old(os).key_live(k2)) && final(os).dtor_table() == old(
            os,
        ).dtor_table(),
        old(cell).resolved() != 0 ==> k == old(cell).resolved() && !final(os).key_live(created) && (
        forall|k2: usize| k2 != created ==> final(os).key_live(k2) == old(os).key_live(k2))
            && final(os).registry_keys() == old(os).registry_keys() && (forall|i: int|
            0 <= i < final(os).dtor_table().len() ==> (#[trigger] final(os).dtor_table()[i]).0
                != created),
{
    proof {
        os.lemma_live_in_range(created);
    }
    if cell.key == 0 {
        // The compare-and-swap won: this thread's key is the one.
        cell.key = created;
        register_key(os, created);
        created
    } else {
        // Another thread won the race meanwhile: discard the redundant key.
        destroy(os, created);
        cell.key
    }
}

/// Whether the process would refuse another key right now.
fn exhausted(os: &OsTls) -> (r: bool)
    ensures
        r <==> os.n_keys() > os.key_limit(),
{
    os.live.len() > os.limit
}

impl StaticKey {
    /// A descriptor that will allocate its key, with this destructor, on
    /// first use.
    pub fn new(dtor: Option<Dtor>) -> (r: StaticKey)
        ensures
            r.inner.resolved() == 0,
            r.dtor == dtor,
    {
        StaticKey { inner: StaticKeyInner::new(), dtor }
    }

    /// First use of an unresolved descriptor: allocate a key, then resolve
    /// the race. Fails only when the process is out of keys — fatal — and
    /// then nothing, the descriptor included, has changed.
    pub fn lazy_init(&mut self, os: &mut OsTls) -> (r: Result<usize, TlsError>)
        requires
            old(self).inner.resolved() == 0,
            old(os).inv(),
        ensures
            final(os).inv(),
            r is Ok <==> old(os).n_keys() <= old(os).key_limit(),
            match r {
                Ok(k) => resolution_effects(*old(self), *old(os), *final(self), *final(os), k),
                Err(e) => {
                    &&& e == TlsError::AllocationExhausted
                    &&& *final(os) == *old(os)
                    &&& *final(self) == *old(self)
                },
            },
    {
        if exhausted(os) {
            return Err(TlsError::AllocationExhausted);
        }
        let mut d: Option<Dtor> = None;
        core::mem::swap(&mut d, &mut self.dtor);
        let ghost os_pre = *os;
        let created = match create(os, d) {
            Ok(c) => c,
            Err(e) => {
                // Capacity was just checked, so allocation cannot refuse.
                return Err(e);
            },
        };
        proof {
            os_pre.lemma_fresh_not_registered(created);
            assert(os.registry_keys() == os_pre.registry_keys());
        }
        let k = install_or_discard(&mut self.inner, os, created);
        Ok(k)
    }

    /// The descriptor's key, resolved lazily on first use.
    pub fn key(&mut self, os: &mut OsTls) -> (r: Result<usize, TlsError>)
        requires
            old(os).inv(),
            old(self).inner.resolved() != 0 ==> old(os).key_live(old(self).inner.resolved()),
        ensures
            final(os).inv(),
            r is Err ==> old(self).inner.resolved() == 0 && old(os).n_keys() > old(
                os,
            ).key_limit() && *final(os) == *old(os) && *final(self) == *old(self),
            match r {
                Ok(k) => resolution_effects(*old(self), *old(os), *final(self), *final(os), k),
                Err(e) => e == TlsError::AllocationExhausted,
            },
    {
        if self.inner.key == 0 {
            self.lazy_init(os)
        } else {
            Ok(self.inner.key)
        }
    }

    /// Read the calling thread's slot, allocating the key first if no use
    /// ever resolved it; a freshly allocated key reads as unset.
    pub fn get(&mut self, os: &mut OsTls, t: usize) -> (r: Result<usize, TlsError>)
        requires
            old(os).inv(),
            t < old(os).n_threads(),
            old(self).inner.resolved() != 0 ==> old(os).key_live(old(self).inner.resolved()),
        ensures
            final(os).inv(),
            r is Err ==> old(self).inner.resolved() == 0 && old(os).n_keys() > old(
                os,
            ).key_limit() && *final(os) == *old(os) && *final(self) == *old(self),
            match r {
                Ok(v) => {
                    &&& resolution_effects(
                        *old(self),
                        *old(os),
                        *final(self),
                        *final(os),
                        final(self).inner.resolved(),
                    )
                    &&& v == final(os).slot(t as int, final(self).inner.resolved() as int)
                    &&& old(self).inner.resolved() == 0 ==> v == 0
                },
                Err(e) => e == TlsError::AllocationExhausted,
            },
    {
        let k = match self.key(os) {
            Ok(k) => k,
            Err(e) => {
                return Err(e);
            },
        };
        Ok(get(os, t, k))
    }

    /// Store into the calling thread's slot, allocating the key first if no
    /// use ever resolved it. No other thread's view changes.
    pub fn set(&mut self, os: &mut OsTls, t: usize, value: usize) -> (r: Result<(), TlsError>)
        requires
            old(os).inv(),
            t < old(os).n_threads(),
            old(self).inner.resolved() != 0 ==> old(os).key_live(old(self).inner.resolved()),
        ensures
            final(os).inv(),
            r is Err ==> old(self).inner.resolved() == 0 && old(os).n_keys() > old(
                os,
            ).key_limit() && *final(os) == *old(os) && *final(self) == *old(self),
            match r {
                Ok(u) => {
                    &&& final(self).inner.resolved() != 0
                    &&& final(os).key_live(final(self).inner.resolved())
                    &&& final(os).slot(t as int, final(self).inner.resolved() as int) == value
                    &&& forall|t2: int, k2: int|
                        !(t2 == t as int && k2 == final(self).inner.resolved() as int)
                            ==> final(os).slot(t2, k2) == old(os).slot(t2, k2)
                    &&& old(self).inner.resolved() != 0 ==> {
                        &&& *final(self) == *old(self)
                        &&& final(os).n_keys() == old(os).n_keys()
                        &&& final(os).registry_keys() == old(os).registry_keys()
                        &&& final(os).dtor_table() == old(os).dtor_table()
                        &&& forall|k2: usize| final(os).key_live(k2) == old(os).key_live(k2)
                    }
                    &&& final(os).n_threads() == old(os).n_threads()
                    &&& final(os).key_limit() == old(os).key_limit()
                },
                Err(e) => e == TlsError::AllocationExhausted,
            },
    {
        let k = match self.key(os) {
            Ok(k) => k,
            Err(e) => {
                return Err(e);
            },
        };
        set(os, t, k, value);
        Ok(())
    }

    /// Swap the cell back to 0 and free the key, taking it out of the exit
    /// sweep registry; the tracked native destructor is dropped, not run.
    /// Does nothing if the descriptor never resolved.
    pub fn destroy(&mut self, os: &mut OsTls)
        requires
            old(os).inv(),
            old(self).inner.resolved() != 0 ==> old(os).key_live(old(self).inner.resolved()),
        ensures
            final(os).inv(),
            final(self).inner.resolved() == 0,
            final(self).dtor == old(self).dtor,
            old(self).inner.resolved() == 0 ==> *final(os) == *old(os),
            old(self).inner.resolved() != 0 ==> {
                &&& !final(os).key_live(old(self).inner.resolved())
                &&& forall|k2: usize|
                    k2 != old(self).inner.resolved() ==> final(os).key_live(k2) == old(
                        os,
                    ).key_live(k2)
                &&& !final(os).registry_keys().contains(old(self).inner.resolved())
                &&& forall|i: int|
                    0 <= i < final(os).dtor_table().len()
                        ==> (#[trigger] final(os).dtor_table()[i]).0 != old(self).inner.resolved()
            },
            final(os).n_keys() == old(os).n_keys(),
            final(os).key_limit() == old(os).key_limit(),
            final(os).n_threads() == old(os).n_threads(),
            forall|t2: int, k2: int| final(os).slot(t2, k2) == old(os).slot(t2, k2),
    {
        if self.inner.key != 0 {
            let k = self.inner.key;
            self.inner.key = 0;
            unregister_key(os, k);
            destroy(os, k);
        }
    }
}

/// A safely managed key over the raw layer: allocated at construction,
/// registered for the exit sweep so a leaked instance is still reclaimed,
/// and freed by an explicit destroy.
pub struct Key {
    key: usize,
}

impl Key {
    /// The key this handle owns.
    pub closed spec fn key_id(self) -> usize {
        self.key
    }

    /// Allocate a managed key with an optional destructor for the values
    /// threads will store under it. Fails exactly when the process is out
    /// of keys, and then changes nothing.
    pub fn new(os: &mut OsTls, dtor: Option<Dtor>) -> (r: Result<Key, TlsError>)
        requires
            old(os).inv(),
        ensures
            final(os).inv(),
            r is Ok <==> old(os).n_keys() <= old(os).key_limit(),
            match r {
                Ok(key) => {
                    &&& key.key_id() as nat == old(os).n_keys()
                    &&& !old(os).key_live(key.key_id())
                    &&& final(os).key_live(key.key_id())
                    &&& final(os).n_keys() == old(os).n_keys() + 1
                    &&& forall|k2: usize|
                        k2 != key.key_id() ==> final(os).key_live(k2) == old(os).key_live(k2)
                    &&& forall|t: int, k2: int| final(os).slot(t, k2) == old(os).slot(t, k2)
                    &&& forall|t: int| final(os).slot(t, key.key_id() as int) == 0
                    &&& final(os).registry_keys() =~= old(os).registry_keys().push(key.key_id())
                    &&& match dtor {
                        Some(d) => final(os).dtor_table() =~= old(os).dtor_table().push(
                            (key.key_id(), d),
                        ),
                        None => final(os).dtor_table() == old(os).dtor_table(),
                    }
                },
                Err(e) => e == TlsError::AllocationExhausted && *final(os) == *old(os),
            },
            final(os).n_threads() == old(os).n_threads(),
            final(os).key_limit() == old(os).key_limit(),
    {
        let ghost os_pre = *os;
        let k = match create(os, dtor) {
            Ok(k) => k,
            Err(e) => {
                return Err(e);
            },
        };
        proof {
            os_pre.lemma_fresh_not_registered(k);
            assert(os.registry_keys() == os_pre.registry_keys());
        }
        register_key(os, k);
        Ok(Key { key: k })
    }

    /// Read the calling thread's slot for this key.
    pub fn get(&self, os: &OsTls, t: usize) -> (v: usize)
        requires
            os.inv(),
            t < os.n_threads(),
            os.key_live(self.key_id()),
        ensures
            v == os.slot(t as int, self.key_id() as int),
    {
        get(os, t, self.key)
    }

    /// Store into the calling thread's slot for this key; no other slot
    /// changes.
    pub fn set(&self, os: &mut OsTls, t: usize, value: usize)
        requires
            old(os).inv(),
            t < old(os).n_threads(),
            old(os).key_live(self.key_id()),
        ensures
            final(os).inv(),
            final(os).slot(t as int, self.key_id() as int) == value,
            forall|t2: int, k2: int|
                !(t2 == t as int && k2 == self.key_id() as int) ==> final(os).slot(t2, k2) == old(
                    os,
                ).slot(t2, k2),
            final(os).n_keys() == old(os).n_keys(),
            final(os).key_limit() == old(os).key_limit(),
            final(os).n_threads() == old(os).n_threads(),
            forall|k2: usize| final(os).key_live(k2) == old(os).key_live(k2),
            final(os).dtor_table() == old(os).dtor_table(),
            final(os).registry_keys() == old(os).registry_keys(),
    {
        set(os, t, self.key, value)
    }

    /// Free the key, taking it out of the exit sweep registry. Stored
    /// values are not destroyed; the native layer never runs destructors
    /// for an explicit free.
    pub fn destroy(self, os: &mut OsTls)
        requires
            old(os).inv(),
            old(os).key_live(self.key_id()),
        ensures
            final(os).inv(),
            !final(os).key_live(self.key_id()),
            forall|k2: usize|
                k2 != self.key_id() ==> final(os).key_live(k2) == old(os).key_live(k2),
            !final(os).registry_keys().contains(self.key_id()),
            final(os).n_keys() == old(os).n_keys(),
            final(os).key_limit() == old(os).key_limit(),
            final(os).n_threads() == old(os).n_threads(),
            forall|t2: int, k2: int| final(os).slot(t2, k2) == old(os).slot(t2, k2),
    {
        unregister_key(os, self.key);
        destroy(os, self.key);
    }
}

/// Reclaim every key still in the exit-sweep registry: what a process runs
/// last, so that instances whose destroy was never called do not leak their
/// keys. Keys outside the registry are untouched.
pub fn exit_sweep(os: &mut OsTls)
    requires
        old(os).inv(),
    ensures
        final(os).inv(),
        final(os).registry_keys() =~= Seq::<usize>::empty(),
        forall|i: int|
            0 <= i < old(os).registry_keys().len() ==> !final(os).key_live(
                #[trigger] old(os).registry_keys()[i],
            ),
        forall|k2: usize|
            !old(os).registry_keys().contains(k2) ==> final(os).key_live(k2) == old(os).key_live(
                k2,
            ),
        final(os).n_keys() == old(os).n_keys(),
        final(os).key_limit() == old(os).key_limit(),
        final(os).n_threads() == old(os).n_threads(),
        forall|t2: int, k2: int| final(os).slot(t2, k2) == old(os).slot(t2, k2),
{
    let ghost os0 = *os;
    let mut reg: Vec<usize> = Vec::new();
    core::mem::swap(&mut reg, &mut os.registry);
    proof {
        assert(os.inv());
        assert(reg@ == os0.registry_keys());
    }
    let mut i: usize = 0;
    while i < reg.len()
        invariant
            os.inv(),
            os0.inv(),
            i <= reg@.len(),
            reg@ == os0.registry_keys(),
            os.registry_keys() =~= Seq::<usize>::empty(),
            forall|j: int| 0 <= j < i ==> !os.key_live(#[trigger] reg@[j]),
            forall|j: int| i <= j < reg@.len() ==> os.key_live(#[trigger] reg@[j]),
            forall|k2: usize|
                !os0.registry_keys().contains(k2) ==> os.key_live(k2) == os0.key_live(k2),
            os.n_keys() == os0.n_keys(),
            os.key_limit() == os0.key_limit(),
            os.n_threads() == os0.n_threads(),
            forall|t2: int, k2: int| os.slot(t2, k2) == os0.slot(t2, k2),
        decreases reg@.len() - i,
    {
        let k = reg[i];
        let ghost ii = i as int;
        destroy(os, k);
        proof {
            assert forall|j: int| ii + 1 <= j < reg@.len() implies os.key_live(
                #[trigger] reg@[j],
            ) by {
                assert(reg@[j] != k);
            }
            assert forall|k2: usize|
                !os0.registry_keys().contains(k2) implies os.key_live(k2) == os0.key_live(
                k2,
            ) by {
                if k2 == k {
                    assert(os0.registry_keys()[ii] == k);
                }
            }
        }
        i += 1;
    }
    proof {
        assert forall|j: int| 0 <= j < os0.registry_keys().len() implies !os.key_live(
            #[trigger] os0.registry_keys()[j],
        ) by {
            assert(reg@[j] == os0.registry_keys()[j]);
        }
    }
}

/// How many passes a detach drain makes at most before it gives up:
/// destructors may repopulate tracked slots, so the drain repeats, but a
/// chain that never quiesces would otherwise loop forever. Non-convergence
/// within the bound leaks the remaining values.
pub const DTOR_RETRY_BOUND: usize = 5;

/// The slots of a thread after one destructor body ran: its writes apply
/// in order; a write outside the allocated indices touches nothing.
pub open spec fn apply_writes(slots: Seq<usize>, writes: Seq<(usize, usize)>) -> Seq<usize>
    decreases writes.len(),
{
    if writes.len() == 0 {
        slots
    } else {
        let prefix = apply_writes(slots, writes.drop_last());
        let w = writes.last();
        if 0 < w.0 < prefix.len() {
            prefix.update(w.0 as int, w.1)
        } else {
            prefix
        }
    }
}

/// One pass over a snapshot of the destructor table, in table order: every
/// tracked key whose slot is set is cleared first, and only then is its
/// destructor invoked on the value the slot held. The result is the slots
/// after the pass, whether any destructor ran, and the invocations made,
/// as `(key, value received)` in order.
pub open spec fn detach_pass(slots: Seq<usize>, table: Seq<(usize, Dtor)>) -> (
    Seq<usize>,
    bool,
    Seq<(usize, usize)>,
)
    decreases table.len(),
{
    if table.len() == 0 {
        (slots, false, Seq::<(usize, usize)>::empty())
    } else {
        let r = detach_pass(slots, table.drop_last());
        let e = table.last();
        if 0 < e.0 < r.0.len() && r.0[e.0 as int] != 0 {
            (
                apply_writes(r.0.update(e.0 as int, 0), e.1.sets@),
                true,
                r.2.push((e.0, r.0[e.0 as int])),
            )
        } else {
            r
        }
    }
}

/// Up to `passes` passes over the table, stopping early at the first pass
/// in which no destructor ran: the slots at the end, and every invocation
/// made, in order.
pub open spec fn detach_drain(slots: Seq<usize>, table: Seq<(usize, Dtor)>, passes: nat) -> (
    Seq<usize>,
    Seq<(usize, usize)>,
)
    decreases passes,
{
    if passes == 0 {
        (slots, Seq::<(usize, usize)>::empty())
    } else {
        let p = detach_pass(slots, table);
        if !p.1 {
            (slots, Seq::<(usize, usize)>::empty())
        } else {
            let rest = detach_drain(p.0, table, (passes - 1) as nat);
            (rest.0, p.2 + rest.1)
        }
    }
}

/// The drain reaches quiescence within `passes` passes: some pass finds
/// every tracked slot already unset.
pub open spec fn detach_converged(slots: Seq<usize>, table: Seq<(usize, Dtor)>, passes: nat) -> bool
    decreases passes,
{
    if passes == 0 {
        false
    } else {
        let p = detach_pass(slots, table);
        !p.1 || detach_converged(p.0, table, (passes - 1) as nat)
    }
}

/// A destructor body never changes how many slots a thread has.
pub proof fn lemma_apply_writes_len(slots: Seq<usize>, writes: Seq<(usize, usize)>)
    ensures
        apply_writes(slots, writes).len() == slots.len(),
    decreases writes.len(),
{
    if writes.len() > 0 {
        lemma_apply_writes_len(slots, writes.drop_last());
    }
}

/// A pass never changes how many slots a thread has.
pub proof fn lemma_pass_len(slots: Seq<usize>, table: Seq<(usize, Dtor)>)
    ensures
        detach_pass(slots, table).0.len() == slots.len(),
    decreases table.len(),
{
    if table.len() > 0 {
        lemma_pass_len(slots, table.drop_last());
        let r = detach_pass(slots, table.drop_last());
        let e = table.last();
        if 0 < e.0 < r.0.len() && r.0[e.0 as int] != 0 {
            lemma_apply_writes_len(r.0.update(e.0 as int, 0), e.1.sets@);
        }
    }
}

/// A drain never changes how many slots a thread has.
pub proof fn lemma_drain_len(slots: Seq<usize>, table: Seq<(usize, Dtor)>, passes: nat)
    ensures
        detach_drain(slots, table, passes).0.len() == slots.len(),
    decreases passes,
{
    if passes > 0 {
        let p = detach_pass(slots, table);
        if p.1 {
            lemma_pass_len(slots, table);
            lemma_drain_len(p.0, table, (passes - 1) as nat);
        }
    }
}

/// A pass in which no destructor ran changed nothing, and could only have
/// found every tracked slot unset.
pub proof fn lemma_pass_no_run(slots: Seq<usize>, table: Seq<(usize, Dtor)>)
    requires
        !detach_pass(slots, table).1,
    ensures
        detach_pass(slots, table).0 == slots,
        detach_pass(slots, table).2 == Seq::<(usize, usize)>::empty(),
        forall|i: int|
            0 <= i < table.len() ==> (0 < (#[trigger] table[i]).0 < slots.len()
                ==> slots[table[i].0 as int] == 0),
    decreases table.len(),
{
    if table.len() > 0 {
        let r = detach_pass(slots, table.drop_last());
        let e = table.last();
        if 0 < e.0 < r.0.len() && r.0[e.0 as int] != 0 {
            assert(detach_pass(slots, table).1);
        } else {
            lemma_pass_no_run(slots, table.drop_last());
            assert forall|i: int|
                0 <= i < table.len() && 0 < (#[trigger] table[i]).0
                    < slots.len() implies slots[table[i].0 as int] == 0 by {
                if i < table.len() - 1 {
                    assert(table.drop_last()[i] == table[i]);
                }
            }
        }
    }
}

/// The same cascade with the keys in registration order — the target key
/// created before the key whose destructor writes to it, as allocation
/// naturally orders the table: the first pass runs `k1`'s destructor,
/// which stores `v2` into `k2`; the next pass runs `k2`'s destructor on
/// exactly that value; the drain converges with both slots unset.
pub proof fn lemma_cascade_registration_order(
    s: Seq<usize>,
    k1: usize,
    d1: Dtor,
    k2: usize,
    d2: Dtor,
    v1: usize,
    v2: usize,
)
    requires
        0 < k1 < s.len(),
        0 < k2 < s.len(),
        k1 != k2,
        s[k1 as int] == v1,
        v1 != 0,
        s[k2 as int] == 0,
        v2 != 0,
        d1.sets@ =~= seq![(k2, v2)],
        d2.sets@ =~= Seq::<(usize, usize)>::empty(),
    ensures
        ({
            let table = seq![(k2, d2), (k1, d1)];
            let r = detach_drain(s, table, DTOR_RETRY_BOUND as nat);
            &&& r.1 =~= seq![(k1, v1), (k2, v2)]
            &&& r.0[k1 as int] == 0
            &&& r.0[k2 as int] == 0
            &&& detach_converged(s, table, DTOR_RETRY_BOUND as nat)
        }),
{
    let table = seq![(k2, d2), (k1, d1)];
    let t1 = table.drop_last();
    assert(t1 =~= seq![(k2, d2)]);
    assert(t1.drop_last() =~= Seq::<(usize, Dtor)>::empty());

    // First pass: `k2` is unset, so only `k1`'s destructor runs; it
    // clears `k1` and stores `v2` into `k2`.
    assert(detach_pass(s, t1.drop_last()) == (s, false, Seq::<(usize, usize)>::empty()));
    assert(detach_pass(s, t1) == (s, false, Seq::<(usize, usize)>::empty())) by {
        assert(t1.last() == (k2, d2));
        assert(s[k2 as int] == 0);
    }
    let s_a = apply_writes(s.update(k1 as int, 0), d1.sets@);
    assert(d1.sets@.drop_last() =~= Seq::<(usize, usize)>::empty());
    assert(apply_writes(s.update(k1 as int, 0), d1.sets@.drop_last()) == s.update(k1 as int, 0));
    assert(d1.sets@.last() == (k2, v2));
    assert(s_a =~= s.update(k1 as int, 0).update(k2 as int, v2));
    let p1 = detach_pass(s, table);
    assert(p1.0 == s_a && p1.1 && p1.2 == Seq::<(usize, usize)>::empty().push((k1, v1))) by {
        assert(table.last() == (k1, d1));
        assert(s[k1 as int] == v1);
    }
    assert(p1.2 =~= seq![(k1, v1)]);

    // Second pass: `k2` now holds exactly what `k1`'s destructor placed,
    // so its destructor receives that value; `k1` stays unset.
    assert(detach_pass(s_a, t1.drop_last()) == (s_a, false, Seq::<(usize, usize)>::empty()));
    let s_b = apply_writes(s_a.update(k2 as int, 0), d2.sets@);
    assert(s_b =~= s.update(k1 as int, 0));
    assert(detach_pass(s_a, t1) == (s_b, true, Seq::<(usize, usize)>::empty().push((k2, v2))))
        by {
        assert(t1.last() == (k2, d2));
        assert(s_a[k2 as int] == v2);
    }
    let p2 = detach_pass(s_a, table);
    assert(p2.0 == s_b && p2.1 && p2.2 =~= seq![(k2, v2)]) by {
        assert(table.last() == (k1, d1));
        assert(s_b[k1 as int] == 0);
    }

    // Third pass: both slots are unset; the drain stops.
    assert(detach_pass(s_b, t1.drop_last()) == (s_b, false, Seq::<(usize, usize)>::empty()));
    assert(detach_pass(s_b, t1) == (s_b, false, Seq::<(usize, usize)>::empty())) by {
        assert(t1.last() == (k2, d2));
        assert(s_b[k2 as int] == 0);
    }
    let p3 = detach_pass(s_b, table);
    assert(!p3.1) by {
        assert(table.last() == (k1, d1));
        assert(s_b[k1 as int] == 0);
    }

    // Assemble the drain from the three passes.
    let r = detach_drain(s, table, DTOR_RETRY_BOUND as nat);
    assert(detach_drain(s_b, table, (DTOR_RETRY_BOUND - 2) as nat) == (
        s_b,
        Seq::<(usize, usize)>::empty(),
    ));
    assert(detach_drain(s_a, table, (DTOR_RETRY_BOUND - 1) as nat) == (
        s_b,
        p2.2 + Seq::<(usize, usize)>::empty(),
    ));
    assert(r.0 == s_b && r.1 == p1.2 + (p2.2 + Seq::<(usize, usize)>::empty()));
    assert(r.1 =~= seq![(k1, v1), (k2, v2)]);
    assert(r.0[k1 as int] == 0);
    assert(r.0[k2 as int] == 0);
    assert(detach_converged(s_b, table, (DTOR_RETRY_BOUND - 2) as nat));
    assert(detach_converged(s_a, table, (DTOR_RETRY_BOUND - 1) as nat));
    assert(detach_converged(s, table, DTOR_RETRY_BOUND as nat));
}

/// Every invocation a pass makes is of a key the table tracks, and the
/// destructor receives the non-null value its slot held.
pub proof fn lemma_pass_trace_keys(slots: Seq<usize>, table: Seq<(usize, Dtor)>)
    ensures
        forall|a: int|
            0 <= a < detach_pass(slots, table).2.len() ==> exists|i: int|
                0 <= i < table.len() && (#[trigger] detach_pass(slots, table).2[a]).0 == (
                #[trigger] table[i]).0,
        forall|a: int|
            0 <= a < detach_pass(slots, table).2.len() ==> (#[trigger] detach_pass(
                slots,
                table,
            ).2[a]).1 != 0,
    decreases table.len(),
{
    if table.len() > 0 {
        lemma_pass_trace_keys(slots, table.drop_last());
        let r = detach_pass(slots, table.drop_last());
        let e = table.last();
        let full = detach_pass(slots, table);
        assert forall|a: int| 0 <= a < full.2.len() implies exists|i: int|
            0 <= i < table.len() && (#[trigger] full.2[a]).0 == (#[trigger] table[i]).0 by {
            if a < r.2.len() {
                let i = choose|i: int|
                    0 <= i < table.drop_last().len() && r.2[a].0 == (
                    #[trigger] table.drop_last()[i]).0;
                assert(table[i] == table.drop_last()[i]);
                assert(full.2[a] == r.2[a]);
            } else {
                assert(full.2[a].0 == e.0 && table[table.len() - 1] == e);
            }
        }
    }
}

/// In one pass no destructor runs twice: with every key tracked at most
/// once, the invocations a pass makes are of pairwise distinct keys.
pub proof fn lemma_pass_no_double_run(slots: Seq<usize>, table: Seq<(usize, Dtor)>)
    requires
        forall|i: int, j: int| 0 <= i < j < table.len() ==> (table[i]).0 != (table[j]).0,
    ensures
        forall|a: int, b: int|
            0 <= a < b < detach_pass(slots, table).2.len() ==> (detach_pass(slots, table).2[a]).0
                != (detach_pass(slots, table).2[b]).0,
    decreases table.len(),
{
    if table.len() > 0 {
        let prefix = table.drop_last();
        lemma_pass_no_double_run(slots, prefix);
        lemma_pass_trace_keys(slots, prefix);
        let r = detach_pass(slots, prefix);
        let e = table.last();
        let full = detach_pass(slots, table);
        assert forall|a: int, b: int|
            0 <= a < b < full.2.len() implies (full.2[a]).0 != (full.2[b]).0 by {
            if b < r.2.len() {
                assert(full.2[a] == r.2[a] && full.2[b] == r.2[b]);
            } else if full.2.len() > r.2.len() {
                // The last invocation is of the last entry's key, which no
                // earlier table entry — hence no earlier invocation — has.
                assert(full.2[b] == (e.0, r.0[e.0 as int]));
                assert(full.2[a] == r.2[a]);
                let i = choose|i: int|
                    0 <= i < prefix.len() && (r.2[a]).0 == (#[trigger] prefix[i]).0;
                assert(table[i] == prefix[i]);
                assert(table[table.len() - 1] == e);
            }
        }
    }
}

/// A destructor whose writes never name slot `k` leaves slot `k` as it
/// was.
pub proof fn lemma_writes_preserve_other(slots: Seq<usize>, writes: Seq<(usize, usize)>, k: int)
    requires
        0 <= k < slots.len(),
        forall|j: int| 0 <= j < writes.len() ==> (#[trigger] writes[j]).0 != k,
    ensures
        apply_writes(slots, writes)[k] == slots[k],
    decreases writes.len(),
{
    if writes.len() > 0 {
        lemma_writes_preserve_other(slots, writes.drop_last(), k);
        lemma_apply_writes_len(slots, writes.drop_last());
        assert(writes[writes.len() - 1] == writes.last());
    }
}

/// Processing a table none of whose entries track slot `k` or write to it
/// leaves slot `k` as it was: a value survives to its own key's turn.
pub proof fn lemma_pass_preserves_other(slots: Seq<usize>, table: Seq<(usize, Dtor)>, k: int)
    requires
        0 <= k < slots.len(),
        forall|i: int| 0 <= i < table.len() ==> (#[trigger] table[i]).0 != k,
        forall|i: int, j: int|
            0 <= i < table.len() && 0 <= j < table[i].1.sets@.len()
                ==> (#[trigger] table[i].1.sets@[j]).0 != k,
    ensures
        detach_pass(slots, table).0[k] == slots[k],
    decreases table.len(),
{
    if table.len() > 0 {
        lemma_pass_preserves_other(slots, table.drop_last(), k);
        lemma_pass_len(slots, table.drop_last());
        let r = detach_pass(slots, table.drop_last());
        let e = table.last();
        assert(table[table.len() - 1] == e);
        if 0 < e.0 < r.0.len() && r.0[e.0 as int] != 0 {
            assert forall|j: int| 0 <= j < e.1.sets@.len() implies (
            #[trigger] e.1.sets@[j]).0 != k by {
                assert((table[table.len() - 1].1.sets@[j]).0 != k);
            }
            lemma_writes_preserve_other(r.0.update(e.0 as int, 0), e.1.sets@, k);
        }
    }
}

/// Every tracked key whose slot holds a value when its turn in the pass
/// comes is cleared and its destructor invoked on exactly that value: the
/// invocation stands in the pass's record.
pub proof fn lemma_pass_invokes_set_key(slots: Seq<usize>, table: Seq<(usize, Dtor)>, i: int)
    requires
        0 <= i < table.len(),
        0 < (table[i]).0 < slots.len(),
        detach_pass(slots, table.subrange(0, i)).0[(table[i]).0 as int] != 0,
    ensures
        detach_pass(slots, table).2.contains(
            ((table[i]).0, detach_pass(slots, table.subrange(0, i)).0[(table[i]).0 as int]),
        ),
    decreases table.len(),
{
    let k = (table[i]).0;
    let at_turn = detach_pass(slots, table.subrange(0, i)).0;
    lemma_pass_len(slots, table.subrange(0, i));
    if i == table.len() - 1 {
        assert(table.subrange(0, i) =~= table.drop_last());
        let r = detach_pass(slots, table.drop_last());
        assert(table.last() == table[i]);
        let full = detach_pass(slots, table);
        assert(full.2 == r.2.push((k, at_turn[k as int])));
        assert(full.2[full.2.len() - 1] == (k, at_turn[k as int]));
    } else {
        let prefix = table.drop_last();
        assert(prefix.subrange(0, i) =~= table.subrange(0, i));
        assert(prefix[i] == table[i]);
        lemma_pass_invokes_set_key(slots, prefix, i);
        let r = detach_pass(slots, prefix);
        let a = choose|a: int| 0 <= a < r.2.len() && r.2[a] == (k, at_turn[k as int]);
        let full = detach_pass(slots, table);
        assert(full.2[a] == (k, at_turn[k as int]));
    }
}

/// What the first pass of a drain records, the drain records.
pub proof fn lemma_drain_contains_pass(
    slots: Seq<usize>,
    table: Seq<(usize, Dtor)>,
    passes: nat,
    x: (usize, usize),
)
    requires
        passes > 0,
        detach_pass(slots, table).2.contains(x),
    ensures
        detach_drain(slots, table, passes).1.contains(x),
{
    let p = detach_pass(slots, table);
    assert(p.2.len() > 0);
    if !p.1 {
        lemma_pass_no_run(slots, table);
    }
    let a = choose|a: int| 0 <= a < p.2.len() && p.2[a] == x;
    assert(detach_drain(slots, table, passes).1[a] == x);
}

/// What the rest of a drain records after its first pass ran, the whole
/// drain records: invocations of later passes are not lost.
pub proof fn lemma_drain_contains_rest(
    slots: Seq<usize>,
    table: Seq<(usize, Dtor)>,
    passes: nat,
    x: (usize, usize),
)
    requires
        passes > 0,
        detach_pass(slots, table).1,
        detach_drain(detach_pass(slots, table).0, table, (passes - 1) as nat).1.contains(x),
    ensures
        detach_drain(slots, table, passes).1.contains(x),
{
    let p = detach_pass(slots, table);
    let rest = detach_drain(p.0, table, (passes - 1) as nat);
    let a = choose|a: int| 0 <= a < rest.1.len() && rest.1[a] == x;
    assert(detach_drain(slots, table, passes).1[p.2.len() + a] == x);
}

/// When entry `i`'s destructor runs in a pass and its writes pin slot
/// `kj` to `v2`, and nothing later in the table tracks or writes `kj`,
/// the pass ends with slot `kj` holding `v2`.
pub proof fn lemma_pass_sets_then_preserved(
    slots: Seq<usize>,
    table: Seq<(usize, Dtor)>,
    i: int,
    kj: int,
    v2: usize,
)
    requires
        0 <= i < table.len(),
        0 <= kj < slots.len(),
        0 < (table[i]).0 < slots.len(),
        detach_pass(slots, table.subrange(0, i)).0[(table[i]).0 as int] != 0,
        forall|s: Seq<usize>|
            s.len() == slots.len() ==> apply_writes(s, (table[i]).1.sets@)[kj] == v2,
        forall|m: int| i < m < table.len() ==> (#[trigger] table[m]).0 != kj,
        forall|m: int, w: int|
            0 <= m < table.len() && m != i && 0 <= w < table[m].1.sets@.len()
                ==> (#[trigger] table[m].1.sets@[w]).0 != kj,
    ensures
        detach_pass(slots, table).0[kj] == v2,
    decreases table.len(),
{
    let r = detach_pass(slots, table.drop_last());
    let e = table.last();
    assert(table[table.len() - 1] == e);
    lemma_pass_len(slots, table.drop_last());
    if i == table.len() - 1 {
        assert(table.subrange(0, i) =~= table.drop_last());
        assert(r.0[e.0 as int] != 0);
        assert(r.0.update(e.0 as int, 0).len() == slots.len());
        assert(detach_pass(slots, table).0 == apply_writes(r.0.update(e.0 as int, 0), e.1.sets@));
    } else {
        let prefix = table.drop_last();
        assert(prefix.subrange(0, i) =~= table.subrange(0, i));
        assert(prefix[i] == table[i]);
        assert forall|s: Seq<usize>|
            s.len() == slots.len() implies apply_writes(s, (prefix[i]).1.sets@)[kj] == v2 by {
            assert(prefix[i] == table[i]);
        }
        lemma_pass_sets_then_preserved(slots, prefix, i, kj, v2);
        if 0 < e.0 < r.0.len() && r.0[e.0 as int] != 0 {
            assert(e.0 != kj);
            assert forall|w: int| 0 <= w < e.1.sets@.len() implies (
            #[trigger] e.1.sets@[w]).0 != kj by {
                assert((table[table.len() - 1].1.sets@[w]).0 != kj);
            }
            lemma_writes_preserve_other(r.0.update(e.0 as int, 0), e.1.sets@, kj);
        }
    }
}

/// The cross-key destructor cascade over an arbitrary table, in
/// registration order: entry `j` tracks `kj`, whose slot is unset; a
/// later entry `i` tracks `ki`, whose slot holds `v1`, and its destructor
/// pins `kj`'s slot to `v2`; no other destructor touches either slot.
/// Then the first pass of the drain invokes `ki`'s destructor on `v1`,
/// and the next pass invokes `kj`'s destructor on exactly the `v2` it
/// placed there — both invocations stand in the drain's record.
pub proof fn lemma_drain_cascade(
    slots: Seq<usize>,
    table: Seq<(usize, Dtor)>,
    j: int,
    i: int,
    v1: usize,
    v2: usize,
    passes: nat,
)
    requires
        0 <= j < i < table.len(),
        forall|a: int, b: int| 0 <= a < b < table.len() ==> (table[a]).0 != (table[b]).0,
        0 < (table[i]).0 < slots.len(),
        0 < (table[j]).0 < slots.len(),
        slots[(table[i]).0 as int] == v1,
        v1 != 0,
        slots[(table[j]).0 as int] == 0,
        v2 != 0,
        forall|s: Seq<usize>|
            s.len() == slots.len() ==> apply_writes(s, (table[i]).1.sets@)[(table[j]).0 as int]
                == v2,
        forall|m: int, w: int|
            0 <= m < table.len() && m != i && 0 <= w < table[m].1.sets@.len()
                ==> (#[trigger] table[m].1.sets@[w]).0 != (table[j]).0,
        forall|m: int, w: int|
            0 <= m < table.len() && 0 <= w < table[m].1.sets@.len()
                ==> (#[trigger] table[m].1.sets@[w]).0 != (table[i]).0,
        passes >= 2,
    ensures
        detach_drain(slots, table, passes).1.contains(((table[i]).0, v1)),
        detach_drain(slots, table, passes).1.contains(((table[j]).0, v2)),
{
    let ki = (table[i]).0;
    let kj = (table[j]).0;
    let pre_i = table.subrange(0, i);

    // First pass: nothing before entry `i` tracks or writes `ki`, so its
    // slot still holds `v1` at its turn, and its destructor receives it.
    assert forall|m: int| 0 <= m < pre_i.len() implies (#[trigger] pre_i[m]).0 != ki as int by {
        assert(pre_i[m] == table[m]);
    }
    assert forall|m: int, w: int|
        0 <= m < pre_i.len() && 0 <= w < pre_i[m].1.sets@.len() implies (
    #[trigger] pre_i[m].1.sets@[w]).0 != ki as int by {
        assert(pre_i[m] == table[m]);
    }
    lemma_pass_preserves_other(slots, pre_i, ki as int);
    assert(detach_pass(slots, pre_i).0[ki as int] == v1);
    lemma_pass_invokes_set_key(slots, table, i);
    assert(detach_pass(slots, table).2.contains((ki, v1)));
    lemma_drain_contains_pass(slots, table, passes, (ki, v1));

    // The first pass ends with `kj` holding exactly what entry `i`'s
    // destructor placed there.
    assert forall|m: int| i < m < table.len() implies (#[trigger] table[m]).0 != kj as int by {
        if (table[m]).0 == kj {
            assert((table[j]).0 != (table[m]).0);
        }
    }
    lemma_pass_sets_then_preserved(slots, table, i, kj as int, v2);
    let p1 = detach_pass(slots, table);
    assert(p1.0[kj as int] == v2);
    assert(p1.1) by {
        if !p1.1 {
            lemma_pass_no_run(slots, table);
            assert(p1.2.len() == 0);
            assert(p1.2.contains((ki, v1)));
        }
    }
    lemma_pass_len(slots, table);

    // Second pass: nothing before entry `j` tracks or writes `kj`, so the
    // placed value survives to its turn and its destructor receives it.
    let pre_j = table.subrange(0, j);
    assert forall|m: int| 0 <= m < pre_j.len() implies (#[trigger] pre_j[m]).0 != kj as int by {
        assert(pre_j[m] == table[m]);
        if (table[m]).0 == kj {
            assert((table[m]).0 != (table[j]).0);
        }
    }
    assert forall|m: int, w: int|
        0 <= m < pre_j.len() && 0 <= w < pre_j[m].1.sets@.len() implies (
    #[trigger] pre_j[m].1.sets@[w]).0 != kj as int by {
        assert(pre_j[m] == table[m]);
    }
    lemma_pass_preserves_other(p1.0, pre_j, kj as int);
    assert(detach_pass(p1.0, pre_j).0[kj as int] == v2);
    lemma_pass_invokes_set_key(p1.0, table, j);
    assert(detach_pass(p1.0, table).2.contains((kj, v2)));
    lemma_drain_contains_pass(p1.0, table, (passes - 1) as nat, (kj, v2));
    lemma_drain_contains_rest(slots, table, passes, (kj, v2));
}

/// A drain that converged within the bound leaves every tracked slot
/// unset: run-to-quiescence, when it succeeds, leaks nothing tracked.
pub proof fn lemma_drain_quiescent(slots: Seq<usize>, table: Seq<(usize, Dtor)>, passes: nat)
    requires
        detach_converged(slots, table, passes),
    ensures
        forall|i: int|
            0 <= i < table.len() ==> (0 < (#[trigger] table[i]).0 < slots.len() ==> detach_drain(
                slots,
                table,
                passes,
            ).0[table[i].0 as int] == 0),
    decreases passes,
{
    lemma_drain_len(slots, table, passes);
    let p = detach_pass(slots, table);
    if !p.1 {
        lemma_pass_no_run(slots, table);
    } else {
        lemma_pass_len(slots, table);
        lemma_drain_quiescent(p.0, table, (passes - 1) as nat);
    }
}

/// Cross-key destructor cascade: with only `k1`'s slot set, `k1`'s
/// destructor stores `v2` into `k2`'s slot, and a later step of the same
/// drain runs `k2`'s destructor on exactly that value — each destructor
/// runs once, in order, and the drain converges with both slots unset.
pub proof fn lemma_cascade(
    s: Seq<usize>,
    k1: usize,
    d1: Dtor,
    k2: usize,
    d2: Dtor,
    v1: usize,
    v2: usize,
)
    requires
        0 < k1 < s.len(),
        0 < k2 < s.len(),
        k1 != k2,
        s[k1 as int] == v1,
        v1 != 0,
        s[k2 as int] == 0,
        v2 != 0,
        d1.sets@ =~= seq![(k2, v2)],
        d2.sets@ =~= Seq::<(usize, usize)>::empty(),
    ensures
        ({
            let table = seq![(k1, d1), (k2, d2)];
            let r = detach_drain(s, table, DTOR_RETRY_BOUND as nat);
            &&& r.1 =~= seq![(k1, v1), (k2, v2)]
            &&& r.0[k1 as int] == 0
            &&& r.0[k2 as int] == 0
            &&& detach_converged(s, table, DTOR_RETRY_BOUND as nat)
        }),
{
    let table = seq![(k1, d1), (k2, d2)];
    let t1 = table.drop_last();
    assert(t1 =~= seq![(k1, d1)]);
    assert(t1.drop_last() =~= Seq::<(usize, Dtor)>::empty());

    // First pass, first entry: `k1` is set, so it is cleared and `d1`
    // writes `v2` into `k2`.
    let s_a = apply_writes(s.update(k1 as int, 0), d1.sets@);
    assert(d1.sets@.drop_last() =~= Seq::<(usize, usize)>::empty());
    assert(apply_writes(s.update(k1 as int, 0), d1.sets@.drop_last()) == s.update(k1 as int, 0));
    assert(d1.sets@.last() == (k2, v2));
    assert(s_a =~= s.update(k1 as int, 0).update(k2 as int, v2));
    assert(detach_pass(s, t1) == (s_a, true, seq![(k1, v1)])) by {
        assert(detach_pass(s, t1.drop_last()) == (
            s,
            false,
            Seq::<(usize, usize)>::empty(),
        ));
        assert(Seq::<(usize, usize)>::empty().push((k1, v1)) =~= seq![(k1, v1)]);
    }

    // First pass, second entry: `k2` now holds `v2`, so its destructor
    // receives exactly what `d1` placed there.
    let s_b = apply_writes(s_a.update(k2 as int, 0), d2.sets@);
    assert(s_b =~= s.update(k1 as int, 0));
    let p1 = detach_pass(s, table);
    assert(p1.0 == s_b && p1.1 && p1.2 == seq![(k1, v1)].push((k2, v2))) by {
        assert(table.last() == (k2, d2));
        assert(s_a[k2 as int] == v2);
    }
    assert(p1.2 =~= seq![(k1, v1), (k2, v2)]);

    // Second pass: both slots are unset, nothing runs, the drain stops.
    let p2 = detach_pass(s_b, table);
    assert(detach_pass(s_b, t1) == (s_b, false, Seq::<(usize, usize)>::empty())) by {
        assert(detach_pass(s_b, t1.drop_last()) == (s_b, false, Seq::<(usize, usize)>::empty()));
        assert(t1.last() == (k1, d1));
        assert(s_b[k1 as int] == 0);
    }
    assert(!p2.1) by {
        assert(s_b[k2 as int] == 0);
    }
    let r = detach_drain(s, table, DTOR_RETRY_BOUND as nat);
    assert(detach_drain(s_b, table, (DTOR_RETRY_BOUND - 1) as nat) == (
        s_b,
        Seq::<(usize, usize)>::empty(),
    ));
    assert(r.0 == s_b && r.1 == p1.2 + Seq::<(usize, usize)>::empty());
    assert(r.1 =~= seq![(k1, v1), (k2, v2)]);
    assert(r.0[k1 as int] == 0);
    assert(r.0[k2 as int] == 0);
    assert(detach_converged(s_b, table, (DTOR_RETRY_BOUND - 1) as nat));
    assert(detach_converged(s, table, DTOR_RETRY_BOUND as nat));
}

/// Run one destructor body over a thread's slots.
fn apply_dtor_writes(row: &mut Vec<usize>, d: &Dtor)
    ensures
        final(row)@ == apply_writes(old(row)@, d.sets@),
        final(row)@.len() == old(row)@.len(),
{
    let ghost row0 = row@;
    let mut j: usize = 0;
    while j < d.sets.len()
        invariant
            j <= d.sets@.len(),
            row@ == apply_writes(row0, d.sets@.subrange(0, j as int)),
            row@.len() == row0.len(),
        decreases d.sets@.len() - j,
    {
        let w = d.sets[j];
        proof {
            assert(d.sets@.subrange(0, j + 1).drop_last() =~= d.sets@.subrange(0, j as int));
            assert(d.sets@.subrange(0, j + 1).last() == d.sets@[j as int]);
        }
        if 0 < w.0 && w.0 < row.len() {
            row.set(w.0, w.1);
        }
        j += 1;
    }
    proof {
        assert(d.sets@.subrange(0, d.sets@.len() as int) =~= d.sets@);
    }
}

/// One pass of the detach drain over a snapshot of the table.
fn run_dtor_pass(row: &mut Vec<usize>, table: &Vec<(usize, Dtor)>) -> (ran: bool)
    requires
        forall|i: int| 0 <= i < table@.len() ==> 0 < (#[trigger] table@[i]).0 < old(row)@.len(),
    ensures
        final(row)@ == detach_pass(old(row)@, table@).0,
        ran == detach_pass(old(row)@, table@).1,
        final(row)@.len() == old(row)@.len(),
{
    let ghost row0 = row@;
    let mut ran = false;
    let mut i: usize = 0;
    while i < table.len()
        invariant
            i <= table@.len(),
            forall|a: int| 0 <= a < table@.len() ==> 0 < (#[trigger] table@[a]).0 < row0.len(),
            row@ == detach_pass(row0, table@.subrange(0, i as int)).0,
            ran == detach_pass(row0, table@.subrange(0, i as int)).1,
            row@.len() == row0.len(),
        decreases table@.len() - i,
    {
        let k = table[i].0;
        proof {
            assert(table@.subrange(0, i + 1).drop_last() =~= table@.subrange(0, i as int));
            assert(table@.subrange(0, i + 1).last() == table@[i as int]);
        }
        let v = row[k];
        if v != 0 {
            row.set(k, 0);
            apply_dtor_writes(row, &table[i].1);
            ran = true;
        }
        i += 1;
    }
    proof {
        assert(table@.subrange(0, table@.len() as int) =~= table@);
    }
    ran
}

/// What a thread detach does to the process: the exiting thread's slots
/// end as the bounded drain leaves them, and nothing else — no other
/// thread's slots, no key, no table entry, no registry entry — changes.
pub open spec fn dtors_drained(pre: OsTls, post: OsTls, t: int) -> bool {
    &&& post.thread_view(t) =~= detach_drain(
        pre.thread_view(t),
        pre.dtor_table(),
        DTOR_RETRY_BOUND as nat,
    ).0
    &&& forall|t2: int, k2: int| t2 != t ==> post.slot(t2, k2) == pre.slot(t2, k2)
    &&& post.n_keys() == pre.n_keys()
    &&& post.key_limit() == pre.key_limit()
    &&& post.n_threads() == pre.n_threads()
    &&& forall|k2: usize| post.key_live(k2) == pre.key_live(k2)
    &&& post.dtor_table() == pre.dtor_table()
    &&& post.registry_keys() == pre.registry_keys()
}

/// A thread detach that reached quiescence leaves every tracked slot of
/// the exiting thread unset: run-to-quiescence, when it converges, leaks
/// nothing the table tracks.
pub proof fn lemma_detach_leaves_tracked_unset(pre: OsTls, post: OsTls, t: int)
    requires
        pre.inv(),
        0 <= t < pre.n_threads(),
        dtors_drained(pre, post, t),
        detach_converged(pre.thread_view(t), pre.dtor_table(), DTOR_RETRY_BOUND as nat),
    ensures
        forall|i: int|
            0 <= i < pre.dtor_table().len() ==> post.slot(
                t,
                (#[trigger] pre.dtor_table()[i]).0 as int,
            ) == 0,
{
    let s = pre.thread_view(t);
    let table = pre.dtor_table();
    lemma_drain_quiescent(s, table, DTOR_RETRY_BOUND as nat);
    lemma_drain_len(s, table, DTOR_RETRY_BOUND as nat);
    let d = detach_drain(s, table, DTOR_RETRY_BOUND as nat).0;
    assert forall|i: int| 0 <= i < table.len() implies post.slot(
        t,
        (#[trigger] table[i]).0 as int,
    ) == 0 by {
        let k = table[i].0;
        assert(pre.key_live(k));
        assert(0 < k < s.len());
        assert(d[k as int] == 0);
        assert(post.thread_view(t)[k as int] == 0);
    }
}

/// Drain thread `t`'s tracked slots at detach: snapshot the table and, for
/// every entry whose slot holds a value, clear the slot and invoke the
/// destructor, repeating up to the retry bound because a destructor may
/// repopulate other tracked slots. Reports whether the drain reached
/// quiescence; if not, the remaining values leak — a documented
/// limitation, not a fault.
pub fn run_dtors(os: &mut OsTls, t: usize) -> (converged: bool)
    requires
        old(os).inv(),
        t < old(os).n_threads(),
    ensures
        final(os).inv(),
        dtors_drained(*old(os), *final(os), t as int),
        converged == detach_converged(
            old(os).thread_view(t as int),
            old(os).dtor_table(),
            DTOR_RETRY_BOUND as nat,
        ),
{
    let ghost os0 = *os;
    let target = os.live.len();

    // Work on this thread's slots and a table snapshot as local values.
    let mut row: Vec<usize> = Vec::new();
    core::mem::swap(&mut row, &mut os.threads[t]);
    let ghost row_in = row@;
    // Pad the row so every key index that exists has a concrete slot.
    while row.len() < target
        invariant
            row_in.len() <= row@.len(),
            row@.len() <= row_in.len() || row@.len() <= target,
            forall|j: int|
                0 <= j < row@.len() ==> row@[j] == (if 0 <= j < row_in.len() {
                    row_in[j]
                } else {
                    0
                }),
        decreases target - row@.len(),
    {
        row.push(0);
    }
    let ghost s0 = row@;
    proof {
        assert(s0 =~= os0.thread_view(t as int));
    }

    let mut table: Vec<(usize, Dtor)> = Vec::new();
    core::mem::swap(&mut table, &mut os.dtors);
    let ghost tbl = table@;
    proof {
        assert(tbl == os0.dtor_table());
        assert forall|i: int| 0 <= i < tbl.len() implies 0 < (#[trigger] tbl[i]).0
            < row@.len() by {
            assert(os0.key_live(tbl[i].0));
        }
    }

    let ghost bound = DTOR_RETRY_BOUND as nat;
    let mut pass: usize = 0;
    let mut any_run = true;
    while pass < DTOR_RETRY_BOUND && any_run
        invariant
            pass <= DTOR_RETRY_BOUND,
            bound == DTOR_RETRY_BOUND as nat,
            table@ == tbl,
            row@.len() == s0.len(),
            forall|i: int| 0 <= i < tbl.len() ==> 0 < (#[trigger] tbl[i]).0 < row@.len(),
            any_run ==> detach_drain(s0, tbl, bound).0 == detach_drain(
                row@,
                tbl,
                (bound - pass) as nat,
            ).0,
            any_run ==> detach_converged(s0, tbl, bound) == detach_converged(
                row@,
                tbl,
                (bound - pass) as nat,
            ),
            !any_run ==> detach_drain(s0, tbl, bound).0 == row@,
            !any_run ==> detach_converged(s0, tbl, bound),
        decreases DTOR_RETRY_BOUND - pass,
    {
        let ghost row_pre = row@;
        let ghost n = (bound - pass) as nat;
        let ran = run_dtor_pass(&mut row, &table);
        proof {
            let p = detach_pass(row_pre, tbl);
            assert(n > 0);
            if p.1 {
                assert(detach_drain(row_pre, tbl, n).0 == detach_drain(
                    p.0,
                    tbl,
                    (n - 1) as nat,
                ).0);
                assert(detach_converged(row_pre, tbl, n) == detach_converged(
                    p.0,
                    tbl,
                    (n - 1) as nat,
                ));
            } else {
                lemma_pass_no_run(row_pre, tbl);
                assert(detach_drain(row_pre, tbl, n).0 == row_pre);
                assert(detach_converged(row_pre, tbl, n));
            }
        }
        any_run = ran;
        pass += 1;
    }
    let ghost row_fin = row@;
    proof {
        if any_run {
            assert(pass == DTOR_RETRY_BOUND);
            assert(detach_drain(row_fin, tbl, (bound - pass) as nat).0 == row_fin);
            assert(!detach_converged(row_fin, tbl, (bound - pass) as nat));
        }
        assert(detach_drain(s0, tbl, bound).0 == row_fin);
        assert(detach_converged(s0, tbl, bound) == !any_run);
    }

    // Put the drained slots and the table back.
    core::mem::swap(&mut table, &mut os.dtors);
    core::mem::swap(&mut row, &mut os.threads[t]);
    proof {
        assert(os.threads@[t as int]@ == row_fin);
        assert(os.thread_view(t as int) =~= row_fin);
        assert(os.thread_view(t as int) =~= detach_drain(
            os0.thread_view(t as int),
            os0.dtor_table(),
            bound,
        ).0);
    }
    !any_run
}

/// Why the process-wide thread callback was invoked.
#[derive(PartialEq, Eq, Structural, Clone, Copy, Debug)]
pub enum CallbackReason {
    /// A thread is starting; nothing to do.
    ThreadAttach,
    /// A thread is exiting: its tracked slots are drained.
    ThreadDetach,
    /// The process is exiting: the last thread's tracked slots are
    /// drained.
    ProcessDetach,
}

/// The process-wide thread-exit hook, invoked by the loader for every
/// thread event: on a thread or process detach it drains the exiting
/// thread's tracked slots; any other event leaves everything untouched.
pub fn on_tls_callback(os: &mut OsTls, t: usize, reason: CallbackReason) -> (converged: bool)
    requires
        old(os).inv(),
        t < old(os).n_threads(),
    ensures
        final(os).inv(),
        reason == CallbackReason::ThreadDetach || reason == CallbackReason::ProcessDetach ==> {
            &&& dtors_drained(*old(os), *final(os), t as int)
            &&& converged == detach_converged(
                old(os).thread_view(t as int),
                old(os).dtor_table(),
                DTOR_RETRY_BOUND as nat,
            )
        },
        reason == CallbackReason::ThreadAttach ==> *final(os) == *old(os) && converged,
{
    match reason {
        CallbackReason::ThreadDetach => run_dtors(os, t),
        CallbackReason::ProcessDetach => run_dtors(os, t),
        CallbackReason::ThreadAttach => true,
    }
}

/// Process teardown, run once, last, on the final thread `t`: the detach
/// drain runs for that thread, every key still in the registry is
/// reclaimed, and the destructor table itself is dropped. Keys never
/// destroyed explicitly do not leak.
pub fn process_exit(os: &mut OsTls, t: usize) -> (converged: bool)
    requires
        old(os).inv(),
        t < old(os).n_threads(),
    ensures
        final(os).inv(),
        final(os).registry_keys() =~= Seq::<usize>::empty(),
        final(os).dtor_table() =~= Seq::<(usize, Dtor)>::empty(),
        forall|i: int|
            0 <= i < old(os).registry_keys().len() ==> !final(os).key_live(
                #[trigger] old(os).registry_keys()[i],
            ),
        forall|k2: usize|
            !old(os).registry_keys().contains(k2) ==> final(os).key_live(k2) == old(os).key_live(
                k2,
            ),
        final(os).thread_view(t as int) =~= detach_drain(
            old(os).thread_view(t as int),
            old(os).dtor_table(),
            DTOR_RETRY_BOUND as nat,
        ).0,
        forall|t2: int, k2: int| t2 != t as int ==> final(os).slot(t2, k2) == old(os).slot(t2, k2),
        final(os).n_keys() == old(os).n_keys(),
        final(os).n_threads() == old(os).n_threads(),
        converged == detach_converged(
            old(os).thread_view(t as int),
            old(os).dtor_table(),
            DTOR_RETRY_BOUND as nat,
        ),
{
    let converged = on_tls_callback(os, t, CallbackReason::ProcessDetach);
    exit_sweep(os);
    os.dtors.clear();
    converged
}

} // verus!

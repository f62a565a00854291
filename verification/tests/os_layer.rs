use tls::os::CallbackReason;
use tls::os::Dtor;
use tls::os::Key;
use tls::os::OsTls;
use tls::os::StaticKey;
use tls::os::TlsError;

fn process_with_threads(limit: usize, threads: usize) -> (OsTls, Vec<usize>) {
    let mut os = OsTls::new(limit);
    let mut tids = Vec::new();
    let mut i = 0;
    while i < threads {
        tids.push(os.add_thread());
        i += 1;
    }
    (os, tids)
}

#[test]
fn os_smoke() {
    let (mut os, tids) = process_with_threads(16, 1);
    let t = tids[0];
    let k1 = Key::new(&mut os, None).unwrap();
    let k2 = Key::new(&mut os, None).unwrap();
    assert!(k1.get(&os, t) == 0);
    assert!(k2.get(&os, t) == 0);
    k1.set(&mut os, t, 1);
    k2.set(&mut os, t, 2);
    assert_eq!(k1.get(&os, t), 1);
    assert_eq!(k2.get(&os, t), 2);
}

#[test]
fn statik() {
    let (mut os, tids) = process_with_threads(16, 1);
    let t = tids[0];
    let mut key1 = StaticKey::new(None);
    let mut key2 = StaticKey::new(None);
    assert!(key1.get(&mut os, t).unwrap() == 0);
    assert!(key2.get(&mut os, t).unwrap() == 0);
    key1.set(&mut os, t, 1).unwrap();
    key2.set(&mut os, t, 2).unwrap();
    assert_eq!(key1.get(&mut os, t).unwrap(), 1);
    assert_eq!(key2.get(&mut os, t).unwrap(), 2);
}

#[test]
fn writes_stay_on_their_thread() {
    let (mut os, tids) = process_with_threads(16, 2);
    let k = Key::new(&mut os, None).unwrap();
    k.set(&mut os, tids[0], 7);
    k.set(&mut os, tids[1], 9);
    assert_eq!(k.get(&os, tids[0]), 7);
    assert_eq!(k.get(&os, tids[1]), 9);
    k.set(&mut os, tids[1], 11);
    assert_eq!(k.get(&os, tids[0]), 7);
}

#[test]
fn allocation_exhausted() {
    let mut os = OsTls::new(1);
    let first = tls::os::create(&mut os, None);
    assert!(first.is_ok());
    let second = tls::os::create(&mut os, None);
    assert_eq!(second.unwrap_err(), TlsError::AllocationExhausted);
}

#[test]
fn race_loser_discards_redundant_key() {
    let (mut os, _tids) = process_with_threads(16, 1);
    // Two threads each allocate a key for the same descriptor cell; the
    // second to reach the cell loses and frees its redundant key.
    let mut cell = tls::os::StaticKeyInner::new();
    let winner_key = tls::os::create(&mut os, None).unwrap();
    let loser_key = tls::os::create(&mut os, None).unwrap();
    let resolved = tls::os::install_or_discard(&mut cell, &mut os, winner_key);
    assert_eq!(resolved, winner_key);
    let resolved_again = tls::os::install_or_discard(&mut cell, &mut os, loser_key);
    assert_eq!(resolved_again, winner_key);
    assert_eq!(cell.read(), winner_key);
}

#[test]
fn cas_outcome_winner_and_loser() {
    // The swap found the cell empty: the created key is installed.
    assert_eq!(tls::os::cas_outcome(0, 5), (5, None));
    // Another thread won meanwhile: use its key, free the redundant one.
    assert_eq!(tls::os::cas_outcome(3, 5), (3, Some(5)));
}

#[test]
fn destroy_swaps_cell_to_zero() {
    let (mut os, tids) = process_with_threads(16, 1);
    let t = tids[0];
    let mut key = StaticKey::new(None);
    key.set(&mut os, t, 5).unwrap();
    assert!(key.inner.read() != 0);
    key.destroy(&mut os);
    assert_eq!(key.inner.read(), 0);
}

#[test]
fn detach_runs_registered_dtor() {
    let (mut os, tids) = process_with_threads(16, 1);
    let t = tids[0];
    let sink = tls::os::create(&mut os, None).unwrap();
    let watched = tls::os::create(&mut os, Some(Dtor { sets: vec![(sink, 42)] })).unwrap();
    tls::os::set(&mut os, t, watched, 5);
    let converged = tls::os::run_dtors(&mut os, t);
    assert!(converged);
    // The watched slot was cleared before its destructor ran; the
    // destructor stored into the sink slot.
    assert_eq!(tls::os::get(&os, t, watched), 0);
    assert_eq!(tls::os::get(&os, t, sink), 42);
}

#[test]
fn detach_cascade_runs_both_dtors() {
    let (mut os, tids) = process_with_threads(16, 2);
    let t = tids[0];
    // k1's destructor populates k2, whose own destructor is tracked too.
    let k2 = tls::os::create(&mut os, Some(Dtor { sets: vec![] })).unwrap();
    let k1 = tls::os::create(&mut os, Some(Dtor { sets: vec![(k2, 42)] })).unwrap();
    tls::os::set(&mut os, t, k1, 1);
    assert_eq!(tls::os::get(&os, t, k2), 0);
    let converged = tls::os::on_tls_callback(&mut os, t, CallbackReason::ThreadDetach);
    assert!(converged);
    // Both ran: both slots end unset, and the other thread saw nothing.
    assert_eq!(tls::os::get(&os, t, k1), 0);
    assert_eq!(tls::os::get(&os, t, k2), 0);
    assert_eq!(tls::os::get(&os, tids[1], k1), 0);
    assert_eq!(tls::os::get(&os, tids[1], k2), 0);
}

#[test]
fn self_repopulating_dtor_hits_the_bound() {
    let (mut os, tids) = process_with_threads(16, 1);
    let t = tids[0];
    // Key indices are handed out in order, so the next one is knowable;
    // give that key a destructor that refills its own slot. Such a chain
    // never quiesces: the drain gives up after its bounded retries and the
    // value leaks rather than looping forever.
    let probe = tls::os::create(&mut os, None).unwrap();
    let selfish = tls::os::create(&mut os, Some(Dtor { sets: vec![(probe + 1, 1)] })).unwrap();
    assert_eq!(selfish, probe + 1);
    tls::os::set(&mut os, t, selfish, 1);
    let converged = tls::os::run_dtors(&mut os, t);
    assert!(!converged);
    assert_eq!(tls::os::get(&os, t, selfish), 1);
}

#[test]
fn exit_sweep_reclaims_leaked_keys() {
    let (mut os, tids) = process_with_threads(16, 1);
    let t = tids[0];
    // Keys created through the managed wrapper whose destroy is never
    // called: the registry sweep at process exit reclaims them.
    let leaked1 = Key::new(&mut os, None).unwrap();
    let leaked2 = Key::new(&mut os, None).unwrap();
    leaked1.set(&mut os, t, 3);
    leaked2.set(&mut os, t, 4);
    let converged = tls::os::process_exit(&mut os, t);
    assert!(converged);
}

#[test]
fn explicit_destroy_then_exit() {
    let (mut os, tids) = process_with_threads(16, 1);
    let t = tids[0];
    let owned = Key::new(&mut os, None).unwrap();
    owned.set(&mut os, t, 8);
    owned.destroy(&mut os);
    let converged = tls::os::process_exit(&mut os, t);
    assert!(converged);
}

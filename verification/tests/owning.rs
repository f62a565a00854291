use tls::statik::ExitDtors;
use tls::statik::Key;

const K1_HANDLE: usize = 1;
const K2_HANDLE: usize = 2;

#[test]
fn smoke_no_dtor() {
    let mut exits = ExitDtors::new(5);
    // This thread's instance starts at the initializer's value.
    let mut foo = Key::new(1i64);
    assert_eq!(*foo.get(&mut exits, K1_HANDLE).unwrap().value(), 1);
    foo.set(2);
    // Another thread starts out with the initial value of 1 ...
    let mut foo_other = Key::new(1i64);
    assert_eq!(*foo_other.get(&mut exits, K2_HANDLE).unwrap().value(), 1);
    foo_other.set(3);
    // ... and this thread retains its value of 2 despite the other thread.
    assert_eq!(*foo.get(&mut exits, K1_HANDLE).unwrap().value(), 2);
}

#[test]
fn smoke_dtor() {
    let mut exits = ExitDtors::new(5);
    let mut dropped = false;
    let mut foo: Key<Option<u32>> = Key::new(None);
    foo.get(&mut exits, K1_HANDLE);
    foo.set(Some(7));
    // Thread exit: drain the pending registrations and run the teardown of
    // each, observing the drop of the stored value.
    while let Some(batch) = exits.drain_round() {
        for handle in batch {
            assert_eq!(handle, K1_HANDLE);
            let torn = foo.destroy_value();
            assert_eq!(torn, Some(Some(7)));
            dropped = true;
            foo.finish_destroy();
        }
    }
    assert!(dropped);
}

#[test]
fn repeated_get_is_idempotent() {
    let mut exits = ExitDtors::new(5);
    let mut k = Key::new(41u64);
    assert_eq!(*k.get(&mut exits, K1_HANDLE).unwrap().value(), 41);
    assert_eq!(*k.get(&mut exits, K1_HANDLE).unwrap().value(), 41);
    assert_eq!(*k.get(&mut exits, K1_HANDLE).unwrap().value(), 41);
}

#[test]
fn registration_is_once_per_thread() {
    let mut exits = ExitDtors::new(5);
    let mut k = Key::new(0u8);
    k.get(&mut exits, K1_HANDLE);
    k.get(&mut exits, K1_HANDLE);
    k.get(&mut exits, K1_HANDLE);
    let batch = exits.drain_round().unwrap();
    assert_eq!(batch, vec![K1_HANDLE]);
    assert!(exits.drain_round().is_none());
}

#[test]
fn set_after_destruction_is_refused() {
    let mut k = Key::new(5u32);
    let torn = k.destroy_value();
    assert_eq!(torn, Some(5));
    assert!(!k.set(6));
    k.finish_destroy();
    assert!(!k.set(7));
}

#[test]
fn circular() {
    // Two keys whose stored values repopulate each other during teardown:
    // dropping the first thread-exit value stores into the second key,
    // whose own teardown then reaches back — every step observed, no
    // deadlock, no double run.
    let mut hits: u32 = 0;
    let mut exits = ExitDtors::new(5);
    let mut k1: Key<Option<u8>> = Key::new(None);
    let mut k2: Key<Option<u8>> = Key::new(None);

    // The thread body drops its first value, whose teardown stores into
    // k2; accessing k2 registers it for exit.
    hits += 1;
    assert_eq!(hits, 1);
    assert!(k2.get(&mut exits, K2_HANDLE).is_some());
    k2.set(Some(2));

    // Thread exit: drain rounds run the registered teardowns; k2's stored
    // value reaches back into k1, which registers k1 for the next round.
    while let Some(batch) = exits.drain_round() {
        for handle in batch {
            if handle == K2_HANDLE {
                let torn = k2.destroy_value();
                assert_eq!(torn, Some(Some(2)));
                // Dropping the stored value accesses k1 and stores there.
                hits += 1;
                assert_eq!(hits, 2);
                assert!(k1.get(&mut exits, K1_HANDLE).is_some());
                k1.set(Some(1));
                k2.finish_destroy();
            } else {
                let torn = k1.destroy_value();
                assert_eq!(torn, Some(Some(1)));
                hits += 1;
                // Its teardown looks at k2, already destroyed: no value.
                assert!(k2.get(&mut exits, K2_HANDLE).is_none());
                assert_eq!(hits, 3);
                k1.finish_destroy();
            }
        }
    }
    assert_eq!(hits, 3);
}

#[test]
fn self_referential() {
    let mut exits = ExitDtors::new(5);
    let mut k1: Key<Option<u8>> = Key::new(None);
    assert!(k1.get(&mut exits, K1_HANDLE).is_some());
    k1.set(Some(1));
    // Thread exit tears k1 down; the teardown of its value looks back at
    // its own key and must observe no value.
    let torn = k1.destroy_value();
    assert_eq!(torn, Some(Some(1)));
    assert!(k1.get(&mut exits, K1_HANDLE).is_none());
    k1.finish_destroy();
}

#[test]
fn dtors_in_dtors_in_dtors() {
    // A key's teardown stores a fresh value into another key, whose own
    // teardown must still run afterwards.
    let mut exits = ExitDtors::new(5);
    let mut sender_dropped = false;
    let mut k1: Key<Option<u8>> = Key::new(None);
    let mut k2: Key<Option<u8>> = Key::new(None);
    assert!(k1.get(&mut exits, K1_HANDLE).is_some());
    k1.set(Some(1));
    while let Some(batch) = exits.drain_round() {
        for handle in batch {
            if handle == K1_HANDLE {
                let torn = k1.destroy_value();
                assert_eq!(torn, Some(Some(1)));
                // Its teardown stores into k2, registering it.
                if k2.get(&mut exits, K2_HANDLE).is_some() {
                    k2.set(Some(9));
                }
                k1.finish_destroy();
            } else {
                let torn = k2.destroy_value();
                assert_eq!(torn, Some(Some(9)));
                sender_dropped = true;
                k2.finish_destroy();
            }
        }
    }
    assert!(sender_dropped);
}

#[test]
fn teardown_happens_once() {
    let mut k = Key::new(3u16);
    let torn = k.destroy_value();
    assert_eq!(torn, Some(3));
    assert!(k.destroy_value().is_none());
}

#[test]
fn get_mut_writes_in_place() {
    let mut exits = ExitDtors::new(5);
    let mut k = Key::new(10u32);
    *k.get_mut().unwrap() = 12;
    assert_eq!(*k.get(&mut exits, K1_HANDLE).unwrap().value(), 12);
    let torn = k.destroy_value();
    assert_eq!(torn, Some(12));
    assert!(k.get_mut().is_none());
}

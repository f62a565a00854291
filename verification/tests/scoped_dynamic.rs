use tls::dynamic;
use tls::fallback;
use tls::os::OsTls;
use tls::scoped;
use tls::statik::ExitDtors;
use tls::thread_local::Tls;

#[test]
fn scoped_smoke() {
    let bar: scoped::Key<usize> = scoped::Key::new();
    assert!(bar.with().is_none());
    let (bar, _r) = bar.set(1, |inner| {
        assert_eq!(inner.with().copied(), Some(1));
        (inner, ())
    });
    assert!(bar.with().is_none());
}

#[test]
fn cell_allowed() {
    let bar: scoped::Key<std::cell::Cell<usize>> = scoped::Key::new();
    let (_bar, _r) = bar.set(std::cell::Cell::new(1), |inner| {
        assert_eq!(inner.with().map(|c| c.get()), Some(1));
        (inner, ())
    });
}

#[test]
fn set_hands_back_the_body_result() {
    let k: scoped::Key<u32> = scoped::Key::new();
    let (k, observed) = k.set(7, |inner| {
        let v = inner.with().copied();
        (inner, v)
    });
    assert_eq!(observed, Some(7));
    assert!(k.with().is_none());
}

#[test]
fn scoped_nesting_restores_lifo() {
    let k: scoped::Key<u32> = scoped::Key::new();
    assert!(k.with().is_none());
    let (k, _r) = k.set(100, |inner| {
        assert_eq!(inner.with().copied(), Some(100));
        let (inner, _r2) = inner.set(101, |innermost| {
            assert_eq!(innermost.with().copied(), Some(101));
            (innermost, ())
        });
        // The recursive binding was restored when its extent closed.
        assert_eq!(inner.with().copied(), Some(100));
        (inner, ())
    });
    assert!(k.with().is_none());
}

#[test]
fn scoped_enter_exit_by_hand() {
    let mut k: scoped::Key<u32> = scoped::Key::new();
    let outer = k.enter(100);
    assert_eq!(k.with().copied(), Some(100));
    let inner = k.enter(101);
    assert_eq!(k.with().copied(), Some(101));
    k.exit(inner);
    assert_eq!(k.with().copied(), Some(100));
    k.exit(outer);
    assert!(k.with().is_none());
}

#[test]
fn dynamic_initializes_once_per_thread() {
    let mut exits = ExitDtors::new(5);
    let runs = std::cell::Cell::new(0u32);
    let mut key = dynamic::Key::new(|| {
        runs.set(runs.get() + 1);
        17u64
    });
    let first = *key.get(&mut exits, 1).unwrap().value();
    let second = *key.get(&mut exits, 1).unwrap().value();
    assert_eq!(first, 17);
    assert_eq!(second, first);
    // The initializer ran exactly once for this thread.
    assert_eq!(runs.get(), 1);
    // A second thread's instance initializes independently: one more run.
    let mut other = dynamic::Key::new(|| {
        runs.set(runs.get() + 1);
        17u64
    });
    assert_eq!(*other.get(&mut exits, 2).unwrap().value(), 17);
    assert_eq!(runs.get(), 2);
}

#[test]
fn thread_local_cell() {
    let mut cell = Tls { inner: 5u32 };
    assert_eq!(*cell.get().value(), 5);
    *cell.get_mut() = 6;
    assert_eq!(*cell.get().value(), 6);
}

#[test]
fn fallback_copies_initial_bits_per_thread() {
    let mut os = OsTls::new(16);
    let t0 = os.add_thread();
    let t1 = os.add_thread();
    let mut cell = fallback::Tls::new(1);
    assert_eq!(cell.get(&mut os, t0).unwrap(), 1);
    cell.set(&mut os, t0, 2).unwrap();
    assert_eq!(cell.get(&mut os, t0).unwrap(), 2);
    // The second thread still starts from the initial bits.
    assert_eq!(cell.get(&mut os, t1).unwrap(), 1);
    cell.set(&mut os, t1, 3).unwrap();
    assert_eq!(cell.get(&mut os, t0).unwrap(), 2);
    // An exclusive borrow writes in place for one thread only.
    *cell.get_mut(&mut os, t0).unwrap() = 4;
    assert_eq!(cell.get(&mut os, t0).unwrap(), 4);
    assert_eq!(cell.get(&mut os, t1).unwrap(), 3);
}

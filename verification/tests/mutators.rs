use std::sync::atomic::{AtomicUsize, Ordering};
use std::sync::{Arc, Barrier, PoisonError};

use crossbeam_utils::thread::scope;
use flat_combining::flat_combining::memory::Trace;
use flat_combining::mutex::{apply_unless_poisoned, unless_poisoned};
use flat_combining::{FlatCombining, Mutator, Mutex, Poisoned};

fn is_shareable<M: Send + Sync>(_: &M) {}

#[test]
fn test_uncontended() {
    let m = FlatCombining::new(0);
    m.mutate(|v| {
        assert_eq!(*v, 0);
        *v += 1;
    })
    .unwrap();
    m.mutate(|v| {
        assert_eq!(*v, 1);
        *v += 1;
    })
    .unwrap();
    m.mutate(|v| {
        assert_eq!(*v, 2);
        *v += 1;
    })
    .unwrap();
}

#[test]
fn test_contended() {
    const N_THREADS: usize = 32;
    const N_OPS: usize = 128;

    let m = FlatCombining::new(0);
    let b = Barrier::new(N_THREADS);

    scope(|s| {
        for _ in 0..N_THREADS {
            s.spawn(|_| {
                b.wait();

                for _ in 0..N_OPS {
                    m.mutate(|v| *v += 1).unwrap();
                }
            });
        }
    })
    .unwrap();

    m.mutate(|v| {
        assert_eq!(*v, N_THREADS * N_OPS);
    })
    .unwrap();
}

#[test]
fn every_function_is_applied_once() {
    const N_THREADS: usize = 16;
    const N_OPS: usize = 64;

    let m = FlatCombining::new(Vec::new());
    let calls = Arc::new(AtomicUsize::new(0));

    scope(|s| {
        for thread in 0..N_THREADS {
            let m = &m;
            let calls = &calls;
            s.spawn(move |_| {
                for op in 0..N_OPS {
                    let calls = Arc::clone(calls);
                    m.mutate(move |log: &mut Vec<(usize, usize)>| {
                        calls.fetch_add(1, Ordering::Relaxed);
                        log.push((thread, op));
                    })
                    .unwrap();
                }
            });
        }
    })
    .unwrap();

    assert_eq!(calls.load(Ordering::Relaxed), N_THREADS * N_OPS);
    m.mutate(|log| {
        for thread in 0..N_THREADS {
            let ops: Vec<usize> = log.iter().filter(|e| e.0 == thread).map(|e| e.1).collect();
            assert_eq!(ops, (0..N_OPS).collect::<Vec<usize>>());
        }
        assert_eq!(log.len(), N_THREADS * N_OPS);
    })
    .unwrap();
}

#[test]
fn function_has_been_applied_on_return() {
    const N_THREADS: usize = 8;

    let m = FlatCombining::new(0usize);
    scope(|s| {
        for _ in 0..N_THREADS {
            s.spawn(|_| {
                for _ in 0..256 {
                    let seen = Arc::new(AtomicUsize::new(0));
                    let inner = Arc::clone(&seen);
                    m.mutate(move |v| {
                        *v += 1;
                        inner.store(*v, Ordering::Relaxed);
                    })
                    .unwrap();
                    assert_ne!(seen.load(Ordering::Relaxed), 0);
                }
            });
        }
    })
    .unwrap();
}

#[test]
fn one_trace_serves_many_operations() {
    let m = FlatCombining::new(1u64);
    let mut trace = Trace::new();
    m.combine(|v| *v *= 3, &mut trace);
    m.combine(|v| *v += 4, &mut trace);
    m.combine(|v| assert_eq!(*v, 7), &mut trace);
}

#[test]
fn std_mutex_applies_functions_in_turn() {
    let m = Mutex::new(5u32);
    assert_eq!(m.mutate(|v| *v += 2), Ok(()));
    assert_eq!(m.mutate(|v| *v *= 10), Ok(()));
    assert_eq!(m.into_inner(), Ok(70));
}

#[test]
fn std_mutex_gives_back_what_it_was_made_with() {
    let m = Mutex::new(String::from("kept"));
    assert_eq!(m.into_inner(), Ok(String::from("kept")));
}

#[test]
fn std_mutex_is_poisoned_by_a_function_that_panics() {
    let m = Mutex::new(0u32);
    let crashed = scope(|s| {
        s.spawn(|_| {
            let _ = m.mutate(|_| panic!("no end"));
        })
        .join()
        .is_err()
    })
    .unwrap();
    assert!(crashed);
    assert_eq!(m.mutate(|v| *v += 1), Err(Poisoned));
    assert_eq!(m.into_inner(), Err(Poisoned));
}

#[test]
fn replies_of_a_lock_are_told_apart() {
    assert_eq!(unless_poisoned(Ok(3u8)), Ok(3));
    assert_eq!(unless_poisoned(Err(PoisonError::new(3u8))), Err(Poisoned));
}

#[test]
fn function_is_applied_unless_the_lock_failed() {
    let lock = std::sync::Mutex::new(1u8);
    assert_eq!(apply_unless_poisoned(lock.lock(), |v| *v += 1), Ok(()));
    let failed = Err(PoisonError::new(lock.lock().unwrap()));
    assert_eq!(apply_unless_poisoned(failed, |v| *v += 1), Err(Poisoned));
    assert_eq!(lock.into_inner().unwrap(), 2);
}

#[test]
fn mutators_are_shareable() {
    is_shareable(&FlatCombining::new(7u64));
    is_shareable(&Mutex::new(7u64));
}

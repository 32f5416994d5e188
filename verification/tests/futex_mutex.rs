use std::cell::{Cell, RefCell};
use std::ops::Deref;
use std::sync::Barrier;

use crossbeam_utils::thread::scope;
use flat_combining::flat_combining::memory::Trace;
use flat_combining::flat_combining::mutex::{Mutex, MutexGuard};

#[test]
fn free_lock_is_taken_at_once() {
    let mutex = Mutex::new(1u32);
    let mut trace = Trace::new();
    let guard = mutex.try_lock(&mut trace).expect("the lock is free");
    assert_eq!(*guard, 1);
    assert!(mutex.try_lock(&mut Trace::new()).is_none());
    guard.unlock(&mut trace);
    let guard = mutex.try_lock(&mut trace).expect("the lock is free again");
    guard.unlock(&mut trace);
}

#[test]
fn refused_try_leaves_the_lock_alone() {
    let mutex = Mutex::new(());
    let mut trace = Trace::new();
    let guard = mutex.lock(&mut trace);
    for _ in 0..3 {
        assert!(mutex.try_lock(&mut Trace::new()).is_none());
    }
    guard.unlock(&mut trace);
    assert!(mutex.try_lock(&mut Trace::new()).is_some());
}

#[test]
fn guard_gives_access_to_the_value() {
    let mutex = Mutex::new(vec![1u8, 2]);
    let mut trace = Trace::new();
    let mut guard = mutex.lock(&mut trace);
    guard.push(3);
    assert_eq!(guard.deref(), &[1, 2, 3]);
    guard.unlock(&mut trace);
    let guard = mutex.lock(&mut trace);
    assert_eq!(*guard, vec![1, 2, 3]);
    guard.unlock_with_bitset_wake(0b101, &mut trace);
    let guard = mutex.lock(&mut trace);
    assert_eq!(*guard, vec![1, 2, 3]);
    guard.unlock_with_bitset_wake(0, &mut trace);
}

#[test]
fn condition_goes_before_a_free_lock() {
    let mutex = Mutex::new(0);
    let mut trace = Trace::new();
    assert!(mutex.bitset_wait_or_lock(1, || true, &mut trace).is_none());
    let guard = mutex
        .bitset_wait_or_lock(1, || false, &mut trace)
        .expect("the lock is free");
    guard.unlock(&mut trace);
}

#[test]
fn condition_ends_the_wait_for_a_taken_lock() {
    // One question at the start, one for each look, one before the sleep.
    for vain in 1..1 + 65 + 1 {
        let mutex = Mutex::new(0);
        let mut holder = Trace::new();
        let guard = mutex.lock(&mut holder);
        let asked = Cell::new(0);
        let condition = || {
            asked.set(asked.get() + 1);
            asked.get() > vain
        };
        assert!(mutex
            .bitset_wait_or_lock(1, condition, &mut Trace::new())
            .is_none());
        assert!(asked.get() > vain);
        guard.unlock(&mut holder);
    }
}

#[test]
fn lock_is_taken_when_it_is_released_before_the_sleep() {
    let mutex = Mutex::new(9);
    let mut holder = Trace::new();
    let held: RefCell<Option<MutexGuard<'_, i32>>> = RefCell::new(Some(mutex.lock(&mut holder)));
    let holder = RefCell::new(holder);
    let asked = Cell::new(0);
    let condition = || {
        asked.set(asked.get() + 1);
        // One question at the start, one for each look, one before the sleep.
        if asked.get() == 1 + 65 + 1 {
            let guard = held.borrow_mut().take().unwrap();
            guard.unlock(&mut holder.borrow_mut());
        }
        false
    };
    let mut trace = Trace::new();
    let guard = mutex
        .bitset_wait_or_lock(1 << 31, condition, &mut trace)
        .expect("the condition is never true");
    assert_eq!(*guard, 9);
    assert_eq!(asked.get(), 1 + 65 + 1 + 1);
    guard.unlock(&mut trace);
    assert!(mutex.try_lock(&mut Trace::new()).is_some());
}

#[test]
fn one_thread_at_a_time_has_the_value() {
    const N_THREADS: u32 = 8;
    const N_OPS: u32 = 500;

    let mutex = Mutex::new(0u32);
    let barrier = Barrier::new(N_THREADS as usize);
    scope(|s| {
        for _ in 0..N_THREADS {
            s.spawn(|_| {
                let mut trace = Trace::new();
                barrier.wait();
                for _ in 0..N_OPS {
                    let mut guard = mutex.lock(&mut trace);
                    let seen = *guard;
                    *guard = seen + 1;
                    guard.unlock(&mut trace);
                }
            });
        }
    })
    .unwrap();
    let mut trace = Trace::new();
    let guard = mutex.lock(&mut trace);
    assert_eq!(*guard, N_THREADS * N_OPS);
    guard.unlock(&mut trace);
}

#[test]
fn sleepers_are_woken_by_plain_releases_and_by_sets() {
    const N_THREADS: u32 = 6;
    const N_OPS: u32 = 300;

    let mutex = Mutex::new(0u32);
    scope(|s| {
        for thread in 0..N_THREADS {
            let mutex = &mutex;
            s.spawn(move |_| {
                let mut trace = Trace::new();
                for op in 0..N_OPS {
                    let mut guard = if op % 2 == 0 {
                        mutex.lock(&mut trace)
                    } else {
                        mutex
                            .bitset_wait_or_lock(1 << thread, || false, &mut trace)
                            .unwrap()
                    };
                    *guard += 1;
                    if op % 3 == 0 {
                        guard.unlock_with_bitset_wake(1 << ((thread + 1) % N_THREADS), &mut trace);
                    } else {
                        guard.unlock(&mut trace);
                    }
                }
            });
        }
    })
    .unwrap();
    let guard = mutex.try_lock(&mut Trace::new()).unwrap();
    assert_eq!(*guard, N_THREADS * N_OPS);
}

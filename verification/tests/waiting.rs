use std::sync::Arc;
use std::time::{Duration, Instant};

use crossbeam_utils::thread::scope;
use flat_combining::flat_combining::memory::Trace;
use flat_combining::flat_combining::mutex::Mutex;
use flat_combining::flat_combining::waiter::Waiter;
use flat_combining::flat_combining::waitv::{wait_mutex_or_waiter, WaitResult};

fn pass_time(duration: Duration) {
    let start = Instant::now();
    while start.elapsed() < duration {}
}

#[test]
fn test_wait_mutex_available() {
    let mutex = Mutex::new(42);
    let waiter = Waiter::new();

    // Mutex should be immediately available
    let result = wait_mutex_or_waiter(&mutex, &waiter, &mut Trace::new());
    match result {
        WaitResult::MutexLocked(guard) => {
            assert_eq!(*guard, 42);
        }
        WaitResult::WaiterReady => panic!("Should have returned MutexLocked"),
    }
}

#[test]
fn test_wait_waiter_triggered() {
    let mutex = Mutex::new(42);
    let waiter = Arc::new(Waiter::new());

    // Lock the mutex in another thread
    let _guard = mutex.lock(&mut Trace::new());

    let waiter_clone = Arc::clone(&waiter);
    scope(|s| {
        s.spawn(move |_| {
            pass_time(Duration::from_millis(10));
            waiter_clone.notify(&mut Trace::new());
        });

        // Should return WaiterReady when waiter is triggered
        let result = wait_mutex_or_waiter(&mutex, &waiter, &mut Trace::new());
        match result {
            WaitResult::WaiterReady => {
                // Expected result
            }
            WaitResult::MutexLocked(_) => panic!("Should have returned WaiterReady"),
        }
    })
    .unwrap();
}

#[test]
fn waiter_stays_ready() {
    let waiter = Waiter::new();
    let mut trace = Trace::new();
    assert!(!waiter.is_ready(&mut trace));
    assert!(!waiter.is_ready(&mut trace));
    waiter.notify(&mut trace);
    assert!(waiter.is_ready(&mut trace));
    waiter.notify(&mut trace);
    assert!(waiter.is_ready(&mut trace));
}

#[test]
fn notified_waiter_goes_before_a_free_lock() {
    let mutex = Mutex::new(1);
    let waiter = Waiter::new();
    let mut trace = Trace::new();
    waiter.notify(&mut trace);
    assert!(matches!(
        wait_mutex_or_waiter(&mutex, &waiter, &mut trace),
        WaitResult::WaiterReady
    ));
    assert!(mutex.try_lock(&mut trace).is_some());
}

#[test]
fn released_lock_ends_the_wait() {
    let mutex = Mutex::new(5);
    let waiter = Waiter::new();
    let mut holder = Trace::new();
    let guard = mutex.lock(&mut holder);

    scope(|s| {
        let waiting = s.spawn(|_| {
            let mut trace = Trace::new();
            match wait_mutex_or_waiter(&mutex, &waiter, &mut trace) {
                WaitResult::MutexLocked(mut guard) => {
                    *guard += 1;
                    guard.unlock(&mut trace);
                    true
                }
                WaitResult::WaiterReady => false,
            }
        });
        pass_time(Duration::from_millis(10));
        guard.unlock(&mut holder);
        assert!(waiting.join().unwrap());
    })
    .unwrap();

    assert_eq!(*mutex.try_lock(&mut Trace::new()).unwrap(), 6);
}

//! Waiting for whichever comes first, a lock or a notification.

use vstd::prelude::*;

use crate::flat_combining::memory::event::{Call, Event};
use crate::flat_combining::memory::word::{MutexWord, WaiterWord};
use crate::flat_combining::memory::{extends, Outside, Trace};
use crate::flat_combining::mutex::{acquired, got_in, Mutex, MutexGuard};
use crate::flat_combining::protocol::{
    outside, Phase, CONTENDED, LOCKED, READY, ROUNDS, UNLOCKED, UNREADY,
};
use crate::flat_combining::waiter::{asked, Waiter};

verus! {

/// Result of waiting on either a mutex or waiter.
#[verifier::reject_recursive_types(K)]
pub enum WaitResult<'a, T, K = Outside> {
    /// The waiter was triggered/notified.
    WaiterReady,
    /// The mutex was successfully locked.
    MutexLocked(MutexGuard<'a, T, K>),
}

/// Whether a thread that waits for a mutex or a waiter may do this: it uses the
/// word of that mutex, and reads the word of that waiter.
pub open spec fn is_waiting(mutex: MutexWord, waiter: WaiterWord, event: Event) -> bool {
    match event {
        Event::Word { word, .. } => word == mutex,
        Event::Waiter { waiter: word, event: e } => word == waiter && e is Load,
        _ => false,
    }
}

/// Whether a thread did nothing else from there on.
pub open spec fn only_waits(
    mutex: MutexWord,
    waiter: WaiterWord,
    events: Seq<Event>,
    from: int,
) -> bool {
    forall|i: int| from <= i < events.len() ==> is_waiting(mutex, waiter, #[trigger] events[i])
}

/// Waits for either the mutex to become unlocked or the waiter to be triggered.
///
/// Returns `WaitResult::MutexLocked` with the guard if the mutex was acquired,
/// or `WaitResult::WaiterReady` if the waiter was triggered.  The guard owns
/// the word, except after [`ROUNDS`] vain rounds: then the thread stops
/// sleeping and goes straight for the value's cell.
pub fn wait_mutex_or_waiter<'a, T, K>(
    mutex: &'a Mutex<T, K>,
    waiter: &Waiter<K>,
    trace: &mut Trace<K>,
) -> (result: WaitResult<'a, T, K>)
    requires
        old(trace).thread() matches Some(t) && outside(t.lock) && !(t.record is Queued),
    ensures
        result matches WaitResult::MutexLocked(guard) ==> guard.is_new(*mutex),
        extends(old(trace)@, final(trace)@),
        // Nothing is written to the word of the waiter.
        only_waits(mutex.word(), waiter.word(), final(trace)@, old(trace)@.len() as int),
        final(trace).thread() == Some(
            old(trace).thread()->0.after(
                mutex.word(),
                Call::WaitAny { waiter: waiter.word() },
                match result {
                    WaitResult::WaiterReady => Phase::Ready,
                    WaitResult::MutexLocked(guard) => acquired(guard.is_owner()),
                },
            ),
        ),
        // The waiter is asked first, and what it says then is respected.
        exists|value: u32|
            {
                &&& final(trace)@.len() >= old(trace)@.len() + 2
                &&& final(trace)@[old(trace)@.len() as int + 1] == #[trigger] asked(
                    waiter.word(),
                    value,
                )
                &&& value == READY ==> result is WaiterReady && final(trace)@.len()
                    == old(trace)@.len() + 2
            },
        // What is said last decides.
        result is WaiterReady ==> final(trace)@.last() == asked(waiter.word(), READY),
        result matches WaitResult::MutexLocked(guard) && guard.is_owner() ==> got_in(
            mutex.word(),
            final(trace)@,
        ),
{
    trace.begin(mutex.futex(), Ghost(Call::WaitAny { waiter: waiter.word() }));
    let ghost t = trace.thread()->0;
    let mut round: u64 = 0;
    while round < ROUNDS
        invariant
            round <= ROUNDS,
            t == old(trace).thread()->0.after(
                mutex.word(),
                Call::WaitAny { waiter: waiter.word() },
                Phase::AnyAsking { round: 0 },
            ),
            trace.thread() == Some(t.moved(Phase::AnyAsking { round: round as nat })),
            extends(old(trace)@, trace@),
            only_waits(mutex.word(), waiter.word(), trace@, old(trace)@.len() as int),
            round == 0 ==> trace@.len() == old(trace)@.len() + 1,
            round > 0 ==> exists|value: u32|
                {
                    &&& trace@.len() >= old(trace)@.len() + 2
                    &&& trace@[old(trace)@.len() as int + 1] == #[trigger] asked(
                        waiter.word(),
                        value,
                    )
                    &&& value != READY
                },
        decreases ROUNDS - round,
    {
        if waiter.is_ready(trace) {
            return WaitResult::WaiterReady;
        }
        let mutex_value = mutex.futex().load(trace);
        if mutex_value == UNLOCKED {
            if mutex.take_if_free(trace) {
                return WaitResult::MutexLocked(mutex.guard(true, trace));
            }
        } else {
            // Upgrade the mutex to contended.
            if mutex_value == LOCKED && mutex.futex().swap_acquire(CONTENDED, trace) == UNLOCKED {
                // We just swapped from UNLOCKED -> CONTENDED, which means we
                // took the lock.
                return WaitResult::MutexLocked(mutex.guard(true, trace));
            }
            match mutex.futex().wait_any(CONTENDED, waiter.futex(), UNREADY, trace) {
                Some(index) => {
                    if index == 0 {
                        // Mutex changed - try to lock it
                        if mutex.take_if_free(trace) {
                            return WaitResult::MutexLocked(mutex.guard(true, trace));
                        }
                    } else {
                        // Waiter was triggered. We need to verify its really
                        // ready because futex is allowed to cause spurious
                        // wakeups.
                        if waiter.is_ready(trace) {
                            return WaitResult::WaiterReady;
                        }
                    }
                },
                None => {},
            }
        }
        round = round + 1;
    }
    trace.give_up(mutex.futex());
    WaitResult::MutexLocked(mutex.guard(false, trace))
}

} // verus!

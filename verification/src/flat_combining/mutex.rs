//! A Linux-only mutex implementation using futex.
//!
//! The futex word decides who may use the value.  The value itself stands in a
//! cell that lets one thread in at a time, which a thread enters once it owns
//! the word.

use core::ops::{Deref, DerefMut};

use vstd::prelude::*;
use vstd::rwlock::WriteHandle;

use crate::flat_combining::memory::cell::{AnyValue, Vault};
use crate::flat_combining::memory::event::{Call, Event, WordEvent};
use crate::flat_combining::memory::word::{poll, MutexWord};
use crate::flat_combining::memory::{extends, Outside, Trace};
use crate::flat_combining::protocol::{
    decided, outside, released, tried, Goal, Phase, CONTENDED, LOCKED, ROUNDS, SPINS, UNLOCKED,
};

verus! {

/// `std::hint::spin_loop`: tells the processor that the thread spins, and has
/// no result to speak of.
pub assume_specification[ std::hint::spin_loop ]();

/// A mutex over a value of type `T`.
#[verifier::reject_recursive_types(K)]
pub struct Mutex<T, K = Outside> {
    futex: MutexWord<K>,
    data: Vault<T, K>,
}

/// Exclusive access to the value of a mutex.
///
/// A guard is released by [`MutexGuard::unlock`] or
/// [`MutexGuard::unlock_with_bitset_wake`].
#[verifier::reject_recursive_types(K)]
pub struct MutexGuard<'a, T, K = Outside> {
    mutex: &'a Mutex<T, K>,
    value: T,
    handle: WriteHandle<'a, T, AnyValue>,
    owner: bool,
    entered: Ghost<T>,
}

impl<T, K> Mutex<T, K> {
    /// A mutex that nobody has locked.
    pub fn new(data: T) -> (mutex: Self)
        ensures
            mutex.word().starts_as(UNLOCKED),
            mutex.starts_with(data),
    {
        Mutex { futex: MutexWord::new(UNLOCKED), data: Vault::new(data) }
    }

    /// Whether the cell of the value was made with this.
    pub closed spec fn starts_with(&self, data: T) -> bool {
        self.data.starts_with(data)
    }

    /// Whether a thread can have entered the cell of the value, found `entry`
    /// there, and left `exit` behind.
    pub closed spec fn was_used(&self, entry: T, exit: T) -> bool {
        exists|handle: WriteHandle<'_, T, AnyValue>| #[trigger]
            self.data.may_give(entry, handle) && self.data.was_left(handle, exit)
    }

    /// The word that threads sleep on.
    pub(crate) fn futex(&self) -> (word: &MutexWord<K>)
        ensures
            word.id() == self.word(),
    {
        &self.futex
    }

    /// The word that threads sleep on.
    pub closed spec fn word(&self) -> MutexWord {
        self.futex.id()
    }

    /// Enters the cell of the value, with the lock or after waiting in vain.
    pub(crate) fn guard(&self, owner: bool, trace: &mut Trace<K>) -> (guard: MutexGuard<'_, T, K>)
        requires
            old(trace).thread() matches Some(t) && t.at.word == Some(self.word()) && t.lock == (
            if owner {
                Phase::Taken
            } else {
                Phase::Barging
            }),
        ensures
            guard.is_new(*self),
            guard.is_owner() == owner,
            final(trace)@ == old(trace)@.push(self.word().event(WordEvent::Enter)),
            final(trace).thread() == Some(old(trace).thread()->0.moved(acquired(owner))),
    {
        let (value, handle) = self.data.enter(&self.futex, trace);
        MutexGuard { mutex: self, value, handle, owner, entered: Ghost(value) }
    }

    /// Takes the lock, waiting for it as long as it takes.
    ///
    /// The guard owns the word, except after [`ROUNDS`] vain rounds: then the
    /// thread stops sleeping and goes straight for the value's cell.
    pub fn lock(&self, trace: &mut Trace<K>) -> (guard: MutexGuard<'_, T, K>)
        requires
            old(trace).thread() matches Some(t) && outside(t.lock),
        ensures
            guard.is_new(*self),
            extends(old(trace)@, final(trace)@),
            final(trace).thread() == Some(
                old(trace).thread()->0.after(
                    self.word(),
                    Call::Lock,
                    acquired(guard.is_owner()),
                ),
            ),
            guard.is_owner() ==> got_in(self.word(), final(trace)@),
    {
        trace.begin(&self.futex, Ghost(Call::Lock));
        // Fast path: try to acquire lock directly
        if self.take_if_free(trace) {
            return self.guard(true, trace);
        }
        // Slow path: contention
        self.lock_contended(trace)
    }

    /// Takes the lock if it is free.
    pub fn try_lock(&self, trace: &mut Trace<K>) -> (guard: Option<MutexGuard<'_, T, K>>)
        requires
            old(trace).thread() matches Some(t) && outside(t.lock),
        ensures
            guard matches Some(g) ==> g.is_new(*self) && g.is_owner(),
            final(trace).thread() == Some(
                old(trace).thread()->0.after(
                    self.word(),
                    Call::TryLock,
                    if guard is Some {
                        Phase::Held
                    } else {
                        Phase::Refused
                    },
                ),
            ),
            exists|reply: Result<u32, u32>|
                {
                    &&& final(trace)@ == old(trace)@ + #[trigger] tried_once(self.word(), reply)
                    &&& guard is Some <==> reply is Ok
                },
    {
        trace.begin(&self.futex, Ghost(Call::TryLock));
        let success = self.take_if_free(trace);
        let ghost mut known: Result<u32, u32> = Ok(UNLOCKED);
        proof {
            let reply = choose|reply: Result<u32, u32>|
                trace@ == old(trace)@.push(
                    self.word().event(WordEvent::Begin { call: Call::TryLock }),
                ).push(#[trigger] exchanged(self.word(), reply)) && (success <==> reply is Ok);
            known = reply;
        }
        let guard = if success {
            Some(self.guard(true, trace))
        } else {
            None
        };
        assert(trace@ =~= old(trace)@ + tried_once(self.word(), known));
        guard
    }

    /// Waits until the lock is free, and takes it, or until `f` is true.
    ///
    /// Returns `None` if `f` was true.  While it sleeps, the thread listens for
    /// releases that wake a set which shares a bit with `bitset`.
    pub fn bitset_wait_or_lock<F: Fn() -> bool>(
        &self,
        bitset: u32,
        f: F,
        trace: &mut Trace<K>,
    ) -> (guard: Option<MutexGuard<'_, T, K>>)
        requires
            bitset != 0,
            call_requires(f, ()),
            old(trace).thread() matches Some(t) && outside(t.lock),
        ensures
            guard matches Some(g) ==> g.is_new(*self),
            guard is None ==> call_ensures(f, (), true),
            extends(old(trace)@, final(trace)@),
            are_answers(f, final(trace)@, old(trace)@.len() as int),
            final(trace).thread() == Some(
                old(trace).thread()->0.after(
                    self.word(),
                    Call::WaitOrLock { mask: bitset },
                    match guard {
                        Some(g) => acquired(g.is_owner()),
                        None => Phase::Ready,
                    },
                ),
            ),
            guard matches Some(g) && g.is_owner() ==> got_in(self.word(), final(trace)@),
            guard is None ==> final(trace)@.last() == self.word().event(
                WordEvent::Poll { ready: true },
            ),
    {
        trace.begin(&self.futex, Ghost(Call::WaitOrLock { mask: bitset }));
        // Fast path if we're ready.
        if poll(&f, &self.futex, trace) {
            return None;
        }
        // Fast path if the lock is free
        if self.take_if_free(trace) {
            return Some(self.guard(true, trace));
        }
        // Slow path: contention
        self.lock_contended_bitset(bitset, f, trace)
    }

    /// Tries to take the word from unlocked to locked.
    pub(crate) fn take_if_free(&self, trace: &mut Trace<K>) -> (success: bool)
        requires
            old(trace).thread() matches Some(t) && t.at.word == Some(self.word()) && (
            t.lock is TryingOnce || t.lock is Trying || t.lock is AnyTrying || t.lock is AnyWoken),
        ensures
            ({
                let t = old(trace).thread()->0;
                final(trace).thread() == Some(t.moved(tried(t.lock, success)->0))
            }),
            exists|reply: Result<u32, u32>|
                {
                    &&& final(trace)@ == old(trace)@.push(
                        #[trigger] exchanged(self.word(), reply),
                    )
                    &&& success <==> reply is Ok
                },
    {
        let reply = self.futex.compare_exchange(UNLOCKED, LOCKED, trace);
        assert(final(trace)@ == old(trace)@.push(exchanged(self.word(), reply)));
        reply.is_ok()
    }

    /// Sleeps until the lock can be taken.
    fn lock_contended(&self, trace: &mut Trace<K>) -> (guard: MutexGuard<'_, T, K>)
        requires
            old(trace).thread() matches Some(t) && t.at.word == Some(self.word()) && t.lock == (
            Phase::Spinning {
                goal: Goal::Lock,
                round: 0,
                left: SPINS as nat,
            }),
        ensures
            guard.is_new(*self),
            extends(old(trace)@, final(trace)@),
            final(trace).thread() == Some(
                old(trace).thread()->0.moved(acquired(guard.is_owner())),
            ),
            guard.is_owner() ==> got_in(self.word(), final(trace)@),
    {
        let ghost t = trace.thread()->0;
        let mut round: u64 = 0;
        loop
            invariant
                round <= ROUNDS,
                trace.thread() == Some(
                    t.moved(
                        Phase::Spinning {
                            goal: Goal::Lock,
                            round: round as nat,
                            left: SPINS as nat,
                        },
                    ),
                ),
                t == old(trace).thread()->0,
                t.at.word == Some(self.word()),
                extends(old(trace)@, trace@),
            decreases ROUNDS - round,
        {
            let state = self.spin(trace);
            // Upgrade the mutex to contended if it's not already.
            if state != CONTENDED && self.futex.swap_acquire(CONTENDED, trace) == UNLOCKED {
                // We just swapped from UNLOCKED -> CONTENDED, which means we
                // took the lock.
                return self.guard(true, trace);
            }
            if round == ROUNDS {
                trace.give_up(&self.futex);
                return self.guard(false, trace);
            }
            // Wait on futex
            self.futex.wait(CONTENDED, trace);
            round = round + 1;
        }
    }

    /// Sleeps until the lock can be taken or `f` is true.
    fn lock_contended_bitset<F: Fn() -> bool>(
        &self,
        bitset: u32,
        f: F,
        trace: &mut Trace<K>,
    ) -> (guard: Option<MutexGuard<'_, T, K>>)
        requires
            bitset != 0,
            call_requires(f, ()),
            old(trace).thread() matches Some(t) && t.at.word == Some(self.word()) && t.lock == (
            Phase::Spinning {
                goal: Goal::Masked { mask: bitset },
                round: 0,
                left: SPINS as nat,
            }),
        ensures
            guard matches Some(g) ==> g.is_new(*self),
            guard is None ==> call_ensures(f, (), true),
            extends(old(trace)@, final(trace)@),
            are_answers(f, final(trace)@, old(trace)@.len() as int),
            final(trace).thread() == Some(
                old(trace).thread()->0.moved(
                    match guard {
                        Some(g) => acquired(g.is_owner()),
                        None => Phase::Ready,
                    },
                ),
            ),
            guard matches Some(g) && g.is_owner() ==> got_in(self.word(), final(trace)@),
            guard is None ==> final(trace)@.last() == self.word().event(
                WordEvent::Poll { ready: true },
            ),
    {
        let ghost t = trace.thread()->0;
        let mut round: u64 = 0;
        loop
            invariant
                bitset != 0,
                call_requires(f, ()),
                round <= ROUNDS,
                trace.thread() == Some(
                    t.moved(
                        Phase::Spinning {
                            goal: Goal::Masked { mask: bitset },
                            round: round as nat,
                            left: SPINS as nat,
                        },
                    ),
                ),
                t == old(trace).thread()->0,
                t.at.word == Some(self.word()),
                extends(old(trace)@, trace@),
                are_answers(f, trace@, old(trace)@.len() as int),
            decreases ROUNDS - round,
        {
            let state = self.spin_bitset(&f, trace);
            // Upgrade the mutex to contended if it's not already.
            if state != CONTENDED && self.futex.swap_acquire(CONTENDED, trace) == UNLOCKED {
                // We just swapped from UNLOCKED -> CONTENDED, which means we
                // took the lock.
                return Some(self.guard(true, trace));
            }
            if poll(&f, &self.futex, trace) {
                return None;
            }
            if round == ROUNDS {
                trace.give_up(&self.futex);
                return Some(self.guard(false, trace));
            }
            // Wait on futex
            self.futex.wait_bitset(CONTENDED, bitset, trace);
            round = round + 1;
        }
    }

    /// Looks at the word until it is not just locked, but not for long.
    pub(crate) fn spin(&self, trace: &mut Trace<K>) -> (state: u32)
        requires
            old(trace).thread() matches Some(t) && t.at.word == Some(self.word()) && (
            t.lock matches Phase::Spinning { goal, left, .. } && goal == Goal::Lock && left
                == SPINS),
        ensures
            ({
                let t = old(trace).thread()->0;
                final(trace).thread() == Some(
                    t.moved(decided(Goal::Lock, t.lock->Spinning_round, state)),
                )
            }),
            extends(old(trace)@, final(trace)@),
            final(trace)@.last() == self.word().event(WordEvent::Load { value: state }),
    {
        let ghost t = trace.thread()->0;
        let ghost round = t.lock->Spinning_round;
        let mut spin: u32 = SPINS;
        loop
            invariant
                spin <= SPINS,
                trace.thread() == Some(
                    t.moved(Phase::Spinning { goal: Goal::Lock, round, left: spin as nat }),
                ),
                t == old(trace).thread()->0,
                t.at.word == Some(self.word()),
                extends(old(trace)@, trace@),
                round == t.lock->Spinning_round,
            decreases spin,
        {
            let state = self.futex.load(trace);
            // We stop spinning if the mutex is either UNLOCKED or CONTENDED,
            // or if we've exhausted ourselves.
            if state != LOCKED || spin == 0 {
                return state;
            }
            std::hint::spin_loop();
            spin = spin - 1;
        }
    }

    /// Looks at the word until it is not just locked or `f` is true, but not
    /// for long.
    pub(crate) fn spin_bitset<F: Fn() -> bool>(&self, f: &F, trace: &mut Trace<K>) -> (state: u32)
        requires
            call_requires(*f, ()),
            old(trace).thread() matches Some(t) && t.at.word == Some(self.word()) && (
            t.lock matches Phase::Spinning { goal, left, .. } && goal is Masked && left == SPINS),
        ensures
            ({
                let t = old(trace).thread()->0;
                final(trace).thread() == Some(
                    t.moved(decided(t.lock->Spinning_goal, t.lock->Spinning_round, state)),
                )
            }),
            extends(old(trace)@, final(trace)@),
            are_answers(*f, final(trace)@, old(trace)@.len() as int),
            // The word was read, and then the condition was asked.
            final(trace)@.len() >= old(trace)@.len() + 2,
            final(trace)@[final(trace)@.len() - 2] == self.word().event(
                WordEvent::Load { value: state },
            ),
    {
        let ghost t = trace.thread()->0;
        let ghost round = t.lock->Spinning_round;
        let ghost goal = t.lock->Spinning_goal;
        let mut spin: u32 = SPINS;
        loop
            invariant
                spin <= SPINS,
                call_requires(*f, ()),
                trace.thread() == Some(
                    t.moved(Phase::Spinning { goal, round, left: spin as nat }),
                ),
                t == old(trace).thread()->0,
                t.at.word == Some(self.word()),
                extends(old(trace)@, trace@),
                are_answers(*f, trace@, old(trace)@.len() as int),
                round == t.lock->Spinning_round,
                goal == t.lock->Spinning_goal,
                goal is Masked,
            decreases spin,
        {
            let state = self.futex.load(trace);
            // We stop spinning if the condition in f() is true, mutex is
            // either UNLOCKED or CONTENDED, or if we've exhausted ourselves.
            if poll(f, &self.futex, trace) || state != LOCKED || spin == 0 {
                return state;
            }
            std::hint::spin_loop();
            spin = spin - 1;
        }
    }

    /// Releases the word, if it is owned, and wakes one waiter if there may be
    /// any.
    fn unlock(&self, owner: bool, trace: &mut Trace<K>)
        requires
            old(trace).thread() matches Some(t) && t.at.word == Some(self.word()) && t.lock == (
            if owner {
                Phase::Releasing { mask: 0 }
            } else {
                released(0, false)
            }),
        ensures
            final(trace).thread() == Some(old(trace).thread()->0.moved(Phase::Idle)),
            exists|previous: u32|
                final(trace)@ == old(trace)@ + #[trigger] release(
                    self.word(),
                    0,
                    owner,
                    previous,
                ).skip(2),
    {
        if owner {
            let previous = self.futex.swap_release(UNLOCKED, trace);
            // If there were waiters, wake one
            if previous == CONTENDED {
                self.futex.wake(1, trace);
            }
            assert(trace@ =~= old(trace)@ + release(self.word(), 0, owner, previous).skip(2));
        } else {
            assert(trace@ =~= old(trace)@ + release(self.word(), 0, owner, UNLOCKED).skip(2));
        }
    }

    /// Releases the word, if it is owned, wakes the waiters of a set, and one
    /// more if there may be any.
    fn unlock_bitset(&self, owner: bool, bitset: u32, trace: &mut Trace<K>)
        requires
            old(trace).thread() matches Some(t) && t.at.word == Some(self.word()) && t.lock == (
            if owner {
                Phase::Releasing { mask: bitset }
            } else {
                released(bitset, false)
            }),
        ensures
            final(trace).thread() == Some(old(trace).thread()->0.moved(Phase::Idle)),
            exists|previous: u32|
                final(trace)@ == old(trace)@ + #[trigger] release(
                    self.word(),
                    bitset,
                    owner,
                    previous,
                ).skip(2),
    {
        let previous: u32 = if owner {
            self.futex.swap_release(UNLOCKED, trace)
        } else {
            UNLOCKED
        };
        let contended = previous == CONTENDED;
        if bitset != 0 {
            self.futex.wake_bitset(u32::MAX, bitset, trace);
        }
        // If there were waiters, wake one
        if contended {
            self.futex.wake(1, trace);
        }
        assert(trace@ =~= old(trace)@ + release(self.word(), bitset, owner, previous).skip(2));
    }
}

/// Where a thread stands that has got a guard.
pub open spec fn acquired(owner: bool) -> Phase {
    if owner {
        Phase::Held
    } else {
        Phase::GaveUp
    }
}

/// The exchange by which the lock is taken if it is free.
pub open spec fn exchanged(word: MutexWord, reply: Result<u32, u32>) -> Event {
    word.event(WordEvent::CompareExchange { current: UNLOCKED, new: LOCKED, reply })
}

/// All that a single try does.
pub open spec fn tried_once(word: MutexWord, reply: Result<u32, u32>) -> Seq<Event> {
    let tried = seq![word.event(WordEvent::Begin { call: Call::TryLock }), exchanged(word, reply)];
    if reply is Ok {
        tried.push(word.event(WordEvent::Enter))
    } else {
        tried
    }
}

/// Whether a thread takes the lock by this.
pub open spec fn takes(word: MutexWord, event: Event) -> bool {
    ||| exists|reply: Result<u32, u32>| reply is Ok && event == #[trigger] exchanged(word, reply)
    ||| event == word.event(WordEvent::Swap { new: CONTENDED, previous: UNLOCKED })
}

/// Whether a thread has just taken the lock and entered the cell of the value.
pub open spec fn got_in(word: MutexWord, events: Seq<Event>) -> bool {
    &&& events.len() >= 2
    &&& takes(word, events[events.len() - 2])
    &&& events.last() == word.event(WordEvent::Enter)
}

/// Whether whatever was asked of a condition from there on was asked of `f`.
pub open spec fn are_answers<F: Fn() -> bool>(f: F, events: Seq<Event>, from: int) -> bool {
    forall|i: int|
        from <= i < events.len() ==> (#[trigger] events[i] matches Event::Word {
            event: WordEvent::Poll { ready },
            ..
        } ==> call_ensures(f, (), ready))
}

/// All that the release of a guard does, where the word held `previous`.
pub open spec fn release(word: MutexWord, mask: u32, owner: bool, previous: u32) -> Seq<Event> {
    let left = seq![
        word.event(WordEvent::Begin { call: Call::Unlock { mask } }),
        word.event(WordEvent::Leave),
    ];
    let released = if owner {
        left.push(word.event(WordEvent::Swap { new: UNLOCKED, previous }))
    } else {
        left
    };
    let woken = if mask != 0 {
        released.push(word.event(WordEvent::WakeBitset { count: u32::MAX, mask }))
    } else {
        released
    };
    if owner && previous == CONTENDED {
        woken.push(word.event(WordEvent::Wake { count: 1 }))
    } else {
        woken
    }
}

impl<'a, T, K> View for MutexGuard<'a, T, K> {
    type V = T;

    closed spec fn view(&self) -> T {
        self.value
    }
}

impl<'a, T, K> MutexGuard<'a, T, K> {
    /// The mutex whose value this is.
    pub closed spec fn source(&self) -> Mutex<T, K> {
        *self.mutex
    }

    /// Whether the guard owns the word.
    pub closed spec fn is_owner(&self) -> bool {
        self.owner
    }

    /// What the thread found when it got the guard.
    pub closed spec fn entered(&self) -> T {
        self.entered@
    }

    /// Whether the guard was got by entering the cell of the value.
    pub closed spec fn is_inside(&self) -> bool {
        self.mutex.data.may_give(self.entered@, self.handle)
    }

    /// Whether this is a guard of that mutex through which nothing was done yet.
    pub open spec fn is_new(&self, mutex: Mutex<T, K>) -> bool {
        &&& self.source() == mutex
        &&& self.is_inside()
        &&& self@ == self.entered()
    }

    /// Puts the value back and then releases the lock; if threads wait for it,
    /// one of them is woken.
    pub fn unlock(self, trace: &mut Trace<K>)
        requires
            self.is_inside(),
            old(trace).thread() matches Some(t) && t.lock == acquired(self.is_owner())
                && t.at.word == Some(self.source().word()) && t.is_at_rest() && (
            t.record is Queued ==> t.has_swept()),
        ensures
            self.source().was_used(self.entered(), self@),
            final(trace).thread() == Some(
                old(trace).thread()->0.after(
                    self.source().word(),
                    Call::Unlock { mask: 0 },
                    Phase::Idle,
                ),
            ),
            exists|previous: u32|
                final(trace)@ == old(trace)@ + #[trigger] release(
                    self.source().word(),
                    0,
                    self.is_owner(),
                    previous,
                ),
    {
        let ghost guard = self;
        let MutexGuard { mutex, value, handle, owner, entered } = self;
        trace.begin(&mutex.futex, Ghost(Call::Unlock { mask: 0 }));
        assert(mutex.data.may_give(guard.entered(), handle));
        mutex.data.leave(handle, value, &mutex.futex, trace);
        let ghost left = trace@;
        mutex.unlock(owner, trace);
        proof {
            let previous = choose|previous: u32|
                trace@ == left + #[trigger] release(mutex.word(), 0, owner, previous).skip(2);
            assert(trace@ =~= old(trace)@ + release(mutex.word(), 0, owner, previous));
        }
    }

    /// Puts the value back and then releases the lock; all threads that listen for
    /// a bit of `bitset` are woken, and if threads wait for the lock, one more.
    pub fn unlock_with_bitset_wake(self, bitset: u32, trace: &mut Trace<K>)
        requires
            self.is_inside(),
            old(trace).thread() matches Some(t) && t.lock == acquired(self.is_owner())
                && t.at.word == Some(self.source().word()) && t.is_at_rest() && (
            t.record is Queued ==> t.has_swept()),
        ensures
            self.source().was_used(self.entered(), self@),
            final(trace).thread() == Some(
                old(trace).thread()->0.after(
                    self.source().word(),
                    Call::Unlock { mask: bitset },
                    Phase::Idle,
                ),
            ),
            exists|previous: u32|
                final(trace)@ == old(trace)@ + #[trigger] release(
                    self.source().word(),
                    bitset,
                    self.is_owner(),
                    previous,
                ),
    {
        let ghost guard = self;
        let MutexGuard { mutex, value, handle, owner, entered } = self;
        trace.begin(&mutex.futex, Ghost(Call::Unlock { mask: bitset }));
        assert(mutex.data.may_give(guard.entered(), handle));
        mutex.data.leave(handle, value, &mutex.futex, trace);
        let ghost left = trace@;
        mutex.unlock_bitset(owner, bitset, trace);
        proof {
            let previous = choose|previous: u32|
                trace@ == left + #[trigger] release(mutex.word(), bitset, owner, previous).skip(2);
            assert(trace@ =~= old(trace)@ + release(mutex.word(), bitset, owner, previous));
        }
    }
}

impl<'a, T, K> Deref for MutexGuard<'a, T, K> {
    type Target = T;

    fn deref(&self) -> (value: &T)
        ensures
            *value == self@,
    {
        &self.value
    }
}

impl<'a, T, K> DerefMut for MutexGuard<'a, T, K> {
    fn deref_mut(&mut self) -> (value: &mut T)
        ensures
            *value == old(self)@,
            final(self)@ == *final(value),
            final(self).source() == old(self).source(),
            final(self).is_owner() == old(self).is_owner(),
            final(self).entered() == old(self).entered(),
            final(self).is_inside() == old(self).is_inside(),
    {
        &mut self.value
    }
}

} // verus!

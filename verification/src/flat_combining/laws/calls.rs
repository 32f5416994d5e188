//! What single calls do to the cells that they are made on.
//!
//! Each law speaks of a call by what it returned and by what it noted, and of a
//! cell by what it held before and holds after, if nobody else used it meanwhile.

use std::sync::Arc;

use vstd::arithmetic::div_mod::lemma_add_mod_noop_right;
use vstd::prelude::*;
use vstd::set_lib::{lemma_int_range, lemma_len_subset, lemma_subset_equality, set_int_range};

use crate::flat_combining::laws::lock::{effect as word_effect, has_lock};
use crate::flat_combining::laws::pool::{effect as masks_effect, lemma_bits};
use crate::flat_combining::laws::waiter::effect as waiter_effect;
use crate::flat_combining::memory::event::{
    Call, Deed, Event, PoolEvent, QueueEvent, WaiterEvent, WordEvent,
};
use crate::flat_combining::memory::mask::Masks;
use crate::flat_combining::memory::word::{MutexWord, WaiterWord};
use crate::flat_combining::memory::{extends, Trace};
use crate::flat_combining::mutex::{exchanged, release, tried_once, Mutex, MutexGuard};
use crate::flat_combining::protocol::{
    bit_of, group_at, index_of, lemma_lowest, lemma_run_push, lowest, outside, run, slot_of,
    step, waiter_step, word_step, Phase, SlotPhase, Thread, CAPACITY, CONTENDED, GROUPS, GROUP_SIZE,
    LOCKED, READY, UNLOCKED, UNREADY,
};
use crate::flat_combining::record_pool::{returned, RecordPool};
use crate::flat_combining::waiter::{asked, notified, Waiter};
use crate::flat_combining::waitv::{is_waiting, wait_mutex_or_waiter, WaitResult};
use crate::flat_combining::{is_free, FlatCombining};

verus! {

/// What was done between two moments of a trace.
pub open spec fn meanwhile(before: Seq<Event>, after: Seq<Event>) -> Seq<Event> {
    after.skip(before.len() as int)
}

/// What the word of a mutex holds after some events; `None` if a reply is not the
/// one that memory gives.
pub open spec fn word_after(held: u32, word: MutexWord, events: Seq<Event>) -> Option<u32>
    decreases events.len(),
{
    if events.len() == 0 {
        Some(held)
    } else {
        match word_after(held, word, events.drop_last()) {
            Some(value) => match events.last() {
                Event::Word { word: at, event } => if at == word {
                    word_effect(value, event)
                } else {
                    Some(value)
                },
                _ => Some(value),
            },
            None => None,
        }
    }
}

/// What the word of a waiter holds after some events; `None` if a reply is not the
/// one that memory gives.
pub open spec fn waiter_after(held: u32, waiter: WaiterWord, events: Seq<Event>) -> Option<u32>
    decreases events.len(),
{
    if events.len() == 0 {
        Some(held)
    } else {
        match waiter_after(held, waiter, events.drop_last()) {
            Some(value) => match events.last() {
                Event::Waiter { waiter: at, event } => if at == waiter {
                    waiter_effect(value, event)
                } else {
                    Some(value)
                },
                _ => Some(value),
            },
            None => None,
        }
    }
}

/// By how much an event changes how often a lock is held: an exchange that finds
/// the word unlocked and leaves it otherwise takes the lock, and one that leaves it
/// unlocked gives it back.
pub open spec fn hold(word: MutexWord, event: Event) -> int {
    match event {
        Event::Word { word: at, event: e } => if at != word {
            0
        } else {
            match e {
                WordEvent::CompareExchange { current, new, reply } => if reply is Ok && current
                    == UNLOCKED && new != UNLOCKED {
                    1
                } else {
                    0
                },
                WordEvent::Swap { new, previous } => if new == UNLOCKED {
                    -1
                } else if previous == UNLOCKED {
                    1
                } else {
                    0
                },
                _ => 0,
            }
        },
        _ => 0,
    }
}

/// How often a lock was taken and not given back.
pub open spec fn holds(word: MutexWord, events: Seq<Event>) -> int
    decreases events.len(),
{
    if events.len() == 0 {
        0
    } else {
        holds(word, events.drop_last()) + hold(word, events.last())
    }
}

/// A thread has taken a lock once more than it has given it back while it has that
/// lock, and else as often.
pub proof fn law_locks_are_given_back(word: MutexWord, events: Seq<Event>)
    requires
        run(events) is Some,
    ensures
        ({
            let thread = run(events)->0;
            holds(word, events) == if has_lock(thread.lock) && thread.at.word == Some(word) {
                1int
            } else {
                0
            }
        }),
    decreases events.len(),
{
    if events.len() > 0 {
        law_locks_are_given_back(word, events.drop_last());
    }
}

/// A call of `combine` leaves every lock as it found it: not held by the thread.
pub proof fn law_combine_keeps_no_lock<T, K, F: FnOnce(&mut T) + Send + Sync + 'static>(
    combining: &FlatCombining<T, K>,
    f: F,
    word: MutexWord,
)
    ensures
        forall|trace: &mut Trace<K>|
            {
                &&& #[trigger] call_ensures(
                    FlatCombining::<T, K>::combine::<F>,
                    (combining, f, trace),
                    (),
                )
                &&& run(trace@) is Some
                &&& outside(run(trace@)->0.lock)
            } ==> holds(word, trace@) == 0 && holds(word, final(trace)@) == 0,
{
    assert forall|trace: &mut Trace<K>|
        {
            &&& #[trigger] call_ensures(
                FlatCombining::<T, K>::combine::<F>,
                (combining, f, trace),
                (),
            )
            &&& run(trace@) is Some
            &&& outside(run(trace@)->0.lock)
        } implies holds(word, trace@) == 0 && holds(word, final(trace)@) == 0 by {
        law_locks_are_given_back(word, trace@);
        law_locks_are_given_back(word, final(trace)@);
    }
}

/// One more event is one more step of memory.
proof fn lemma_after(held: u32, word: MutexWord, events: Seq<Event>, event: Event)
    ensures
        word_after(held, word, events.push(event)) == match word_after(held, word, events) {
            Some(value) => match event {
                Event::Word { word: at, event: e } => if at == word {
                    word_effect(value, e)
                } else {
                    Some(value)
                },
                _ => Some(value),
            },
            None => None,
        },
{
    assert(events.push(event).drop_last() =~= events);
}

/// A try to take a lock takes it if it is free, and else leaves the word as it was.
pub proof fn law_refused_try_changes_nothing<T, K>(mutex: &Mutex<T, K>, held: u32)
    ensures
        forall|trace: &mut Trace<K>, guard: Option<MutexGuard<'_, T, K>>|
            #![trigger call_ensures(Mutex::<T, K>::try_lock, (mutex, trace), guard)]
            {
                let after = word_after(held, mutex.word(), meanwhile(trace@, final(trace)@));
                &&& call_ensures(Mutex::<T, K>::try_lock, (mutex, trace), guard)
                &&& after is Some
            } ==> {
                let after = word_after(held, mutex.word(), meanwhile(trace@, final(trace)@));
                &&& guard is Some <==> held == UNLOCKED
                &&& guard is Some ==> after == Some(LOCKED)
                &&& guard is None ==> after == Some(held)
            },
{
    assert forall|trace: &mut Trace<K>, guard: Option<MutexGuard<'_, T, K>>|
        #![trigger call_ensures(Mutex::<T, K>::try_lock, (mutex, trace), guard)]
        {
            let after = word_after(held, mutex.word(), meanwhile(trace@, final(trace)@));
            &&& call_ensures(Mutex::<T, K>::try_lock, (mutex, trace), guard)
            &&& after is Some
        } implies {
        let after = word_after(held, mutex.word(), meanwhile(trace@, final(trace)@));
        &&& guard is Some <==> held == UNLOCKED
        &&& guard is Some ==> after == Some(LOCKED)
        &&& guard is None ==> after == Some(held)
    } by {
        lemma_try(mutex.word(), held);
        assert forall|reply: Result<u32, u32>|
            final(trace)@ == trace@ + #[trigger] tried_once(mutex.word(), reply) implies meanwhile(
            trace@,
            final(trace)@,
        ) == tried_once(mutex.word(), reply) by {
            assert(meanwhile(trace@, final(trace)@) =~= tried_once(mutex.word(), reply));
        }
    }
}

/// What a single try does to the word.
proof fn lemma_try(word: MutexWord, held: u32)
    ensures
        forall|reply: Result<u32, u32>|
            word_after(held, word, #[trigger] tried_once(word, reply)) is Some ==> {
                &&& reply is Ok <==> held == UNLOCKED
                &&& word_after(held, word, tried_once(word, reply)) == Some(
                    if reply is Ok {
                        LOCKED
                    } else {
                        held
                    },
                )
            },
{
    assert forall|reply: Result<u32, u32>|
        word_after(held, word, #[trigger] tried_once(word, reply)) is Some implies {
        &&& reply is Ok <==> held == UNLOCKED
        &&& word_after(held, word, tried_once(word, reply)) == Some(
            if reply is Ok {
                LOCKED
            } else {
                held
            },
        )
    } by {
        let none = Seq::<Event>::empty();
        let begun = none.push(word.event(WordEvent::Begin { call: Call::TryLock }));
        let tried = begun.push(exchanged(word, reply));
        lemma_after(held, word, none, word.event(WordEvent::Begin { call: Call::TryLock }));
        lemma_after(held, word, begun, exchanged(word, reply));
        lemma_after(held, word, tried, word.event(WordEvent::Enter));
        assert(tried_once(word, reply) =~= if reply is Ok {
            tried.push(word.event(WordEvent::Enter))
        } else {
            tried
        });
    }
}

/// While a thread sleeps, or is about to, the word is marked; nobody but the thread
/// that has the lock can take that mark away, whether it tries, waits or gives up.
pub proof fn law_mark_outlives_tries(phase: Phase, event: WordEvent, after: u32)
    requires
        word_step(phase, event) is Some,
        !has_lock(phase),
        word_effect(CONTENDED, event) == Some(after),
    ensures
        after == CONTENDED,
{
}

/// The release of a lock leaves it free, and wakes a sleeper if it was marked; the
/// end of a visit without the lock leaves the word as it was.
pub proof fn law_release_minds_the_mark<T, K>(guard: MutexGuard<'_, T, K>, held: u32)
    ensures
        forall|trace: &mut Trace<K>|
            #![trigger call_ensures(MutexGuard::<'_, T, K>::unlock, (guard, trace), ())]
            call_ensures(MutexGuard::<'_, T, K>::unlock, (guard, trace), ()) ==> {
                let word = guard.source().word();
                let done = meanwhile(trace@, final(trace)@);
                word_after(held, word, done) is Some ==> {
                    &&& word_after(held, word, done) == Some(
                        if guard.is_owner() {
                            UNLOCKED
                        } else {
                            held
                        },
                    )
                    &&& guard.is_owner() && held == CONTENDED ==> done.len() > 0 && done.last()
                        == word.event(WordEvent::Wake { count: 1 })
                }
            },
        forall|trace: &mut Trace<K>, bitset: u32|
            #![trigger call_ensures(
                MutexGuard::<'_, T, K>::unlock_with_bitset_wake,
                (guard, bitset, trace),
                (),
            )]
            call_ensures(
                MutexGuard::<'_, T, K>::unlock_with_bitset_wake,
                (guard, bitset, trace),
                (),
            ) ==> {
                let word = guard.source().word();
                let done = meanwhile(trace@, final(trace)@);
                word_after(held, word, done) is Some ==> {
                    &&& word_after(held, word, done) == Some(
                        if guard.is_owner() {
                            UNLOCKED
                        } else {
                            held
                        },
                    )
                    &&& guard.is_owner() && held == CONTENDED ==> done.len() > 0 && done.last()
                        == word.event(WordEvent::Wake { count: 1 })
                    &&& bitset != 0 ==> done.contains(
                        word.event(WordEvent::WakeBitset { count: u32::MAX, mask: bitset }),
                    )
                }
            },
{
    let word = guard.source().word();
    let owner = guard.is_owner();
    assert forall|trace: &mut Trace<K>|
        #![trigger call_ensures(MutexGuard::<'_, T, K>::unlock, (guard, trace), ())]
        call_ensures(MutexGuard::<'_, T, K>::unlock, (guard, trace), ()) implies {
        let done = meanwhile(trace@, final(trace)@);
        word_after(held, word, done) is Some ==> {
            &&& word_after(held, word, done) == Some(
                if owner {
                    UNLOCKED
                } else {
                    held
                },
            )
            &&& owner && held == CONTENDED ==> done.len() > 0 && done.last() == word.event(
                WordEvent::Wake { count: 1 },
            )
        }
    } by {
        assert forall|previous: u32|
            final(trace)@ == trace@ + #[trigger] release(word, 0, owner, previous) implies meanwhile(
            trace@,
            final(trace)@,
        ) == release(word, 0, owner, previous) by {
            assert(meanwhile(trace@, final(trace)@) =~= release(word, 0, owner, previous));
        }
        assert forall|previous: u32| word_after(
            held,
            word,
            #[trigger] release(word, 0, owner, previous),
        ) is Some implies released_well(word, 0, owner, previous, held) by {
            lemma_release(word, 0, owner, previous, held);
        }
    }
    assert forall|trace: &mut Trace<K>, bitset: u32|
        #![trigger call_ensures(
                MutexGuard::<'_, T, K>::unlock_with_bitset_wake,
                (guard, bitset, trace),
                (),
            )]
        call_ensures(
            MutexGuard::<'_, T, K>::unlock_with_bitset_wake,
            (guard, bitset, trace),
            (),
        ) implies {
        let done = meanwhile(trace@, final(trace)@);
        word_after(held, word, done) is Some ==> {
            &&& word_after(held, word, done) == Some(
                if owner {
                    UNLOCKED
                } else {
                    held
                },
            )
            &&& owner && held == CONTENDED ==> done.len() > 0 && done.last() == word.event(
                WordEvent::Wake { count: 1 },
            )
            &&& bitset != 0 ==> done.contains(
                word.event(WordEvent::WakeBitset { count: u32::MAX, mask: bitset }),
            )
        }
    } by {
        assert forall|previous: u32|
            final(trace)@ == trace@ + #[trigger] release(
                word,
                bitset,
                owner,
                previous,
            ) implies meanwhile(trace@, final(trace)@) == release(word, bitset, owner, previous) by {
            assert(meanwhile(trace@, final(trace)@) =~= release(word, bitset, owner, previous));
        }
        assert forall|previous: u32| word_after(
            held,
            word,
            #[trigger] release(word, bitset, owner, previous),
        ) is Some implies released_well(word, bitset, owner, previous, held) by {
            lemma_release(word, bitset, owner, previous, held);
        }
    }
}

/// Whether a release does what it should to a word that holds `held`.
spec fn released_well(word: MutexWord, mask: u32, owner: bool, previous: u32, held: u32) -> bool {
    let done = release(word, mask, owner, previous);
    &&& word_after(held, word, done) == Some(
        if owner {
            UNLOCKED
        } else {
            held
        },
    )
    &&& owner && held == CONTENDED ==> done.len() > 0 && done.last() == word.event(
        WordEvent::Wake { count: 1 },
    )
    &&& mask != 0 ==> done.contains(word.event(WordEvent::WakeBitset { count: u32::MAX, mask }))
}

/// What a release does to a word.
proof fn lemma_release(word: MutexWord, mask: u32, owner: bool, previous: u32, held: u32)
    requires
        word_after(held, word, release(word, mask, owner, previous)) is Some,
    ensures
        released_well(word, mask, owner, previous, held),
{
    let begin = word.event(WordEvent::Begin { call: Call::Unlock { mask } });
    let leave = word.event(WordEvent::Leave);
    let swap = word.event(WordEvent::Swap { new: UNLOCKED, previous });
    let wake_set = word.event(WordEvent::WakeBitset { count: u32::MAX, mask });
    let wake = word.event(WordEvent::Wake { count: 1 });
    let none = Seq::<Event>::empty();
    let left = none.push(begin).push(leave);
    let swapped = if owner {
        left.push(swap)
    } else {
        left
    };
    let woken = if mask != 0 {
        swapped.push(wake_set)
    } else {
        swapped
    };
    let done = release(word, mask, owner, previous);
    assert(left =~= seq![begin, leave]);
    lemma_after(held, word, none, begin);
    lemma_after(held, word, none.push(begin), leave);
    lemma_after(held, word, left, swap);
    lemma_after(held, word, swapped, wake_set);
    lemma_after(held, word, woken, wake);
    if mask != 0 {
        assert(done[swapped.len() as int] == wake_set);
    }
}

/// To ask a waiter is to read its word, which stays as it was: the answer says
/// whether it has been notified, and so does the next one.
pub proof fn law_asking_changes_nothing<K>(waiter: &Waiter<K>, held: u32)
    ensures
        forall|trace: &mut Trace<K>, ready: bool|
            #![trigger call_ensures(Waiter::<K>::is_ready, (waiter, trace), ready)]
            {
                &&& call_ensures(Waiter::<K>::is_ready, (waiter, trace), ready)
                &&& waiter_after(held, waiter.word(), meanwhile(trace@, final(trace)@)) is Some
            } ==> {
                &&& ready <==> held == READY
                &&& waiter_after(held, waiter.word(), meanwhile(trace@, final(trace)@)) == Some(
                    held,
                )
                &&& meanwhile(trace@, final(trace)@).len() == 1
            },
{
    assert forall|trace: &mut Trace<K>, ready: bool|
        #![trigger call_ensures(Waiter::<K>::is_ready, (waiter, trace), ready)]
        {
            &&& call_ensures(Waiter::<K>::is_ready, (waiter, trace), ready)
            &&& waiter_after(held, waiter.word(), meanwhile(trace@, final(trace)@)) is Some
        } implies {
        &&& ready <==> held == READY
        &&& waiter_after(held, waiter.word(), meanwhile(trace@, final(trace)@)) == Some(held)
        &&& meanwhile(trace@, final(trace)@).len() == 1
    } by {
        let done = meanwhile(trace@, final(trace)@);
        assert forall|value: u32|
            final(trace)@ == trace@.push(#[trigger] asked(waiter.word(), value)) implies done
            == seq![asked(waiter.word(), value)] by {
            assert(done =~= seq![asked(waiter.word(), value)]);
        }
        assert(done.len() == 1);
        assert(done.drop_last() =~= Seq::<Event>::empty());
        assert(waiter_after(held, waiter.word(), done.drop_last()) == Some(held));
    }
}

/// A waiter that is notified is ready then, whatever it was.
pub proof fn law_notified_is_ready<K>(waiter: &Waiter<K>, held: u32)
    ensures
        forall|trace: &mut Trace<K>|
            #![trigger call_ensures(Waiter::<K>::notify, (waiter, trace), ())]
            {
                &&& call_ensures(Waiter::<K>::notify, (waiter, trace), ())
                &&& waiter_after(held, waiter.word(), meanwhile(trace@, final(trace)@)) is Some
            } ==> {
                &&& waiter_after(held, waiter.word(), meanwhile(trace@, final(trace)@)) == Some(
                    READY,
                )
                &&& meanwhile(trace@, final(trace)@).last() == waiter.word().event(
                    WaiterEvent::Wake { count: 1 },
                )
            },
{
    assert forall|trace: &mut Trace<K>|
        #![trigger call_ensures(Waiter::<K>::notify, (waiter, trace), ())]
        {
            &&& call_ensures(Waiter::<K>::notify, (waiter, trace), ())
            &&& waiter_after(held, waiter.word(), meanwhile(trace@, final(trace)@)) is Some
        } implies {
        &&& waiter_after(held, waiter.word(), meanwhile(trace@, final(trace)@)) == Some(READY)
        &&& meanwhile(trace@, final(trace)@).last() == waiter.word().event(
            WaiterEvent::Wake { count: 1 },
        )
    } by {
        let done = meanwhile(trace@, final(trace)@);
        assert forall|previous: u32|
            final(trace)@ == trace@ + #[trigger] notified(waiter.word(), previous) implies done
            == notified(waiter.word(), previous) by {
            assert(done =~= notified(waiter.word(), previous));
        }
        assert(done.len() == 2);
        assert(done.drop_last().drop_last() =~= Seq::<Event>::empty());
        assert(waiter_after(held, waiter.word(), done.drop_last().drop_last()) == Some(held));
        assert(done.drop_last().last() == done[0]);
        assert(done[0] matches Event::Waiter { waiter: at, event } && at == waiter.word() && (
        event matches WaiterEvent::Swap { new, .. } && new == READY));
        assert(done.last() == done[1]);
        assert(waiter_after(held, waiter.word(), done.drop_last()) == Some(READY));
    }
}

/// Once a waiter has been notified, it is ready for good: whatever threads do to it
/// after that, in whatever order, whoever asks it is told so.
pub proof fn law_notified_stays_ready(waiter: WaiterWord, events: Seq<Event>, i: int, value: u32)
    requires
        waiter_after(READY, waiter, events) is Some,
        // Threads do nothing to a waiter but what the protocol allows.
        forall|j: int|
            0 <= j < events.len() ==> (#[trigger] events[j] matches Event::Waiter { event: e, .. }
                ==> exists|phase: Phase| #[trigger] waiter_step(phase, e) is Some),
        0 <= i < events.len(),
        events[i] == asked(waiter, value),
    ensures
        value == READY,
        waiter_after(READY, waiter, events) == Some(READY),
{
    lemma_stays_ready(waiter, events.take(i));
    lemma_stays_ready(waiter, events);
    lemma_prefix(waiter, events, i + 1);
    assert(events.take(i + 1).drop_last() =~= events.take(i));
    assert(events.take(i + 1).last() == events[i]);
    lemma_prefix(waiter, events, i);
    assert forall|j: int| 0 <= j < events.take(i).len() implies (#[trigger] events.take(
        i,
    )[j] matches Event::Waiter { event: e, .. } ==> exists|phase: Phase| #[trigger]
        waiter_step(phase, e) is Some) by {
        assert(events.take(i)[j] == events[j]);
    }
}

/// A waiter that has been notified stays ready.
proof fn lemma_stays_ready(waiter: WaiterWord, events: Seq<Event>)
    ensures
        waiter_after(READY, waiter, events) is Some && (forall|j: int|
            0 <= j < events.len() ==> (#[trigger] events[j] matches Event::Waiter { event: e, .. }
                ==> exists|phase: Phase| #[trigger] waiter_step(phase, e) is Some))
            ==> waiter_after(READY, waiter, events) == Some(READY),
    decreases events.len(),
{
    if events.len() > 0 {
        let earlier = events.drop_last();
        lemma_stays_ready(waiter, earlier);
        if forall|j: int|
            0 <= j < events.len() ==> (#[trigger] events[j] matches Event::Waiter { event: e, .. }
                ==> exists|phase: Phase| #[trigger] waiter_step(phase, e) is Some) {
            assert forall|j: int| 0 <= j < earlier.len() implies (
            #[trigger] earlier[j] matches Event::Waiter { event: e, .. } ==> exists|phase: Phase|
                #[trigger] waiter_step(phase, e) is Some) by {
                assert(earlier[j] == events[j]);
            }
            assert(events[events.len() - 1] == events.last());
        }
    }
}

/// What can be done to a word can be done to it in part.
proof fn lemma_prefix(waiter: WaiterWord, events: Seq<Event>, n: int)
    requires
        waiter_after(READY, waiter, events) is Some,
        0 <= n <= events.len(),
    ensures
        waiter_after(READY, waiter, events.take(n)) is Some,
    decreases events.len(),
{
    if n == events.len() {
        assert(events.take(n) =~= events);
    } else {
        lemma_prefix(waiter, events.drop_last(), n);
        assert(events.drop_last().take(n) =~= events.take(n));
    }
}

/// A thread that waits for a mutex or a waiter leaves the word of the waiter as it
/// was, and is told that the waiter is ready only if it found it so.
pub proof fn law_waiting_notifies_nobody<T, K>(
    mutex: &Mutex<T, K>,
    waiter: &Waiter<K>,
    held: u32,
)
    ensures
        forall|trace: &mut Trace<K>, result: WaitResult<'_, T, K>|
            #![trigger call_ensures(wait_mutex_or_waiter::<T, K>, (mutex, waiter, trace), result)]
            {
                &&& call_ensures(wait_mutex_or_waiter::<T, K>, (mutex, waiter, trace), result)
                &&& waiter_after(held, waiter.word(), meanwhile(trace@, final(trace)@)) is Some
            } ==> {
                &&& waiter_after(held, waiter.word(), meanwhile(trace@, final(trace)@)) == Some(
                    held,
                )
                &&& result is WaiterReady <==> held == READY
            },
{
    assert forall|trace: &mut Trace<K>, result: WaitResult<'_, T, K>|
        #![trigger call_ensures(wait_mutex_or_waiter::<T, K>, (mutex, waiter, trace), result)]
        {
            &&& call_ensures(wait_mutex_or_waiter::<T, K>, (mutex, waiter, trace), result)
            &&& waiter_after(held, waiter.word(), meanwhile(trace@, final(trace)@)) is Some
        } implies {
        &&& waiter_after(held, waiter.word(), meanwhile(trace@, final(trace)@)) == Some(held)
        &&& result is WaiterReady <==> held == READY
    } by {
        let done = meanwhile(trace@, final(trace)@);
        assert forall|i: int| 0 <= i < done.len() implies is_waiting(
            mutex.word(),
            waiter.word(),
            #[trigger] done[i],
        ) by {
            assert(done[i] == final(trace)@[trace@.len() + i]);
        }
        lemma_only_reads(mutex.word(), waiter.word(), held, done);
        assert(done[1] == final(trace)@[trace@.len() as int + 1]);
        if result is WaiterReady {
            assert(done.last() == final(trace)@.last());
            assert(done[done.len() - 1] == asked(waiter.word(), READY));
        }
    }
}

/// Reads of a word leave it as it was, and give what it holds.
proof fn lemma_only_reads(mutex: MutexWord, waiter: WaiterWord, held: u32, events: Seq<Event>)
    requires
        waiter_after(held, waiter, events) is Some,
        forall|i: int| 0 <= i < events.len() ==> is_waiting(mutex, waiter, #[trigger] events[i]),
    ensures
        waiter_after(held, waiter, events) == Some(held),
        forall|i: int, value: u32|
            0 <= i < events.len() && #[trigger] events[i] == #[trigger] asked(waiter, value)
                ==> value == held,
    decreases events.len(),
{
    if events.len() > 0 {
        let earlier = events.drop_last();
        assert forall|i: int| 0 <= i < earlier.len() implies is_waiting(
            mutex,
            waiter,
            #[trigger] earlier[i],
        ) by {
            assert(earlier[i] == events[i]);
        }
        lemma_only_reads(mutex, waiter, held, earlier);
        assert(is_waiting(mutex, waiter, events[events.len() - 1]));
        assert forall|i: int, value: u32|
            0 <= i < events.len() && #[trigger] events[i] == #[trigger] asked(
                waiter,
                value,
            ) implies value == held by {
            if i < earlier.len() {
                assert(earlier[i] == events[i]);
            }
        }
    }
}

/// Whether what is at these places of a history was done by one thread, and the
/// last thing that it did is there.
pub open spec fn is_part(history: Seq<Event>, own: Set<int>, done: Seq<Event>) -> bool {
    &&& forall|i: int|
        own.contains(i) ==> 0 <= i < history.len() && done.contains(#[trigger] history[i])
    &&& exists|i: int|
        own.contains(i) && 0 <= i < history.len() && #[trigger] history[i] == done.last()
}

/// A thread that is told that a waiter is ready was notified by another one: of
/// all that was done to a waiter since it was made, there is a notification, and it
/// is none of what the thread did while it waited.
pub proof fn law_ready_result_has_a_notifier<T, K>(
    mutex: &Mutex<T, K>,
    waiter: &Waiter<K>,
    history: Seq<Event>,
    own: Set<int>,
)
    requires
        waiter_after(UNREADY, waiter.word(), history) is Some,
    ensures
        forall|trace: &mut Trace<K>, result: WaitResult<'_, T, K>|
            #![trigger call_ensures(wait_mutex_or_waiter::<T, K>, (mutex, waiter, trace), result)]
            {
                &&& call_ensures(wait_mutex_or_waiter::<T, K>, (mutex, waiter, trace), result)
                &&& result is WaiterReady
                &&& is_part(history, own, meanwhile(trace@, final(trace)@))
            } ==> exists|i: int|
                0 <= i < history.len() && !own.contains(i) && is_write(
                    waiter.word(),
                    #[trigger] history[i],
                ),
{
    assert forall|trace: &mut Trace<K>, result: WaitResult<'_, T, K>|
        #![trigger call_ensures(wait_mutex_or_waiter::<T, K>, (mutex, waiter, trace), result)]
        {
            &&& call_ensures(wait_mutex_or_waiter::<T, K>, (mutex, waiter, trace), result)
            &&& result is WaiterReady
            &&& is_part(history, own, meanwhile(trace@, final(trace)@))
        } implies exists|i: int|
        0 <= i < history.len() && !own.contains(i) && is_write(
            waiter.word(),
            #[trigger] history[i],
        ) by {
        let done = meanwhile(trace@, final(trace)@);
        assert forall|i: int| 0 <= i < done.len() implies is_waiting(
            mutex.word(),
            waiter.word(),
            #[trigger] done[i],
        ) by {
            assert(done[i] == final(trace)@[trace@.len() + i]);
        }
        assert(done.last() == asked(waiter.word(), READY));
        let last = choose|i: int|
            own.contains(i) && 0 <= i < history.len() && #[trigger] history[i] == done.last();
        assert(done.contains(history[last]));
        lemma_write_before_ready(waiter.word(), history, last);
        let i = choose|i: int|
            0 <= i < history.len() && is_write(waiter.word(), #[trigger] history[i]);
        if own.contains(i) {
            let j = choose|j: int| 0 <= j < done.len() && done[j] == history[i];
            assert(is_waiting(mutex.word(), waiter.word(), done[j]));
        }
    }
}

/// Whether an event writes the word of a waiter.
pub open spec fn is_write(waiter: WaiterWord, event: Event) -> bool {
    event matches Event::Waiter { waiter: at, event: e } && at == waiter && e is Swap
}

/// A waiter that was made unready and is seen to be ready was written.
proof fn lemma_write_before_ready(waiter: WaiterWord, history: Seq<Event>, seen: int)
    requires
        waiter_after(UNREADY, waiter, history) is Some,
        0 <= seen < history.len(),
        history[seen] == asked(waiter, READY),
    ensures
        exists|i: int| 0 <= i < history.len() && is_write(waiter, #[trigger] history[i]),
    decreases history.len(),
{
    let earlier = history.drop_last();
    if seen < earlier.len() {
        assert(earlier[seen] == history[seen]);
        lemma_write_before_ready(waiter, earlier, seen);
        let i = choose|i: int| 0 <= i < earlier.len() && is_write(waiter, #[trigger] earlier[i]);
        assert(history[i] == earlier[i]);
    } else if forall|i: int|
        0 <= i < earlier.len() ==> !is_write(waiter, #[trigger] earlier[i]) {
        lemma_unwritten(waiter, earlier);
    } else {
        let i = choose|i: int| 0 <= i < earlier.len() && is_write(waiter, #[trigger] earlier[i]);
        assert(history[i] == earlier[i]);
    }
}

/// A word that nobody writes stays as it was.
proof fn lemma_unwritten(waiter: WaiterWord, events: Seq<Event>)
    requires
        waiter_after(UNREADY, waiter, events) is Some,
        forall|i: int| 0 <= i < events.len() ==> !is_write(waiter, #[trigger] events[i]),
    ensures
        waiter_after(UNREADY, waiter, events) == Some(UNREADY),
    decreases events.len(),
{
    if events.len() > 0 {
        let earlier = events.drop_last();
        assert forall|i: int| 0 <= i < earlier.len() implies !is_write(
            waiter,
            #[trigger] earlier[i],
        ) by {
            assert(earlier[i] == events[i]);
        }
        lemma_unwritten(waiter, earlier);
        assert(!is_write(waiter, events[events.len() - 1]));
    }
}

/// The masks of a pool after some events; `None` if a reply is not one that memory
/// gives.
pub open spec fn masks_after(held: Seq<u8>, masks: Masks, events: Seq<Event>) -> Option<Seq<u8>>
    decreases events.len(),
{
    if events.len() == 0 {
        Some(held)
    } else {
        match masks_after(held, masks, events.drop_last()) {
            Some(value) => match events.last() {
                Event::Pool { masks: at, event } => if at == masks {
                    masks_effect(value, event)
                } else {
                    Some(value)
                },
                _ => Some(value),
            },
            None => None,
        }
    }
}

/// Whether masks have a slot available.
pub open spec fn is_available(masks: Seq<u8>, index: u8) -> bool {
    masks[index as int / GROUP_SIZE as int] & bit_of((index % 8) as u8) != 0
}

/// The slots that masks have available.
pub open spec fn available(masks: Seq<u8>) -> Set<int> {
    Set::new(|index: int| 0 <= index < CAPACITY && is_available(masks, index as u8))
}

/// Whether masks have the same slots available as others, and one more.
pub open spec fn has_one_more(less: Seq<u8>, more: Seq<u8>, index: u8) -> bool {
    &&& !is_available(less, index)
    &&& is_available(more, index)
    &&& forall|other: u8|
        other < CAPACITY && other != index ==> #[trigger] is_available(more, other)
            == is_available(less, other)
    &&& available(more).len() == available(less).len() + 1
}

/// One slot more is one slot more.
proof fn lemma_one_more(less: Seq<u8>, more: Seq<u8>, index: u8)
    requires
        index < CAPACITY,
        !is_available(less, index),
        forall|other: u8|
            other < CAPACITY ==> #[trigger] is_available(more, other) == (is_available(less, other)
                || other == index),
    ensures
        has_one_more(less, more, index),
{
    lemma_int_range(0, CAPACITY as int);
    lemma_len_subset(available(less), set_int_range(0, CAPACITY as int));
    assert(available(more) =~= available(less).insert(index as int)) by {
        assert forall|i: int| available(more).contains(i) <==> #[trigger] available(less).insert(
            index as int,
        ).contains(i) by {
            if 0 <= i < CAPACITY {
                assert(is_available(more, i as u8) == (is_available(less, i as u8) || i as u8
                    == index));
            }
        }
    }
}

/// Masks that have every slot available are full, and there are no others.
pub proof fn law_full_masks_have_all_slots(masks: Seq<u8>)
    requires
        masks.len() == GROUPS,
    ensures
        available(masks).len() == CAPACITY <==> forall|group: int|
            0 <= group < GROUPS ==> #[trigger] masks[group] == u8::MAX,
{
    let all = set_int_range(0, CAPACITY as int);
    lemma_int_range(0, CAPACITY as int);
    lemma_len_subset(available(masks), all);
    if available(masks).len() == CAPACITY {
        lemma_subset_equality(available(masks), all);
        assert forall|group: int| 0 <= group < GROUPS implies #[trigger] masks[group] == u8::MAX by {
            let mask = masks[group];
            assert forall|slot: u8| slot < 8 implies mask & #[trigger] bit_of(slot) != 0 by {
                let index = (group * 8 + slot) as int;
                assert(all.contains(index));
                assert(available(masks).contains(index));
                assert(index / 8 == group && index % 8 == slot);
            }
            assert(mask & bit_of(0) != 0 && mask & bit_of(1) != 0 && mask & bit_of(2) != 0 && mask
                & bit_of(3) != 0 && mask & bit_of(4) != 0 && mask & bit_of(5) != 0 && mask & bit_of(
                6,
            ) != 0 && mask & bit_of(7) != 0);
            assert(mask == 0xff) by (bit_vector)
                requires
                    mask & (1u8 << 0u8) != 0,
                    mask & (1u8 << 1u8) != 0,
                    mask & (1u8 << 2u8) != 0,
                    mask & (1u8 << 3u8) != 0,
                    mask & (1u8 << 4u8) != 0,
                    mask & (1u8 << 5u8) != 0,
                    mask & (1u8 << 6u8) != 0,
                    mask & (1u8 << 7u8) != 0,
            ;
        }
    }
    if forall|group: int| 0 <= group < GROUPS ==> #[trigger] masks[group] == u8::MAX {
        assert(available(masks) =~= all) by {
            assert forall|i: int| available(masks).contains(i) <==> #[trigger] all.contains(i) by {
                if 0 <= i < CAPACITY {
                    let slot = (i as u8 % 8) as u8;
                    assert(masks[i / 8] == 0xff);
                    assert(0xffu8 & (1u8 << slot) != 0) by (bit_vector)
                        requires
                            slot < 8,
                    ;
                }
            }
        }
    }
}

/// The return of a slot makes it available, tells whether it was not, and leaves
/// all other slots as they were: there is one more slot available, if it was taken.
pub proof fn law_free_returns_one_slot<T: Default, K>(
    pool: &RecordPool<T, K>,
    index: u8,
    held: Seq<u8>,
)
    requires
        held.len() == GROUPS,
        index < CAPACITY,
    ensures
        forall|trace: &mut Trace<K>, was_taken: bool|
            #![trigger call_ensures(RecordPool::<T, K>::free, (pool, index, trace), was_taken)]
            {
                &&& call_ensures(RecordPool::<T, K>::free, (pool, index, trace), was_taken)
                &&& masks_after(held, pool.masks(), meanwhile(trace@, final(trace)@)) is Some
            } ==> {
                let after = masks_after(held, pool.masks(), meanwhile(trace@, final(trace)@))->0;
                &&& was_taken <==> !is_available(held, index)
                &&& if was_taken {
                    has_one_more(held, after, index)
                } else {
                    after == held
                }
            },
{
    assert forall|trace: &mut Trace<K>, was_taken: bool|
        #![trigger call_ensures(RecordPool::<T, K>::free, (pool, index, trace), was_taken)]
        {
            &&& call_ensures(RecordPool::<T, K>::free, (pool, index, trace), was_taken)
            &&& masks_after(held, pool.masks(), meanwhile(trace@, final(trace)@)) is Some
        } implies {
        let after = masks_after(held, pool.masks(), meanwhile(trace@, final(trace)@))->0;
        &&& was_taken <==> !is_available(held, index)
        &&& if was_taken {
            has_one_more(held, after, index)
        } else {
            after == held
        }
    } by {
        let done = meanwhile(trace@, final(trace)@);
        let masks = pool.masks();
        assert forall|previous: u8|
            final(trace)@ == trace@.push(masks.event(PoolEvent::Clear { index })).push(
                #[trigger] returned(masks, index, previous),
            ) implies done == seq![
            masks.event(PoolEvent::Clear { index }),
            returned(masks, index, previous),
        ] by {
            assert(done =~= seq![
                masks.event(PoolEvent::Clear { index }),
                returned(masks, index, previous),
            ]);
        }
        assert forall|previous: u8|
            done == seq![
                masks.event(PoolEvent::Clear { index }),
                #[trigger] returned(masks, index, previous),
            ] implies held[index as int / 8] == previous && masks_after(held, masks, done) == Some(
            held.update(index as int / 8, previous | bit_of((index % 8) as u8)),
        ) by {
            assert(done.drop_last().drop_last() =~= Seq::<Event>::empty());
            assert(done.drop_last().last() == done[0]);
            assert(masks_after(held, masks, done.drop_last().drop_last()) == Some(held));
            assert(masks_after(held, masks, done.drop_last()) == Some(held));
            assert(done.last() == returned(masks, index, previous));
        }
        let own = (index % 8) as u8;
        let previous = held[index as int / 8];
        let after = held.update(index as int / 8, previous | bit_of(own));
        assert(masks_after(held, masks, done) == Some(after));
        assert(was_taken <==> previous & bit_of(own) == 0);
        assert forall|other: u8| other < CAPACITY implies #[trigger] is_available(after, other) == (
        is_available(held, other) || other == index) by {
            if other / 8 == index / 8 {
                lemma_bits(previous, own, (other % 8) as u8);
            }
        }
        if was_taken {
            lemma_one_more(held, after, index);
        } else {
            assert(previous | (1u8 << own) == previous) by (bit_vector)
                requires
                    own < 8,
                    previous & (1u8 << own) != 0,
            ;
            assert(after =~= held);
        }
    }
}

/// What a search for a slot has done so far to masks that nobody else uses.
spec fn searched(
    before: Thread,
    thread: Thread,
    masks: Masks,
    held: Seq<u8>,
    after: Seq<u8>,
) -> bool {
    let deeds = before.deeds.len();
    &&& thread.deeds.len() >= deeds
    &&& thread.deeds.len() == deeds ==> thread.slot == before.slot && after == held
    &&& thread.deeds.len() == deeds + 1 && (thread.deeds.last() matches Deed::Allocate {
        masks: at,
        ..
    } && at == masks) ==> {
        &&& thread.at.masks == Some(masks)
        &&& match thread.slot {
            SlotPhase::Looking { first, skipped, .. } => after == held && skipped < GROUPS
                && finds_none(held, first, skipped),
            SlotPhase::Choosing { first, skipped, mask, .. } => after == held && skipped < GROUPS
                && finds_none(held, first, skipped) && mask != 0
                && held[group_at(first, skipped) as int] == mask,
            SlotPhase::Full => after == held && exists|first: usize| #[trigger]
                finds_none(held, first, GROUPS as nat),
            SlotPhase::GaveUp => after == held,
            SlotPhase::Claimed { index } => is_claimed(held, after, index),
            SlotPhase::Owns { index } => is_claimed(held, after, index),
            SlotPhase::Cleared { index } => is_claimed(held, after, index),
            SlotPhase::Free => false,
        }
    }
}

/// Whether the masks of so many groups, from that one on, have no slot available.
spec fn finds_none(held: Seq<u8>, first: usize, skipped: nat) -> bool {
    &&& first < GROUPS
    &&& forall|j: nat| j < skipped ==> held[#[trigger] group_at(first, j) as int] == 0
}

/// Whether a slot that was available was claimed, and nothing else.
spec fn is_claimed(held: Seq<u8>, after: Seq<u8>, index: u8) -> bool {
    &&& index < CAPACITY
    &&& is_available(held, index)
    &&& after == held.update(
        index as int / 8,
        held[index as int / 8] & !bit_of((index % 8) as u8),
    )
}

/// One more step of a search.
#[verifier::spinoff_prover]
#[verifier::rlimit(40)]
proof fn lemma_search_goes_on(
    before: Thread,
    thread: Thread,
    event: Event,
    masks: Masks,
    held: Seq<u8>,
    value: Seq<u8>,
    after: Seq<u8>,
)
    requires
        held.len() == GROUPS,
        before.slot is Free || before.slot is Full || before.slot is GaveUp,
        searched(before, thread, masks, held, value),
        step(thread, event) is Some,
        Some(after) == match event {
            Event::Pool { masks: at, event: e } => if at == masks {
                masks_effect(value, e)
            } else {
                Some(value)
            },
            _ => Some(value),
        },
    ensures
        searched(before, step(thread, event)->0, masks, held, after),
{
    let next = step(thread, event)->0;
    match event {
        Event::Pool { masks: at, event: e } => match e {
            PoolEvent::Load { group, mask } => {
                if thread.slot is Looking {
                    let first = thread.slot->Looking_first;
                    let skipped = thread.slot->Looking_skipped;
                    assert(group == group_at(first, skipped));
                    if thread.deeds.len() == before.deeds.len() + 1 && at == masks && mask == 0 {
                        if finds_none(held, first, skipped) && held[group as int] == 0 {
                            assert(finds_none(held, first, skipped + 1));
                        }
                    }
                } else {
                    assert(group_at(group, 0) == group);
                    if thread.deeds.len() == before.deeds.len() && at == masks && mask == 0 {
                        assert(finds_none(held, group, 1));
                    }
                }
            },
            PoolEvent::CompareExchange { group, current, new, success } => {
                if success && at == masks && thread.deeds.len() == before.deeds.len() + 1 && (
                thread.deeds.last() matches Deed::Allocate { masks: asked, .. } && asked == masks) {
                    lemma_lowest(current);
                    let slot = lowest(current);
                    let index = index_of(group as nat, slot) as u8;
                    assert(group < GROUPS);
                    assert(index / 8 == group && index % 8 == slot);
                }
            },
            _ => {},
        },
        Event::Queue { .. } => {},
        _ => {},
    }
}

/// What a search for a slot has done to masks that nobody else uses.
proof fn lemma_search(
    before: Seq<Event>,
    after: Seq<Event>,
    n: int,
    masks: Masks,
    held: Seq<u8>,
)
    requires
        held.len() == GROUPS,
        extends(before, after),
        before.len() <= n <= after.len(),
        run(before) matches Some(t) && (t.slot is Free || t.slot is Full || t.slot is GaveUp),
        run(after.take(n)) is Some,
        masks_after(held, masks, meanwhile(before, after.take(n))) is Some,
    ensures
        searched(
            run(before)->0,
            run(after.take(n))->0,
            masks,
            held,
            masks_after(held, masks, meanwhile(before, after.take(n)))->0,
        ),
    decreases n,
{
    let done = meanwhile(before, after.take(n));
    if n == before.len() {
        assert(after.take(n) =~= before);
        assert(done =~= Seq::<Event>::empty());
    } else {
        let earlier = after.take(n - 1);
        let event = after[n - 1];
        assert(after.take(n) =~= earlier.push(event));
        lemma_run_push(earlier, event);
        assert(done.drop_last() =~= meanwhile(before, earlier));
        assert(done.last() == event);
        lemma_search(before, after, n - 1, masks, held);
        lemma_search_goes_on(
            run(before)->0,
            run(earlier)->0,
            event,
            masks,
            held,
            masks_after(held, masks, meanwhile(before, earlier))->0,
            masks_after(held, masks, done)->0,
        );
    }
}

/// A call of `allocate` that gets a slot takes one that was available, and leaves
/// all other slots as they were: there is one less available.  A call that gets none
/// leaves all slots as they were, and if it did not give up, none was available.
pub proof fn law_allocate_takes_one_slot<T: Default, K>(
    pool: &RecordPool<T, K>,
    init: T,
    held: Seq<u8>,
)
    requires
        held.len() == GROUPS,
    ensures
        forall|trace: &mut Trace<K>, result: Option<(Arc<T>, u8)>|
            #![trigger call_ensures(RecordPool::<T, K>::allocate, (pool, init, trace), result)]
            {
                &&& call_ensures(RecordPool::<T, K>::allocate, (pool, init, trace), result)
                &&& run(trace@) matches Some(t) && (t.slot is Free || t.slot is Full
                    || t.slot is GaveUp)
                &&& masks_after(held, pool.masks(), meanwhile(trace@, final(trace)@)) is Some
            } ==> {
                let after = masks_after(held, pool.masks(), meanwhile(trace@, final(trace)@))->0;
                match result {
                    Some((item, index)) => has_one_more(after, held, index),
                    None => after == held && (run(final(trace)@)->0.slot is GaveUp || available(
                        held,
                    ).len() == 0),
                }
            },
{
    assert forall|trace: &mut Trace<K>, result: Option<(Arc<T>, u8)>|
        #![trigger call_ensures(RecordPool::<T, K>::allocate, (pool, init, trace), result)]
        {
            &&& call_ensures(RecordPool::<T, K>::allocate, (pool, init, trace), result)
            &&& run(trace@) matches Some(t) && (t.slot is Free || t.slot is Full
                || t.slot is GaveUp)
            &&& masks_after(held, pool.masks(), meanwhile(trace@, final(trace)@)) is Some
        } implies {
        let after = masks_after(held, pool.masks(), meanwhile(trace@, final(trace)@))->0;
        match result {
            Some((item, index)) => has_one_more(after, held, index),
            None => after == held && (run(final(trace)@)->0.slot is GaveUp || available(held).len()
                == 0),
        }
    } by {
        let masks = pool.masks();
        let n = final(trace)@.len() as int;
        assert(final(trace)@.take(n) =~= final(trace)@);
        lemma_search(trace@, final(trace)@, n, masks, held);
        let after = masks_after(held, masks, meanwhile(trace@, final(trace)@))->0;
        let thread = run(final(trace)@)->0;
        assert(thread.deeds.len() == run(trace@)->0.deeds.len() + 1);
        match result {
            Some((item, index)) => {
                let own = (index % 8) as u8;
                let mask = held[index as int / 8];
                assert(is_claimed(held, after, index));
                assert forall|other: u8| other < CAPACITY implies #[trigger] is_available(
                    after,
                    other,
                ) == (is_available(held, other) && other != index) by {
                    if other / 8 == index / 8 {
                        lemma_bits(mask, own, (other % 8) as u8);
                    }
                }
                lemma_one_more(after, held, index);
            },
            None => {
                if thread.slot is Full {
                    let first = choose|first: usize| #[trigger]
                        finds_none(held, first, GROUPS as nat);
                    lemma_none_available(held, first);
                }
            },
        }
    }
}

/// Masks of which all groups have no slot available have none.
proof fn lemma_none_available(held: Seq<u8>, first: usize)
    requires
        finds_none(held, first, GROUPS as nat),
    ensures
        available(held).len() == 0,
{
    assert forall|i: int| !#[trigger] available(held).contains(i) by {
        if 0 <= i < CAPACITY {
            let group = i / 8;
            let j = ((group - first) % 8) as nat;
            assert(group_at(first, j) == group) by {
                lemma_add_mod_noop_right(first as int, group - first, 8);
            }
            let slot = (i as u8 % 8) as u8;
            assert(0u8 & (1u8 << slot) == 0) by (bit_vector);
        }
    }
    assert(available(held) =~= Set::empty());
}

/// A thread that claims a slot and returns it leaves the pool as it was.
pub proof fn law_free_undoes_allocate(first: Seq<u8>, second: Seq<u8>, third: Seq<u8>, index: u8)
    requires
        first.len() == GROUPS,
        third.len() == GROUPS,
        index < CAPACITY,
        has_one_more(second, first, index),
        has_one_more(second, third, index),
    ensures
        third == first,
{
    assert forall|g: int| 0 <= g < GROUPS implies #[trigger] third[g] == first[g] by {
        let a = first[g];
        let b = third[g];
        assert forall|slot: u8| slot < 8 implies (a & #[trigger] bit_of(slot) != 0) == (b & bit_of(
            slot,
        ) != 0) by {
            let i = (g * 8 + slot) as u8;
            assert(i / 8 == g && i % 8 == slot);
            assert(is_available(first, i) == is_available(third, i));
        }
        assert(forall|slot: u8|
            slot < 8 ==> ((a & #[trigger] bit_of(slot) != 0) == (b & bit_of(slot) != 0)));
        assert((a & bit_of(0) != 0) == (b & bit_of(0) != 0));
        assert((a & bit_of(1) != 0) == (b & bit_of(1) != 0));
        assert((a & bit_of(2) != 0) == (b & bit_of(2) != 0));
        assert((a & bit_of(3) != 0) == (b & bit_of(3) != 0));
        assert((a & bit_of(4) != 0) == (b & bit_of(4) != 0));
        assert((a & bit_of(5) != 0) == (b & bit_of(5) != 0));
        assert((a & bit_of(6) != 0) == (b & bit_of(6) != 0));
        assert((a & bit_of(7) != 0) == (b & bit_of(7) != 0));
        assert(a == b) by (bit_vector)
            requires
                (a & (1u8 << 0u8) != 0) == (b & (1u8 << 0u8) != 0),
                (a & (1u8 << 1u8) != 0) == (b & (1u8 << 1u8) != 0),
                (a & (1u8 << 2u8) != 0) == (b & (1u8 << 2u8) != 0),
                (a & (1u8 << 3u8) != 0) == (b & (1u8 << 3u8) != 0),
                (a & (1u8 << 4u8) != 0) == (b & (1u8 << 4u8) != 0),
                (a & (1u8 << 5u8) != 0) == (b & (1u8 << 5u8) != 0),
                (a & (1u8 << 6u8) != 0) == (b & (1u8 << 6u8) != 0),
                (a & (1u8 << 7u8) != 0) == (b & (1u8 << 7u8) != 0),
        ;
    }
    assert(third =~= first);
}

/// By how much an event changes how many slots of a pool a thread has claimed and
/// not returned.
pub open spec fn claim(masks: Masks, event: Event) -> int {
    match event {
        Event::Pool { masks: at, event: e } => if at != masks {
            0
        } else {
            match e {
                PoolEvent::CompareExchange { success, .. } => if success {
                    1
                } else {
                    0
                },
                PoolEvent::FetchOr { .. } => -1,
                _ => 0,
            }
        },
        _ => 0,
    }
}

/// How many slots of a pool were claimed and not returned.
pub open spec fn claims(masks: Masks, events: Seq<Event>) -> int
    decreases events.len(),
{
    if events.len() == 0 {
        0
    } else {
        claims(masks, events.drop_last()) + claim(masks, events.last())
    }
}

/// Whether a thread has left no record behind.
pub open spec fn leaves_none_behind(events: Seq<Event>) -> bool {
    forall|i: int|
        0 <= i < events.len() ==> !(#[trigger] events[i] matches Event::Queue {
            event: QueueEvent::Abandon { .. },
            ..
        })
}

/// A thread that has left no record behind has claimed one slot more than it has
/// returned while it has a slot, and else as many.
pub proof fn law_slots_are_given_back(masks: Masks, events: Seq<Event>)
    requires
        run(events) is Some,
        leaves_none_behind(events),
    ensures
        ({
            let thread = run(events)->0;
            claims(masks, events) == if slot_of(thread.slot) is Some && thread.at.masks == Some(
                masks,
            ) {
                1int
            } else {
                0
            }
        }),
    decreases events.len(),
{
    if events.len() > 0 {
        let earlier = events.drop_last();
        assert forall|i: int| 0 <= i < earlier.len() implies !(
        #[trigger] earlier[i] matches Event::Queue { event: QueueEvent::Abandon { .. }, .. }) by {
            assert(earlier[i] == events[i]);
        }
        law_slots_are_given_back(masks, earlier);
        assert(events[events.len() - 1] == events.last());
    }
}

/// A call of `combine` that leaves no record behind returns the slot that it
/// claimed, if it did.
pub proof fn law_combine_keeps_no_slot<T, K, F: FnOnce(&mut T) + Send + Sync + 'static>(
    combining: &FlatCombining<T, K>,
    f: F,
    masks: Masks,
)
    ensures
        forall|trace: &mut Trace<K>|
            {
                &&& #[trigger] call_ensures(
                    FlatCombining::<T, K>::combine::<F>,
                    (combining, f, trace),
                    (),
                )
                &&& run(trace@) is Some
                &&& is_free(run(trace@)->0)
                &&& leaves_none_behind(trace@)
                &&& leaves_none_behind(final(trace)@)
            } ==> claims(masks, trace@) == 0 && claims(masks, final(trace)@) == 0,
{
    assert forall|trace: &mut Trace<K>|
        {
            &&& #[trigger] call_ensures(
                FlatCombining::<T, K>::combine::<F>,
                (combining, f, trace),
                (),
            )
            &&& run(trace@) is Some
            &&& is_free(run(trace@)->0)
            &&& leaves_none_behind(trace@)
            &&& leaves_none_behind(final(trace)@)
        } implies claims(masks, trace@) == 0 && claims(masks, final(trace)@) == 0 by {
        law_slots_are_given_back(masks, trace@);
        law_slots_are_given_back(masks, final(trace)@);
    }
}

} // verus!

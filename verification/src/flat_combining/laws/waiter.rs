//! Any number of threads at the word of one waiter.

use vstd::prelude::*;

use crate::flat_combining::laws::lock::effect as word_effect;
use crate::flat_combining::memory::event::{WaiterEvent, WordEvent};
use crate::flat_combining::protocol::{
    waiter_step, word_step, Phase, CONTENDED, LOCKED, READY, ROUNDS, UNLOCKED, UNREADY,
};

verus! {

/// What the word holds after an event; `None` if the reply is not the one that
/// memory gives.
pub open spec fn effect(word: u32, event: WaiterEvent) -> Option<u32> {
    match event {
        WaiterEvent::Load { value } => if value == word {
            Some(word)
        } else {
            None
        },
        WaiterEvent::Swap { new, previous } => if previous == word {
            Some(new)
        } else {
            None
        },
        WaiterEvent::Wake { .. } => Some(word),
    }
}

/// Whether a thread, wherever it is with a mutex, can let an event happen that
/// takes the word of a waiter from one value to another.
pub open spec fn does(phase: Phase, word: u32, event: WaiterEvent, after: u32) -> bool {
    &&& waiter_step(phase, event) is Some
    &&& effect(word, event) == Some(after)
}

/// A waiter that has been notified stays so, whatever anybody does.
pub proof fn law_notified_waiter_stays_ready(
    phase: Phase,
    word: u32,
    event: WaiterEvent,
    after: u32,
)
    requires
        word == READY,
        does(phase, word, event, after),
    ensures
        after == READY,
{
}

/// A waiter becomes ready only because somebody notifies it.
pub proof fn law_ready_waiter_was_notified(
    phase: Phase,
    word: u32,
    event: WaiterEvent,
    after: u32,
)
    requires
        word == UNREADY,
        does(phase, word, event, after),
        after == READY,
    ensures
        event is Swap,
{
}

/// A thread that waits for a mutex or a waiter, and asks the waiter, stops
/// waiting if and only if the waiter has been notified.
pub proof fn law_wait_ends_with_notification(
    phase: Phase,
    word: u32,
    value: u32,
    after: u32,
)
    requires
        phase is AnyAsking || phase is AnyChecking,
        does(phase, word, WaiterEvent::Load { value }, after),
    ensures
        waiter_step(phase, WaiterEvent::Load { value }) == Some(Phase::Ready) <==> word == READY,
{
}

/// What the word holds after some events that threads, each somewhere with a
/// mutex, let happen one after the other; `None` if one of them cannot happen.
pub open spec fn outcome(word: u32, phases: Seq<Phase>, events: Seq<WaiterEvent>) -> Option<u32>
    decreases events.len(),
{
    if events.len() == 0 {
        Some(word)
    } else {
        match outcome(word, phases, events.drop_last()) {
            Some(held) => if waiter_step(phases[events.len() - 1], events.last()) is Some {
                effect(held, events.last())
            } else {
                None
            },
            None => None,
        }
    }
}

/// Whatever any number of threads do, a waiter is ready if and only if somebody
/// has notified it.
pub proof fn law_ready_iff_notified(phases: Seq<Phase>, events: Seq<WaiterEvent>)
    requires
        outcome(UNREADY, phases, events) is Some,
    ensures
        outcome(UNREADY, phases, events) == Some(READY) || outcome(UNREADY, phases, events)
            == Some(UNREADY),
        outcome(UNREADY, phases, events) == Some(READY) <==> exists|i: int|
            0 <= i < events.len() && (#[trigger] events[i]) is Swap,
    decreases events.len(),
{
    if events.len() > 0 {
        let earlier = events.drop_last();
        law_ready_iff_notified(phases, earlier);
        let last = events.len() - 1;
        if exists|i: int| 0 <= i < earlier.len() && (#[trigger] earlier[i]) is Swap {
            let i = choose|i: int| 0 <= i < earlier.len() && (#[trigger] earlier[i]) is Swap;
            assert(events[i] is Swap);
        } else if events[last] is Swap {
        } else {
            assert forall|i: int| 0 <= i < events.len() implies !((#[trigger] events[i]) is Swap) by {
                if i < last {
                    assert(earlier[i] == events[i]);
                }
            }
        }
    }
}

/// A thread that waits for a mutex or a waiter, neither of which anybody else
/// uses, gets the mutex if the waiter has not been notified: it asks the waiter,
/// looks at the word, and takes it.
pub proof fn law_free_mutex_is_taken(round: nat, asked: u32, value: u32, reply: Result<u32, u32>)
    requires
        round < ROUNDS,
        effect(UNREADY, WaiterEvent::Load { value: asked }) == Some(UNREADY),
        word_effect(UNLOCKED, WordEvent::Load { value }) == Some(UNLOCKED),
        word_effect(
            UNLOCKED,
            WordEvent::CompareExchange { current: UNLOCKED, new: LOCKED, reply },
        ) is Some,
    ensures
        waiter_step(Phase::AnyAsking { round }, WaiterEvent::Load { value: asked }) == Some(
            Phase::AnyLooking { round },
        ),
        word_step(Phase::AnyLooking { round }, WordEvent::Load { value }) == Some(
            Phase::AnyTrying { round },
        ),
        word_step(
            Phase::AnyTrying { round },
            WordEvent::CompareExchange { current: UNLOCKED, new: LOCKED, reply },
        ) == Some(Phase::Taken),
        word_effect(
            UNLOCKED,
            WordEvent::CompareExchange { current: UNLOCKED, new: LOCKED, reply },
        ) == Some(LOCKED),
{
}

/// A thread that waits for a mutex or a waiter marks the mutex as contended
/// before it sleeps, so that the release wakes it.
pub proof fn law_taken_mutex_is_marked(round: nat, value: u32, word: u32, previous: u32)
    requires
        word_effect(word, WordEvent::Load { value }) == Some(word),
        word == LOCKED || word == CONTENDED,
        word_effect(word, WordEvent::Swap { new: CONTENDED, previous }) is Some,
    ensures
        word_step(Phase::AnyLooking { round }, WordEvent::Load { value }) == Some(
            if word == LOCKED {
                Phase::AnyUpgrading { round }
            } else {
                Phase::AnyParking { round }
            },
        ),
        word == LOCKED ==> {
            &&& word_step(
                Phase::AnyUpgrading { round },
                WordEvent::Swap { new: CONTENDED, previous },
            ) == Some(Phase::AnyParking { round })
            &&& word_effect(word, WordEvent::Swap { new: CONTENDED, previous }) == Some(CONTENDED)
        },
{
}

} // verus!

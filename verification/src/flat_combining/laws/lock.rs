//! Any number of threads at the word of one mutex.
//!
//! Each thread takes the steps that
//! [`word_step`](crate::flat_combining::protocol::word_step) allows it; memory
//! answers with what the word holds, and the kernel keeps the sleepers.

use vstd::prelude::*;
use vstd::set_lib::lemma_len_subset;

use crate::flat_combining::laws::queue::law_owners_are_woken;
use crate::flat_combining::memory::event::{Call, WaiterEvent, WordEvent};
use crate::flat_combining::memory::word::MutexWord;
use crate::flat_combining::mutex::release;
use crate::flat_combining::protocol::{
    waiter_step, wake_bit, wake_bits, word_step, Goal, Phase, CONTENDED, LOCKED, UNLOCKED,
};

verus! {

/// The word of a mutex, the threads that use it, and those that sleep on it.
#[verifier::ext_equal]
pub struct Futex {
    /// What the word holds.
    pub word: u32,
    /// Where each thread stands.
    pub phases: Map<int, Phase>,
    /// The threads that sleep.
    pub asleep: Set<int>,
    /// Whether the kernel reads how many to wake as an unsigned number, rather
    /// than as a signed one.
    pub unsigned: bool,
}

/// What the word holds after an event; `None` if the reply is not the one that
/// memory gives.
pub open spec fn effect(word: u32, event: WordEvent) -> Option<u32> {
    match event {
        WordEvent::Load { value } => if value == word {
            Some(word)
        } else {
            None
        },
        WordEvent::Swap { new, previous } => if previous == word {
            Some(new)
        } else {
            None
        },
        WordEvent::CompareExchange { current, new, reply } => match reply {
            Ok(previous) => if previous == word && word == current {
                Some(new)
            } else {
                None
            },
            Err(previous) => if previous == word && word != current {
                Some(word)
            } else {
                None
            },
        },
        _ => Some(word),
    }
}

/// Whether an event is the return from a sleep.
pub open spec fn is_wait(event: WordEvent) -> bool {
    event is Wait || event is WaitBitset || event is WaitAny
}

/// Whether a thread that comes back from its sleep can go on at `after`.
pub open spec fn resumes(before: Phase, after: Phase) -> bool {
    exists|event: WordEvent| is_wait(event) && #[trigger] word_step(before, event) == Some(after)
}

/// Whether a sleeper hears a wake-up for this set.
pub open spec fn hears(phase: Phase, mask: u32) -> bool {
    match phase {
        Phase::Parking { goal, .. } => match goal {
            Goal::Lock => true,
            Goal::Masked { mask: own } => own & mask != 0,
        },
        _ => true,
    }
}

/// Whether a thread has the lock.
pub open spec fn has_lock(phase: Phase) -> bool {
    match phase {
        Phase::Taken | Phase::Held | Phase::Releasing { .. } => true,
        Phase::Leaving { owner, .. } => owner,
        _ => false,
    }
}

/// Whether the kernel, asked to wake at most `count` sleepers out of
/// `candidates`, may pick these.
///
/// If it reads the count as a signed number, and that is negative, all that is
/// known is that it wakes somebody.
pub open spec fn picks(
    candidates: Set<int>,
    count: u32,
    unsigned: bool,
    woken: Set<int>,
) -> bool {
    &&& woken.subset_of(candidates)
    &&& woken.finite()
    &&& if unsigned || count <= i32::MAX {
        &&& woken.len() <= count
        &&& woken == candidates || woken.len() == count
    } else {
        candidates.is_empty() || !woken.is_empty()
    }
}

/// Whether a thread has given up waiting for the lock.
pub open spec fn is_lost(phase: Phase) -> bool {
    match phase {
        Phase::Barging | Phase::GaveUp => true,
        Phase::Leaving { owner, .. } => !owner,
        _ => false,
    }
}

impl Futex {
    /// Nobody has touched the mutex yet.
    pub open spec fn initial(self) -> bool {
        &&& self.word == UNLOCKED
        &&& self.asleep.is_empty()
        &&& forall|t: int| #[trigger]
            self.phases.contains_key(t) ==> self.phases[t] == Phase::Idle
    }

    /// The sleepers that hear a wake-up for this set.
    pub open spec fn listeners(self, mask: u32) -> Set<int> {
        self.asleep.filter(|t: int| hears(self.phases[t], mask))
    }

    /// These sleepers wake up; nothing else changes but for thread `by`, which
    /// goes to `phase`.
    pub open spec fn wakes(self, by: int, phase: Phase, woken: Set<int>, after: Futex) -> bool {
        &&& woken.subset_of(self.asleep)
        &&& after.unsigned == self.unsigned
        &&& after.asleep == self.asleep.difference(woken)
        &&& after.phases.dom() == self.phases.dom()
        &&& forall|t: int| #[trigger]
            self.phases.contains_key(t) ==> if t == by {
                after.phases[t] == phase
            } else if woken.contains(t) {
                resumes(self.phases[t], after.phases[t])
            } else {
                after.phases[t] == self.phases[t]
            }
    }

    /// Thread `t` is awake and lets an event happen.
    pub open spec fn does(self, t: int, event: WordEvent, after: Futex) -> bool {
        &&& self.phases.contains_key(t)
        &&& !self.asleep.contains(t)
        &&& word_step(self.phases[t], event) is Some
        &&& effect(self.word, event) == Some(after.word)
        &&& {
            let phase = word_step(self.phases[t], event)->0;
            match event {
                WordEvent::Wake { count } => exists|woken: Set<int>|
                    #![trigger picks(self.asleep, count, self.unsigned, woken)]
                    picks(self.asleep, count, self.unsigned, woken) && self.wakes(
                        t,
                        phase,
                        woken,
                        after,
                    ),
                WordEvent::WakeBitset { count, mask } => exists|woken: Set<int>|
                    #![trigger picks(self.listeners(mask), count, self.unsigned, woken)]
                    picks(self.listeners(mask), count, self.unsigned, woken) && self.wakes(
                        t,
                        phase,
                        woken,
                        after,
                    ),
                _ => self.wakes(t, phase, Set::empty(), after),
            }
        }
    }

    /// Thread `t` is awake and asks a waiter, or notifies one.
    pub open spec fn asks(self, t: int, event: WaiterEvent, after: Futex) -> bool {
        &&& self.phases.contains_key(t)
        &&& !self.asleep.contains(t)
        &&& waiter_step(self.phases[t], event) is Some
        &&& after.word == self.word
        &&& self.wakes(t, waiter_step(self.phases[t], event)->0, Set::empty(), after)
    }

    /// The kernel puts thread `t` to sleep, because the word still holds what
    /// the thread expects.
    pub open spec fn sleeps(self, t: int, after: Futex) -> bool {
        &&& self.phases.contains_key(t)
        &&& !self.asleep.contains(t)
        &&& self.phases[t] is Parking || self.phases[t] is AnyParking
        &&& self.word == CONTENDED
        &&& after == Futex { asleep: self.asleep.insert(t), ..self }
    }

    /// Thread `t` wakes up for no reason that concerns the mutex.
    pub open spec fn stirs(self, t: int, after: Futex) -> bool {
        &&& self.phases.contains_key(t)
        &&& self.asleep.contains(t)
        &&& resumes(self.phases[t], after.phases[t])
        &&& after.word == self.word
        &&& self.wakes(t, after.phases[t], set![t], after)
    }

    /// Something happens.
    pub open spec fn next(self, after: Futex) -> bool {
        ||| exists|t: int, event: WordEvent| #[trigger] self.does(t, event, after)
        ||| exists|t: int, event: WaiterEvent| #[trigger] self.asks(t, event, after)
        ||| exists|t: int| #[trigger] self.sleeps(t, after)
        ||| exists|t: int| #[trigger] self.stirs(t, after)
    }

    /// Whether thread `t` owns the lock.
    pub open spec fn owns(self, t: int) -> bool {
        &&& self.phases.contains_key(t)
        &&& has_lock(self.phases[t])
    }

    /// Whether thread `t` is bound to wake a sleeper.
    pub open spec fn owes(self, t: int) -> bool {
        &&& self.phases.contains_key(t)
        &&& match self.phases[t] {
            Phase::Waking { contended, .. } => contended,
            Phase::WakingOne => true,
            _ => false,
        }
    }

    /// Whether thread `t` will mark the word as contended, or find it so,
    /// before it does anything else.
    pub open spec fn is_restless(self, t: int) -> bool {
        &&& self.phases.contains_key(t)
        &&& match self.phases[t] {
            Phase::Spinning { .. } => true,
            Phase::Spun { seen, .. } => seen != CONTENDED,
            Phase::Upgrading { .. } => true,
            _ => false,
        }
    }

    /// Whether thread `t` waits for a mutex or a waiter.
    pub open spec fn waits_for_any(self, t: int) -> bool {
        &&& self.phases.contains_key(t)
        &&& self.phases[t] is AnyAsking || self.phases[t] is AnyLooking
            || self.phases[t] is AnyTrying || self.phases[t] is AnyUpgrading
            || self.phases[t] is AnyParking || self.phases[t] is AnyWoken
            || self.phases[t] is AnyChecking
    }

    /// The word says whether the lock is taken, one thread at most owns it, and
    /// sleepers are where threads sleep.
    pub open spec fn is_exclusive(self) -> bool {
        &&& self.word == UNLOCKED || self.word == LOCKED || self.word == CONTENDED
        &&& self.word == UNLOCKED <==> forall|t: int| !self.owns(t)
        &&& forall|a: int, b: int| #[trigger] self.owns(a) && #[trigger] self.owns(b) ==> a == b
        &&& forall|t: int| #[trigger]
            self.asleep.contains(t) ==> self.phases.contains_key(t) && (self.phases[t] is Parking
                || self.phases[t] is AnyParking)
    }

    /// Whoever sleeps is not forgotten: the word is marked as contended, so
    /// that its release wakes a sleeper, or a thread is about to wake one, or a
    /// thread is about to mark the word.
    pub open spec fn is_attended(self) -> bool {
        self.asleep.is_empty() || self.word == CONTENDED || (exists|t: int| #[trigger]
            self.owes(t)) || (exists|t: int| #[trigger] self.is_restless(t))
    }
}

/// A thread that comes back from a sleep does not own the lock, and looks at
/// the word again.
proof fn lemma_resumes(before: Phase, after: Phase)
    requires
        resumes(before, after),
    ensures
        before is Parking ==> after is Spinning,
        before is AnyParking ==> after is AnyWoken || after is AnyChecking || after is AnyAsking,
        before is Parking || before is AnyParking,
{
}

/// When sleepers wake up, no thread but the one that acts comes to own the lock
/// or ceases to.
proof fn lemma_wakes_keeps_owners(
    before: Futex,
    by: int,
    phase: Phase,
    woken: Set<int>,
    after: Futex,
)
    requires
        before.is_exclusive(),
        before.wakes(by, phase, woken, after),
        before.phases.contains_key(by),
        !before.asleep.contains(by) || woken.contains(by),
    ensures
        forall|t: int| t != by ==> #[trigger] after.owns(t) == before.owns(t),
        forall|t: int| #[trigger]
            after.asleep.contains(t) ==> before.asleep.contains(t) && t != by
                && after.phases.contains_key(t) && after.phases[t] == before.phases[t],
        after.phases.contains_key(by),
        after.phases[by] == phase,
{
    assert forall|t: int| t != by implies #[trigger] after.owns(t) == before.owns(t) by {
        assert(before.phases.contains_key(t) <==> after.phases.contains_key(t));
        if before.phases.contains_key(t) && woken.contains(t) {
            assert(before.asleep.contains(t));
            lemma_resumes(before.phases[t], after.phases[t]);
        }
    }
    assert forall|t: int| #[trigger] after.asleep.contains(t) implies before.asleep.contains(t)
        && t != by && after.phases.contains_key(t) && after.phases[t] == before.phases[t] by {
        assert(before.asleep.contains(t) && !woken.contains(t));
        assert(before.phases.contains_key(t));
    }
}

/// What the events that wake nobody have in common with those that do: the
/// sleepers that an event wakes.
proof fn lemma_does_wakes(before: Futex, t: int, event: WordEvent, after: Futex) -> (woken: Set<
    int,
>)
    requires
        before.does(t, event, after),
    ensures
        before.wakes(t, word_step(before.phases[t], event)->0, woken, after),
        event matches WordEvent::Wake { count } ==> picks(
            before.asleep,
            count,
            before.unsigned,
            woken,
        ),
        event matches WordEvent::WakeBitset { count, mask } ==> picks(
            before.listeners(mask),
            count,
            before.unsigned,
            woken,
        ),
        !(event is Wake) && !(event is WakeBitset) ==> woken == Set::<int>::empty(),
{
    let phase = word_step(before.phases[t], event)->0;
    match event {
        WordEvent::Wake { count } => {
            choose|woken: Set<int>|
                #![trigger picks(before.asleep, count, before.unsigned, woken)]
                picks(before.asleep, count, before.unsigned, woken) && before.wakes(
                    t,
                    phase,
                    woken,
                    after,
                )
        },
        WordEvent::WakeBitset { count, mask } => {
            choose|woken: Set<int>|
                #![trigger picks(before.listeners(mask), count, before.unsigned, woken)]
                picks(before.listeners(mask), count, before.unsigned, woken) && before.wakes(
                    t,
                    phase,
                    woken,
                    after,
                )
        },
        _ => Set::empty(),
    }
}

/// Who owns the lock follows from who owned it and from where the acting thread
/// has gone.
proof fn lemma_exclusive_after(before: Futex, by: int, after: Futex)
    requires
        before.is_exclusive(),
        forall|t: int| t != by ==> #[trigger] after.owns(t) == before.owns(t),
        forall|t: int| #[trigger]
            after.asleep.contains(t) ==> after.phases.contains_key(t) && (after.phases[t] is Parking
                || after.phases[t] is AnyParking),
        after.word == UNLOCKED || after.word == LOCKED || after.word == CONTENDED,
        after.owns(by) ==> after.word != UNLOCKED && (before.owns(by) || before.word == UNLOCKED),
        !after.owns(by) && before.owns(by) ==> after.word == UNLOCKED,
        !after.owns(by) && !before.owns(by) ==> (after.word == UNLOCKED <==> before.word
            == UNLOCKED),
    ensures
        after.is_exclusive(),
{
    assert(after.word == UNLOCKED <==> forall|t: int| !after.owns(t)) by {
        if after.word == UNLOCKED {
            assert forall|t: int| !after.owns(t) by {
                if t != by {
                    assert(after.owns(t) == before.owns(t));
                }
            }
        } else if !after.owns(by) {
            let t = choose|t: int| before.owns(t);
            assert(before.owns(t));
            assert(after.owns(t) == before.owns(t));
        }
    }
    assert forall|a: int, b: int| #[trigger] after.owns(a) && #[trigger] after.owns(b) implies a
        == b by {
        if a != by {
            assert(before.owns(a));
        }
        if b != by {
            assert(before.owns(b));
        }
    }
}

/// The lock stays exclusive: whatever one thread does next, the word still says
/// whether the lock is taken, and no two threads own it.
pub proof fn law_exclusion_is_kept(before: Futex, after: Futex)
    requires
        before.is_exclusive(),
        before.next(after),
    ensures
        after.is_exclusive(),
{
    if exists|t: int, event: WordEvent| #[trigger] before.does(t, event, after) {
        let (t, event) = choose|t: int, event: WordEvent| #[trigger] before.does(t, event, after);
        let woken = lemma_does_wakes(before, t, event, after);
        let phase = word_step(before.phases[t], event)->0;
        lemma_wakes_keeps_owners(before, t, phase, woken, after);
        assert(before.owns(t) ==> before.word != UNLOCKED);
        lemma_exclusive_after(before, t, after);
    } else if exists|t: int, event: WaiterEvent| #[trigger] before.asks(t, event, after) {
        let (t, event) = choose|t: int, event: WaiterEvent| #[trigger]
            before.asks(t, event, after);
        let phase = waiter_step(before.phases[t], event)->0;
        lemma_wakes_keeps_owners(before, t, phase, Set::empty(), after);
        assert(before.owns(t) ==> before.word != UNLOCKED);
        lemma_exclusive_after(before, t, after);
    } else if exists|t: int| #[trigger] before.sleeps(t, after) {
        let t = choose|t: int| #[trigger] before.sleeps(t, after);
        assert forall|x: int| #[trigger] after.owns(x) == before.owns(x) by {}
        lemma_exclusive_after(before, t, after);
    } else {
        let t = choose|t: int| #[trigger] before.stirs(t, after);
        lemma_wakes_keeps_owners(before, t, after.phases[t], set![t], after);
        lemma_resumes(before.phases[t], after.phases[t]);
        lemma_exclusive_after(before, t, after);
    }
}

/// Sleepers stay attended if the acting thread passes its duty on.
proof fn lemma_attended_after(
    before: Futex,
    by: int,
    phase: Phase,
    woken: Set<int>,
    after: Futex,
    pays: bool,
)
    requires
        before.is_exclusive(),
        before.is_attended(),
        before.wakes(by, phase, woken, after),
        before.phases.contains_key(by),
        !before.asleep.contains(by),
        forall|t: int| !before.waits_for_any(t),
        before.word == CONTENDED ==> after.word == CONTENDED || after.owes(by),
        before.owes(by) ==> after.owes(by) || pays,
        pays ==> picks(before.asleep, 1, before.unsigned, woken),
        before.is_restless(by) ==> after.is_restless(by) || after.word == CONTENDED,
    ensures
        after.is_attended(),
{
    if exists|x: int| woken.contains(x) {
        let x = choose|x: int| woken.contains(x);
        assert(before.asleep.contains(x));
        assert(before.phases.contains_key(x));
        assert(!before.waits_for_any(x));
        lemma_resumes(before.phases[x], after.phases[x]);
        assert(after.is_restless(x));
    } else {
        assert(woken =~= Set::empty());
        assert(after.asleep =~= before.asleep);
        if !before.asleep.is_empty() && before.word != CONTENDED {
            if exists|x: int| #[trigger] before.owes(x) {
                let x = choose|x: int| #[trigger] before.owes(x);
                if x != by {
                    assert(after.owes(x));
                } else if pays {
                    assert(woken.len() == 0);
                }
            } else {
                let x = choose|x: int| #[trigger] before.is_restless(x);
                assert(before.is_restless(x));
                if x != by {
                    assert(after.is_restless(x));
                }
            }
        }
    }
}

/// Nobody who sleeps is forgotten: as long as no thread waits for a mutex or a
/// waiter, whatever one thread does next, each sleeper can still count on a
/// wake-up.
pub proof fn law_attention_is_kept(before: Futex, after: Futex)
    requires
        before.is_exclusive(),
        before.is_attended(),
        before.next(after),
        forall|t: int| !before.waits_for_any(t),
        forall|t: int| !after.waits_for_any(t),
    ensures
        after.is_attended(),
{
    if exists|t: int, event: WordEvent| #[trigger] before.does(t, event, after) {
        let (t, event) = choose|t: int, event: WordEvent| #[trigger] before.does(t, event, after);
        let woken = lemma_does_wakes(before, t, event, after);
        lemma_attended_after(
            before,
            t,
            word_step(before.phases[t], event)->0,
            woken,
            after,
            before.owes(t) && event is Wake,
        );
    } else if exists|t: int, event: WaiterEvent| #[trigger] before.asks(t, event, after) {
        let (t, event) = choose|t: int, event: WaiterEvent| #[trigger]
            before.asks(t, event, after);
        assert(!before.waits_for_any(t));
        lemma_attended_after(before, t, before.phases[t], Set::empty(), after, false);
    } else if exists|t: int| #[trigger] before.sleeps(t, after) {
    } else {
        let t = choose|t: int| #[trigger] before.stirs(t, after);
        assert(!before.waits_for_any(t));
        lemma_resumes(before.phases[t], after.phases[t]);
        assert(after.is_restless(t));
    }
}

/// A run of the mutex: it starts untouched, and one thing happens at a time.
pub open spec fn is_execution(states: Seq<Futex>) -> bool {
    &&& states.len() > 0
    &&& states[0].initial()
    &&& forall|i: int| 0 <= i < states.len() - 1 ==> (#[trigger] states[i]).next(states[i + 1])
}

/// In every state that a mutex can come to, the word says whether the lock is
/// taken, and no two threads own it.
pub proof fn law_mutual_exclusion(states: Seq<Futex>, i: int)
    requires
        is_execution(states),
        0 <= i < states.len(),
    ensures
        states[i].word == UNLOCKED <==> forall|t: int| !states[i].owns(t),
        forall|a: int, b: int| #[trigger]
            states[i].owns(a) && #[trigger] states[i].owns(b) ==> a == b,
        states[i].is_exclusive(),
    decreases i,
{
    if i > 0 {
        law_mutual_exclusion(states, i - 1);
        assert(states[i - 1].next(states[i - 1 + 1]));
        law_exclusion_is_kept(states[i - 1], states[i]);
    }
}

/// In every state that a mutex can come to whose users do not wait for a waiter
/// besides, nobody who sleeps is forgotten.
pub proof fn law_no_lost_wake_up(states: Seq<Futex>, i: int)
    requires
        is_execution(states),
        0 <= i < states.len(),
        forall|j: int, t: int| 0 <= j < states.len() ==> !#[trigger] states[j].waits_for_any(t),
    ensures
        states[i].is_attended(),
    decreases i,
{
    if i > 0 {
        law_no_lost_wake_up(states, i - 1);
        law_mutual_exclusion(states, i - 1);
        assert(states[i - 1].next(states[i - 1 + 1]));
        law_attention_is_kept(states[i - 1], states[i]);
    }
}

/// A single try takes the lock if and only if the lock is free.
pub proof fn law_try_takes_a_free_lock(
    before: Futex,
    t: int,
    reply: Result<u32, u32>,
    after: Futex,
)
    requires
        before.is_exclusive(),
        before.phases[t] is TryingOnce,
        before.does(
            t,
            WordEvent::CompareExchange { current: UNLOCKED, new: LOCKED, reply },
            after,
        ),
    ensures
        after.owns(t) <==> forall|x: int| !before.owns(x),
        after.owns(t) <==> reply is Ok,
        !after.owns(t) ==> after.phases[t] == Phase::Refused && after.word == before.word,
{
    let event = WordEvent::CompareExchange { current: UNLOCKED, new: LOCKED, reply };
    let woken = lemma_does_wakes(before, t, event, after);
    lemma_wakes_keeps_owners(before, t, word_step(before.phases[t], event)->0, woken, after);
}

/// Whoever releases a lock that is marked as contended is bound to wake a
/// sleeper.
pub proof fn law_contended_release_owes_a_wake_up(
    before: Futex,
    t: int,
    previous: u32,
    after: Futex,
)
    requires
        before.is_exclusive(),
        before.word == CONTENDED,
        before.phases[t] is Releasing,
        before.does(t, WordEvent::Swap { new: UNLOCKED, previous }, after),
    ensures
        after.word == UNLOCKED,
        after.owes(t),
{
    let event = WordEvent::Swap { new: UNLOCKED, previous };
    let woken = lemma_does_wakes(before, t, event, after);
    lemma_wakes_keeps_owners(before, t, word_step(before.phases[t], event)->0, woken, after);
}

/// A thread that pays this debt wakes exactly one sleeper, if there is one.
pub proof fn law_one_sleeper_is_woken(before: Futex, t: int, after: Futex)
    requires
        before.is_exclusive(),
        before.phases[t] is WakingOne,
        !before.asleep.is_empty(),
        before.does(t, WordEvent::Wake { count: 1 }, after),
    ensures
        exists|x: int| #[trigger]
            before.asleep.contains(x) && after.asleep == before.asleep.remove(x),
{
    let woken = lemma_does_wakes(before, t, WordEvent::Wake { count: 1 }, after);
    assert(woken.len() == 1) by {
        if woken.len() == 0 {
            assert(woken =~= Set::empty());
        }
    }
    let x = woken.choose();
    assert(woken.contains(x));
    assert(woken =~= set![x]) by {
        assert forall|y: int| woken.contains(y) implies y == x by {
            if y != x {
                lemma_len_subset(set![x, y], woken);
            }
        }
    }
    assert(after.asleep =~= before.asleep.remove(x));
    assert(before.asleep.contains(x));
}

/// A release with a set wakes every sleeper that listens for one of its bits,
/// as long as they are not more than a wake-up can count, and the kernel reads
/// the count as an unsigned number.
pub proof fn law_listeners_are_woken(before: Futex, t: int, mask: u32, after: Futex)
    requires
        before.is_exclusive(),
        before.unsigned,
        before.does(t, WordEvent::WakeBitset { count: u32::MAX, mask }, after),
        before.asleep.finite(),
        before.asleep.len() < u32::MAX,
    ensures
        forall|x: int| #[trigger]
            before.asleep.contains(x) && hears(before.phases[x], mask) ==> !after.asleep.contains(
                x,
            ) && resumes(before.phases[x], after.phases[x]),
{
    let event = WordEvent::WakeBitset { count: u32::MAX, mask };
    let woken = lemma_does_wakes(before, t, event, after);
    lemma_len_subset(woken, before.asleep);
    assert forall|x: int| #[trigger]
        before.asleep.contains(x) && hears(before.phases[x], mask) implies !after.asleep.contains(
        x,
    ) && resumes(before.phases[x], after.phases[x]) by {
        assert(before.listeners(mask).contains(x));
        assert(woken.contains(x));
        assert(before.phases.contains_key(x));
    }
}

/// However the kernel reads the count, a release with a set wakes at least one
/// of the sleepers that listen for one of its bits.
pub proof fn law_a_listener_is_woken(before: Futex, t: int, mask: u32, after: Futex, listener: int)
    requires
        before.is_exclusive(),
        before.does(t, WordEvent::WakeBitset { count: u32::MAX, mask }, after),
        before.asleep.contains(listener),
        hears(before.phases[listener], mask),
    ensures
        exists|x: int| #[trigger]
            before.asleep.contains(x) && hears(before.phases[x], mask) && !after.asleep.contains(x)
                && resumes(before.phases[x], after.phases[x]),
{
    let woken = lemma_does_wakes(
        before,
        t,
        WordEvent::WakeBitset { count: u32::MAX, mask },
        after,
    );
    assert(before.listeners(mask).contains(listener));
    let x = if woken.is_empty() {
        assert(woken.len() == 0);
        listener
    } else {
        woken.choose()
    };
    assert(woken.contains(x));
    assert(before.listeners(mask).contains(x));
    assert(before.phases.contains_key(x));
}

/// The owner of a record sleeps until whoever has run the record releases the
/// lock, and then wakes up, if the kernel reads the count as an unsigned number.
pub proof fn law_served_owner_wakes_up(
    before: Futex,
    t: int,
    done: Seq<u8>,
    k: int,
    owner: int,
    after: Futex,
)
    requires
        before.is_exclusive(),
        before.unsigned,
        before.asleep.finite(),
        before.asleep.len() < u32::MAX,
        0 <= k < done.len(),
        before.asleep.contains(owner),
        before.phases[owner] matches Phase::Parking { goal, .. } && goal == (Goal::Masked {
            mask: wake_bit(done[k]),
        }),
        before.does(
            t,
            WordEvent::WakeBitset { count: u32::MAX, mask: wake_bits(done) },
            after,
        ),
    ensures
        !after.asleep.contains(owner),
        after.phases[owner] is Spinning,
{
    law_owners_are_woken(done, k);
    let own = wake_bit(done[k]);
    let mask = wake_bits(done);
    assert(own & mask != 0) by (bit_vector)
        requires
            mask & own != 0,
    ;
    law_listeners_are_woken(before, t, mask, after);
    assert(hears(before.phases[owner], mask));
    lemma_resumes(before.phases[owner], after.phases[owner]);
}

/// A release with an empty set is a plain release: it wakes one sleeper if the
/// word was marked as contended, and nobody else.
pub proof fn law_empty_release_is_plain(word: MutexWord, owner: bool, previous: u32)
    ensures
        release(word, 0, owner, previous) == seq![
            word.event(WordEvent::Begin { call: Call::Unlock { mask: 0 } }),
            word.event(WordEvent::Leave),
        ] + if !owner {
            seq![]
        } else if previous == CONTENDED {
            seq![
                word.event(WordEvent::Swap { new: UNLOCKED, previous }),
                word.event(WordEvent::Wake { count: 1 }),
            ]
        } else {
            seq![word.event(WordEvent::Swap { new: UNLOCKED, previous })]
        },
{
}

} // verus!

//! What a thread may do to shared memory, step by step.
//!
//! A thread is described by a [`Thread`]: how far it is with the mutex, with
//! its slot of the pool and with the list of records.  [`step`] says which
//! events are allowed where it stands, and where they take it.

use vstd::prelude::*;
use vstd::std_specs::bits::{axiom_u8_trailing_zeros, u8_trailing_zeros};

use crate::flat_combining::memory::event::{
    Call, Cells, Deed, Event, Place, PoolEvent, QueueEvent, WaiterEvent, WordEvent,
};
use crate::flat_combining::memory::list::Head;
use crate::flat_combining::memory::mask::Masks;
use crate::flat_combining::memory::word::{MutexWord, WaiterWord};

verus! {

/// The lock is available and may be taken.
pub const UNLOCKED: u32 = 0;

/// The lock is taken, and nobody is known to wait for it.
pub const LOCKED: u32 = 1;

/// The lock is taken and there may be waiters: its release wakes one.
pub const CONTENDED: u32 = 2;

/// The word of a waiter that has not been notified.
pub const UNREADY: u32 = 0;

/// The word of a waiter that has been notified.
pub const READY: u32 = 1;

/// How often a thread looks again at a word that is merely locked.
pub const SPINS: u32 = 64;

/// How often a thread goes to sleep for a lock, or tries again where others
/// were faster, before it gives up.
pub const ROUNDS: u64 = 0xffff_ffff_ffff_ffff;

/// How many groups of slots a pool has.
pub const GROUPS: usize = 8;

/// How many slots a group has.
pub const GROUP_SIZE: usize = 8;

/// How many slots a pool has.
pub const CAPACITY: usize = 64;

/// What a thread that waits for a mutex is after.
pub enum Goal {
    /// The lock.
    Lock,
    /// The lock or the caller's condition, listening for wake-ups of a set.
    Masked { mask: u32 },
}

/// How far a thread is with a mutex.
pub enum Phase {
    /// It does not use the mutex.
    Idle,
    /// It owns the lock, and is about to enter the cell of the value.
    Taken,
    /// It owns the lock, and is inside the cell of the value.
    Held,
    /// It tried once, in vain.
    Refused,
    /// It waited, and its condition came true.
    Ready,
    /// It waited for as many rounds as there are, in vain, and is about to enter
    /// the cell of the value nevertheless.
    Barging,
    /// It waited in vain, and is inside the cell of the value.
    GaveUp,
    /// It is about to try once.
    TryingOnce,
    /// It is about to ask its condition before it does anything else.
    Asking { mask: u32 },
    /// It is about to try, and will wait if that fails.
    Trying { goal: Goal },
    /// It is about to look at the word, and may look `left` times more.
    Spinning { goal: Goal, round: nat, left: nat },
    /// It has seen the word, and is about to ask its condition.
    Spun { mask: u32, round: nat, left: nat, seen: u32 },
    /// It is about to mark the word as contended.
    Upgrading { goal: Goal, round: nat },
    /// It is about to ask its condition before it sleeps.
    Confirming { mask: u32, round: nat },
    /// It is about to sleep, or sleeps.
    Parking { goal: Goal, round: nat },
    /// It waits for a mutex or a waiter, and is about to ask the waiter.
    AnyAsking { round: nat },
    /// It waits for either, and is about to look at the word of the mutex.
    AnyLooking { round: nat },
    /// It waits for either, has seen the word unlocked, and is about to try.
    AnyTrying { round: nat },
    /// It waits for either, and is about to mark the word as contended.
    AnyUpgrading { round: nat },
    /// It waits for either, and is about to sleep, or sleeps.
    AnyParking { round: nat },
    /// It was woken through the mutex, and is about to try.
    AnyWoken { round: nat },
    /// It was woken through the waiter, and is about to ask it.
    AnyChecking { round: nat },
    /// It is about to put the value back, and owns the lock, or does not.
    Leaving { mask: u32, owner: bool },
    /// It owns the lock, has put the value back, and is about to release the
    /// lock.
    Releasing { mask: u32 },
    /// It is about to wake the waiters of a set.
    Waking { mask: u32, contended: bool },
    /// It is about to wake one waiter.
    WakingOne,
}

/// Whether the thread is between two operations, without the lock.
pub open spec fn outside(phase: Phase) -> bool {
    ||| phase == Phase::Idle
    ||| phase == Phase::Refused
    ||| phase == Phase::Ready
}

/// Whether the thread is between two operations, with the value or without.
pub open spec fn is_settled(phase: Phase) -> bool {
    has_access(phase) || outside(phase)
}

/// Where a thread goes that has decided on the value `seen` of the word.
pub open spec fn decided(goal: Goal, round: nat, seen: u32) -> Phase {
    if seen != CONTENDED {
        Phase::Upgrading { goal, round }
    } else {
        settled(goal, round)
    }
}

/// Where a thread goes that knows the word as contended.
pub open spec fn settled(goal: Goal, round: nat) -> Phase {
    match goal {
        Goal::Lock => Phase::Parking { goal, round },
        Goal::Masked { mask } => Phase::Confirming { mask, round },
    }
}

/// Where a thread goes that has released the word.
pub open spec fn released(mask: u32, contended: bool) -> Phase {
    if mask != 0 {
        Phase::Waking { mask, contended }
    } else if contended {
        Phase::WakingOne
    } else {
        Phase::Idle
    }
}

/// Where an operation starts.
pub open spec fn started(phase: Phase, call: Call) -> Option<Phase> {
    match call {
        Call::TryLock => if outside(phase) {
            Some(Phase::TryingOnce)
        } else {
            None
        },
        Call::Lock => if outside(phase) {
            Some(Phase::Trying { goal: Goal::Lock })
        } else {
            None
        },
        Call::WaitOrLock { mask } => if outside(phase) {
            Some(Phase::Asking { mask })
        } else {
            None
        },
        Call::WaitAny { .. } => if outside(phase) {
            Some(Phase::AnyAsking { round: 0 })
        } else {
            None
        },
        Call::Unlock { mask } => if has_access(phase) {
            Some(Phase::Leaving { mask, owner: phase == Phase::Held })
        } else {
            None
        },
    }
}

/// Where a thread goes whose condition was asked.
pub open spec fn polled(phase: Phase, ready: bool) -> Option<Phase> {
    match phase {
        Phase::Asking { mask } => Some(
            if ready {
                Phase::Ready
            } else {
                Phase::Trying { goal: Goal::Masked { mask } }
            },
        ),
        Phase::Spun { mask, round, left, seen } => Some(
            if ready || seen != LOCKED || left == 0 {
                decided(Goal::Masked { mask }, round, seen)
            } else {
                Phase::Spinning { goal: Goal::Masked { mask }, round, left: (left - 1) as nat }
            },
        ),
        Phase::Confirming { mask, round } => Some(
            if ready {
                Phase::Ready
            } else {
                Phase::Parking { goal: Goal::Masked { mask }, round }
            },
        ),
        _ => None,
    }
}

/// Where a thread goes that has read the word.
pub open spec fn loaded(phase: Phase, value: u32) -> Option<Phase> {
    match phase {
        Phase::Spinning { goal, round, left } => Some(
            match goal {
                Goal::Lock => if value != LOCKED || left == 0 {
                    decided(goal, round, value)
                } else {
                    Phase::Spinning { goal, round, left: (left - 1) as nat }
                },
                Goal::Masked { mask } => Phase::Spun { mask, round, left, seen: value },
            },
        ),
        Phase::AnyLooking { round } => Some(
            if value == UNLOCKED {
                Phase::AnyTrying { round }
            } else if value == LOCKED {
                Phase::AnyUpgrading { round }
            } else {
                Phase::AnyParking { round }
            },
        ),
        _ => None,
    }
}

/// Where a thread goes that has exchanged the word.
pub open spec fn swapped(phase: Phase, new: u32, previous: u32) -> Option<Phase> {
    match phase {
        Phase::Upgrading { goal, round } => if new == CONTENDED {
            Some(
                if previous == UNLOCKED {
                    Phase::Taken
                } else {
                    settled(goal, round)
                },
            )
        } else {
            None
        },
        Phase::AnyUpgrading { round } => if new == CONTENDED {
            Some(
                if previous == UNLOCKED {
                    Phase::Taken
                } else {
                    Phase::AnyParking { round }
                },
            )
        } else {
            None
        },
        Phase::Releasing { mask } => if new == UNLOCKED {
            Some(released(mask, previous == CONTENDED))
        } else {
            None
        },
        _ => None,
    }
}

/// Where a thread goes that has tried to take the lock from the unlocked word.
pub open spec fn tried(phase: Phase, success: bool) -> Option<Phase> {
    match phase {
        Phase::TryingOnce => Some(
            if success {
                Phase::Taken
            } else {
                Phase::Refused
            },
        ),
        Phase::Trying { goal } => Some(
            if success {
                Phase::Taken
            } else {
                Phase::Spinning { goal, round: 0, left: SPINS as nat }
            },
        ),
        Phase::AnyTrying { round } => Some(
            if success {
                Phase::Taken
            } else {
                Phase::AnyAsking { round: round + 1 }
            },
        ),
        Phase::AnyWoken { round } => Some(
            if success {
                Phase::Taken
            } else {
                Phase::AnyAsking { round: round + 1 }
            },
        ),
        _ => None,
    }
}

/// Where an event at the word of the mutex takes a thread.
pub open spec fn word_step(phase: Phase, event: WordEvent) -> Option<Phase> {
    match event {
        WordEvent::Begin { call } => started(phase, call),
        WordEvent::Load { value } => loaded(phase, value),
        WordEvent::Swap { new, previous } => swapped(phase, new, previous),
        WordEvent::CompareExchange { current, new, reply } => if current == UNLOCKED && new
            == LOCKED {
            tried(phase, reply is Ok)
        } else {
            None
        },
        WordEvent::Poll { ready } => polled(phase, ready),
        WordEvent::Wait { expected } => match phase {
            Phase::Parking { goal, round } => if goal == Goal::Lock && expected == CONTENDED
                && round < ROUNDS {
                Some(Phase::Spinning { goal, round: round + 1, left: SPINS as nat })
            } else {
                None
            },
            _ => None,
        },
        WordEvent::WaitBitset { expected, mask } => match phase {
            Phase::Parking { goal, round } => if goal == (Goal::Masked { mask }) && expected
                == CONTENDED && round < ROUNDS {
                Some(Phase::Spinning { goal, round: round + 1, left: SPINS as nat })
            } else {
                None
            },
            _ => None,
        },
        WordEvent::WaitAny { mutex, waiter, index } => match phase {
            Phase::AnyParking { round } => if mutex == CONTENDED && waiter == UNREADY {
                Some(
                    match index {
                        Some(i) => if i == 0 {
                            Phase::AnyWoken { round }
                        } else {
                            Phase::AnyChecking { round }
                        },
                        None => Phase::AnyAsking { round: round + 1 },
                    },
                )
            } else {
                None
            },
            _ => None,
        },
        WordEvent::Wake { count } => if phase == Phase::WakingOne && count == 1 {
            Some(Phase::Idle)
        } else {
            None
        },
        WordEvent::WakeBitset { count, mask } => match phase {
            Phase::Waking { mask: m, contended } => if m == mask && count == u32::MAX {
                Some(
                    if contended {
                        Phase::WakingOne
                    } else {
                        Phase::Idle
                    },
                )
            } else {
                None
            },
            _ => None,
        },
        WordEvent::GiveUp => match phase {
            Phase::Parking { goal, round } => if round == ROUNDS {
                Some(Phase::Barging)
            } else {
                None
            },
            Phase::AnyAsking { round } => if round == ROUNDS {
                Some(Phase::Barging)
            } else {
                None
            },
            _ => None,
        },
        WordEvent::Enter => match phase {
            Phase::Taken => Some(Phase::Held),
            Phase::Barging => Some(Phase::GaveUp),
            _ => None,
        },
        WordEvent::Leave => match phase {
            Phase::Leaving { mask, owner } => Some(
                if owner {
                    Phase::Releasing { mask }
                } else {
                    released(mask, false)
                },
            ),
            _ => None,
        },
    }
}

/// Where an event at the word of a waiter takes a thread.
pub open spec fn waiter_step(phase: Phase, event: WaiterEvent) -> Option<Phase> {
    match event {
        WaiterEvent::Load { value } => match phase {
            Phase::AnyAsking { round } => if round < ROUNDS {
                Some(
                    if value == READY {
                        Phase::Ready
                    } else {
                        Phase::AnyLooking { round }
                    },
                )
            } else {
                None
            },
            Phase::AnyChecking { round } => Some(
                if value == READY {
                    Phase::Ready
                } else {
                    Phase::AnyAsking { round: round + 1 }
                },
            ),
            _ => if is_settled(phase) {
                Some(phase)
            } else {
                None
            },
        },
        WaiterEvent::Swap { new, .. } => if new == READY && is_settled(phase) {
            Some(phase)
        } else {
            None
        },
        WaiterEvent::Wake { count } => if count == 1 && is_settled(phase) {
            Some(phase)
        } else {
            None
        },
    }
}

/// How far a thread is with a slot of a pool.
pub enum SlotPhase {
    /// It has none.
    Free,
    /// It has none, because it found no available slot in any group.
    Full,
    /// It has none, because others were faster as often as it is willing to
    /// try.
    GaveUp,
    /// It is about to look at the mask of a group: it started at group `first`,
    /// has found `skipped` groups without an available slot, and has lost a
    /// slot that it had chosen `failures` times.
    Looking { first: usize, skipped: nat, failures: nat },
    /// It has seen this mask, and is about to claim its lowest slot.
    Choosing { first: usize, skipped: nat, failures: nat, mask: u8 },
    /// It has claimed this slot, and is about to put an item into it.
    Claimed { index: u8 },
    /// It owns this slot, with its item in it.
    Owns { index: u8 },
    /// It has put a default item into this slot, and is about to return it.
    Cleared { index: u8 },
}

/// The slot that a thread has, in whatever state.
pub open spec fn slot_of(phase: SlotPhase) -> Option<u8> {
    match phase {
        SlotPhase::Claimed { index } => Some(index),
        SlotPhase::Owns { index } => Some(index),
        SlotPhase::Cleared { index } => Some(index),
        _ => None,
    }
}

/// The group that a thread looks at which started at group `first` and has
/// skipped some.
pub open spec fn group_at(first: usize, skipped: nat) -> nat {
    (first + skipped) as nat % GROUPS as nat
}

/// The lowest slot that a mask has available.
pub open spec fn lowest(mask: u8) -> u8 {
    u8_trailing_zeros(mask) as u8
}

/// The mask that has one slot of a group.
pub open spec fn bit_of(slot: u8) -> u8 {
    1u8 << slot
}

/// The lowest slot of a mask is available by it, and those below are not.
pub(crate) proof fn lemma_lowest(mask: u8)
    requires
        mask != 0,
    ensures
        lowest(mask) < 8,
        mask & bit_of(lowest(mask)) != 0,
        forall|slot: u8| slot < lowest(mask) ==> mask & #[trigger] bit_of(slot) == 0,
{
    axiom_u8_trailing_zeros(mask);
    let l = lowest(mask);
    assert(mask & (1u8 << l) != 0) by (bit_vector)
        requires
            l < 8,
            (mask >> l) & 1u8 == 1u8,
    ;
    assert forall|slot: u8| slot < l implies mask & #[trigger] bit_of(slot) == 0 by {
        assert((mask >> slot) & 1u8 == 0u8);
        assert(mask & (1u8 << slot) == 0) by (bit_vector)
            requires
                slot < 8,
                (mask >> slot) & 1u8 == 0u8,
        ;
    }
}

/// The index of a slot of a group.
pub open spec fn index_of(group: nat, slot: u8) -> nat {
    group * GROUP_SIZE as nat + slot as nat
}

/// Where a thread goes that has seen the mask of a group.
pub open spec fn looked(first: usize, skipped: nat, failures: nat, mask: u8) -> SlotPhase {
    if mask != 0 {
        SlotPhase::Choosing { first, skipped, failures, mask }
    } else if skipped + 1 == GROUPS {
        SlotPhase::Full
    } else {
        SlotPhase::Looking { first, skipped: skipped + 1, failures }
    }
}

/// Where an event at the masks of a pool takes a thread.
pub open spec fn slot_step(phase: SlotPhase, event: PoolEvent) -> Option<SlotPhase> {
    match event {
        PoolEvent::Load { group, mask } => match phase {
            SlotPhase::Looking { first, skipped, failures } => if group == group_at(
                first,
                skipped,
            ) && failures < ROUNDS {
                Some(looked(first, skipped, failures, mask))
            } else {
                None
            },
            SlotPhase::Free | SlotPhase::Full | SlotPhase::GaveUp => if group < GROUPS {
                Some(looked(group, 0, 0, mask))
            } else {
                None
            },
            _ => None,
        },
        PoolEvent::CompareExchange { group, current, new, success } => match phase {
            SlotPhase::Choosing { first, skipped, failures, mask } => if group == group_at(
                first,
                skipped,
            ) && current == mask && new == mask & !bit_of(lowest(mask)) {
                Some(
                    if success {
                        SlotPhase::Claimed { index: index_of(group as nat, lowest(mask)) as u8 }
                    } else {
                        SlotPhase::Looking { first, skipped, failures: failures + 1 }
                    },
                )
            } else {
                None
            },
            _ => None,
        },
        PoolEvent::FetchOr { group, bits, previous } => match phase {
            SlotPhase::Cleared { index } => if group == index as nat / GROUP_SIZE as nat && bits
                == bit_of((index % 8) as u8) {
                Some(SlotPhase::Free)
            } else {
                None
            },
            _ => None,
        },
        PoolEvent::Store { index } => if phase == (SlotPhase::Claimed { index }) {
            Some(SlotPhase::Owns { index })
        } else {
            None
        },
        PoolEvent::Clear { index } => if phase == (SlotPhase::Owns { index }) {
            Some(SlotPhase::Cleared { index })
        } else {
            None
        },
        PoolEvent::GiveUp => match phase {
            SlotPhase::Looking { failures, .. } => if failures == ROUNDS {
                Some(SlotPhase::GaveUp)
            } else {
                None
            },
            _ => None,
        },
    }
}

/// How far a thread is with a record of its own.
pub enum RecordPhase {
    /// It has none.
    Absent,
    /// It has set up the record in its slot, is about to look at the head of
    /// the list, and has failed to become the head `failures` times.
    Filled { index: u8, failures: nat },
    /// It has seen the head, and is about to link the record to it.
    Linking { index: u8, failures: nat, seen: u8 },
    /// It has linked the record to that head, and is about to make it the head.
    Linked { index: u8, failures: nat, seen: u8 },
    /// The record is in the list, or has been.
    Queued { index: u8 },
    /// The record has been marked as done.
    Finished { index: u8 },
    /// The thread has come back, but the record has not been marked.
    Missed { index: u8 },
}

/// How far a thread is with the records that it has taken over.
pub enum WalkPhase {
    /// It has taken none.
    Resting,
    /// It is about to run the record `next`, if that is a record and not the
    /// end of the list.  It has dealt with those in `done`, and found `ran`
    /// operations in them.
    At { next: u8, done: Seq<u8>, ran: nat },
    /// It has run the record `index`.
    Ran { index: u8, done: Seq<u8>, ran: nat },
    /// It knows what comes after the record `index`, and is about to mark it.
    Leaving { index: u8, next: u8, done: Seq<u8>, ran: nat },
}

/// Whether a link leads nowhere.
pub open spec fn is_end(link: u8) -> bool {
    link >= CAPACITY
}

/// Whether a thread has run what there was to run.
///
/// A list has no more records than the pool has slots, so nobody runs more.
pub open spec fn is_over(phase: WalkPhase) -> bool {
    phase matches WalkPhase::At { next, done, .. } && (is_end(next) || done.len() == CAPACITY)
}

/// Where an event at the list takes a thread with a record of its own, whose
/// slot is `slot`.
pub open spec fn record_step(phase: RecordPhase, slot: SlotPhase, event: QueueEvent) -> Option<
    RecordPhase,
> {
    match event {
        QueueEvent::Fill { index } => if phase is Absent && slot == (SlotPhase::Owns { index }) {
            Some(RecordPhase::Filled { index, failures: 0 })
        } else {
            None
        },
        QueueEvent::LoadHead { head } => match phase {
            RecordPhase::Filled { index, failures } => if failures < ROUNDS {
                Some(RecordPhase::Linking { index, failures, seen: head })
            } else {
                None
            },
            _ => None,
        },
        QueueEvent::StoreNext { index: i, next } => match phase {
            RecordPhase::Linking { index, failures, seen } => if i == index && next == seen {
                Some(RecordPhase::Linked { index, failures, seen })
            } else {
                None
            },
            _ => None,
        },
        QueueEvent::CompareExchangeHead { current, new, success } => match phase {
            RecordPhase::Linked { index, failures, seen } => if current == seen && new == index {
                Some(
                    if success {
                        RecordPhase::Queued { index }
                    } else {
                        RecordPhase::Filled { index, failures: failures + 1 }
                    },
                )
            } else {
                None
            },
            _ => None,
        },
        QueueEvent::LoadReady { index: i, ready } => match phase {
            RecordPhase::Queued { index } => if i == index {
                Some(
                    if ready {
                        RecordPhase::Finished { index }
                    } else {
                        RecordPhase::Missed { index }
                    },
                )
            } else {
                None
            },
            _ => None,
        },
        QueueEvent::Abandon { index } => if phase == (RecordPhase::Missed { index }) {
            Some(RecordPhase::Absent)
        } else {
            None
        },
        QueueEvent::GiveUp => match phase {
            RecordPhase::Filled { index, failures } => if failures == ROUNDS {
                Some(RecordPhase::Absent)
            } else {
                None
            },
            _ => None,
        },
        _ => Some(phase),
    }
}

/// Where an event at the list takes a thread that runs records.
pub open spec fn walk_step(phase: WalkPhase, event: QueueEvent) -> Option<WalkPhase> {
    match event {
        QueueEvent::TakeAll { head } => match phase {
            WalkPhase::Resting => Some(WalkPhase::At { next: head, done: Seq::empty(), ran: 0 }),
            WalkPhase::At { next, done, ran } => if is_over(phase) {
                Some(WalkPhase::At { next: head, done: Seq::empty(), ran: 0 })
            } else {
                None
            },
            _ => None,
        },
        QueueEvent::Run { index, found } => match phase {
            WalkPhase::At { next, done, ran } => if index == next && !is_over(phase) {
                Some(
                    WalkPhase::Ran {
                        index,
                        done,
                        ran: if found {
                            ran + 1
                        } else {
                            ran
                        },
                    },
                )
            } else {
                None
            },
            _ => None,
        },
        QueueEvent::LoadNext { index: i, next } => match phase {
            WalkPhase::Ran { index, done, ran } => if i == index {
                Some(WalkPhase::Leaving { index, next, done, ran })
            } else {
                None
            },
            _ => None,
        },
        QueueEvent::StoreReady { index: i } => match phase {
            WalkPhase::Leaving { index, next, done, ran } => if i == index {
                Some(WalkPhase::At { next, done: done.push(index), ran })
            } else {
                None
            },
            _ => None,
        },
        _ => Some(phase),
    }
}

/// The set by which the owner of a record is woken.
pub open spec fn wake_bit(index: u8) -> u32 {
    1u32 << (index % 32) as u32
}

/// The set by which the owners of some records are woken.
pub open spec fn wake_bits(indices: Seq<u8>) -> u32
    decreases indices.len(),
{
    if indices.len() == 0 {
        0
    } else {
        wake_bits(indices.drop_last()) | wake_bit(indices.last())
    }
}

/// Whether a thread has access to the value of the mutex.
pub open spec fn has_access(phase: Phase) -> bool {
    phase is Held || phase is GaveUp
}

/// The cells that a thread has to do with.
pub struct Places {
    /// The word of the mutex that it uses, or used last.
    pub word: Option<MutexWord>,
    /// The word of the waiter that it waits for, or did last.
    pub waiter: Option<WaiterWord>,
    /// The masks of the pool that it has its slot from, or had.
    pub masks: Option<Masks>,
    /// The cells of the record that it set up last.
    pub own: Option<Cells>,
    /// The head of the list that it took last.
    pub list: Option<Head>,
    /// The cells of the records that it has run since.
    pub visited: Seq<Cells>,
}

/// One thread, as far as this library is concerned.
pub struct Thread {
    /// How far it is with the mutex.
    pub lock: Phase,
    /// How far it is with its slot of the pool.
    pub slot: SlotPhase,
    /// How far it is with a record of its own.
    pub record: RecordPhase,
    /// How far it is with the records that it has taken over.
    pub walk: WalkPhase,
    /// What it has set out to do, in order.
    pub deeds: Seq<Deed>,
    /// The cells that it has to do with.
    pub at: Places,
}

impl Thread {
    /// A thread that has done nothing yet.
    pub open spec fn start() -> Thread {
        Thread {
            lock: Phase::Idle,
            slot: SlotPhase::Free,
            record: RecordPhase::Absent,
            walk: WalkPhase::Resting,
            deeds: Seq::empty(),
            at: Places {
                word: None,
                waiter: None,
                masks: None,
                own: None,
                list: None,
                visited: Seq::empty(),
            },
        }
    }

    /// The thread, elsewhere with the mutex.
    pub open spec fn moved(self, lock: Phase) -> Thread {
        Thread { lock, ..self }
    }

    /// The thread, elsewhere with its slot.
    pub open spec fn with(self, slot: SlotPhase) -> Thread {
        Thread { slot, ..self }
    }

    /// The thread, after one more deed.
    pub open spec fn having(self, deed: Deed) -> Thread {
        Thread { deeds: self.deeds.push(deed), ..self }
    }

    /// The thread, after it has started to look for a slot.
    pub open spec fn asking(self, masks: Masks, first: usize) -> Thread {
        Thread { at: Places { masks: Some(masks), ..self.at }, ..self }.having(
            Deed::Allocate { masks, first },
        )
    }

    /// The thread, after it has returned its slot.
    pub open spec fn freed(self, masks: Masks, index: u8) -> Thread {
        Thread { slot: SlotPhase::Free, record: RecordPhase::Absent, ..self }.having(
            Deed::Free { masks, index },
        )
    }

    /// The thread, after it has left its record and its slot behind.
    pub open spec fn abandoned(self, index: u8) -> Thread {
        Thread { slot: SlotPhase::Free, record: RecordPhase::Absent, ..self }.having(
            Deed::Abandon { index },
        )
    }

    /// The thread, after it has started an operation on a mutex and stands
    /// elsewhere with it.
    pub open spec fn after(self, word: MutexWord, call: Call, lock: Phase) -> Thread {
        Thread {
            lock,
            at: Places {
                word: Some(word),
                waiter: match call {
                    Call::WaitAny { waiter } => Some(waiter),
                    _ => self.at.waiter,
                },
                ..self.at
            },
            ..self
        }.having(Deed::Mutex { word, call })
    }

    /// Whether the thread has taken a list since it got the lock.
    pub open spec fn has_swept(self) -> bool {
        self.deeds.len() > 0 && (self.deeds.last() is Sweep || self.deeds.last() is Apply)
    }

    /// Whether the thread is not in the middle of a list that it has taken.
    pub open spec fn is_at_rest(self) -> bool {
        self.walk is Resting || is_over(self.walk)
    }
}

/// Where an event at a list takes a thread, whatever the cells.
pub open spec fn queue_step(thread: Thread, event: QueueEvent) -> Option<Thread> {
    match (
        record_step(thread.record, thread.slot, event),
        walk_step(thread.walk, event),
    ) {
        // Only a thread with access to the value takes the list or applies an
        // operation of its own, and only one that does not use the lock puts a
        // record into the list.
        (Some(record), Some(walk)) => if (event is TakeAll || event is Apply) && !has_access(
            thread.lock,
        ) {
            None
        } else if event is Apply && !thread.is_at_rest() {
            None
        } else if event is CompareExchangeHead && !outside(thread.lock) {
            None
        } else if event is Abandon {
            Some(Thread { slot: SlotPhase::Free, record, walk, ..thread })
        } else {
            Some(Thread { record, walk, ..thread })
        },
        _ => None,
    }
}

/// What an event at a list adds to what a thread has done and to the cells that
/// it has to do with; `None` if this is not the place for it.
///
/// A thread that was refused the lock puts a record into the list, and looks for
/// the mark when it has come back.
pub open spec fn placed(thread: Thread, place: Place, event: QueueEvent) -> Option<Thread> {
    let at = thread.at;
    match (event, place) {
        (QueueEvent::Fill { .. }, Place::Record(cells)) => Some(
            Thread { at: Places { own: Some(cells), ..at }, ..thread },
        ),
        (QueueEvent::LoadHead { .. }, Place::Head(head)) => if at.own is Some && at.own->0.head
            == head {
            Some(thread)
        } else {
            None
        },
        (QueueEvent::StoreNext { .. }, Place::Link(link)) => if at.own is Some && at.own->0.link
            == link {
            Some(thread)
        } else {
            None
        },
        (
            QueueEvent::CompareExchangeHead { new, success, .. },
            Place::Head(head),
        ) => if at.own is Some && at.own->0.head == head && thread.lock is Refused {
            Some(
                if success {
                    thread.having(Deed::Push { head, index: new })
                } else {
                    thread
                },
            )
        } else {
            None
        },
        (QueueEvent::LoadReady { .. }, Place::Mark(mark)) => if at.own is Some && at.own->0.mark
            == mark && (thread.lock is Ready || thread.lock is Idle) {
            Some(thread)
        } else {
            None
        },
        (QueueEvent::TakeAll { .. }, Place::Head(head)) => Some(
            Thread {
                at: Places { list: Some(head), visited: Seq::empty(), ..at },
                ..thread
            }.having(Deed::Sweep { head }),
        ),
        (QueueEvent::Run { .. }, Place::Record(cells)) => if at.list == Some(cells.head) {
            Some(Thread { at: Places { visited: at.visited.push(cells), ..at }, ..thread })
        } else {
            None
        },
        (QueueEvent::LoadNext { .. }, Place::Link(link)) => if at.visited.len() > 0
            && at.visited.last().link == link {
            Some(thread)
        } else {
            None
        },
        (QueueEvent::StoreReady { .. }, Place::Mark(mark)) => if at.visited.len() > 0
            && at.visited.last().mark == mark {
            Some(thread)
        } else {
            None
        },
        (QueueEvent::GiveUp, Place::Nowhere) => Some(thread),
        // What others have left comes first.
        (QueueEvent::Apply, Place::Nowhere) => if thread.has_swept() {
            Some(thread.having(Deed::Apply))
        } else {
            None
        },
        (QueueEvent::Abandon { index }, Place::Nowhere) => Some(
            thread.having(Deed::Abandon { index }),
        ),
        _ => None,
    }
}

/// Where an event takes a thread; `None` if it is not allowed there.
pub open spec fn step(thread: Thread, event: Event) -> Option<Thread> {
    match event {
        Event::Word { word, event: e } => match word_step(thread.lock, e) {
            Some(lock) => match e {
                // A lock is released by who has it, not in the middle of a list,
                // and, by who waits for a record, not before the list was taken.
                // Who waits for a record waits for nothing else.
                WordEvent::Begin { call } => if call is Unlock && !(thread.at.word == Some(word)
                    && thread.is_at_rest() && (thread.record is Queued ==> thread.has_swept())) {
                    None
                } else if call is WaitAny && thread.record is Queued {
                    None
                } else {
                    Some(thread.after(word, call, lock))
                },
                _ => if thread.at.word == Some(word) {
                    Some(thread.moved(lock))
                } else {
                    None
                },
            },
            None => None,
        },
        Event::Waiter { waiter, event: e } => match waiter_step(thread.lock, e) {
            Some(lock) => if is_settled(thread.lock) || thread.at.waiter == Some(waiter) {
                Some(thread.moved(lock))
            } else {
                None
            },
            None => None,
        },
        Event::Pool { masks, event: e } => match slot_step(thread.slot, e) {
            Some(slot) => match e {
                // Whoever was not looking for a slot starts to.
                PoolEvent::Load { group, .. } => if !(thread.slot is Looking) {
                    Some(thread.asking(masks, group).with(slot))
                } else if thread.at.masks == Some(masks) {
                    Some(thread.with(slot))
                } else {
                    None
                },
                // A slot is emptied only when nobody needs its record.
                PoolEvent::Clear { .. } => if thread.at.masks == Some(masks) && (
                thread.record is Absent || thread.record is Finished) {
                    Some(thread.with(slot))
                } else {
                    None
                },
                PoolEvent::FetchOr { .. } => if thread.at.masks == Some(masks) && (
                thread.record is Absent || thread.record is Finished) {
                    Some(thread.freed(masks, slot_of(thread.slot)->0))
                } else {
                    None
                },
                _ => if thread.at.masks == Some(masks) {
                    Some(thread.with(slot))
                } else {
                    None
                },
            },
            None => None,
        },
        Event::Queue { place, event: e } => match queue_step(thread, e) {
            Some(next) => placed(next, place, e),
            None => None,
        },
    }
}

/// Whether an access to an atomic that a thread notes was made and can have gone
/// like that.
///
/// What is done to cells that are no atomics is noted by the functions of
/// [`memory`](crate::flat_combining::memory) that do it, and by nobody else; the
/// remaining events are stages of the work.
pub open spec fn is_real(thread: Thread, event: Event) -> bool {
    match event {
        Event::Word { word, event: e } => {
            ||| e is Begin || e is Poll || e is GiveUp || e is Enter || e is Leave
            ||| word.allows(e, thread.at.waiter)
        },
        Event::Waiter { waiter, event: e } => waiter.allows(e),
        Event::Pool { masks, event: e } => {
            ||| e is GiveUp || e is Store || e is Clear
            ||| masks.allows(e)
        },
        Event::Queue { place, event: e } => match place {
            Place::Head(head) => head.allows(e),
            Place::Link(link) => link.allows(e),
            Place::Mark(mark) => mark.allows(e),
            Place::Record(_) => e is Fill || e is Run,
            Place::Nowhere => e is GiveUp || e is Apply || e is Abandon,
        },
    }
}

/// Where an event takes a thread that may have left the protocol.
pub open spec fn advance(thread: Option<Thread>, event: Event) -> Option<Thread> {
    match thread {
        Some(t) => if is_real(t, event) {
            step(t, event)
        } else {
            None
        },
        None => None,
    }
}

/// Where a thread stands that has done these things.
pub open spec fn run(events: Seq<Event>) -> Option<Thread>
    decreases events.len(),
{
    if events.len() == 0 {
        Some(Thread::start())
    } else {
        advance(run(events.drop_last()), events.last())
    }
}

/// One more event is one more step.
pub(crate) proof fn lemma_run_push(events: Seq<Event>, event: Event)
    ensures
        run(events.push(event)) == advance(run(events), event),
{
    assert(events.push(event).drop_last() =~= events);
}

} // verus!

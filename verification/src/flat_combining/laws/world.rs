//! Any number of threads that work on one value, as their traces tell.
//!
//! A world is what the shared cells of one [`FlatCombining`] hold, and the trace
//! of each thread.  Traces grow as [`run`] allows, one event at a time; memory
//! answers with what the cells hold, and the kernel keeps the sleepers.  Seen
//! from the word of the mutex, from the masks of the pool or from the list, a
//! world is a world of the other files, so what holds there holds of the traces.
//!
//! Threads that have given up waiting for the lock are left out.
//!
//! [`FlatCombining`]: crate::FlatCombining

use vstd::prelude::*;

use crate::flat_combining::laws::history;
use crate::flat_combining::laws::history::History;
use crate::flat_combining::laws::lock::{
    effect as word_effect, has_lock, is_lost, is_wait, law_attention_is_kept,
    law_exclusion_is_kept, picks, resumes, Futex,
};
use crate::flat_combining::laws::pool::{
    effect as mask_effect, law_lowest_slot_is_claimed, law_slots_stay_sound, Pool,
};
use crate::flat_combining::laws::queue::{
    law_list_stays_sound, law_sweeper_is_served, record_of, Queue,
};
use crate::flat_combining::laws::thread::law_event_moves_one_part;
use crate::flat_combining::memory::event::{
    Cells, Event, Place, PoolEvent, QueueEvent, WaiterEvent, WordEvent,
};
use crate::flat_combining::memory::list::Mark;
use crate::flat_combining::protocol::{
    is_end, lemma_run_push, queue_step, run, slot_of, step, word_step,
    Phase, RecordPhase, SlotPhase, Thread, WalkPhase, CAPACITY, GROUPS, UNLOCKED,
};
use crate::flat_combining::{is_free, Site};

verus! {

/// The cells of one value, and the traces of the threads that work on it.
#[verifier::ext_equal]
pub struct World {
    pub site: Site,
    /// The word of the mutex.
    pub word: u32,
    /// The threads that sleep on it.
    pub asleep: Set<int>,
    /// Whether the kernel reads how many to wake as an unsigned number.
    pub unsigned: bool,
    /// The masks of the pool.
    pub masks: Seq<u8>,
    /// The head of the list.
    pub head: u8,
    /// The cells of the record in each slot.
    pub cells: Map<u8, Cells>,
    /// The link of each record.
    pub next: Map<u8, u8>,
    /// Which records are marked as done.
    pub ready: Map<u8, bool>,
    /// Which records hold an operation that waits to be run.
    pub loaded: Map<u8, bool>,
    /// Whether who has the lock has taken the list since it got it.
    pub swept: bool,
    /// The traces.
    pub traces: Map<int, Seq<Event>>,
}

/// A thread as the list sees it.
pub open spec fn seen(thread: Thread) -> Thread {
    Thread {
        lock: if has_lock(thread.lock) {
            Phase::Held
        } else {
            Phase::Idle
        },
        slot: match slot_of(thread.slot) {
            Some(index) => SlotPhase::Owns { index },
            None => SlotPhase::Free,
        },
        record: thread.record,
        walk: thread.walk,
        deeds: Seq::empty(),
        at: Thread::start().at,
    }
}

/// Whether a thread has the lock and is about to release it.
pub open spec fn is_on_its_way_out(phase: Phase) -> bool {
    phase is Leaving || phase is Releasing
}

/// Whether a thread has come back from waiting, or has released the lock.
pub open spec fn is_back(phase: Phase) -> bool {
    phase is Ready || phase is Idle || phase is Waking || phase is WakingOne
}

/// Whether an event is at these cells.
pub open spec fn is_at(site: Site, cells: Map<u8, Cells>, event: Event) -> bool {
    match event {
        Event::Word { word, event: e } => word == site.word && !(e is GiveUp),
        Event::Waiter { .. } => true,
        Event::Pool { masks, .. } => masks == site.masks,
        Event::Queue { place, event: e } => match place {
            Place::Head(head) => head == site.head,
            Place::Record(record) => record.head == site.head && (
            // What is found in a slot is what was put there last.
            e matches QueueEvent::Run { index, .. } ==> cells.contains_key(index) && record
                == cells[index]),
            _ => true,
        },
    }
}

impl World {
    /// Where a thread stands.
    pub open spec fn thread(self, t: int) -> Thread {
        run(self.traces[t])->0
    }

    /// The world, seen from the word of the mutex.
    pub open spec fn futex(self) -> Futex {
        Futex {
            word: self.word,
            phases: Map::new(|t: int| self.traces.contains_key(t), |t: int| self.thread(t).lock),
            asleep: self.asleep,
            unsigned: self.unsigned,
        }
    }

    /// The world, seen from the masks of the pool.
    pub open spec fn pool(self) -> Pool {
        Pool {
            masks: self.masks,
            slots: Map::new(|t: int| self.traces.contains_key(t), |t: int| self.thread(t).slot),
        }
    }

    /// Whether thread `t` has the lock.
    pub open spec fn owns(self, t: int) -> bool {
        self.traces.contains_key(t) && has_lock(self.thread(t).lock)
    }

    /// The thread that has the lock.
    pub open spec fn holder(self) -> Option<int> {
        if exists|t: int| self.owns(t) {
            Some(choose|t: int| self.owns(t))
        } else {
            None
        }
    }

    /// The world, seen from the list.
    pub open spec fn queue(self) -> Queue {
        Queue {
            head: self.head,
            next: self.next,
            ready: self.ready,
            loaded: self.loaded,
            threads: Map::new(
                |t: int| self.traces.contains_key(t),
                |t: int| seen(self.thread(t)),
            ),
            holder: self.holder(),
            swept: self.swept,
        }
    }

    /// Nobody has done anything yet.
    pub open spec fn initial(self) -> bool {
        &&& self.word == UNLOCKED
        &&& self.asleep.is_empty()
        &&& self.masks == Seq::new(GROUPS as nat, |g: int| u8::MAX)
        &&& is_end(self.head)
        &&& forall|t: int| #[trigger]
            self.traces.contains_key(t) ==> self.traces[t] == Seq::<Event>::empty()
    }

    /// The trace of thread `t` grows by an event, those of the threads that are
    /// woken by their return from sleep, and no other.
    pub open spec fn grows(self, t: int, event: Event, woken: Set<int>, after: World) -> bool {
        &&& after.site == self.site
        &&& after.unsigned == self.unsigned
        &&& self.traces.contains_key(t)
        &&& woken.subset_of(self.asleep)
        &&& after.asleep == self.asleep.difference(woken)
        &&& after.traces.dom() == self.traces.dom()
        &&& forall|x: int| #[trigger]
            self.traces.contains_key(x) ==> {
                &&& run(after.traces[x]) is Some
                &&& if x == t {
                    after.traces[x] == self.traces[x].push(event)
                } else if woken.contains(x) {
                    exists|e: WordEvent| #[trigger]
                        is_wait(e) && after.traces[x] == self.traces[x].push(
                            self.site.word.event(e),
                        )
                } else {
                    after.traces[x] == self.traces[x]
                }
            }
    }

    /// Whether the kernel may wake these sleepers on this event.
    pub open spec fn is_woken(self, event: WordEvent, woken: Set<int>) -> bool {
        match event {
            WordEvent::Wake { count } => picks(self.asleep, count, self.unsigned, woken),
            WordEvent::WakeBitset { count, mask } => picks(
                self.futex().listeners(mask),
                count,
                self.unsigned,
                woken,
            ),
            _ => woken == Set::<int>::empty(),
        }
    }

    /// Thread `t` is awake and lets an event happen.
    pub open spec fn does(self, t: int, event: Event, woken: Set<int>, after: World) -> bool {
        &&& !self.asleep.contains(t)
        &&& self.grows(t, event, woken, after)
        &&& is_at(self.site, self.cells, event)
        &&& match event {
            Event::Word { event: e, .. } => {
                &&& self.is_woken(e, woken)
                // Who waits for its record and is told that it is marked has read
                // the mark.
                &&& e == (WordEvent::Poll { ready: true }) ==> (
                self.thread(t).record matches RecordPhase::Queued { index } ==> self.ready[index])
                &&& word_effect(self.word, e) == Some(after.word)
                &&& after == World {
                    word: after.word,
                    asleep: after.asleep,
                    traces: after.traces,
                    // Whoever gets the lock has not taken the list yet.
                    swept: self.swept && !(after.owns(t) && !self.owns(t)),
                    ..self
                }
            },
            Event::Waiter { .. } => {
                &&& woken == Set::<int>::empty()
                &&& after == World { asleep: after.asleep, traces: after.traces, ..self }
            },
            Event::Pool { event: e, .. } => {
                &&& woken == Set::<int>::empty()
                &&& mask_effect(self.masks, e) == Some(after.masks)
                &&& after == World {
                    masks: after.masks,
                    // What is in a slot that was written is no record that was
                    // set up, until it is.
                    cells: match e {
                        PoolEvent::Store { index } => self.cells.remove(index),
                        PoolEvent::Clear { index } => self.cells.remove(index),
                        _ => self.cells,
                    },
                    asleep: after.asleep,
                    traces: after.traces,
                    ..self
                }
            },
            Event::Queue { place, event: e } => {
                &&& woken == Set::<int>::empty()
                &&& self.queue().effect(e) matches Some(queue) && after == World {
                    head: queue.head,
                    next: queue.next,
                    ready: queue.ready,
                    loaded: queue.loaded,
                    swept: queue.swept,
                    cells: match e {
                        QueueEvent::Fill { index } => self.cells.insert(index, place->Record_0),
                        _ => self.cells,
                    },
                    asleep: after.asleep,
                    traces: after.traces,
                    ..self
                }
            },
        }
    }

    /// The kernel puts thread `t` to sleep.
    pub open spec fn sleeps(self, t: int, after: World) -> bool {
        &&& self.futex().sleeps(t, after.futex())
        &&& after == World { asleep: after.asleep, ..self }
    }

    /// Thread `t` wakes up for no reason that concerns the mutex.
    pub open spec fn stirs(self, t: int, event: WordEvent, after: World) -> bool {
        &&& self.asleep.contains(t)
        &&& is_wait(event)
        &&& self.grows(t, self.site.word.event(event), set![t], after)
        &&& after == World { asleep: after.asleep, traces: after.traces, ..self }
    }

    /// Something happens.
    pub open spec fn next(self, after: World) -> bool {
        ||| exists|t: int, event: Event, woken: Set<int>| #[trigger]
            self.does(t, event, woken, after)
        ||| exists|t: int| #[trigger] self.sleeps(t, after)
        ||| exists|t: int, event: WordEvent| #[trigger] self.stirs(t, event, after)
    }

    /// What every thread keeps to.
    pub open spec fn is_orderly(self, t: int) -> bool {
        &&& run(self.traces[t]) is Some
        &&& !is_lost(self.thread(t).lock)
        &&& is_on_its_way_out(self.thread(t).lock) ==> self.thread(t).is_at_rest()
    }

    /// What every thread that has a record in the list can rely on when it comes
    /// back: it has seen the mark, or has taken the list itself.
    pub open spec fn is_fair(self, t: int) -> bool {
        let thread = self.thread(t);
        &&& thread.has_swept() ==> thread.lock is Held && self.swept
        &&& thread.record matches RecordPhase::Queued { index } ==> {
            &&& !self.futex().waits_for_any(t)
            &&& is_back(thread.lock) ==> self.ready[index]
            &&& is_on_its_way_out(thread.lock) ==> self.swept
        }
    }

    /// All that the other files say of the word, of the masks and of the list
    /// holds.
    pub open spec fn is_sound(self) -> bool {
        &&& forall|t: int| #[trigger] self.traces.contains_key(t) ==> self.is_orderly(t)
        &&& forall|t: int| #[trigger] self.traces.contains_key(t) ==> self.is_fair(t)
        &&& self.futex().is_exclusive()
        &&& self.pool().is_sound()
        &&& self.queue().is_sound()
    }
}

/// The thread that has the lock is the only one, so it is the holder.
proof fn lemma_holder(world: World)
    requires
        world.futex().is_exclusive(),
    ensures
        forall|t: int| #[trigger] world.owns(t) <==> world.holder() == Some(t),
        forall|t: int| #[trigger] world.owns(t) <==> world.futex().owns(t),
        world.holder() is None <==> world.word == UNLOCKED,
{
    let futex = world.futex();
    assert forall|t: int| #[trigger] world.owns(t) <==> futex.owns(t) by {}
    assert forall|t: int| #[trigger] world.owns(t) <==> world.holder() == Some(t) by {
        if world.owns(t) {
            let x = choose|x: int| world.owns(x);
            assert(futex.owns(x) && futex.owns(t));
        }
    }
    if world.word != UNLOCKED {
        let t = choose|t: int| futex.owns(t);
        assert(world.owns(t));
    } else if world.holder() is Some {
        let t = choose|t: int| world.owns(t);
        assert(futex.owns(t));
    }
}

/// A trace that grows takes its thread where the event takes it.
proof fn lemma_grows(before: World, t: int, event: Event, woken: Set<int>, after: World, x: int)
    requires
        before.is_orderly(x),
        before.traces.contains_key(x),
        before.grows(t, event, woken, after),
    ensures
        after.traces.contains_key(x),
        x == t ==> step(before.thread(x), event) == Some(after.thread(x)),
        x != t && woken.contains(x) ==> {
            &&& resumes(before.thread(x).lock, after.thread(x).lock)
            &&& after.thread(x) == before.thread(x).moved(after.thread(x).lock)
        },
        x != t && !woken.contains(x) ==> after.thread(x) == before.thread(x),
        run(after.traces[x]) is Some,
{
    assert(before.traces.dom().contains(x));
    assert(after.traces.dom().contains(x));
    if x == t {
        lemma_run_push(before.traces[x], event);
    } else if woken.contains(x) {
        let e = choose|e: WordEvent| #[trigger]
            is_wait(e) && after.traces[x] == before.traces[x].push(before.site.word.event(e));
        lemma_run_push(before.traces[x], before.site.word.event(e));
        assert(word_step(before.thread(x).lock, e) == Some(after.thread(x).lock));
    }
}

/// Seen from the word, a trace that grows is a thread that goes elsewhere.
proof fn lemma_wakes(before: World, t: int, event: Event, woken: Set<int>, after: World)
    requires
        before.is_sound(),
        before.grows(t, event, woken, after),
    ensures
        before.futex().wakes(t, after.thread(t).lock, woken, after.futex()),
        forall|x: int| #[trigger]
            after.traces.contains_key(x) <==> before.traces.contains_key(x),
{
    let a = before.futex();
    let b = after.futex();
    assert forall|x: int| #[trigger] after.traces.contains_key(x) <==> before.traces.contains_key(
        x,
    ) by {
        assert(after.traces.dom().contains(x) <==> before.traces.dom().contains(x));
    }
    assert(b.phases.dom() =~= a.phases.dom());
    assert forall|x: int| #[trigger] a.phases.contains_key(x) implies if x == t {
        b.phases[x] == after.thread(t).lock
    } else if woken.contains(x) {
        resumes(a.phases[x], b.phases[x])
    } else {
        b.phases[x] == a.phases[x]
    } by {
        lemma_grows(before, t, event, woken, after, x);
    }
}

/// If no thread goes elsewhere with its slot, the pool does not notice.
proof fn lemma_pool_is_the_same(before: World, after: World)
    requires
        after.traces.dom() == before.traces.dom(),
        after.masks == before.masks,
        forall|x: int| #[trigger]
            before.traces.contains_key(x) ==> after.thread(x).slot == before.thread(x).slot,
    ensures
        after.pool() == before.pool(),
{
    assert forall|x: int| #[trigger] after.traces.contains_key(x) <==> before.traces.contains_key(
        x,
    ) by {
        assert(after.traces.dom().contains(x) <==> before.traces.dom().contains(x));
    }
    assert(after.pool().slots =~= before.pool().slots);
}

/// Seen from the list, one thread goes elsewhere.
proof fn lemma_threads_but_one(before: World, t: int, after: World)
    requires
        before.traces.contains_key(t),
        after.traces.dom() == before.traces.dom(),
        forall|x: int| #[trigger]
            before.traces.contains_key(x) && x != t ==> seen(after.thread(x)) == seen(
                before.thread(x),
            ),
    ensures
        after.queue().threads == before.queue().threads.insert(t, seen(after.thread(t))),
        seen(after.thread(t)) == seen(before.thread(t)) ==> after.queue().threads
            == before.queue().threads,
{
    assert forall|x: int| #[trigger] after.traces.contains_key(x) <==> before.traces.contains_key(
        x,
    ) by {
        assert(after.traces.dom().contains(x) <==> before.traces.dom().contains(x));
    }
    assert(after.queue().threads =~= before.queue().threads.insert(t, seen(after.thread(t))));
    if seen(after.thread(t)) == seen(before.thread(t)) {
        assert(after.queue().threads =~= before.queue().threads);
    }
}

/// Who has the lock follows from who has it in another world.
proof fn lemma_same_holder(before: World, after: World)
    requires
        before.futex().is_exclusive(),
        after.futex().is_exclusive(),
        forall|x: int| #[trigger] after.owns(x) == before.owns(x),
    ensures
        after.holder() == before.holder(),
{
    lemma_holder(before);
    lemma_holder(after);
    if before.holder() is Some {
        let x = before.holder()->0;
        assert(before.owns(x));
        assert(after.owns(x));
    } else if after.holder() is Some {
        let x = after.holder()->0;
        assert(after.owns(x));
        assert(before.owns(x));
    }
}

/// What an event at the word does to a world.
proof fn lemma_word(before: World, t: int, e: WordEvent, woken: Set<int>, after: World)
    requires
        before.is_sound(),
        before.does(t, before.site.word.event(e), woken, after),
    ensures
        after.is_sound(),
        before.futex().next(after.futex()),
        after.queue() == before.queue() || before.queue().enters(t, after.queue())
            || before.queue().leaves(t, after.queue()),
{
    let event = before.site.word.event(e);
    lemma_wakes(before, t, event, woken, after);
    lemma_grows(before, t, event, woken, after, t);
    law_event_moves_one_part(before.thread(t), event, after.thread(t));
    let a = before.futex();
    let b = after.futex();
    assert(a.does(t, e, b)) by {
        assert(a.phases[t] == before.thread(t).lock);
    }
    law_exclusion_is_kept(a, b);
    assert forall|x: int| before.traces.contains_key(x) && x != t implies #[trigger] after.thread(
        x,
    ) == before.thread(x).moved(after.thread(x).lock) && has_lock(after.thread(x).lock) == has_lock(
        before.thread(x).lock,
    ) && !is_lost(after.thread(x).lock) && (is_on_its_way_out(after.thread(x).lock)
        ==> is_on_its_way_out(before.thread(x).lock)) by {
        assert(before.is_orderly(x));
        lemma_grows(before, t, event, woken, after, x);
        if woken.contains(x) {
            assert(a.asleep.contains(x));
            assert(a.phases.contains_key(x));
        }
    }
    assert forall|x: int| #[trigger] after.traces.contains_key(x) implies after.is_orderly(x) by {
        assert(before.is_orderly(x));
        lemma_grows(before, t, event, woken, after, x);
        if x != t {
            assert(after.thread(x) == before.thread(x).moved(after.thread(x).lock));
        }
    }
    lemma_pool_is_the_same(before, after);
    lemma_threads_but_one(before, t, after);
    lemma_holder(before);
    lemma_holder(after);
    assert forall|x: int| x != t implies #[trigger] after.owns(x) == before.owns(x) by {
        if before.traces.contains_key(x) {
            assert(after.thread(x) == before.thread(x).moved(after.thread(x).lock));
        }
    }
    if after.owns(t) == before.owns(t) {
        lemma_same_holder(before, after);
        assert(after.queue() =~= before.queue());
    } else if after.owns(t) {
        assert(before.word == UNLOCKED);
        assert(after.queue() =~= (Queue {
            holder: Some(t),
            swept: false,
            ..before.queue()
        }).put(t, before.queue().threads[t].moved(Phase::Held)));
        assert(before.queue().enters(t, after.queue()));
        law_list_stays_sound(before.queue(), after.queue());
    } else {
        assert(before.is_orderly(t));
        assert(before.thread(t).lock is Releasing);
        assert(after.holder() is None) by {
            assert(after.word == UNLOCKED);
        }
        assert(after.queue() =~= (Queue { holder: None, ..before.queue() }).put(
            t,
            before.queue().threads[t].moved(Phase::Idle),
        ));
        assert(before.queue().leaves(t, after.queue()));
        law_list_stays_sound(before.queue(), after.queue());
    }
    lemma_fair(before, t, event, woken, after);
}

/// Threads can still rely on what they rely on when they come back.
proof fn lemma_fair(before: World, t: int, event: Event, woken: Set<int>, after: World)
    requires
        before.is_sound(),
        before.does(t, event, woken, after),
        after.futex().is_exclusive(),
        before.owns(t) && !after.owns(t) ==> before.queue().leaves(t, after.queue()),
    ensures
        forall|x: int| #[trigger] after.traces.contains_key(x) ==> after.is_fair(x),
{
    lemma_wakes(before, t, event, woken, after);
    assert(before.is_orderly(t) && before.is_fair(t));
    lemma_grows(before, t, event, woken, after, t);
    lemma_holder(before);
    lemma_holder(after);
    assert forall|x: int| #[trigger] after.traces.contains_key(x) implies after.is_fair(x) by {
        assert(before.is_orderly(x) && before.is_fair(x));
        lemma_grows(before, t, event, woken, after, x);
        if x != t {
            if woken.contains(x) {
                assert(before.futex().asleep.contains(x));
                assert(before.futex().phases.contains_key(x));
            }
            // Nobody else gets the lock while it has it.
            if has_lock(before.thread(x).lock) {
                assert(after.owns(x) && before.owns(x));
                assert(!(after.owns(t) && !before.owns(t)));
            }
            if let Event::Queue { event: QueueEvent::Fill { index }, .. } = event {
                lemma_fill_is_apart(before, t, index, x);
            }
        } else {
            law_event_moves_one_part(before.thread(t), event, after.thread(t));
            if let RecordPhase::Queued { index } = after.thread(t).record {
                if before.owns(t) && !after.owns(t) {
                    assert(before.queue().awaits(t, index));
                    law_sweeper_is_served(before.queue(), t, after.queue(), index);
                }
            }
        }
    }
}

/// What a return from sleep, or an event at a waiter, does to a world: only
/// where threads stand with the mutex changes, and nobody gets or loses it.
proof fn lemma_elsewhere(before: World, t: int, event: Event, woken: Set<int>, after: World)
    requires
        before.is_sound(),
        before.grows(t, event, woken, after),
        event is Word || event is Waiter,
        before.futex().next(after.futex()),
        after == (World { asleep: after.asleep, traces: after.traces, ..before }),
        !has_lock(after.thread(t).lock) || after.thread(t).lock == before.thread(t).lock,
        !has_lock(before.thread(t).lock) || after.thread(t).lock == before.thread(t).lock,
        !is_lost(after.thread(t).lock),
        forall|x: int| #[trigger] after.traces.contains_key(x) ==> after.is_fair(x),
        after.thread(t) == before.thread(t).moved(after.thread(t).lock),
    ensures
        after.is_sound(),
        after.queue() == before.queue(),
{
    let a = before.futex();
    lemma_wakes(before, t, event, woken, after);
    law_exclusion_is_kept(a, after.futex());
    assert forall|x: int| before.traces.contains_key(x) implies #[trigger] after.thread(x)
        == before.thread(x).moved(after.thread(x).lock) && has_lock(after.thread(x).lock)
        == has_lock(before.thread(x).lock) && after.is_orderly(x) by {
        assert(before.is_orderly(x));
        lemma_grows(before, t, event, woken, after, x);
        if x != t && woken.contains(x) {
            assert(a.asleep.contains(x));
            assert(a.phases.contains_key(x));
        }
    }
    assert forall|x: int| #[trigger] after.traces.contains_key(x) implies after.is_orderly(x) by {
        assert(after.thread(x) == before.thread(x).moved(after.thread(x).lock));
    }
    lemma_pool_is_the_same(before, after);
    lemma_threads_but_one(before, t, after);
    assert forall|x: int| #[trigger] after.owns(x) == before.owns(x) by {
        if before.traces.contains_key(x) {
            assert(after.thread(x) == before.thread(x).moved(after.thread(x).lock));
        }
    }
    lemma_same_holder(before, after);
    assert(after.queue() =~= before.queue());
}

/// If no thread goes elsewhere with the mutex, the word does not notice.
proof fn lemma_futex_is_the_same(before: World, after: World)
    requires
        after.traces.dom() == before.traces.dom(),
        after.word == before.word,
        after.asleep == before.asleep,
        after.unsigned == before.unsigned,
        forall|x: int| #[trigger]
            before.traces.contains_key(x) ==> after.thread(x).lock == before.thread(x).lock,
    ensures
        after.futex() == before.futex(),
        after.holder() == before.holder() || !before.futex().is_exclusive(),
{
    assert forall|x: int| #[trigger] after.traces.contains_key(x) <==> before.traces.contains_key(
        x,
    ) by {
        assert(after.traces.dom().contains(x) <==> before.traces.dom().contains(x));
    }
    assert(after.futex().phases =~= before.futex().phases);
    assert(after.futex() == before.futex());
    if before.futex().is_exclusive() {
        assert forall|x: int| #[trigger] after.owns(x) == before.owns(x) by {
            if before.traces.contains_key(x) {
                assert(after.thread(x).lock == before.thread(x).lock);
            }
        }
        lemma_same_holder(before, after);
    }
}

/// What an event that one thread lets happen, and that is not at the mutex,
/// leaves as it was.
proof fn lemma_others(before: World, t: int, event: Event, after: World)
    requires
        before.is_sound(),
        before.does(t, event, Set::empty(), after),
        event is Pool || event is Queue,
    ensures
        step(before.thread(t), event) == Some(after.thread(t)),
        forall|x: int|
            before.traces.contains_key(x) && x != t ==> #[trigger] after.thread(x)
                == before.thread(x),
        forall|x: int| #[trigger]
            before.traces.contains_key(x) ==> after.thread(x).lock == before.thread(x).lock,
        after.futex() == before.futex(),
        after.holder() == before.holder(),
        forall|x: int| #[trigger]
            after.traces.contains_key(x) <==> before.traces.contains_key(x),
{
    lemma_wakes(before, t, event, Set::empty(), after);
    lemma_grows(before, t, event, Set::empty(), after, t);
    law_event_moves_one_part(before.thread(t), event, after.thread(t));
    assert(after.asleep =~= before.asleep);
    assert forall|x: int| before.traces.contains_key(x) && x != t implies #[trigger] after.thread(x)
        == before.thread(x) by {
        assert(before.is_orderly(x));
        lemma_grows(before, t, event, Set::empty(), after, x);
    }
    assert forall|x: int| #[trigger] before.traces.contains_key(x) implies after.thread(x).lock
        == before.thread(x).lock by {
        if x != t {
            assert(after.thread(x) == before.thread(x));
        }
    }
    lemma_futex_is_the_same(before, after);
}

/// What an event at the masks does to a world.
proof fn lemma_pool(before: World, t: int, e: PoolEvent, after: World)
    requires
        before.is_sound(),
        before.does(t, before.site.masks.event(e), Set::empty(), after),
    ensures
        after.is_sound(),
        after.futex() == before.futex(),
        ({
            ||| after.queue() == before.queue()
            ||| exists|index: u8| #[trigger] before.queue().claims(t, index, after.queue())
            ||| before.queue().returns_slot(t, after.queue())
        }),
{
    let event = before.site.masks.event(e);
    lemma_others(before, t, event, after);
    law_event_moves_one_part(before.thread(t), event, after.thread(t));
    let a = before.pool();
    let b = after.pool();
    assert(a.does(t, e, b)) by {
        assert(b.slots =~= a.slots.insert(t, after.thread(t).slot));
    }
    law_slots_stay_sound(a, b);
    assert forall|x: int| #[trigger] after.traces.contains_key(x) implies after.is_orderly(x) by {
        assert(before.is_orderly(x));
        if x != t {
            assert(after.thread(x) == before.thread(x));
        }
        lemma_grows(before, t, event, Set::empty(), after, x);
    }
    lemma_threads_but_one(before, t, after);
    match e {
        PoolEvent::CompareExchange { group, current, new, success } if success => {
            law_lowest_slot_is_claimed(a, t, group, current, new, b);
            let index = slot_of(after.thread(t).slot)->0;
            assert(b.owns(t, index));
            assert forall|x: int| !before.queue().owns(x, index) by {
                if before.queue().owns(x, index) {
                    assert(before.traces.contains_key(x));
                    assert(a.owns(x, index));
                }
            }
            assert(after.queue() =~= before.queue().put(
                t,
                before.queue().threads[t].with(SlotPhase::Owns { index }),
            ));
            assert(before.queue().claims(t, index, after.queue()));
            law_list_stays_sound(before.queue(), after.queue());
        },
        PoolEvent::FetchOr { .. } => {
            assert(after.queue() =~= before.queue().put(t, seen(after.thread(t))));
            assert(before.queue().returns_slot(t, after.queue()));
            law_list_stays_sound(before.queue(), after.queue());
        },
        _ => {
            assert(seen(after.thread(t)) == seen(before.thread(t)));
            assert(after.queue() =~= before.queue());
        },
    }
    lemma_fair(before, t, event, Set::empty(), after);
}

/// What an event at the list does to a world.
proof fn lemma_list(before: World, t: int, place: Place, e: QueueEvent, after: World)
    requires
        before.is_sound(),
        before.does(t, Event::Queue { place, event: e }, Set::empty(), after),
    ensures
        after.is_sound(),
        after.futex() == before.futex(),
        before.queue().does(t, e, after.queue()),
{
    let event = Event::Queue { place, event: e };
    lemma_others(before, t, event, after);
    law_event_moves_one_part(before.thread(t), event, after.thread(t));
    assert(before.is_orderly(t) && before.is_fair(t));
    lemma_no_mark_is_missed(before, t);
    let view = queue_step(seen(before.thread(t)), e);
    assert(view == Some(seen(after.thread(t))));
    assert(before.queue().threads[t] == seen(before.thread(t)));
    lemma_threads_but_one(before, t, after);
    assert(before.queue().does(t, e, after.queue())) by {
        assert(after.queue() =~= before.queue().effect(e)->0.put(t, seen(after.thread(t))));
    }
    law_list_stays_sound(before.queue(), after.queue());
    assert forall|x: int| #[trigger] before.traces.contains_key(x) implies after.thread(x).slot
        == before.thread(x).slot by {
        if x != t {
            assert(after.thread(x) == before.thread(x));
        }
    }
    lemma_pool_is_the_same(before, after);
    assert forall|x: int| #[trigger] after.traces.contains_key(x) implies after.is_orderly(x) by {
        assert(before.is_orderly(x));
        if x != t {
            assert(after.thread(x) == before.thread(x));
        }
        lemma_grows(before, t, event, Set::empty(), after, x);
    }
    lemma_fair(before, t, event, Set::empty(), after);
}

/// No thread has come back and found its record unmarked.
proof fn lemma_no_mark_is_missed(world: World, t: int)
    requires
        world.is_sound(),
        world.traces.contains_key(t),
    ensures
        !(world.thread(t).record is Missed),
{
    reveal(Queue::is_sound);
    let queue = world.queue();
    let (stack, rest) = choose|stack: Seq<u8>, rest: Seq<u8>| #[trigger]
        queue.is_arranged(stack, rest);
    assert(queue.threads.contains_key(t));
    assert(queue.fits(queue.threads[t].record));
}

/// Nobody is let down: a thread that has come back, because it was told that its
/// record is marked or because it got the lock, finds its record marked.
pub proof fn law_nobody_is_let_down(
    before: World,
    t: int,
    mark: Mark,
    index: u8,
    ready: bool,
    after: World,
)
    requires
        before.is_sound(),
        before.does(t, mark.event(QueueEvent::LoadReady { index, ready }), Set::empty(), after),
    ensures
        ready,
        after.thread(t).record == (RecordPhase::Finished { index }),
        forall|x: int| #[trigger]
            before.traces.contains_key(x) ==> !(before.thread(x).record is Missed),
{
    let event = mark.event(QueueEvent::LoadReady { index, ready });
    assert(before.is_orderly(t) && before.is_fair(t));
    lemma_grows(before, t, event, Set::empty(), after, t);
    assert forall|x: int| #[trigger] before.traces.contains_key(x) implies !(before.thread(
        x,
    ).record is Missed) by {
        lemma_no_mark_is_missed(before, x);
    }
}

/// Whatever one thread does next, the word, the masks and the list stay as the
/// other files say, and nothing happens at the word that is not known there.
pub proof fn law_world_stays_sound(before: World, after: World)
    requires
        before.is_sound(),
        before.next(after),
    ensures
        after.is_sound(),
        after.futex() == before.futex() || before.futex().next(after.futex()),
{
    if exists|t: int, event: Event, woken: Set<int>| #[trigger]
        before.does(t, event, woken, after) {
        let (t, event, woken) = choose|t: int, event: Event, woken: Set<int>| #[trigger]
            before.does(t, event, woken, after);
        match event {
            Event::Word { event: e, .. } => {
                lemma_word(before, t, e, woken, after);
            },
            Event::Waiter { event: e, .. } => {
                lemma_waiter(before, t, event, e, after);
            },
            Event::Pool { event: e, .. } => {
                lemma_pool(before, t, e, after);
            },
            Event::Queue { place, event: e } => {
                lemma_list(before, t, place, e, after);
            },
        }
    } else if exists|t: int| #[trigger] before.sleeps(t, after) {
        let t = choose|t: int| #[trigger] before.sleeps(t, after);
        lemma_sleeps(before, t, after);
    } else {
        let (t, event) = choose|t: int, event: WordEvent| #[trigger]
            before.stirs(t, event, after);
        lemma_stirs(before, t, event, after);
    }
}

/// What an event at a waiter does to a world.
proof fn lemma_waiter(before: World, t: int, event: Event, e: WaiterEvent, after: World)
    requires
        before.is_sound(),
        before.does(t, event, Set::empty(), after),
        event matches Event::Waiter { event: own, .. } && own == e,
    ensures
        after.is_sound(),
        before.futex().next(after.futex()),
        after.queue() == before.queue(),
{
    lemma_wakes(before, t, event, Set::empty(), after);
    assert(before.is_orderly(t));
    lemma_grows(before, t, event, Set::empty(), after, t);
    law_event_moves_one_part(before.thread(t), event, after.thread(t));
    assert(before.futex().asks(t, e, after.futex())) by {
        assert(before.futex().phases[t] == before.thread(t).lock);
    }
    law_exclusion_is_kept(before.futex(), after.futex());
    lemma_fair(before, t, event, Set::empty(), after);
    lemma_elsewhere(before, t, event, Set::empty(), after);
}

/// What falling asleep does to a world.
proof fn lemma_sleeps(before: World, t: int, after: World)
    requires
        before.is_sound(),
        before.sleeps(t, after),
    ensures
        after.is_sound(),
        before.futex().next(after.futex()),
        after.queue() == before.queue(),
{
    law_exclusion_is_kept(before.futex(), after.futex());
    assert forall|x: int| #[trigger] after.traces.contains_key(x) implies after.is_orderly(x) by {
        assert(before.is_orderly(x));
        assert(after.thread(x) == before.thread(x));
    }
    lemma_pool_is_the_same(before, after);
    assert forall|x: int| #[trigger] after.owns(x) == before.owns(x) by {}
    lemma_same_holder(before, after);
    assert(after.queue().threads =~= before.queue().threads);
    assert(after.queue() =~= before.queue());
}

/// What waking up for no reason does to a world.
proof fn lemma_stirs(before: World, t: int, e: WordEvent, after: World)
    requires
        before.is_sound(),
        before.stirs(t, e, after),
    ensures
        after.is_sound(),
        before.futex().next(after.futex()),
        after.queue() == before.queue(),
{
    let event = before.site.word.event(e);
    lemma_wakes(before, t, event, set![t], after);
    assert(before.is_orderly(t));
    lemma_grows(before, t, event, set![t], after, t);
    law_event_moves_one_part(before.thread(t), event, after.thread(t));
    let a = before.futex();
    assert(a.phases.contains_key(t) && a.phases[t] == before.thread(t).lock);
    assert(after.futex().phases[t] == after.thread(t).lock) by {
        assert(after.traces.contains_key(t));
    }
    assert(word_step(before.thread(t).lock, e) == Some(after.thread(t).lock));
    assert(resumes(before.thread(t).lock, after.thread(t).lock));
    assert(a.stirs(t, after.futex()));
    assert forall|x: int| #[trigger] after.traces.contains_key(x) implies after.is_fair(x) by {
        assert(before.is_orderly(x) && before.is_fair(x));
        lemma_grows(before, t, event, set![t], after, x);
    }
    lemma_elsewhere(before, t, event, set![t], after);
}

/// A run of the world: nobody has done anything at first, and one thing happens
/// at a time.
pub open spec fn is_execution(worlds: Seq<World>) -> bool {
    &&& worlds.len() > 0
    &&& worlds[0].initial()
    &&& forall|i: int| 0 <= i < worlds.len() - 1 ==> (#[trigger] worlds[i]).next(worlds[i + 1])
}

/// However the traces of any number of threads interleave, no two threads have
/// the lock, no two threads own one slot, and every record that a thread waits
/// for is in the list, or being dealt with, or done.
pub proof fn law_traces_are_safe(worlds: Seq<World>, i: int)
    requires
        is_execution(worlds),
        0 <= i < worlds.len(),
    ensures
        worlds[i].is_sound(),
        forall|a: int, b: int| #[trigger]
            worlds[i].owns(a) && #[trigger] worlds[i].owns(b) ==> a == b,
        forall|a: int, b: int, index: u8| #[trigger]
            worlds[i].pool().owns(a, index) && #[trigger] worlds[i].pool().owns(b, index) ==> a
                == b,
    decreases i,
{
    if i > 0 {
        law_traces_are_safe(worlds, i - 1);
        assert(worlds[i - 1].next(worlds[i - 1 + 1]));
        law_world_stays_sound(worlds[i - 1], worlds[i]);
    } else {
        lemma_initial(worlds[0]);
    }
    lemma_holder(worlds[i]);
}

/// However the traces of any number of threads interleave, nobody who sleeps is
/// forgotten, as long as no thread waits for a waiter besides.
pub proof fn law_traces_lose_no_wake_up(worlds: Seq<World>, i: int)
    requires
        is_execution(worlds),
        0 <= i < worlds.len(),
        forall|j: int, t: int|
            0 <= j < worlds.len() ==> !#[trigger] worlds[j].futex().waits_for_any(t),
    ensures
        worlds[i].futex().is_attended(),
    decreases i,
{
    if i > 0 {
        law_traces_lose_no_wake_up(worlds, i - 1);
        law_traces_are_safe(worlds, i - 1);
        assert(worlds[i - 1].next(worlds[i - 1 + 1]));
        law_world_stays_sound(worlds[i - 1], worlds[i]);
        if worlds[i].futex() != worlds[i - 1].futex() {
            law_attention_is_kept(worlds[i - 1].futex(), worlds[i].futex());
        }
    }
}

/// A world in which nobody has done anything is as the other files say.
proof fn lemma_initial(world: World)
    requires
        world.initial(),
    ensures
        world.is_sound(),
{
    assert forall|t: int| #[trigger] world.traces.contains_key(t) implies world.thread(t)
        == Thread::start() && world.is_orderly(t) by {}
    assert forall|t: int| !world.owns(t) by {}
    assert(world.futex().initial());
    assert(world.futex().is_exclusive());
    assert(world.pool().initial());
    let pools = seq![world.pool()];
    assert(crate::flat_combining::laws::pool::is_execution(pools));
    crate::flat_combining::laws::pool::law_slots_are_exclusive(pools, 0);
    let queue = world.queue();
    assert(queue.initial()) by {
        assert forall|t: int| #[trigger] queue.threads.contains_key(t) implies queue.threads[t]
            == Thread::start() by {
            assert(world.thread(t) == Thread::start());
        }
    }
    let queues = seq![queue];
    assert(crate::flat_combining::laws::queue::is_execution(queues));
    crate::flat_combining::laws::queue::law_no_record_is_lost(queues, 0);
}

/// When nobody is in the middle of an operation, everything is as it was at
/// first: the lock is free, every slot is available, and the list is empty.
pub proof fn law_rest_is_as_at_first(world: World)
    requires
        world.is_sound(),
        forall|t: int| #[trigger] world.traces.contains_key(t) ==> is_free(world.thread(t)),
    ensures
        world.word == UNLOCKED,
        forall|index: u8| index < CAPACITY ==> #[trigger] world.pool().is_available(index),
        is_end(world.head),
{
    assert forall|t: int| !world.futex().owns(t) by {
        if world.futex().owns(t) {
            assert(world.traces.contains_key(t));
        }
    }
    assert forall|index: u8| index < CAPACITY implies #[trigger] world.pool().is_available(index) by {
        if !world.pool().is_available(index) {
            let t = choose|t: int| world.pool().owns(t, index);
            assert(world.traces.contains_key(t));
        }
    }
    let queue = world.queue();
    reveal(Queue::is_sound);
    let (stack, rest) = choose|stack: Seq<u8>, rest: Seq<u8>| #[trigger]
        queue.is_arranged(stack, rest);
    if stack.len() > 0 {
        assert(stack.contains(stack[0]));
        let t = choose|t: int| queue.awaits(t, stack[0]);
        assert(queue.awaits(t, stack[0]));
        assert(world.traces.contains_key(t));
    }
}

/// However the traces of any number of threads interleave: when every call has
/// returned, which leaves its thread free, everything is as it was at first.
pub proof fn law_finished_calls_leave_nothing(worlds: Seq<World>, i: int)
    requires
        is_execution(worlds),
        0 <= i < worlds.len(),
        forall|t: int| #[trigger]
            worlds[i].traces.contains_key(t) ==> is_free(worlds[i].thread(t)),
    ensures
        worlds[i].word == UNLOCKED,
        forall|index: u8| index < CAPACITY ==> #[trigger] worlds[i].pool().is_available(index),
        is_end(worlds[i].head),
{
    law_traces_are_safe(worlds, i);
    law_rest_is_as_at_first(worlds[i]);
}

/// What becomes of the operations follows from the traces: each event at the
/// list is one that the history of the operations knows, and the rest is the
/// lock or a slot that changes hands, if anything.
pub proof fn law_history_follows_the_traces<V>(
    act: spec_fn(int, V) -> V,
    history: History<V>,
    before: World,
    t: int,
    event: Event,
    woken: Set<int>,
    after: World,
) -> (next: History<V>)
    requires
        before.is_sound(),
        before.does(t, event, woken, after),
        history.queue == before.queue(),
    ensures
        next.queue == after.queue(),
        match event {
            Event::Queue { event: e, .. } => history.does(act, t, e, next),
            _ => history.passes(next) || next == history,
        },
{
    match event {
        Event::Word { event: e, .. } => {
            lemma_word(before, t, e, woken, after);
            History { queue: after.queue(), ..history }
        },
        Event::Waiter { event: e, .. } => {
            lemma_waiter(before, t, event, e, after);
            history
        },
        Event::Pool { event: e, .. } => {
            lemma_pool(before, t, e, after);
            History { queue: after.queue(), ..history }
        },
        Event::Queue { place, event: e } => {
            lemma_list(before, t, place, e, after);
            match e {
                QueueEvent::Fill { index } => History {
                    queue: after.queue(),
                    ops: history.ops.insert(index, history.handed),
                    handed: history.handed + 1,
                    ..history
                },
                QueueEvent::Run { index, found } => History {
                    queue: after.queue(),
                    ..if found {
                        history.applied(act, history.ops[index])
                    } else {
                        history
                    }
                },
                QueueEvent::Apply => History {
                    queue: after.queue(),
                    handed: history.handed + 1,
                    ..history.applied(act, history.handed)
                },
                _ => History { queue: after.queue(), ..history },
            }
        },
    }
}

/// A trace that grows by an event at the list tells who let it happen.
proof fn lemma_who_did_it(
    before: World,
    after: World,
    t: int,
    event: Event,
    woken: Set<int>,
    x: int,
    other: Event,
    roused: Set<int>,
)
    requires
        before.does(t, event, woken, after),
        before.does(x, other, roused, after),
        event is Queue,
    ensures
        x == t,
        other == event,
{
    assert(before.traces.contains_key(t));
    assert(after.traces[t] == before.traces[t].push(event));
    assert(after.traces[t].last() == event);
    if x != t {
        assert(after.traces[t].len() != before.traces[t].len());
    } else {
        assert(after.traces[t].last() == other);
    }
}

/// However the traces of any number of threads interleave, there is a history of
/// the operations that goes with them, step by step: what [`law_value_is_replayed`]
/// and [`law_order_of_time_is_kept`] say of histories holds of the traces.
///
/// [`law_value_is_replayed`]: crate::flat_combining::laws::history::law_value_is_replayed
/// [`law_order_of_time_is_kept`]: crate::flat_combining::laws::history::law_order_of_time_is_kept
pub proof fn law_traces_have_a_history<V>(
    act: spec_fn(int, V) -> V,
    first: V,
    worlds: Seq<World>,
) -> (states: Seq<History<V>>)
    requires
        is_execution(worlds),
    ensures
        states.len() == worlds.len(),
        history::is_execution(act, first, states),
        forall|i: int| 0 <= i < worlds.len() ==> (#[trigger] states[i]).queue == worlds[i].queue(),
        forall|i: int, t: int, place: Place, e: QueueEvent|
            0 <= i < worlds.len() - 1 && #[trigger] worlds[i].does(
                t,
                Event::Queue { place, event: e },
                Set::empty(),
                worlds[i + 1],
            ) ==> states[i].does(act, t, e, states[i + 1]),
    decreases worlds.len(),
{
    if worlds.len() == 1 {
        lemma_initial(worlds[0]);
        let queue = worlds[0].queue();
        assert(queue.initial()) by {
            assert forall|t: int| #[trigger] queue.threads.contains_key(t) implies queue.threads[t]
                == Thread::start() by {
                assert(worlds[0].thread(t) == Thread::start());
            }
            lemma_holder(worlds[0]);
        }
        let state = History { queue, ops: Map::empty(), handed: 0, log: Seq::empty(), value: first };
        seq![state]
    } else {
        let n = worlds.len() - 1;
        let earlier = worlds.drop_last();
        assert forall|i: int| 0 <= i < earlier.len() - 1 implies (#[trigger] earlier[i]).next(
            earlier[i + 1],
        ) by {
            assert(worlds[i].next(worlds[i + 1]));
        }
        let states = law_traces_have_a_history(act, first, earlier);
        let before = worlds[n - 1];
        let after = worlds[n];
        let state = states[n - 1];
        law_traces_are_safe(worlds, n - 1);
        assert(worlds[n - 1].next(worlds[n - 1 + 1]));
        assert(state.queue == before.queue());
        let next = if exists|t: int, event: Event, woken: Set<int>| #[trigger]
            before.does(t, event, woken, after) {
            let (t, event, woken) = choose|t: int, event: Event, woken: Set<int>| #[trigger]
                before.does(t, event, woken, after);
            law_history_follows_the_traces(act, state, before, t, event, woken, after)
        } else if exists|t: int| #[trigger] before.sleeps(t, after) {
            lemma_sleeps(before, choose|t: int| #[trigger] before.sleeps(t, after), after);
            state
        } else {
            let (t, event) = choose|t: int, event: WordEvent| #[trigger]
                before.stirs(t, event, after);
            lemma_stirs(before, t, event, after);
            state
        };
        assert(next.queue == after.queue());
        assert(state.next(act, next));
        let all = states.push(next);
        assert forall|i: int| 0 <= i < all.len() - 1 implies (#[trigger] all[i]).next(
            act,
            all[i + 1],
        ) by {
            if i < n - 1 {
                assert(states[i].next(act, states[i + 1]));
            }
        }
        assert forall|i: int| 0 <= i < worlds.len() implies (#[trigger] all[i]).queue
            == worlds[i].queue() by {
            if i < n {
                assert(states[i].queue == earlier[i].queue());
            }
        }
        assert forall|i: int, t: int, place: Place, e: QueueEvent|
            0 <= i < worlds.len() - 1 && #[trigger] worlds[i].does(
                t,
                Event::Queue { place, event: e },
                Set::empty(),
                worlds[i + 1],
            ) implies all[i].does(act, t, e, all[i + 1]) by {
            if i < n - 1 {
                assert(earlier[i].does(
                    t,
                    Event::Queue { place, event: e },
                    Set::empty(),
                    earlier[i + 1],
                ));
            } else {
                let (x, other, roused) = choose|x: int, other: Event, roused: Set<int>| #[trigger]
                    before.does(x, other, roused, after);
                lemma_who_did_it(
                    before,
                    after,
                    t,
                    Event::Queue { place, event: e },
                    Set::empty(),
                    x,
                    other,
                    roused,
                );
            }
        }
        all
    }
}

/// Whether what a thread does to a record it does to the cells of the record in
/// that slot.
pub open spec fn is_true_to_cells(world: World, t: int) -> bool {
    let thread = world.thread(t);
    &&& thread.slot is Claimed ==> thread.record is Absent
    &&& thread.slot is Owns ==> (record_of(thread.record) matches Some(index)
        ==> world.cells.contains_key(index) && thread.at.own == Some(world.cells[index]))
    &&& match thread.walk {
        WalkPhase::Ran { index, .. } => world.cells.contains_key(index)
            && thread.at.visited.len() > 0 && thread.at.visited.last() == world.cells[index],
        WalkPhase::Leaving { index, .. } => world.cells.contains_key(index)
            && thread.at.visited.len() > 0 && thread.at.visited.last() == world.cells[index],
        _ => true,
    }
}

/// Whoever deals with the record in a slot, its owner or a thread that runs it,
/// works on the same cells, whatever happens next.
pub proof fn law_cells_are_shared(before: World, after: World)
    requires
        before.is_sound(),
        before.next(after),
        forall|t: int| #[trigger] before.traces.contains_key(t) ==> is_true_to_cells(before, t),
    ensures
        forall|t: int| #[trigger] after.traces.contains_key(t) ==> is_true_to_cells(after, t),
{
    assert forall|x: int| #[trigger] after.traces.contains_key(x) implies is_true_to_cells(
        after,
        x,
    ) by {
        if exists|t: int, event: Event, woken: Set<int>| #[trigger]
            before.does(t, event, woken, after) {
            let (t, event, woken) = choose|t: int, event: Event, woken: Set<int>| #[trigger]
                before.does(t, event, woken, after);
            assert(before.traces.dom().contains(x));
            assert(before.is_orderly(x) && before.is_orderly(t));
            assert(is_true_to_cells(before, x));
            lemma_grows(before, t, event, woken, after, x);
            if x == t {
                law_event_moves_one_part(before.thread(t), event, after.thread(t));
            }
            lemma_grows(before, t, event, woken, after, t);
            assert(is_true_to_cells(before, t));
            match event {
                Event::Queue { event: QueueEvent::Fill { index }, .. } => {
                    lemma_fill_is_apart(before, t, index, x);
                },
                Event::Pool { event: PoolEvent::Store { index }, .. } => {
                    lemma_fill_is_apart(before, t, index, x);
                },
                Event::Pool { event: PoolEvent::Clear { index }, .. } => {
                    lemma_fill_is_apart(before, t, index, x);
                },
                Event::Pool { event: PoolEvent::CompareExchange { .. }, .. } => {
                    lemma_no_slot_no_record(before, t);
                },
                _ => {},
            }
        } else if exists|t: int| #[trigger] before.sleeps(t, after) {
            assert(is_true_to_cells(before, x));
        } else {
            let (t, e) = choose|t: int, e: WordEvent| #[trigger] before.stirs(t, e, after);
            assert(before.traces.dom().contains(x));
            assert(before.is_orderly(x));
            assert(is_true_to_cells(before, x));
            lemma_grows(before, t, before.site.word.event(e), set![t], after, x);
            if x == t {
                law_event_moves_one_part(
                    before.thread(t),
                    before.site.word.event(e),
                    after.thread(t),
                );
            }
        }
    }
}

/// Nobody else has to do with what is in the slot of a thread that waits for no
/// record.
proof fn lemma_fill_is_apart(world: World, t: int, index: u8, x: int)
    requires
        world.is_sound(),
        world.traces.contains_key(t),
        world.traces.contains_key(x),
        !(world.thread(t).record is Queued),
        slot_of(world.thread(t).slot) == Some(index),
    ensures
        x != t ==> record_of(world.thread(x).record) != Some(index),
        world.thread(x).walk matches WalkPhase::Ran { index: i, .. } ==> i != index,
        world.thread(x).walk matches WalkPhase::Leaving { index: i, .. } ==> i != index,
{
    let queue = world.queue();
    reveal(Queue::is_sound);
    let (stack, rest) = choose|stack: Seq<u8>, rest: Seq<u8>| #[trigger]
        queue.is_arranged(stack, rest);
    assert(queue.owns(t, index));
    assert(queue.threads.contains_key(x));
    if record_of(world.thread(x).record) == Some(index) {
        assert(queue.owns(x, index));
    }
    let walk = world.thread(x).walk;
    if walk is Ran || walk is Leaving {
        assert(queue.holder == Some(x));
        assert(rest.contains(rest[0]));
        let y = choose|y: int| queue.awaits(y, rest[0]);
        assert(queue.awaits(y, rest[0]));
        assert(queue.threads.contains_key(y));
        assert(queue.owns(y, rest[0]));
    }
}

/// A thread without a slot has no record.
proof fn lemma_no_slot_no_record(world: World, t: int)
    requires
        world.is_sound(),
        world.traces.contains_key(t),
        slot_of(world.thread(t).slot) is None,
    ensures
        world.thread(t).record is Absent,
{
    reveal(Queue::is_sound);
    let queue = world.queue();
    let (stack, rest) = choose|stack: Seq<u8>, rest: Seq<u8>| #[trigger]
        queue.is_arranged(stack, rest);
    assert(queue.threads.contains_key(t));
    if let Some(index) = record_of(world.thread(t).record) {
        assert(queue.owns(t, index));
    }
}

} // verus!

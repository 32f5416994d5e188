//! Any number of threads at the list of records, one of which has the lock.

use vstd::prelude::*;
use vstd::set_lib::{lemma_int_range, lemma_len_subset, set_int_range};

use crate::flat_combining::memory::event::QueueEvent;
use crate::flat_combining::memory::list::END;
use crate::flat_combining::protocol::{
    has_access, is_end, is_over, outside, queue_step, wake_bit, wake_bits, Phase, RecordPhase,
    SlotPhase, Thread, WalkPhase, CAPACITY,
};

verus! {

/// The list, the records in the slots of the pool, and the threads.
#[verifier::ext_equal]
pub struct Queue {
    /// The head of the list.
    pub head: u8,
    /// The link of each record.
    pub next: Map<u8, u8>,
    /// Which records are marked as done.
    pub ready: Map<u8, bool>,
    /// Which records hold an operation that waits to be run.
    pub loaded: Map<u8, bool>,
    /// The threads.
    pub threads: Map<int, Thread>,
    /// The thread that has the lock.
    pub holder: Option<int>,
    /// Whether it has taken the list since it got the lock.
    pub swept: bool,
}

/// Whether a list that starts with the link `from` has these records.
pub open spec fn links(next: Map<u8, u8>, from: u8, records: Seq<u8>) -> bool {
    &&& if records.len() == 0 {
        is_end(from)
    } else {
        from == records[0]
    }
    &&& forall|k: int|
        0 <= k < records.len() ==> !is_end(#[trigger] records[k]) && if k + 1 < records.len() {
            next[records[k]] == records[k + 1]
        } else {
            is_end(next[records[k]])
        }
}

/// Whether these records, some done and some not, are different ones.
pub open spec fn are_distinct(done: Seq<u8>, rest: Seq<u8>) -> bool {
    &&& (done + rest).no_duplicates()
    &&& forall|k: int| 0 <= k < done.len() ==> !is_end(#[trigger] done[k])
}

/// The record that a thread is concerned with.
pub open spec fn record_of(record: RecordPhase) -> Option<u8> {
    match record {
        RecordPhase::Absent => None,
        RecordPhase::Filled { index, .. } => Some(index),
        RecordPhase::Linking { index, .. } => Some(index),
        RecordPhase::Linked { index, .. } => Some(index),
        RecordPhase::Queued { index } => Some(index),
        RecordPhase::Finished { index } => Some(index),
        RecordPhase::Missed { index } => Some(index),
    }
}

/// Whether a thread neither has the lock nor runs records.
pub open spec fn is_resting(thread: Thread) -> bool {
    &&& !has_access(thread.lock)
    &&& match thread.walk {
        WalkPhase::Resting => true,
        WalkPhase::At { next, .. } => is_end(next),
        _ => false,
    }
}

impl Queue {
    /// Nobody has used the list yet.
    pub open spec fn initial(self) -> bool {
        &&& is_end(self.head)
        &&& self.holder is None
        &&& forall|t: int| #[trigger]
            self.threads.contains_key(t) ==> self.threads[t] == Thread::start()
    }

    /// Memory after an event; `None` if the reply is not one that memory gives.
    pub open spec fn effect(self, event: QueueEvent) -> Option<Queue> {
        match event {
            QueueEvent::Fill { index } => Some(
                Queue {
                    next: self.next.insert(index, END),
                    ready: self.ready.insert(index, false),
                    loaded: self.loaded.insert(index, true),
                    ..self
                },
            ),
            QueueEvent::LoadHead { head } => if head == self.head {
                Some(self)
            } else {
                None
            },
            QueueEvent::StoreNext { index, next } => Some(
                Queue { next: self.next.insert(index, next), ..self },
            ),
            QueueEvent::CompareExchangeHead { current, new, success } => if !success {
                Some(self)
            } else if self.head == current {
                Some(Queue { head: new, ..self })
            } else {
                None
            },
            QueueEvent::TakeAll { head } => if head == self.head {
                Some(Queue { head: END, swept: true, ..self })
            } else {
                None
            },
            QueueEvent::Run { index, found } => if found == self.loaded[index] {
                Some(Queue { loaded: self.loaded.insert(index, false), ..self })
            } else {
                None
            },
            QueueEvent::LoadNext { index, next } => if next == self.next[index] {
                Some(self)
            } else {
                None
            },
            QueueEvent::StoreReady { index } => Some(
                Queue { ready: self.ready.insert(index, true), ..self },
            ),
            QueueEvent::LoadReady { index, ready } => if ready == self.ready[index] {
                Some(self)
            } else {
                None
            },
            QueueEvent::GiveUp | QueueEvent::Apply | QueueEvent::Abandon { .. } => Some(self),
        }
    }

    /// The same with thread `t` elsewhere.
    pub open spec fn put(self, t: int, thread: Thread) -> Queue {
        Queue { threads: self.threads.insert(t, thread), ..self }
    }

    /// Thread `t` lets an event happen.
    pub open spec fn does(self, t: int, event: QueueEvent, after: Queue) -> bool {
        &&& self.threads.contains_key(t)
        &&& queue_step(self.threads[t], event) is Some
        &&& self.effect(event) is Some
        // Who looks for its mark finds it; `law_nobody_is_let_down` shows that.
        &&& event matches QueueEvent::LoadReady { ready, .. } ==> ready
        &&& after == self.effect(event)->0.put(t, queue_step(self.threads[t], event)->0)
    }

    /// Thread `t` gets the lock, which nobody has.
    pub open spec fn enters(self, t: int, after: Queue) -> bool {
        &&& self.threads.contains_key(t)
        &&& outside(self.threads[t].lock)
        &&& self.holder is None
        &&& after == (Queue { holder: Some(t), swept: false, ..self }).put(
            t,
            self.threads[t].moved(Phase::Held),
        )
    }

    /// Thread `t` releases the lock, between two sweeps.
    pub open spec fn leaves(self, t: int, after: Queue) -> bool {
        &&& self.threads.contains_key(t)
        &&& self.holder == Some(t)
        &&& self.threads[t].walk is Resting || is_over(self.threads[t].walk)
        &&& after == (Queue { holder: None, ..self }).put(t, self.threads[t].moved(Phase::Idle))
    }

    /// Thread `t` claims a slot that nobody owns.
    pub open spec fn claims(self, t: int, index: u8, after: Queue) -> bool {
        &&& self.threads.contains_key(t)
        &&& !(self.threads[t].slot is Owns)
        &&& index < CAPACITY
        &&& forall|x: int| !self.owns(x, index)
        &&& after == self.put(t, self.threads[t].with(SlotPhase::Owns { index }))
    }

    /// Thread `t` returns its slot.
    pub open spec fn returns_slot(self, t: int, after: Queue) -> bool {
        &&& self.threads.contains_key(t)
        &&& self.threads[t].slot is Owns
        &&& self.threads[t].record is Absent || self.threads[t].record is Finished
        &&& after == self.put(
            t,
            Thread { slot: SlotPhase::Free, record: RecordPhase::Absent, ..self.threads[t] },
        )
    }

    /// Something happens.
    pub open spec fn next(self, after: Queue) -> bool {
        ||| exists|t: int, event: QueueEvent| #[trigger] self.does(t, event, after)
        ||| exists|t: int| #[trigger] self.enters(t, after)
        ||| exists|t: int| #[trigger] self.leaves(t, after)
        ||| exists|t: int, index: u8| #[trigger] self.claims(t, index, after)
        ||| exists|t: int| #[trigger] self.returns_slot(t, after)
    }

    /// Whether thread `t` owns a slot.
    pub open spec fn owns(self, t: int, index: u8) -> bool {
        self.threads.contains_key(t) && self.threads[t].slot == SlotPhase::Owns { index }
    }

    /// Whether thread `t` waits for a record.
    pub open spec fn awaits(self, t: int, index: u8) -> bool {
        self.threads.contains_key(t) && self.threads[t].record == RecordPhase::Queued { index }
    }

    /// Whether somebody waits for a record.
    pub open spec fn is_awaited(self, index: u8) -> bool {
        exists|t: int| self.awaits(t, index)
    }

    /// Every thread's record is in its slot, and every slot is one thread's.
    pub open spec fn is_assigned(self) -> bool {
        &&& forall|a: int, b: int, index: u8| #[trigger]
            self.owns(a, index) && #[trigger] self.owns(b, index) ==> a == b
        &&& forall|t: int, index: u8| #[trigger] self.owns(t, index) ==> index < CAPACITY
        &&& forall|t: int| #[trigger]
            self.threads.contains_key(t) ==> (record_of(self.threads[t].record) matches Some(index)
                ==> self.owns(t, index))
    }

    /// Whether a record is what its owner, who stands there, expects.
    pub open spec fn fits(self, record: RecordPhase) -> bool {
        match record {
            RecordPhase::Filled { index, .. } => self.loaded[index] && !self.ready[index],
            RecordPhase::Linking { index, .. } => self.loaded[index] && !self.ready[index],
            RecordPhase::Linked { index, seen, .. } => self.loaded[index] && !self.ready[index]
                && self.next[index] == seen,
            RecordPhase::Finished { index } => self.ready[index] && !self.loaded[index],
            RecordPhase::Missed { .. } => false,
            _ => true,
        }
    }

    /// All records are what their owners expect.
    pub open spec fn all_fit(self) -> bool {
        forall|t: int| #[trigger]
            self.threads.contains_key(t) ==> self.fits(self.threads[t].record)
    }

    /// Records in a list are not marked, and somebody waits for them.
    pub open spec fn are_pending(self, records: Seq<u8>) -> bool {
        forall|i: u8| #[trigger]
            records.contains(i) ==> !self.ready[i] && self.is_awaited(i)
    }

    /// Whoever waits for a record finds it in one of the lists, or done.
    pub open spec fn are_accounted_for(self, stack: Seq<u8>, rest: Seq<u8>) -> bool {
        forall|t: int, i: u8| #[trigger]
            self.awaits(t, i) ==> stack.contains(i) || rest.contains(i) || (self.ready[i]
                && !self.loaded[i])
    }

    /// The list has these records, and their operations wait to be run.
    pub open spec fn is_list(self, stack: Seq<u8>) -> bool {
        &&& links(self.next, self.head, stack)
        &&& stack.no_duplicates()
        &&& forall|i: u8| #[trigger] stack.contains(i) ==> self.loaded[i]
    }

    /// Threads without the lock run nothing.
    pub open spec fn others_rest(self) -> bool {
        forall|t: int| #[trigger]
            self.threads.contains_key(t) && self.holder != Some(t) ==> is_resting(self.threads[t])
    }

    /// The thread that has the lock, if there is one, still has to deal with
    /// these records.
    pub open spec fn holder_walks(self, stack: Seq<u8>, rest: Seq<u8>) -> bool {
        match self.holder {
            None => rest.len() == 0,
            Some(t) => {
                &&& self.threads.contains_key(t)
                &&& self.threads[t].lock is Held
                &&& self.is_walking(self.threads[t].walk, rest)
                &&& self.swept ==> forall|i: u8| #[trigger]
                    self.awaits(t, i) ==> !stack.contains(i)
            },
        }
    }

    /// The list has the records of `stack`, and the thread that has the lock
    /// still has to deal with those of `rest`.
    pub open spec fn is_arranged(self, stack: Seq<u8>, rest: Seq<u8>) -> bool {
        &&& self.is_assigned()
        &&& self.all_fit()
        &&& self.is_list(stack)
        &&& self.are_pending(stack)
        &&& self.are_pending(rest)
        &&& forall|i: u8| #[trigger] stack.contains(i) ==> !rest.contains(i)
        &&& self.are_accounted_for(stack, rest)
        &&& self.others_rest()
        &&& self.holder_walks(stack, rest)
    }

    /// Whether a thread with these records to deal with stands there.
    pub open spec fn is_walking(self, walk: WalkPhase, rest: Seq<u8>) -> bool {
        match walk {
            WalkPhase::Resting => rest.len() == 0,
            WalkPhase::At { next, done, .. } => {
                &&& rest.len() > 0 ==> are_distinct(done, rest)
                &&& links(self.next, next, rest)
                &&& forall|i: u8| #[trigger] rest.contains(i) ==> self.loaded[i]
            },
            WalkPhase::Ran { index, done, .. } => {
                &&& are_distinct(done, rest)
                &&& rest.len() > 0
                &&& links(self.next, index, rest)
                &&& forall|i: u8| #[trigger] rest.contains(i) ==> self.loaded[i] == (i != index)
            },
            WalkPhase::Leaving { index, next, done, .. } => {
                &&& are_distinct(done, rest)
                &&& rest.len() > 0
                &&& links(self.next, index, rest)
                &&& next == self.next[index]
                &&& forall|i: u8| #[trigger] rest.contains(i) ==> self.loaded[i] == (i != index)
            },
        }
    }

    /// Every record that a thread waits for is in the list, or is being dealt
    /// with, or is done.
    #[verifier::opaque]
    pub open spec fn is_sound(self) -> bool {
        exists|stack: Seq<u8>, rest: Seq<u8>| #[trigger] self.is_arranged(stack, rest)
    }
}

/// Records that were what their owners expect still are, if that is so for each
/// owner.
proof fn lemma_all_fit(before: Queue, after: Queue)
    requires
        before.all_fit(),
        forall|x: int| #[trigger]
            after.threads.contains_key(x) ==> before.threads.contains_key(x) && (before.fits(
                before.threads[x].record,
            ) ==> after.fits(after.threads[x].record)),
    ensures
        after.all_fit(),
{
    assert forall|x: int| #[trigger] after.threads.contains_key(x) implies after.fits(
        after.threads[x].record,
    ) by {
        assert(before.fits(before.threads[x].record));
    }
}

/// A sequence of different records is no longer than the pool is large.
proof fn lemma_bounded(records: Seq<u8>)
    requires
        records.no_duplicates(),
        forall|k: int| 0 <= k < records.len() ==> !is_end(#[trigger] records[k]),
    ensures
        records.len() <= CAPACITY,
{
    let numbers = records.map_values(|i: u8| i as int);
    assert(numbers.no_duplicates());
    numbers.unique_seq_to_set();
    let range = set_int_range(0, CAPACITY as int);
    lemma_int_range(0, CAPACITY as int);
    assert forall|x: int| numbers.to_set().contains(x) implies range.contains(x) by {
        let k = choose|k: int| 0 <= k < numbers.len() && numbers[k] == x;
        assert(!is_end(records[k]));
    }
    lemma_len_subset(numbers.to_set(), range);
}

/// A thread that has run all there was to run has nothing left to deal with.
proof fn lemma_over_is_end(queue: Queue, walk: WalkPhase, rest: Seq<u8>)
    requires
        queue.is_walking(walk, rest),
        walk is Resting || is_over(walk),
    ensures
        rest.len() == 0,
        walk is At ==> is_end(walk->At_next),
{
    if rest.len() > 0 {
        let done = walk->At_done;
        assert forall|k: int| 0 <= k < (done + rest).len() implies !is_end(
            #[trigger] (done + rest)[k],
        ) by {
            if k >= done.len() {
                assert((done + rest)[k] == rest[k - done.len()]);
            }
        }
        lemma_bounded(done + rest);
    }
}

/// The slot of a record that a thread makes up is in no list.
proof fn lemma_own_record_is_apart(queue: Queue, t: int, index: u8, stack: Seq<u8>, rest: Seq<u8>)
    requires
        queue.is_arranged(stack, rest),
        queue.owns(t, index),
        !queue.awaits(t, index),
    ensures
        !stack.contains(index),
        !rest.contains(index),
{
    if stack.contains(index) || rest.contains(index) {
        let x = choose|x: int| queue.awaits(x, index);
        assert(queue.awaits(x, index));
        assert(queue.owns(x, index));
    }
}

/// A list does not change when the link of a record does that is not in it.
proof fn lemma_links_apart(
    before: Map<u8, u8>,
    after: Map<u8, u8>,
    from: u8,
    records: Seq<u8>,
    index: u8,
)
    requires
        links(before, from, records),
        forall|i: u8| i != index ==> #[trigger] after[i] == before[i],
        !records.contains(index),
    ensures
        links(after, from, records),
{
    assert forall|k: int| 0 <= k < records.len() implies !is_end(#[trigger] records[k]) && if k + 1
        < records.len() {
        after[records[k]] == records[k + 1]
    } else {
        is_end(after[records[k]])
    } by {
        assert(records.contains(records[k]));
    }
}

/// A thread that runs records does not notice what happens to a record that it
/// does not have to deal with.
proof fn lemma_walks_apart(before: Queue, after: Queue, walk: WalkPhase, rest: Seq<u8>, index: u8)
    requires
        before.is_walking(walk, rest),
        forall|i: u8| i != index ==> #[trigger] after.next[i] == before.next[i],
        forall|i: u8| i != index ==> #[trigger] after.loaded[i] == before.loaded[i],
        !rest.contains(index),
    ensures
        after.is_walking(walk, rest),
{
    match walk {
        WalkPhase::Resting => {},
        WalkPhase::At { next, .. } => {
            lemma_links_apart(before.next, after.next, next, rest, index);
        },
        WalkPhase::Ran { index: i, .. } => {
            lemma_links_apart(before.next, after.next, i, rest, index);
        },
        WalkPhase::Leaving { index: i, .. } => {
            lemma_links_apart(before.next, after.next, i, rest, index);
            assert(rest.contains(rest[0]));
        },
    }
}

/// Whether one thread goes elsewhere with its record, and memory changes in its
/// own slot at most.
spec fn is_private(before: Queue, t: int, index: u8, after: Queue) -> bool {
    &&& before.threads.contains_key(t)
    &&& after.threads == before.threads.insert(t, after.threads[t])
    &&& after.threads[t] == Thread { record: after.threads[t].record, ..before.threads[t] }
    &&& after.head == before.head && after.holder == before.holder && after.swept == before.swept
    &&& forall|i: u8| i != index ==> #[trigger] after.next[i] == before.next[i]
    &&& forall|i: u8| i != index ==> #[trigger] after.ready[i] == before.ready[i]
    &&& forall|i: u8| i != index ==> #[trigger] after.loaded[i] == before.loaded[i]
}

/// What a thread does to a record that it makes up concerns nobody else.
proof fn lemma_private(
    before: Queue,
    t: int,
    index: u8,
    after: Queue,
    stack: Seq<u8>,
    rest: Seq<u8>,
)
    requires
        before.is_arranged(stack, rest),
        is_private(before, t, index, after),
        before.owns(t, index),
        !before.awaits(t, index),
        record_of(after.threads[t].record) is None || record_of(after.threads[t].record) == Some(
            index,
        ),
        !(after.threads[t].record is Queued),
        after.fits(after.threads[t].record),
    ensures
        after.is_arranged(stack, rest),
{
    lemma_own_record_is_apart(before, t, index, stack, rest);
    assert forall|x: int, i: u8| #[trigger] after.owns(x, i) == before.owns(x, i) by {}
    assert forall|i: u8| !before.awaits(t, i) by {
        if before.awaits(t, i) {
            assert(before.owns(t, i));
        }
    }
    assert forall|x: int, i: u8| #[trigger] after.awaits(x, i) == before.awaits(x, i) by {}
    assert forall|x: int| x != t && #[trigger] before.threads.contains_key(x) implies record_of(
        before.threads[x].record,
    ) != Some(index) by {
        if record_of(before.threads[x].record) == Some(index) {
            assert(before.owns(x, index));
        }
    }
    assert(after.is_assigned()) by {
        assert forall|x: int| #[trigger] after.threads.contains_key(x) implies (record_of(
            after.threads[x].record,
        ) matches Some(i) ==> after.owns(x, i)) by {
            assert(before.threads.contains_key(x));
        }
    }
    lemma_all_fit(before, after);
    assert(links(after.next, after.head, stack)) by {
        lemma_links_apart(before.next, after.next, before.head, stack, index);
    }
    assert forall|i: u8| before.is_awaited(i) implies #[trigger] after.is_awaited(i) by {
        let x = choose|x: int| before.awaits(x, i);
        assert(after.awaits(x, i));
    }
    assert(after.are_pending(stack));
    assert(after.are_pending(rest));
    assert(after.are_accounted_for(stack, rest)) by {
        assert forall|x: int, i: u8| #[trigger] after.awaits(x, i) implies stack.contains(i)
            || rest.contains(i) || (after.ready[i] && !after.loaded[i]) by {
            assert(before.awaits(x, i));
        }
    }
    assert(after.others_rest()) by {
        assert forall|x: int| #[trigger]
            after.threads.contains_key(x) && after.holder != Some(x) implies is_resting(
            after.threads[x],
        ) by {
            assert(before.threads.contains_key(x));
        }
    }
    if let Some(h) = before.holder {
        assert(after.threads[h].walk == before.threads[h].walk);
        lemma_walks_apart(before, after, before.threads[h].walk, rest, index);
    }
}

/// A thread that owns no record of its own in the list, and waits for none,
/// changes places with its slot.
proof fn lemma_slot(before: Queue, t: int, after: Queue, stack: Seq<u8>, rest: Seq<u8>)
    requires
        before.is_arranged(stack, rest),
        before.threads.contains_key(t),
        !(before.threads[t].record is Queued),
        after == before.put(
            t,
            Thread {
                slot: after.threads[t].slot,
                record: RecordPhase::Absent,
                ..before.threads[t]
            },
        ),
        after.threads[t].slot matches SlotPhase::Owns { index } ==> index < CAPACITY && forall|
            x: int,
        | !before.owns(x, index),
    ensures
        after.is_arranged(stack, rest),
{
    assert forall|x: int, i: u8| x != t implies #[trigger] after.owns(x, i) == before.owns(x, i) by {}
    assert forall|x: int, i: u8| #[trigger] after.awaits(x, i) == before.awaits(x, i) by {}
    assert forall|i: u8| before.is_awaited(i) implies #[trigger] after.is_awaited(i) by {
        let x = choose|x: int| before.awaits(x, i);
        assert(after.awaits(x, i));
    }
    assert(after.is_assigned()) by {
        assert forall|a: int, b: int, i: u8| #[trigger] after.owns(a, i) && #[trigger] after.owns(
            b,
            i,
        ) implies a == b by {
            assert(a != t ==> before.owns(a, i));
            assert(b != t ==> before.owns(b, i));
        }
        assert forall|x: int, i: u8| #[trigger] after.owns(x, i) implies i < CAPACITY by {
            assert(x != t ==> before.owns(x, i));
        }
        assert forall|x: int| #[trigger] after.threads.contains_key(x) implies (record_of(
            after.threads[x].record,
        ) matches Some(i) ==> after.owns(x, i)) by {
            assert(before.threads.contains_key(x));
        }
    }
    lemma_all_fit(before, after);
    assert(after.others_rest()) by {
        assert forall|x: int| #[trigger]
            after.threads.contains_key(x) && after.holder != Some(x) implies is_resting(
            after.threads[x],
        ) by {
            assert(before.threads.contains_key(x));
        }
    }
    if let Some(h) = before.holder {
        assert(after.threads[h].walk == before.threads[h].walk);
    }
}

/// A thread goes elsewhere with its record or with those that it runs, and its
/// slot stays its own.
proof fn lemma_threads(before: Queue, t: int, after: Queue)
    requires
        before.is_assigned(),
        before.others_rest(),
        before.threads.contains_key(t),
        after.threads == before.threads.insert(t, after.threads[t]),
        after.threads[t].slot == before.threads[t].slot,
        after.threads[t].lock == before.threads[t].lock,
        record_of(after.threads[t].record) == record_of(before.threads[t].record),
        after.holder == before.holder,
        before.holder == Some(t) || after.threads[t].walk == before.threads[t].walk,
    ensures
        after.is_assigned(),
        after.others_rest(),
        forall|x: int, i: u8| #[trigger] after.owns(x, i) == before.owns(x, i),
{
    assert forall|x: int, i: u8| #[trigger] after.owns(x, i) == before.owns(x, i) by {}
    assert forall|x: int| #[trigger] after.threads.contains_key(x) implies (record_of(
        after.threads[x].record,
    ) matches Some(i) ==> after.owns(x, i)) by {
        assert(before.threads.contains_key(x));
    }
    assert forall|x: int| #[trigger]
        after.threads.contains_key(x) && after.holder != Some(x) implies is_resting(
        after.threads[x],
    ) by {
        assert(before.threads.contains_key(x));
    }
}

/// A list with one more record at its head.
proof fn lemma_longer(next: Map<u8, u8>, from: u8, stack: Seq<u8>, index: u8)
    requires
        links(next, from, stack),
        stack.no_duplicates(),
        !stack.contains(index),
        !is_end(index),
        next[index] == from,
    ensures
        links(next, index, seq![index] + stack),
        (seq![index] + stack).no_duplicates(),
        forall|i: u8| #[trigger] (seq![index] + stack).contains(i) <==> i == index || stack.contains(
            i,
        ),
{
    let longer = seq![index] + stack;
    assert forall|i: u8| #[trigger] longer.contains(i) <==> i == index || stack.contains(i) by {
        if stack.contains(i) {
            let k = choose|k: int| 0 <= k < stack.len() && stack[k] == i;
            assert(longer[k + 1] == i);
        }
        assert(longer[0] == index);
    }
    assert forall|k: int| 0 <= k < longer.len() implies !is_end(#[trigger] longer[k]) && if k + 1
        < longer.len() {
        next[longer[k]] == longer[k + 1]
    } else {
        is_end(next[longer[k]])
    } by {
        if k > 0 {
            assert(longer[k] == stack[k - 1]);
            if k + 1 < longer.len() {
                assert(longer[k + 1] == stack[k]);
            }
        } else if stack.len() > 0 {
            assert(longer[1] == stack[0]);
        }
    }
    assert forall|a: int, b: int|
        0 <= a < longer.len() && 0 <= b < longer.len() && a != b implies longer[a] != longer[b] by {
        if a > 0 {
            assert(longer[a] == stack[a - 1]);
            assert(stack.contains(stack[a - 1]));
        }
        if b > 0 {
            assert(longer[b] == stack[b - 1]);
            assert(stack.contains(stack[b - 1]));
        }
    }
}

/// Putting a record at the head of the list.
proof fn lemma_push(
    before: Queue,
    t: int,
    current: u8,
    index: u8,
    after: Queue,
    stack: Seq<u8>,
    rest: Seq<u8>,
)
    requires
        before.is_arranged(stack, rest),
        before.does(
            t,
            QueueEvent::CompareExchangeHead { current, new: index, success: true },
            after,
        ),
    ensures
        after.is_arranged(seq![index] + stack, rest),
{
    let longer = seq![index] + stack;
    assert(before.owns(t, index));
    assert(before.fits(before.threads[t].record));
    assert(before.holder != Some(t));
    lemma_threads(before, t, after);
    lemma_own_record_is_apart(before, t, index, stack, rest);
    lemma_longer(before.next, before.head, stack, index);
    assert forall|i: u8| !before.awaits(t, i) by {}
    assert forall|x: int, i: u8| #[trigger] after.awaits(x, i) == (before.awaits(x, i) || x == t && i
        == index) by {}
    assert forall|i: u8| before.is_awaited(i) || i == index implies #[trigger] after.is_awaited(
        i,
    ) by {
        if i != index {
            let x = choose|x: int| before.awaits(x, i);
            assert(after.awaits(x, i));
        } else {
            assert(after.awaits(t, index));
        }
    }
    lemma_all_fit(before, after);
    assert(after.are_pending(longer));
    assert(after.are_pending(rest));
    assert(after.are_accounted_for(longer, rest)) by {
        assert forall|x: int, i: u8| #[trigger] after.awaits(x, i) implies longer.contains(i)
            || rest.contains(i) || (after.ready[i] && !after.loaded[i]) by {
            if i != index {
                assert(before.awaits(x, i));
            }
        }
    }
    assert(after.holder_walks(longer, rest)) by {
        if let Some(h) = before.holder {
            assert(after.threads[h].walk == before.threads[h].walk);
            assert forall|i: u8| after.swept && #[trigger] after.awaits(h, i) implies
                !longer.contains(i) by {
                assert(before.awaits(h, i));
                if i == index {
                    assert(before.owns(h, i));
                }
            }
        }
    }
}

/// A thread that goes elsewhere with the records that it runs stays where it is
/// with its own, and so do the others.
proof fn lemma_awaits(before: Queue, t: int, after: Queue)
    requires
        before.threads.contains_key(t),
        after.threads == before.threads.insert(t, after.threads[t]),
        after.threads[t].record == before.threads[t].record,
    ensures
        forall|x: int, i: u8| #[trigger] after.awaits(x, i) == before.awaits(x, i),
        forall|i: u8| #[trigger] after.is_awaited(i) == before.is_awaited(i),
        forall|x: int| #[trigger]
            after.threads.contains_key(x) ==> before.threads.contains_key(x)
                && after.threads[x].record == before.threads[x].record,
{
    assert forall|x: int, i: u8| #[trigger] after.awaits(x, i) == before.awaits(x, i) by {}
    assert forall|i: u8| #[trigger] after.is_awaited(i) == before.is_awaited(i) by {
        if before.is_awaited(i) {
            let x = choose|x: int| before.awaits(x, i);
            assert(after.awaits(x, i));
        }
        if after.is_awaited(i) {
            let x = choose|x: int| after.awaits(x, i);
            assert(before.awaits(x, i));
        }
    }
}

/// Nobody makes up, or has finished with, a record that somebody waits for.
proof fn lemma_awaited_is_nobody_elses(queue: Queue, index: u8)
    requires
        queue.is_assigned(),
        queue.is_awaited(index),
    ensures
        forall|x: int| #[trigger]
            queue.threads.contains_key(x) && record_of(queue.threads[x].record) == Some(index)
                ==> queue.threads[x].record is Queued,
{
    let t = choose|t: int| queue.awaits(t, index);
    assert forall|x: int| #[trigger]
        queue.threads.contains_key(x) && record_of(queue.threads[x].record) == Some(
            index,
        ) implies queue.threads[x].record is Queued by {
        assert(queue.owns(x, index));
        assert(queue.awaits(t, index));
        assert(queue.threads.contains_key(t));
        assert(queue.owns(t, index));
    }
}

/// Most events leave operations where they are, and no thread gets a record by
/// them.
pub(crate) proof fn lemma_event_is_quiet(before: Queue, t: int, event: QueueEvent, after: Queue)
    requires
        before.does(t, event, after),
        !(event is Fill),
        !(event is Run),
    ensures
        after.loaded == before.loaded,
        after.threads.contains_key(t) && before.threads.contains_key(t),
        after.threads == before.threads.insert(t, after.threads[t]),
        record_of(after.threads[t].record) is None || record_of(after.threads[t].record)
            == record_of(before.threads[t].record),
{
}

/// Taking the list.
proof fn lemma_take_all(
    before: Queue,
    t: int,
    head: u8,
    after: Queue,
    stack: Seq<u8>,
    rest: Seq<u8>,
)
    requires
        before.is_arranged(stack, rest),
        before.does(t, QueueEvent::TakeAll { head }, after),
    ensures
        after.is_arranged(Seq::empty(), stack),
{
    assert(before.holder == Some(t));
    lemma_over_is_end(before, before.threads[t].walk, rest);
    lemma_threads(before, t, after);
    lemma_awaits(before, t, after);
    lemma_all_fit(before, after);
    assert(Seq::<u8>::empty() + stack =~= stack);
    assert(after.are_accounted_for(Seq::empty(), stack)) by {
        assert forall|x: int, i: u8| #[trigger] after.awaits(x, i) implies stack.contains(i) || (
        after.ready[i] && !after.loaded[i]) by {
            assert(before.awaits(x, i));
        }
    }
}

/// Running a record: it is the next one, and its operation is there.
proof fn lemma_run(
    before: Queue,
    t: int,
    index: u8,
    found: bool,
    after: Queue,
    stack: Seq<u8>,
    rest: Seq<u8>,
)
    requires
        before.is_arranged(stack, rest),
        before.does(t, QueueEvent::Run { index, found }, after),
    ensures
        after.is_arranged(stack, rest),
        found,
        before.holder == Some(t),
        before.is_awaited(index),
{
    assert(before.holder == Some(t));
    assert(rest.len() > 0 && rest[0] == index);
    assert(rest.contains(rest[0]));
    lemma_threads(before, t, after);
    lemma_awaits(before, t, after);
    lemma_awaited_is_nobody_elses(before, index);
    lemma_all_fit(before, after);
    assert(after.are_accounted_for(stack, rest)) by {
        assert forall|x: int, i: u8| #[trigger] after.awaits(x, i) implies stack.contains(i)
            || rest.contains(i) || (after.ready[i] && !after.loaded[i]) by {
            assert(before.awaits(x, i));
        }
    }
}

/// Looking for the next record.
proof fn lemma_load_next(
    before: Queue,
    t: int,
    index: u8,
    next: u8,
    after: Queue,
    stack: Seq<u8>,
    rest: Seq<u8>,
)
    requires
        before.is_arranged(stack, rest),
        before.does(t, QueueEvent::LoadNext { index, next }, after),
    ensures
        after.is_arranged(stack, rest),
{
    assert(before.holder == Some(t));
    lemma_threads(before, t, after);
    lemma_awaits(before, t, after);
    lemma_all_fit(before, after);
    assert(after.are_accounted_for(stack, rest)) by {
        assert forall|x: int, i: u8| #[trigger] after.awaits(x, i) implies stack.contains(i)
            || rest.contains(i) || (after.ready[i] && !after.loaded[i]) by {
            assert(before.awaits(x, i));
        }
    }
}

/// A list without its first record.
proof fn lemma_shorter(next: Map<u8, u8>, from: u8, records: Seq<u8>)
    requires
        records.len() > 0,
        links(next, from, records),
        records.no_duplicates(),
    ensures
        links(next, next[from], records.skip(1)),
        forall|i: u8| #[trigger] records.skip(1).contains(i) <==> records.contains(i) && i != from,
{
    let shorter = records.skip(1);
    assert forall|k: int| 0 <= k < shorter.len() implies !is_end(#[trigger] shorter[k]) && if k + 1
        < shorter.len() {
        next[shorter[k]] == shorter[k + 1]
    } else {
        is_end(next[shorter[k]])
    } by {
        assert(shorter[k] == records[k + 1]);
        if k + 1 < shorter.len() {
            assert(shorter[k + 1] == records[k + 2]);
        }
    }
    assert(next[records[0]] == next[from]);
    assert forall|i: u8| #[trigger] shorter.contains(i) <==> records.contains(i) && i != from by {
        if shorter.contains(i) {
            let k = choose|k: int| 0 <= k < shorter.len() && shorter[k] == i;
            assert(records[k + 1] == i);
        }
        if records.contains(i) && i != from {
            let k = choose|k: int| 0 <= k < records.len() && records[k] == i;
            assert(shorter[k - 1] == i);
        }
    }
}

/// Marking a record as done and going on to the next.
proof fn lemma_store_ready(
    before: Queue,
    t: int,
    index: u8,
    after: Queue,
    stack: Seq<u8>,
    rest: Seq<u8>,
)
    requires
        before.is_arranged(stack, rest),
        before.does(t, QueueEvent::StoreReady { index }, after),
    ensures
        after.is_arranged(stack, rest.skip(1)),
{
    let done = before.threads[t].walk->Leaving_done;
    assert(before.holder == Some(t));
    assert(rest.len() > 0 && rest[0] == index);
    assert(rest.contains(rest[0]));
    assert(rest.no_duplicates()) by {
        assert forall|a: int, b: int|
            0 <= a < rest.len() && 0 <= b < rest.len() && a != b implies rest[a] != rest[b] by {
            assert((done + rest)[done.len() + a] == rest[a]);
            assert((done + rest)[done.len() + b] == rest[b]);
        }
    }
    lemma_shorter(before.next, index, rest);
    assert(done.push(index) + rest.skip(1) =~= done + rest);
    lemma_threads(before, t, after);
    lemma_awaits(before, t, after);
    lemma_awaited_is_nobody_elses(before, index);
    lemma_all_fit(before, after);
    assert(after.are_accounted_for(stack, rest.skip(1))) by {
        assert forall|x: int, i: u8| #[trigger] after.awaits(x, i) implies stack.contains(i)
            || rest.skip(1).contains(i) || (after.ready[i] && !after.loaded[i]) by {
            assert(before.awaits(x, i));
        }
    }
}

/// Learning that one's own record is done.
proof fn lemma_load_ready(
    before: Queue,
    t: int,
    index: u8,
    ready: bool,
    after: Queue,
    stack: Seq<u8>,
    rest: Seq<u8>,
)
    requires
        before.is_arranged(stack, rest),
        before.does(t, QueueEvent::LoadReady { index, ready }, after),
    ensures
        after.is_arranged(stack, rest),
{
    lemma_threads(before, t, after);
    assert forall|x: int, i: u8| #[trigger] after.awaits(x, i) == (before.awaits(x, i) && !(x == t
        && ready)) by {}
    assert(ready ==> !stack.contains(index) && !rest.contains(index));
    assert forall|i: u8| before.is_awaited(i) && !(ready && i == index) implies #[trigger] after.is_awaited(
        i,
    ) by {
        let x = choose|x: int| before.awaits(x, i);
        assert(before.awaits(x, i));
        assert(after.awaits(x, i));
    }
    assert(after.all_fit()) by {
        assert forall|x: int| #[trigger] after.threads.contains_key(x) implies after.fits(
            after.threads[x].record,
        ) by {
            assert(before.threads.contains_key(x));
            assert(before.fits(before.threads[x].record));
            if x == t && before.awaits(t, index) {
                assert(stack.contains(index) || rest.contains(index) || (before.ready[index]
                    && !before.loaded[index]));
            }
        }
    }
    assert(after.are_accounted_for(stack, rest)) by {
        assert forall|x: int, i: u8| #[trigger] after.awaits(x, i) implies stack.contains(i)
            || rest.contains(i) || (after.ready[i] && !after.loaded[i]) by {
            assert(before.awaits(x, i));
        }
    }
    if let Some(h) = before.holder {
        assert(after.threads[h].walk == before.threads[h].walk);
        assert forall|i: u8| after.swept && #[trigger] after.awaits(h, i) implies !stack.contains(
            i,
        ) by {
            assert(before.awaits(h, i));
        }
    }
}

/// Getting the lock, or releasing it.
proof fn lemma_holder(before: Queue, t: int, after: Queue, stack: Seq<u8>, rest: Seq<u8>)
    requires
        before.is_arranged(stack, rest),
        before.enters(t, after) || before.leaves(t, after),
    ensures
        after.is_arranged(stack, rest),
{
    assert forall|x: int, i: u8| #[trigger] after.owns(x, i) == before.owns(x, i) by {}
    lemma_awaits(before, t, after);
    if before.leaves(t, after) {
        lemma_over_is_end(before, before.threads[t].walk, rest);
    }
    assert(after.is_assigned()) by {
        assert forall|x: int| #[trigger] after.threads.contains_key(x) implies (record_of(
            after.threads[x].record,
        ) matches Some(i) ==> after.owns(x, i)) by {
            assert(before.threads.contains_key(x));
        }
    }
    lemma_all_fit(before, after);
    assert(after.are_accounted_for(stack, rest)) by {
        assert forall|x: int, i: u8| #[trigger] after.awaits(x, i) implies stack.contains(i)
            || rest.contains(i) || (after.ready[i] && !after.loaded[i]) by {
            assert(before.awaits(x, i));
        }
    }
    assert(after.others_rest()) by {
        assert forall|x: int| #[trigger]
            after.threads.contains_key(x) && after.holder != Some(x) implies is_resting(
            after.threads[x],
        ) by {
            assert(before.threads.contains_key(x));
        }
    }
}

/// The records in the list, and those that are left to be dealt with of the list
/// that was taken, after an event: a record that is pushed comes first, who takes
/// the list takes it as it is, and a record that is marked is the first one.
pub open spec fn order_after(event: QueueEvent, stack: Seq<u8>, rest: Seq<u8>) -> (
    Seq<u8>,
    Seq<u8>,
) {
    match event {
        QueueEvent::CompareExchangeHead { new, success, .. } => if success {
            (seq![new] + stack, rest)
        } else {
            (stack, rest)
        },
        QueueEvent::TakeAll { .. } => (Seq::empty(), stack),
        QueueEvent::StoreReady { .. } => (stack, rest.skip(1)),
        _ => (stack, rest),
    }
}

/// The list is a stack: the record that was pushed last is run first.
pub proof fn law_last_pushed_is_run_first(
    before: Queue,
    t: int,
    event: QueueEvent,
    after: Queue,
    stack: Seq<u8>,
    rest: Seq<u8>,
)
    requires
        before.is_arranged(stack, rest),
        before.does(t, event, after),
    ensures
        after.is_arranged(order_after(event, stack, rest).0, order_after(event, stack, rest).1),
        event matches QueueEvent::Run { index, .. } ==> rest.len() > 0 && index == rest[0],
        event matches QueueEvent::StoreReady { index } ==> rest.len() > 0 && index == rest[0],
        event is TakeAll ==> rest.len() == 0,
{
    match event {
        QueueEvent::Fill { index } => {
            lemma_private(before, t, index, after, stack, rest);
        },
        QueueEvent::LoadHead { .. } => {
            let index = record_of(before.threads[t].record)->0;
            assert(before.owns(t, index));
            assert(before.fits(before.threads[t].record));
            lemma_private(before, t, index, after, stack, rest);
        },
        QueueEvent::StoreNext { index, .. } => {
            assert(before.owns(t, index));
            assert(before.fits(before.threads[t].record));
            lemma_private(before, t, index, after, stack, rest);
        },
        QueueEvent::CompareExchangeHead { current, new, success } => {
            if success {
                lemma_push(before, t, current, new, after, stack, rest);
            } else {
                assert(before.owns(t, new));
                assert(before.fits(before.threads[t].record));
                lemma_private(before, t, new, after, stack, rest);
            }
        },
        QueueEvent::TakeAll { head } => {
            lemma_take_all(before, t, head, after, stack, rest);
        },
        QueueEvent::Run { index, found } => {
            lemma_run(before, t, index, found, after, stack, rest);
        },
        QueueEvent::LoadNext { index, next } => {
            lemma_load_next(before, t, index, next, after, stack, rest);
        },
        QueueEvent::StoreReady { index } => {
            lemma_store_ready(before, t, index, after, stack, rest);
        },
        QueueEvent::LoadReady { index, ready } => {
            lemma_load_ready(before, t, index, ready, after, stack, rest);
        },
        QueueEvent::GiveUp => {
            let index = record_of(before.threads[t].record)->0;
            assert(before.owns(t, index));
            lemma_private(before, t, index, after, stack, rest);
        },
        QueueEvent::Apply => {
            assert(after =~= before);
        },
        QueueEvent::Abandon { .. } => {
            assert(before.fits(before.threads[t].record));
        },
    }
    if event is TakeAll || event is Run || event is StoreReady {
        assert(before.threads.contains_key(t));
        assert(before.holder == Some(t));
        let walk = before.threads[t].walk;
        if event is TakeAll {
            lemma_over_is_end(before, walk, rest);
        }
    }
}

/// Whatever one thread does next, every record that a thread waits for is still
/// in the list, or being dealt with, or done.
pub proof fn law_list_stays_sound(before: Queue, after: Queue)
    requires
        before.is_sound(),
        before.next(after),
    ensures
        after.is_sound(),
{
    reveal(Queue::is_sound);
    let (stack, rest) = choose|stack: Seq<u8>, rest: Seq<u8>| #[trigger]
        before.is_arranged(stack, rest);
    if exists|t: int, event: QueueEvent| #[trigger] before.does(t, event, after) {
        let (t, event) = choose|t: int, event: QueueEvent| #[trigger]
            before.does(t, event, after);
        law_last_pushed_is_run_first(before, t, event, after, stack, rest);
    } else if exists|t: int| #[trigger] before.enters(t, after) {
        let t = choose|t: int| #[trigger] before.enters(t, after);
        lemma_holder(before, t, after, stack, rest);
    } else if exists|t: int| #[trigger] before.leaves(t, after) {
        let t = choose|t: int| #[trigger] before.leaves(t, after);
        lemma_holder(before, t, after, stack, rest);
    } else if exists|t: int, index: u8| #[trigger] before.claims(t, index, after) {
        let (t, index) = choose|t: int, index: u8| #[trigger] before.claims(t, index, after);
        assert(before.threads[t].record is Absent);
        lemma_slot(before, t, after, stack, rest);
    } else {
        let t = choose|t: int| #[trigger] before.returns_slot(t, after);
        lemma_slot(before, t, after, stack, rest);
    }
}

/// A run of the list: it starts unused, and one thing happens at a time.
pub open spec fn is_execution(states: Seq<Queue>) -> bool {
    &&& states.len() > 0
    &&& states[0].initial()
    &&& forall|i: int| 0 <= i < states.len() - 1 ==> (#[trigger] states[i]).next(states[i + 1])
}

/// In every state that the list can come to, every record that a thread waits
/// for is in the list, or being dealt with, or done.
pub proof fn law_no_record_is_lost(states: Seq<Queue>, i: int)
    requires
        is_execution(states),
        0 <= i < states.len(),
    ensures
        states[i].is_sound(),
    decreases i,
{
    reveal(Queue::is_sound);
    if i > 0 {
        law_no_record_is_lost(states, i - 1);
        assert(states[i - 1].next(states[i - 1 + 1]));
        law_list_stays_sound(states[i - 1], states[i]);
    } else {
        assert(states[0].is_arranged(Seq::empty(), Seq::empty()));
    }
}

/// While nobody has the lock, every record that a thread waits for is in the
/// list or done.
pub proof fn law_pending_records_are_listed(queue: Queue)
    requires
        queue.is_sound(),
        queue.holder is None,
    ensures
        exists|stack: Seq<u8>|
            {
                &&& #[trigger] links(queue.next, queue.head, stack)
                &&& forall|t: int, index: u8| #[trigger]
                    queue.awaits(t, index) ==> queue.ready[index] || stack.contains(index)
            },
{
    reveal(Queue::is_sound);
    let (stack, rest) = choose|stack: Seq<u8>, rest: Seq<u8>| #[trigger]
        queue.is_arranged(stack, rest);
    assert(links(queue.next, queue.head, stack));
}

/// An operation is run once: whoever runs a record has the lock, somebody waits
/// for the record, and its operation is there and then gone.
pub proof fn law_operation_is_run_once(
    before: Queue,
    t: int,
    index: u8,
    found: bool,
    after: Queue,
)
    requires
        before.is_sound(),
        before.does(t, QueueEvent::Run { index, found }, after),
    ensures
        before.holder == Some(t),
        before.is_awaited(index),
        found,
        !after.loaded[index],
{
    reveal(Queue::is_sound);
    let (stack, rest) = choose|stack: Seq<u8>, rest: Seq<u8>| #[trigger]
        before.is_arranged(stack, rest);
    lemma_run(before, t, index, found, after, stack, rest);
}

/// A record is marked only after its operation was run.
pub proof fn law_mark_follows_run(queue: Queue, t: int, index: u8)
    requires
        queue.is_sound(),
        queue.awaits(t, index),
        queue.ready[index],
    ensures
        !queue.loaded[index],
{
    reveal(Queue::is_sound);
    let (stack, rest) = choose|stack: Seq<u8>, rest: Seq<u8>| #[trigger]
        queue.is_arranged(stack, rest);
}

/// The mark of a record stays as long as its owner waits for it.
pub proof fn law_mark_stays(before: Queue, after: Queue, t: int, index: u8)
    requires
        before.is_sound(),
        before.next(after),
        before.awaits(t, index),
        before.ready[index],
        after.awaits(t, index),
    ensures
        after.ready[index],
{
    reveal(Queue::is_sound);
    let (stack, rest) = choose|stack: Seq<u8>, rest: Seq<u8>| #[trigger]
        before.is_arranged(stack, rest);
    assert(before.owns(t, index));
    if exists|x: int, event: QueueEvent| #[trigger] before.does(x, event, after) {
        let (x, event) = choose|x: int, event: QueueEvent| #[trigger]
            before.does(x, event, after);
        if event == (QueueEvent::Fill { index }) {
            assert(before.owns(x, index));
        }
    }
}

/// A thread that has got the lock, has taken the list and releases the lock
/// again finds its own record done.
pub proof fn law_sweeper_is_served(before: Queue, t: int, after: Queue, index: u8)
    requires
        before.is_sound(),
        before.leaves(t, after),
        before.swept,
        before.awaits(t, index),
    ensures
        after.ready[index],
        after.awaits(t, index),
{
    reveal(Queue::is_sound);
    let (stack, rest) = choose|stack: Seq<u8>, rest: Seq<u8>| #[trigger]
        before.is_arranged(stack, rest);
    lemma_over_is_end(before, before.threads[t].walk, rest);
    assert(!stack.contains(index));
}

/// A thread that runs records comes to the end of what it has taken: it never
/// stops because it has run as many as there are slots.
pub proof fn law_sweep_is_complete(queue: Queue, t: int)
    requires
        queue.is_sound(),
        queue.holder == Some(t),
        is_over(queue.threads[t].walk),
    ensures
        is_end(queue.threads[t].walk->At_next),
{
    reveal(Queue::is_sound);
    let (stack, rest) = choose|stack: Seq<u8>, rest: Seq<u8>| #[trigger]
        queue.is_arranged(stack, rest);
    lemma_over_is_end(queue, queue.threads[t].walk, rest);
}

/// The set that a thread wakes has the bit of every record that it has run.
pub proof fn law_owners_are_woken(done: Seq<u8>, k: int)
    requires
        0 <= k < done.len(),
    ensures
        wake_bits(done) & wake_bit(done[k]) != 0,
    decreases done.len(),
{
    let earlier = wake_bits(done.drop_last());
    let last = wake_bit(done.last());
    if k == done.len() - 1 {
        let b = (done.last() % 32) as u32;
        assert((earlier | (1u32 << b)) & (1u32 << b) != 0) by (bit_vector)
            requires
                b < 32,
        ;
    } else {
        law_owners_are_woken(done.drop_last(), k);
        let bit = wake_bit(done[k]);
        assert((earlier | last) & bit != 0) by (bit_vector)
            requires
                earlier & bit != 0,
        ;
    }
}

} // verus!

//! What becomes of the operations that any number of threads hand in.
//!
//! Operations are numbered in the order in which they are handed in.  A thread
//! hands one in when it sets up a record, or when it has the lock and applies
//! it itself.

use vstd::prelude::*;

use crate::flat_combining::laws::queue::{
    law_list_stays_sound, law_mark_follows_run, law_operation_is_run_once, lemma_event_is_quiet,
    record_of, Queue,
};
use crate::flat_combining::memory::event::QueueEvent;
use crate::flat_combining::protocol::RecordPhase;

verus! {

/// The list, the value, and what has been done to it.
#[verifier::ext_equal]
pub struct History<V> {
    pub queue: Queue,
    /// The operation that each record was set up with.
    pub ops: Map<u8, int>,
    /// How many operations have been handed in.
    pub handed: int,
    /// The operations that have been applied to the value, in order.
    pub log: Seq<int>,
    /// The value.
    pub value: V,
}

/// The value that operations, one after the other, make of another; `act` says
/// what each of them makes of a value.
pub open spec fn replay<V>(act: spec_fn(int, V) -> V, initial: V, log: Seq<int>) -> V
    decreases log.len(),
{
    if log.len() == 0 {
        initial
    } else {
        act(log.last(), replay(act, initial, log.drop_last()))
    }
}

impl<V> History<V> {
    /// Nobody has handed in an operation yet.
    pub open spec fn initial(self) -> bool {
        &&& self.queue.initial()
        &&& self.handed == 0
        &&& self.log.len() == 0
    }

    /// An operation is applied to the value.
    pub open spec fn applied(self, act: spec_fn(int, V) -> V, op: int) -> History<V> {
        History { log: self.log.push(op), value: act(op, self.value), ..self }
    }

    /// An event at the list.
    pub open spec fn does(
        self,
        act: spec_fn(int, V) -> V,
        t: int,
        event: QueueEvent,
        after: History<V>,
    ) -> bool {
        &&& self.queue.does(t, event, after.queue)
        &&& match event {
            QueueEvent::Fill { index } => after == History {
                queue: after.queue,
                ops: self.ops.insert(index, self.handed),
                handed: self.handed + 1,
                ..self
            },
            QueueEvent::Run { index, found } => after == History {
                queue: after.queue,
                ..if found {
                    self.applied(act, self.ops[index])
                } else {
                    self
                }
            },
            QueueEvent::Apply => after == History {
                queue: after.queue,
                handed: self.handed + 1,
                ..self.applied(act, self.handed)
            },
            _ => after == History { queue: after.queue, ..self },
        }
    }

    /// The lock or a slot changes hands.
    pub open spec fn passes(self, after: History<V>) -> bool {
        &&& {
            ||| exists|t: int| #[trigger] self.queue.enters(t, after.queue)
            ||| exists|t: int| #[trigger] self.queue.leaves(t, after.queue)
            ||| exists|t: int, index: u8| #[trigger] self.queue.claims(t, index, after.queue)
            ||| exists|t: int| #[trigger] self.queue.returns_slot(t, after.queue)
        }
        &&& after == History { queue: after.queue, ..self }
    }

    /// Something happens, which may be of no concern here.
    pub open spec fn next(self, act: spec_fn(int, V) -> V, after: History<V>) -> bool {
        ||| exists|t: int, event: QueueEvent| #[trigger] self.does(act, t, event, after)
        ||| self.passes(after)
        ||| after == self
    }

    /// Whether thread `t` has a record that holds, or held, its operation.
    pub open spec fn concerns(self, t: int, index: u8) -> bool {
        self.queue.threads.contains_key(t) && record_of(self.queue.threads[t].record) == Some(index)
    }

    /// No operation has been applied twice, those that wait have not been
    /// applied, those that do not have, and the value is what those that have
    /// been applied made of the first one.
    pub open spec fn is_faithful(self, act: spec_fn(int, V) -> V, first: V) -> bool {
        &&& self.queue.is_sound()
        &&& self.value == replay(act, first, self.log)
        &&& self.log.no_duplicates()
        &&& 0 <= self.handed
        &&& forall|op: int| #[trigger] self.log.contains(op) ==> 0 <= op < self.handed
        &&& forall|t: int, index: u8| #[trigger]
            self.concerns(t, index) ==> {
                &&& 0 <= self.ops[index] < self.handed
                &&& self.queue.loaded[index] <==> !self.log.contains(self.ops[index])
            }
        &&& forall|a: int, b: int, i: u8, j: u8| #[trigger]
            self.concerns(a, i) && #[trigger] self.concerns(b, j) && i != j ==> self.ops[i]
                != self.ops[j]
    }
}

/// One more operation in the log.
proof fn lemma_log_push(log: Seq<int>, op: int)
    requires
        log.no_duplicates(),
        !log.contains(op),
    ensures
        log.push(op).no_duplicates(),
        forall|x: int| #[trigger] log.push(op).contains(x) <==> log.contains(x) || x == op,
{
    assert forall|x: int| #[trigger] log.push(op).contains(x) <==> log.contains(x) || x == op by {
        if log.contains(x) {
            let k = choose|k: int| 0 <= k < log.len() && log[k] == x;
            assert(log.push(op)[k] == x);
        }
        assert(log.push(op)[log.len() as int] == op);
    }
    assert forall|a: int, b: int|
        0 <= a < log.push(op).len() && 0 <= b < log.push(op).len() && a != b implies log.push(op)[a]
        != log.push(op)[b] by {
        if a < log.len() {
            assert(log.contains(log[a]));
        }
        if b < log.len() {
            assert(log.contains(log[b]));
        }
    }
}

/// A record concerns one thread at most.
proof fn lemma_one_owner<V>(history: History<V>)
    requires
        history.queue.is_sound(),
    ensures
        forall|a: int, b: int, i: u8| #[trigger]
            history.concerns(a, i) && #[trigger] history.concerns(b, i) ==> a == b,
        forall|t: int, i: u8| #[trigger] history.concerns(t, i) ==> history.queue.owns(t, i),
        history.queue.is_assigned(),
{
    reveal(Queue::is_sound);
    let (stack, rest) = choose|stack: Seq<u8>, rest: Seq<u8>| #[trigger]
        history.queue.is_arranged(stack, rest);
    assert forall|t: int, i: u8| #[trigger] history.concerns(t, i) implies history.queue.owns(
        t,
        i,
    ) by {}
}

/// Setting up a record hands in an operation.
proof fn lemma_fill<V>(
    act: spec_fn(int, V) -> V,
    first: V,
    before: History<V>,
    t: int,
    index: u8,
    after: History<V>,
)
    requires
        before.is_faithful(act, first),
        before.does(act, t, QueueEvent::Fill { index }, after),
        after.queue.is_sound(),
    ensures
        after.is_faithful(act, first),
{
    lemma_one_owner(before);
    assert(before.queue.owns(t, index));
    assert forall|x: int, i: u8| #[trigger] after.concerns(x, i) implies (x == t && i == index) || (
    before.concerns(x, i) && i != index && x != t) by {
        if x != t {
            assert(before.concerns(x, i));
            assert(before.queue.owns(x, i));
        }
    }
    assert(!before.log.contains(before.handed));
    assert forall|x: int, i: u8| #[trigger] after.concerns(x, i) implies {
        &&& 0 <= after.ops[i] < after.handed
        &&& after.queue.loaded[i] <==> !after.log.contains(after.ops[i])
    } by {
        if i != index {
            assert(before.concerns(x, i));
        }
    }
    assert forall|a: int, b: int, i: u8, j: u8| #[trigger]
        after.concerns(a, i) && #[trigger] after.concerns(b, j) && i != j implies after.ops[i]
        != after.ops[j] by {
        if i != index {
            assert(before.concerns(a, i));
        }
        if j != index {
            assert(before.concerns(b, j));
        }
    }
}

/// Running a record applies its operation.
proof fn lemma_run<V>(
    act: spec_fn(int, V) -> V,
    first: V,
    before: History<V>,
    t: int,
    index: u8,
    found: bool,
    after: History<V>,
)
    requires
        before.is_faithful(act, first),
        before.does(act, t, QueueEvent::Run { index, found }, after),
        after.queue.is_sound(),
    ensures
        after.is_faithful(act, first),
{
    law_operation_is_run_once(before.queue, t, index, found, after.queue);
    let owner = choose|x: int| before.queue.awaits(x, index);
    assert(before.queue.awaits(owner, index));
    assert(before.concerns(owner, index));
    let op = before.ops[index];
    lemma_log_push(before.log, op);
    assert(before.log.push(op).drop_last() =~= before.log);
    assert forall|x: int, i: u8| #[trigger] after.concerns(x, i) == before.concerns(x, i) by {}
    assert forall|x: int, i: u8| #[trigger] after.concerns(x, i) implies {
        &&& 0 <= after.ops[i] < after.handed
        &&& after.queue.loaded[i] <==> !after.log.contains(after.ops[i])
    } by {
        assert(before.concerns(x, i));
        if i != index {
            assert(before.ops[i] != op);
        }
    }
    assert forall|a: int, b: int, i: u8, j: u8| #[trigger]
        after.concerns(a, i) && #[trigger] after.concerns(b, j) && i != j implies after.ops[i]
        != after.ops[j] by {
        assert(before.concerns(a, i) && before.concerns(b, j));
    }
}

/// A thread that applies an operation of its own hands it in and applies it.
proof fn lemma_apply<V>(
    act: spec_fn(int, V) -> V,
    first: V,
    before: History<V>,
    t: int,
    after: History<V>,
)
    requires
        before.is_faithful(act, first),
        before.does(act, t, QueueEvent::Apply, after),
        after.queue.is_sound(),
    ensures
        after.is_faithful(act, first),
{
    assert(after.queue =~= before.queue);
    lemma_log_push(before.log, before.handed);
    assert(before.log.push(before.handed).drop_last() =~= before.log);
    assert forall|x: int, i: u8| #[trigger] after.concerns(x, i) implies {
        &&& 0 <= after.ops[i] < after.handed
        &&& after.queue.loaded[i] <==> !after.log.contains(after.ops[i])
    } by {
        assert(before.concerns(x, i));
    }
    assert forall|a: int, b: int, i: u8, j: u8| #[trigger]
        after.concerns(a, i) && #[trigger] after.concerns(b, j) && i != j implies after.ops[i]
        != after.ops[j] by {
        assert(before.concerns(a, i) && before.concerns(b, j));
    }
}

/// Whatever happens next, no operation is applied twice or forgotten, and the
/// value stays what the operations made of it.
pub proof fn law_history_stays_faithful<V>(
    act: spec_fn(int, V) -> V,
    first: V,
    before: History<V>,
    after: History<V>,
)
    requires
        before.is_faithful(act, first),
        before.next(act, after),
    ensures
        after.is_faithful(act, first),
{
    if exists|t: int, event: QueueEvent| #[trigger] before.does(act, t, event, after) {
        let (t, event) = choose|t: int, event: QueueEvent| #[trigger]
            before.does(act, t, event, after);
        assert(before.queue.next(after.queue));
        law_list_stays_sound(before.queue, after.queue);
        match event {
            QueueEvent::Fill { index } => {
                lemma_fill(act, first, before, t, index, after);
            },
            QueueEvent::Run { index, found } => {
                lemma_run(act, first, before, t, index, found, after);
            },
            QueueEvent::Apply => {
                lemma_apply(act, first, before, t, after);
            },
            _ => {
                lemma_event_is_quiet(before.queue, t, event, after.queue);
                lemma_quiet(act, first, before, after);
            },
        }
    } else if before.passes(after) {
        assert(before.queue.next(after.queue));
        law_list_stays_sound(before.queue, after.queue);
        lemma_quiet(act, first, before, after);
    }
}

/// Nothing happens to any operation.
proof fn lemma_quiet<V>(
    act: spec_fn(int, V) -> V,
    first: V,
    before: History<V>,
    after: History<V>,
)
    requires
        before.is_faithful(act, first),
        after.queue.is_sound(),
        after == (History { queue: after.queue, ..before }),
        after.queue.loaded == before.queue.loaded,
        forall|x: int, i: u8| #[trigger] after.concerns(x, i) ==> before.concerns(x, i),
    ensures
        after.is_faithful(act, first),
{
    assert forall|a: int, b: int, i: u8, j: u8| #[trigger]
        after.concerns(a, i) && #[trigger] after.concerns(b, j) && i != j implies after.ops[i]
        != after.ops[j] by {
        assert(before.concerns(a, i) && before.concerns(b, j));
    }
}

/// A run: it starts with a first value, and one thing happens at a time.
pub open spec fn is_execution<V>(
    act: spec_fn(int, V) -> V,
    first: V,
    states: Seq<History<V>>,
) -> bool {
    &&& states.len() > 0
    &&& states[0].initial()
    &&& states[0].value == first
    &&& forall|i: int|
        0 <= i < states.len() - 1 ==> (#[trigger] states[i]).next(act, states[i + 1])
}

/// In every state that a value can come to, no operation has been applied to it
/// twice, and it is what the operations that have been applied, one after the
/// other, made of the first value.
pub proof fn law_value_is_replayed<V>(
    act: spec_fn(int, V) -> V,
    first: V,
    states: Seq<History<V>>,
    i: int,
)
    requires
        is_execution(act, first, states),
        0 <= i < states.len(),
    ensures
        states[i].value == replay(act, first, states[i].log),
        states[i].log.no_duplicates(),
        states[i].is_faithful(act, first),
    decreases i,
{
    if i > 0 {
        law_value_is_replayed(act, first, states, i - 1);
        assert(states[i - 1].next(act, states[i - 1 + 1]));
        law_history_stays_faithful(act, first, states[i - 1], states[i]);
    } else {
        reveal(Queue::is_sound);
        assert(states[0].queue.is_arranged(Seq::empty(), Seq::empty()));
    }
}

/// The operation of a thread that finds its record marked has been applied, and
/// so has that of a thread that has learned so before.
pub proof fn law_marked_operation_was_applied<V>(
    act: spec_fn(int, V) -> V,
    first: V,
    history: History<V>,
    t: int,
    index: u8,
)
    requires
        history.is_faithful(act, first),
        history.queue.threads.contains_key(t),
        history.queue.threads[t].record == (RecordPhase::Queued { index })
            && history.queue.ready[index] || history.queue.threads[t].record == (
        RecordPhase::Finished { index }),
    ensures
        history.log.contains(history.ops[index]),
{
    assert(history.concerns(t, index));
    if history.queue.threads[t].record == (RecordPhase::Queued { index }) {
        law_mark_follows_run(history.queue, t, index);
    } else {
        reveal(Queue::is_sound);
        let (stack, rest) = choose|stack: Seq<u8>, rest: Seq<u8>| #[trigger]
            history.queue.is_arranged(stack, rest);
        assert(history.queue.fits(history.queue.threads[t].record));
    }
}

/// If every operation adds one to a number, the number has grown by as many as
/// have been applied.
pub proof fn law_count(
    act: spec_fn(int, int) -> int,
    first: int,
    history: History<int>,
)
    requires
        history.is_faithful(act, first),
        forall|op: int, value: int| #[trigger] act(op, value) == value + 1,
    ensures
        history.value == first + history.log.len(),
{
    lemma_count(act, first, history.log);
}

/// What has been applied stays applied, in the same order, and what is handed in
/// later is applied later.
proof fn lemma_log_grows<V>(
    act: spec_fn(int, V) -> V,
    first: V,
    states: Seq<History<V>>,
    i: int,
    j: int,
)
    requires
        is_execution(act, first, states),
        0 <= i <= j < states.len(),
    ensures
        states[i].log.len() <= states[j].log.len(),
        forall|k: int| 0 <= k < states[i].log.len() ==> #[trigger] states[j].log[k]
            == states[i].log[k],
        states[i].handed <= states[j].handed,
    decreases j - i,
{
    if i < j {
        lemma_log_grows(act, first, states, i, j - 1);
        assert(states[j - 1].next(act, states[j - 1 + 1]));
    }
}

/// Operations keep the order of time: one that has been applied before another
/// is handed in is applied before it.
///
/// What a thread hands in has been applied when its call returns, so an
/// operation whose call returned before the call of another began comes first.
pub proof fn law_order_of_time_is_kept<V>(
    act: spec_fn(int, V) -> V,
    first: V,
    states: Seq<History<V>>,
    i: int,
    j: int,
    a: int,
    b: int,
)
    requires
        is_execution(act, first, states),
        0 <= i <= j < states.len(),
        states[i].log.contains(a),
        // `b` had not been handed in then.
        states[i].handed <= b,
        states[j].log.contains(b),
    ensures
        states[j].log.contains(a),
        states[j].log.index_of(a) < states[j].log.index_of(b),
{
    law_value_is_replayed(act, first, states, i);
    law_value_is_replayed(act, first, states, j);
    lemma_log_grows(act, first, states, i, j);
    let log = states[j].log;
    let k = choose|k: int| 0 <= k < states[i].log.len() && states[i].log[k] == a;
    assert(log[k] == a);
    let n = log.index_of(a);
    assert(log[n] == a && n == k);
    let m = log.index_of(b);
    assert(log[m] == b);
    if m < states[i].log.len() {
        assert(states[i].log.contains(states[i].log[m]));
    }
}

/// Operations that add one each add as much as there are.
proof fn lemma_count(act: spec_fn(int, int) -> int, first: int, log: Seq<int>)
    requires
        forall|op: int, value: int| #[trigger] act(op, value) == value + 1,
    ensures
        replay(act, first, log) == first + log.len(),
    decreases log.len(),
{
    if log.len() > 0 {
        lemma_count(act, first, log.drop_last());
    }
}

} // verus!

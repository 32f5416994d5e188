//! Flat combining: threads leave their operations to whoever holds the lock.
//!
//! A thread that cannot have the lock at once puts its operation into a list
//! and waits.  A thread that has the lock takes the whole list, runs the
//! operations in it, marks them as done and wakes their owners.

pub mod erased_fn;
pub mod laws;
pub mod memory;
pub mod mutex;
pub mod protocol;
pub mod record_pool;
pub mod waiter;
pub mod waitv;

use core::ops::DerefMut;
use std::sync::Arc;

use vstd::prelude::*;

use self::erased_fn::{is_applied, is_total, Deferred, ErasedFn};
use self::memory::event::{Call, Cells, Deed, Event, QueueEvent};
use self::memory::list::{Head, Link, END};
use self::memory::mask::Masks;
use self::memory::record::{apply, apply_deferred, OpRecord};
use self::memory::word::MutexWord;
use self::memory::{extends, Outside, Trace};
use self::mutex::{acquired, Mutex, MutexGuard};
use self::protocol::{
    has_access, is_over, outside, wake_bit, wake_bits, Phase, Places, RecordPhase, SlotPhase,
    Thread, WalkPhase, CAPACITY, ROUNDS, UNLOCKED,
};
use self::record_pool::RecordPool;

verus! {

/// A value whose users run each other's operations.
#[verifier::reject_recursive_types(T)]
#[verifier::reject_recursive_types(K)]
pub struct FlatCombining<T, K = Outside> {
    data: Mutex<T, K>,
    pool: RecordPool<OpRecord<T, K>, K>,
    head: Head<K>,
}

/// The set by which the owner of a record is woken.
///
/// Two records share a bit if their indices are the same modulo 32.
pub fn idx_to_bitset(idx: u8) -> (bitset: u32)
    ensures
        bitset == wake_bit(idx),
        bitset != 0,
{
    let compressed: u8 = idx % 32;
    assert(1u32 << (compressed as u32) != 0) by (bit_vector)
        requires
            compressed < 32,
    ;
    1u32 << (compressed as u32)
}

/// What the run of an operation did to the value.
#[verifier::reject_recursive_types(T)]
pub struct Step<T> {
    /// The operation.
    pub op: ErasedFn<T>,
    /// Whether it waited to be called.
    pub pending: bool,
    /// The value before.
    pub before: T,
    /// The value after.
    pub after: T,
}

impl<T> Step<T> {
    /// Whether the operation can have been found like that, and was run: a value
    /// that changed was changed by it.
    pub open spec fn is_run(self) -> bool {
        &&& self.op.outcome()
        &&& self.op.may_be_found(self.pending)
        &&& !self.pending ==> self.after == self.before
    }
}

/// Whether these steps, one after the other, lead from one value to another.
pub open spec fn chained<T>(first: T, steps: Seq<Step<T>>, last: T) -> bool
    decreases steps.len(),
{
    if steps.len() == 0 {
        first == last
    } else {
        steps.last().after == last && chained(first, steps.drop_last(), steps.last().before)
    }
}

/// Whether a thread is between two operations.
pub open spec fn is_free(thread: Thread) -> bool {
    &&& outside(thread.lock)
    &&& thread.slot is Free || thread.slot is Full || thread.slot is GaveUp
    &&& thread.record is Absent
    &&& thread.is_at_rest()
}

/// The shared cells that the users of one value work on.
pub struct Site {
    /// The word of its mutex.
    pub word: MutexWord,
    /// The masks of its pool.
    pub masks: Masks,
    /// The head of its list.
    pub head: Head,
}

/// The functions among what was found in some records, in order.
pub open spec fn functions<T>(found: Seq<Option<ErasedFn<T>>>) -> Seq<ErasedFn<T>>
    decreases found.len(),
{
    if found.len() == 0 {
        Seq::empty()
    } else {
        match found.last() {
            Some(f) => functions(found.drop_last()).push(f),
            None => functions(found.drop_last()),
        }
    }
}

/// Whether these steps are the runs of what was found in some records, in order.
pub open spec fn are_runs<T>(found: Seq<Option<ErasedFn<T>>>, steps: Seq<Step<T>>) -> bool {
    &&& steps.len() == functions(found).len()
    &&& forall|i: int| 0 <= i < steps.len() ==> (#[trigger] steps[i]).op == functions(found)[i]
}

/// Where a thread comes to that has the lock, runs the records in the list,
/// applies an operation of its own, if it has one, and releases the lock, waking
/// the owners of the records.
pub open spec fn served(before: Thread, after: Thread, site: Site, own: bool) -> bool {
    let swept = before.deeds.push(Deed::Sweep { head: site.head });
    let applied = if own {
        swept.push(Deed::Apply)
    } else {
        swept
    };
    let unlock = Call::Unlock { mask: wake_bits(after.walk->At_done) };
    &&& after == Thread {
        lock: Phase::Idle,
        walk: after.walk,
        deeds: applied.push(Deed::Mutex { word: site.word, call: unlock }),
        at: after.at,
        ..before
    }
    &&& is_over(after.walk)
}

/// Where a thread stands that got the slot `index`, having started to look at
/// the group `first`, put a record into the list, and has waited for its mark or
/// for the lock.
pub open spec fn queued(
    before: Thread,
    site: Site,
    first: usize,
    index: u8,
    lock: Phase,
) -> Thread {
    let wait = Call::WaitOrLock { mask: wake_bit(index) };
    Thread {
        lock,
        slot: SlotPhase::Owns { index },
        record: RecordPhase::Queued { index },
        deeds: before.deeds.push(Deed::Allocate { masks: site.masks, first }).push(
            Deed::Push { head: site.head, index },
        ).push(Deed::Mutex { word: site.word, call: wait }),
        ..before
    }
}

/// Where a thread comes to that waits with a record in the list until it has seen
/// the mark of the record or got the lock, and in the latter case runs the
/// records in the list.
pub open spec fn came_back(
    before: Thread,
    after: Thread,
    site: Site,
    first: usize,
    index: u8,
) -> bool {
    &&& index < CAPACITY
    &&& {
        ||| after == (Thread {
            at: after.at,
            ..queued(before, site, first, index, Phase::Ready)
        }) && after.at.own is Some && after.at.own->0.mark.may_show(true)
        ||| served(queued(before, site, first, index, Phase::Held), after, site, false)
    }
}

/// Where a thread comes to that has waited for its record, finds it marked, and
/// returns the slot.
pub open spec fn waited(before: Thread, after: Thread, site: Site, index: u8) -> bool {
    exists|back: Thread, first: usize| #[trigger]
        came_back(before, back, site, first, index) && after == back.freed(site.masks, index)
}

/// Where a thread comes to that finds no slot for a record, or gets one but
/// cannot put the record into the list.
pub open spec fn passed_by(before: Thread, after: Thread, site: Site) -> bool {
    ||| exists|first: usize|
        {
            &&& after == (Thread {
                at: after.at,
                ..(#[trigger] before.asking(site.masks, first)).with(after.slot)
            })
            &&& after.slot is Full || after.slot is GaveUp
        }
    ||| exists|first: usize, index: u8|
        {
            &&& index < CAPACITY
            &&& after == (Thread {
                at: after.at,
                ..#[trigger] before.asking(site.masks, first).freed(site.masks, index)
            })
        }
}

/// Where a thread would come to that has come back but whose record is not
/// marked, or whose operation was not run.
///
/// That no record is found unmarked is a
/// [law](crate::flat_combining::laws::world::law_nobody_is_let_down).
pub open spec fn let_down(before: Thread, after: Thread, site: Site, index: u8) -> bool {
    ||| exists|back: Thread, first: usize| #[trigger]
        came_back(before, back, site, first, index) && after == back.abandoned(index)
    ||| waited(before, after, site, index)
}

/// Where a thread stands that has tried to get the lock once.
pub open spec fn tried_lock(before: Thread, site: Site, lock: Phase) -> Thread {
    before.after(site.word, Call::TryLock, lock)
}

/// Where a thread comes to that gets the lock at once and applies its operation
/// after those that others have left.
pub open spec fn did_it(before: Thread, after: Thread, site: Site) -> bool {
    served(tried_lock(before, site, Phase::Held), after, site, true)
}

/// Where a thread comes to that could not leave its operation to others, waits
/// for the lock, and applies it after those that others have left.
pub open spec fn did_it_later(before: Thread, after: Thread, site: Site) -> bool {
    let refused = tried_lock(before, site, Phase::Refused);
    ||| exists|passed: Thread| #[trigger]
        passed_by(refused, passed, site) && served(
            passed.after(site.word, Call::Lock, Phase::Held),
            after,
            site,
            true,
        )
    ||| exists|failed: Thread, index: u8| #[trigger]
        let_down(refused, failed, site, index) && served(
            failed.after(site.word, Call::Lock, Phase::Held),
            after,
            site,
            true,
        )
}

impl<T, K> FlatCombining<T, K> {
    /// The shared cells.
    pub closed spec fn site(&self) -> Site {
        Site { word: self.data.word(), masks: self.pool.masks(), head: self.head.id() }
    }

    /// Whether the value was made to be this.
    pub closed spec fn starts_with(&self, value: T) -> bool {
        self.data.starts_with(value)
    }

    /// Whether the lock was made free, all slots available and with a default
    /// record in them, and the list empty.
    pub closed spec fn starts_unused(&self) -> bool {
        &&& self.data.word().starts_as(UNLOCKED)
        &&& self.pool.starts_unused()
        &&& self.head.id().starts_as(END)
    }

    /// A value that nobody uses yet.
    pub(crate) fn holding(value: T) -> (combining: Self)
        ensures
            combining.starts_with(value),
            combining.starts_unused(),
    {
        FlatCombining { data: Mutex::new(value), pool: RecordPool::new(), head: Head::new() }
    }

    /// Whether a thread can have entered the value when it was `entry` and left
    /// it as `exit`.
    pub closed spec fn was_used(&self, entry: T, exit: T) -> bool {
        self.data.was_used(entry, exit)
    }

    /// Whether whoever looks into a slot and empties the record there, which has
    /// these cells, can find this.
    pub closed spec fn may_find(&self, index: u8, cells: Cells, f: Option<ErasedFn<T>>) -> bool {
        exists|item: Arc<OpRecord<T, K>>| #[trigger]
            self.pool.may_show(index, item) && item.may_give(f) && cells == item.cells(
                self.head.id(),
            )
    }

    /// Whether these are the runs of what was found in the records that a thread
    /// has dealt with, in order.
    pub open spec fn swept(&self, thread: Thread, steps: Seq<Step<T>>) -> bool {
        exists|found: Seq<Option<ErasedFn<T>>>|
            {
                &&& #[trigger] are_runs(found, steps)
                &&& self.were_found(thread.walk->At_done, thread.at.visited, found)
            }
    }

    /// Whether the record that a thread has put into this slot and set up is for
    /// this function.
    pub closed spec fn was_left<F: FnOnce(&mut T)>(&self, f: F, thread: Thread, index: u8) -> bool {
        exists|record: Arc<OpRecord<T, K>>| #[trigger]
            self.pool.was_put(index, record) && record.operation() is Some
                && record.operation()->0.is_of(f) && record.starts_as(record.operation())
                && thread.at.own == Some(record.cells(self.head.id()))
    }

    /// Where a thread comes to whose operation is applied by who has the lock,
    /// which may come to be itself.
    pub open spec fn left_it<F: FnOnce(&mut T)>(
        &self,
        f: F,
        before: Thread,
        after: Thread,
    ) -> bool {
        exists|index: u8| #[trigger]
            waited(tried_lock(before, self.site(), Phase::Refused), after, self.site(), index)
                && self.was_left(f, after, index)
    }

    /// Whether this was found in these slots.
    pub open spec fn were_found(
        &self,
        done: Seq<u8>,
        visited: Seq<Cells>,
        found: Seq<Option<ErasedFn<T>>>,
    ) -> bool {
        &&& found.len() == done.len()
        &&& visited.len() == done.len()
        &&& forall|k: int|
            0 <= k < done.len() ==> #[trigger] self.may_find(done[k], visited[k], found[k])
    }

    /// Puts a record at the head of the list.
    ///
    /// Returns whether it is there; it is not if other threads were faster
    /// [`ROUNDS`] times.
    fn push_head(&self, record: &OpRecord<T, K>, index: u8, trace: &mut Trace<K>) -> (pushed: bool)
        requires
            old(trace).thread() matches Some(t) && t.lock is Refused && t.record == (
            RecordPhase::Filled { index, failures: 0 }) && t.at.own == Some(
                record.cells(self.head.id()),
            ),
        ensures
            extends(old(trace)@, final(trace)@),
            final(trace).thread() == Some(
                if pushed {
                    Thread {
                        record: RecordPhase::Queued { index },
                        ..old(trace).thread()->0
                    }.having(Deed::Push { head: self.head.id(), index })
                } else {
                    Thread { record: RecordPhase::Absent, ..old(trace).thread()->0 }
                },
            ),
            // The record was linked to what was the head, and took its place.
            pushed ==> exists|head: u8|
                {
                    &&& final(trace)@.len() >= old(trace)@.len() + 3
                    &&& final(trace)@.subrange(
                        final(trace)@.len() - 3,
                        final(trace)@.len() as int,
                    ) == #[trigger] pushes(self.head.id(), record.link(), index, head)
                },
    {
        let ghost t = trace.thread()->0;
        let mut failures: u64 = 0;
        while failures < ROUNDS
            invariant
                failures <= ROUNDS,
                t == old(trace).thread()->0,
                t.lock is Refused,
                t.at.own == Some(record.cells(self.head.id())),
                extends(old(trace)@, trace@),
                trace.thread() == Some(
                    (Thread {
                        record: RecordPhase::Filled { index, failures: failures as nat },
                        ..t
                    }),
                ),
            decreases ROUNDS - failures,
        {
            let head = self.head.load(trace);
            record.next().store(index, head, trace);
            if self.head.compare_exchange_weak(head, index, trace) {
                assert(trace@.subrange(trace@.len() - 3, trace@.len() as int) =~= pushes(
                    self.head.id(),
                    record.link(),
                    index,
                    head,
                ));
                return true;
            }
            failures = failures + 1;
        }
        trace.give_up_record();
        false
    }

    /// Takes the list and runs the operations in it on `value`.
    ///
    /// Returns the set by which the owners of the operations are woken.
    #[must_use]
    fn run_combiner(&self, value: &mut T, trace: &mut Trace<K>) -> (bitset: u32)
        requires
            old(trace).thread() matches Some(t) && has_access(t.lock) && t.is_at_rest(),
        ensures
            extends(old(trace)@, final(trace)@),
            final(trace).thread() matches Some(t) && t == combined(
                old(trace).thread()->0,
                self.site().head,
                t.walk,
                t.at.visited,
            ) && is_over(t.walk) && bitset == wake_bits(t.walk->At_done),
            exists|steps: Seq<Step<T>>|
                {
                    &&& #[trigger] chained(*old(value), steps, *final(value))
                    &&& self.swept(final(trace).thread()->0, steps)
                    &&& steps.len() == final(trace).thread()->0.walk->At_ran
                    &&& forall|i: int|
                        0 <= i < steps.len() ==> (#[trigger] steps[i]).is_run() && (steps[i].pending
                            ==> exists|v: &mut T| #[trigger]
                            steps[i].op.allows(v) && *v == steps[i].before && *final(v)
                                == steps[i].after)
                },
    {
        let ghost t = trace.thread()->0;
        // Grab the head, leaving the list empty.
        let mut head = self.head.take_all(trace);
        let mut bitset: u32 = 0;
        let mut count: usize = 0;
        let ghost mut done: Seq<u8> = Seq::empty();
        let ghost mut visited: Seq<Cells> = Seq::empty();
        let ghost mut found: Seq<Option<ErasedFn<T>>> = Seq::empty();
        let ghost mut steps: Seq<Step<T>> = Seq::empty();
        while (head as usize) < CAPACITY && count < CAPACITY
            invariant
                count <= CAPACITY,
                count == done.len(),
                bitset == wake_bits(done),
                t == old(trace).thread()->0,
                extends(old(trace)@, trace@),
                trace.thread() == Some(
                    combined(
                        t,
                        self.head.id(),
                        WalkPhase::At { next: head, done, ran: steps.len() },
                        visited,
                    ),
                ),
                are_runs(found, steps),
                self.were_found(done, visited, found),
                chained(*old(value), steps, *value),
                forall|i: int|
                    0 <= i < steps.len() ==> (#[trigger] steps[i]).is_run() && (steps[i].pending
                        ==> exists|v: &mut T| #[trigger]
                        steps[i].op.allows(v) && *v == steps[i].before && *final(v)
                            == steps[i].after),
            decreases CAPACITY - count,
        {
            let record = self.pool.get(head);
            let ghost cells = record.cells(self.head.id());
            let ghost before = *value;
            let (Ghost(was), pending) = record.run(head, &self.head, value, trace);
            assert(self.may_find(head, cells, was));
            proof {
                if was is Some {
                    let step = Step { op: was->0, pending, before, after: *value };
                    assert(steps.push(step).drop_last() =~= steps);
                    steps = steps.push(step);
                    assert(steps.last().is_run());
                }
            }
            bitset = bitset | idx_to_bitset(head);
            let next = record.next().load(head, trace);
            record.waiter().store(head, trace);
            proof {
                assert(done.push(head).drop_last() =~= done);
                assert(found.push(was).drop_last() =~= found);
                done = done.push(head);
                visited = visited.push(cells);
                found = found.push(was);
            }
            head = next;
            count = count + 1;
        }
        assert(self.swept(trace.thread()->0, steps));
        bitset
    }

    /// Leaves the function to the thread that has the lock, and waits until it
    /// has been called.
    ///
    /// Returns whether it has; if not, it is up to the caller.
    fn hand_over<F: FnOnce(&mut T) + Send + Sync + 'static>(
        &self,
        f: &Arc<Deferred<F>>,
        trace: &mut Trace<K>,
    ) -> (done: bool)
        requires
            f.is_ready::<T>(),
            old(trace).thread() matches Some(t) && is_free(t) && t.lock is Refused,
        ensures
            done ==> is_applied::<T, F>(f.function()) && f.may_show(true),
            extends(old(trace)@, final(trace)@),
            // If it got the lock, it ran what it found, and put the value back.
            done ==> final(trace).thread()->0.deeds.len() == old(trace).thread()->0.deeds.len() + 4
                || exists|entry: T, steps: Seq<Step<T>>, exit: T|
                {
                    &&& #[trigger] chained(entry, steps, exit)
                    &&& #[trigger] self.was_used(entry, exit)
                    &&& self.swept(final(trace).thread()->0, steps)
                    &&& forall|i: int|
                        0 <= i < steps.len() ==> (#[trigger] steps[i]).is_run() && (steps[i].pending
                            ==> exists|v: &mut T| #[trigger]
                            steps[i].op.allows(v) && *v == steps[i].before && *final(v)
                                == steps[i].after)
                },
            final(trace).thread() matches Some(t) && is_free(t) && {
                let before = old(trace).thread()->0;
                if done {
                    exists|index: u8| #[trigger]
                        waited(before, t, self.site(), index) && self.was_left(
                            f.function(),
                            t,
                            index,
                        )
                } else {
                    ||| passed_by(before, t, self.site())
                    ||| exists|index: u8| #[trigger]
                        let_down(before, t, self.site(), index) && self.was_left(
                            f.function(),
                            t,
                            index,
                        ) && (t.deeds.last() is Free ==> f.may_show(false))
                }
            },
    {
        let ghost t = trace.thread()->0;
        let ghost site = self.site();
        let cb = ErasedFn::new(f);
        let allocated = self.pool.allocate(OpRecord::new(cb), trace);
        let ghost first = choose|first: usize|
            trace.thread()->0 == (#[trigger] t.asking(site.masks, first)).with(
                trace.thread()->0.slot,
            );
        let (record, idx) = match allocated {
            Some(allocated) => allocated,
            None => {
                return false;
            },
        };
        record.announce(idx, &self.head, trace);
        if !self.push_head(&record, idx, trace) {
            self.pool.free(idx, trace);
            assert(trace.thread()->0 == (Thread {
                at: trace.thread()->0.at,
                ..t.asking(site.masks, first).freed(site.masks, idx)
            }));
            return false;
        }
        let waiter = record.waiter();
        let is_marked = || -> (ready: bool)
            ensures
                waiter.id().may_show(ready),
            {
                waiter.peek()
            };
        let locked = self.data.bitset_wait_or_lock(idx_to_bitset(idx), is_marked, trace);
        if let Some(guard) = locked {
            // This means we got the lock.
            self.serve(guard, trace);
        }
        let ghost back = trace.thread()->0;
        assert(came_back(t, back, site, first, idx));
        // At this point the record should be ready.
        let ready = record.waiter().load(idx, trace);
        if ready {
            // We were marked as ready (or ran), therefore we're now the only
            // thread with access to the record.
            self.pool.free(idx, trace);
        } else {
            trace.abandon(idx);
        }
        let done = ready && f.is_done();
        proof {
            assert(self.pool.was_put(idx, record));
            assert(self.was_left(f.function(), trace.thread()->0, idx));
            if done {
                assert(waited(t, trace.thread()->0, site, idx));
            } else {
                assert(let_down(t, trace.thread()->0, site, idx));
            }
        }
        done
    }

    /// Runs the operations in the list, and releases the lock.
    fn serve(&self, guard: MutexGuard<'_, T, K>, trace: &mut Trace<K>)
        requires
            guard.is_new(self.mutex()),
            old(trace).thread() matches Some(t) && t.lock == acquired(guard.is_owner())
                && t.at.word == Some(self.site().word) && t.is_at_rest(),
        ensures
            extends(old(trace)@, final(trace)@),
            final(trace).thread() matches Some(t) && served(
                old(trace).thread()->0,
                t,
                self.site(),
                false,
            ) && t.at.masks == old(trace).thread()->0.at.masks && t.at.own
                == old(trace).thread()->0.at.own,
            exists|entry: T, steps: Seq<Step<T>>, exit: T|
                {
                    &&& #[trigger] chained(entry, steps, exit)
                    &&& #[trigger] self.was_used(entry, exit)
                    &&& self.swept(final(trace).thread()->0, steps)
                    &&& forall|i: int|
                        0 <= i < steps.len() ==> (#[trigger] steps[i]).is_run() && (steps[i].pending
                            ==> exists|v: &mut T| #[trigger]
                            steps[i].op.allows(v) && *v == steps[i].before && *final(v)
                                == steps[i].after)
                },
    {
        let mut guard = guard;
        let ghost entry = guard@;
        let bitset = self.run_combiner(guard.deref_mut(), trace);
        let ghost exit = guard@;
        let ghost over = trace.thread()->0;
        guard.unlock_with_bitset_wake(bitset, trace);
        assert(self.was_used(entry, exit));
        assert forall|steps: Seq<Step<T>>| #[trigger] self.swept(over, steps) implies self.swept(
            trace.thread()->0,
            steps,
        ) by {}
    }

    /// The mutex of the value.
    closed spec fn mutex(&self) -> Mutex<T, K> {
        self.data
    }

    /// Applies `f` to the value, or leaves it to the thread that holds the lock
    /// to do so, and waits until that is done.
    ///
    /// What others have left is applied first.
    pub fn combine<F: FnOnce(&mut T) + Send + Sync + 'static>(&self, f: F, trace: &mut Trace<K>)
        requires
            is_total::<T, F>(f),
            old(trace).thread() matches Some(t) && is_free(t),
        ensures
            is_applied::<T, F>(f),
            extends(old(trace)@, final(trace)@),
            final(trace).thread() matches Some(t) && is_free(t) && ({
                let before = old(trace).thread()->0;
                let left = self.left_it(f, before, t);
                let own = did_it(before, t, self.site()) || did_it_later(before, t, self.site());
                ||| left && t.deeds.len() == before.deeds.len() + 5
                ||| {
                    &&& left || own
                    // If it got the lock, the operations that were found were
                    // applied, and then `f`, unless others do or did that, and
                    // the value put back.
                    &&& exists|entry: T, steps: Seq<Step<T>>, last: T, exit: T|
                        {
                            &&& #[trigger] chained(entry, steps, last)
                            &&& #[trigger] self.was_used(entry, exit)
                            &&& self.swept(t, steps)
                            &&& forall|i: int|
                                0 <= i < steps.len() ==> (#[trigger] steps[i]).is_run() && (steps[i].pending
                                    ==> exists|v: &mut T| #[trigger]
                                    steps[i].op.allows(v) && *v == steps[i].before && *final(v)
                                        == steps[i].after)
                            &&& {
                                ||| own && exists|v: &mut T| #[trigger]
                                    call_ensures(f, (v,), ()) && *v == last && *final(v) == exit
                                ||| last == exit && !did_it(before, t, self.site())
                            }
                        }
                }
            }),
    {
        let ghost site = self.site();
        let ghost before = trace.thread()->0;
        if let Some(mut guard) = self.data.try_lock(trace) {
            let ghost entry = guard@;
            let bitset = self.run_combiner(guard.deref_mut(), trace);
            let ghost over = trace.thread()->0;
            let ghost last = guard@;
            apply(f, guard.deref_mut(), trace);
            let ghost exit = guard@;
            guard.unlock_with_bitset_wake(bitset, trace);
            assert(did_it(before, trace.thread()->0, site));
            assert(self.was_used(entry, exit));
            assert forall|steps: Seq<Step<T>>| #[trigger]
                self.swept(over, steps) implies self.swept(trace.thread()->0, steps) by {}
            return;
        }
        let f = Arc::new(Deferred::new(f));
        if self.hand_over(&f, trace) {
            return;
        }
        // No records left in the pool, we just need to wait on the mutex.
        let ghost passed = trace.thread()->0;
        let mut guard = self.data.lock(trace);
        let ghost entry = guard@;
        let bitset = self.run_combiner(guard.deref_mut(), trace);
        let ghost over = trace.thread()->0;
        let ghost last = guard@;
        apply_deferred(&*f, guard.deref_mut(), trace);
        let ghost exit = guard@;
        guard.unlock_with_bitset_wake(bitset, trace);
        assert(served(
            passed.after(site.word, Call::Lock, Phase::Held),
            trace.thread()->0,
            site,
            true,
        ));
        assert(did_it_later(before, trace.thread()->0, site));
        assert(passed.deeds.len() > before.deeds.len() + 1);
        assert(trace.thread()->0.deeds.len() == passed.deeds.len() + 4);
        assert(tried_lock(before, site, Phase::Held).deeds.len() == before.deeds.len() + 1);
        assert(self.was_used(entry, exit));
        assert forall|steps: Seq<Step<T>>| #[trigger] self.swept(over, steps) implies self.swept(
            trace.thread()->0,
            steps,
        ) by {}
    }
}

/// Where a thread stands that has taken a list.
pub open spec fn combined(
    before: Thread,
    head: Head,
    walk: WalkPhase,
    visited: Seq<Cells>,
) -> Thread {
    Thread {
        walk,
        deeds: before.deeds.push(Deed::Sweep { head }),
        at: Places { list: Some(head), visited, ..before.at },
        ..before
    }
}

/// What becomes of a list when a record is put at its head, which was `head`.
pub open spec fn pushes(list: Head, link: Link, index: u8, head: u8) -> Seq<Event> {
    seq![
        list.event(QueueEvent::LoadHead { head }),
        link.event(QueueEvent::StoreNext { index, next: head }),
        list.event(QueueEvent::CompareExchangeHead { current: head, new: index, success: true }),
    ]
}

} // verus!

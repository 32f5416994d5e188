//! Operations that wait to be run.

use vstd::prelude::*;
use vstd::rwlock::{RwLock, RwLockPredicate, WriteHandle};

use crate::flat_combining::erased_fn::{is_applied, is_total, Deferred, ErasedFn};
use crate::flat_combining::memory::event::{Cells, Event, Place, QueueEvent};
use crate::flat_combining::memory::list::{Head, Link, Mark, END};
use crate::flat_combining::memory::shared::{Enter, Make, Shared};
use crate::flat_combining::memory::{stage, Outside, Trace};
use crate::flat_combining::protocol::step;

verus! {

/// The predicate of the place that an operation waits in: if there is one, it
/// is the one that the record was made for, and can be called.
#[verifier::reject_recursive_types(T)]
pub struct Expected<T> {
    /// The operation that the record was made for.
    pub operation: Option<ErasedFn<T>>,
}

impl<T> RwLockPredicate<Option<ErasedFn<T>>> for Expected<T> {
    open spec fn inv(self, f: Option<ErasedFn<T>>) -> bool {
        f matches Some(op) ==> f == self.operation && op.is_callable()
    }
}

/// An operation that its owner waits for.
#[verifier::reject_recursive_types(T)]
#[verifier::reject_recursive_types(K)]
pub struct OpRecord<T, K = Outside> {
    f: Shared<RwLock<Option<ErasedFn<T>>, Expected<T>>, K>,
    waiter: Mark<K>,
    next: Link<K>,
}

impl<T, K> OpRecord<T, K> {
    /// The place that the operation waits in.
    spec fn place(&self) -> RwLock<Option<ErasedFn<T>>, Expected<T>> {
        self.f.id().cell()
    }

    /// The operation that the record was made for.
    pub closed spec fn operation(&self) -> Option<ErasedFn<T>> {
        self.place().pred().operation
    }

    /// Whether the record was made with this in it, without a mark and leading
    /// nowhere.
    pub closed spec fn starts_as(&self, f: Option<ErasedFn<T>>) -> bool {
        &&& self.place().is_made_of((f, Ghost(Expected { operation: f })))
        &&& self.mark().starts_as(false)
        &&& self.link().starts_as(END)
    }

    /// The mark by which the owner learns that the operation has been run.
    pub closed spec fn mark(&self) -> Mark {
        self.waiter.id()
    }

    /// The link to the next record.
    pub closed spec fn link(&self) -> Link {
        self.next.id()
    }

    /// The cells that the record has to do with in a list.
    pub open spec fn cells(&self, head: Head) -> Cells {
        Cells { head, link: self.link(), mark: self.mark() }
    }

    /// Whether whoever empties the record can find this in it: the place was
    /// entered, this was there, and nothing was left behind.
    pub closed spec fn may_give(&self, f: Option<ErasedFn<T>>) -> bool {
        exists|handle: WriteHandle<'_, Option<ErasedFn<T>>, Expected<T>>|
            {
                &&& #[trigger] self.place().lets_in((f, handle))
                &&& call_ensures(
                    WriteHandle::<Option<ErasedFn<T>>, Expected<T>>::release_write,
                    (handle, None),
                    (),
                )
            }
    }

    /// A record of an operation that has not been run.
    pub(crate) fn new(f: ErasedFn<T>) -> (record: Self)
        requires
            f.is_callable(),
        ensures
            record.operation() == Some(f),
            record.starts_as(Some(f)),
            record.mark().starts_as(false),
            record.link().starts_as(END),
    {
        OpRecord {
            f: Shared::new_of_two(
                RwLock::<Option<ErasedFn<T>>, Expected<T>>::new,
                Some(f),
                Ghost(Expected { operation: Some(f) }),
            ),
            waiter: Mark::new(),
            next: Link::new(),
        }
    }

    /// Takes the operation out of the record, which was found in a slot, and notes
    /// it.
    fn take(&self, index: u8, head: &Head<K>, trace: &mut Trace<K>) -> (f: Option<ErasedFn<T>>)
        requires
            old(trace).thread() is Some,
        ensures
            self.may_give(f),
            f matches Some(op) ==> f == self.operation() && op.is_callable(),
            final(trace)@ == old(trace)@.push(self.ran(index, head.id(), f is Some)),
            final(trace).thread() == step(
                old(trace).thread()->0,
                self.ran(index, head.id(), f is Some),
            ),
    {
        let (f, handle) = self.f.enter(
            RwLock::<Option<ErasedFn<T>>, Expected<T>>::acquire_write,
            Ghost(
                |entry: (
                    Option<ErasedFn<T>>,
                    WriteHandle<'_, Option<ErasedFn<T>>, Expected<T>>,
                )| self.ran(index, head.id(), entry.0 is Some),
            ),
            trace,
        );
        let ghost held = handle;
        handle.release_write(None);
        assert(self.place().lets_in((f, held)));
        f
    }

    /// The note that the record, in a slot, is ready to be put into a list.
    pub open spec fn filled(&self, index: u8, head: Head) -> Event {
        Event::Queue {
            place: Place::Record(self.cells(head)),
            event: QueueEvent::Fill { index },
        }
    }

    /// The note that the operation of the record, in a slot, was run if it was
    /// found.
    pub open spec fn ran(&self, index: u8, head: Head, found: bool) -> Event {
        Event::Queue {
            place: Place::Record(self.cells(head)),
            event: QueueEvent::Run { index, found },
        }
    }

    /// Gets the record, which has an operation and is in a slot of the thread,
    /// ready to be put into a list.
    pub(crate) fn announce(&self, index: u8, head: &Head<K>, trace: &mut Trace<K>)
        requires
            self.operation() is Some,
            old(trace).thread() matches Some(t) && step(t, self.filled(index, head.id())) is Some,
        ensures
            final(trace)@ == old(trace)@.push(self.filled(index, head.id())),
            final(trace).thread() == step(old(trace).thread()->0, self.filled(index, head.id())),
    {
        trace.note(Ghost(self.filled(index, head.id())));
    }

    /// Takes the operation out of the record, which was found in a slot, and runs
    /// it.
    ///
    /// Returns what was found, and whether it was called now.
    pub(crate) fn run(
        &self,
        index: u8,
        head: &Head<K>,
        value: &mut T,
        trace: &mut Trace<K>,
    ) -> (reply: (Ghost<Option<ErasedFn<T>>>, bool))
        requires
            old(trace).thread() matches Some(t) && forall|found: bool| #[trigger]
                step(t, self.ran(index, head.id(), found)) is Some,
        ensures
            self.may_give(reply.0@),
            reply.0@ is Some ==> reply.0@ == self.operation() && reply.0@->0.outcome()
                && reply.0@->0.may_be_found(reply.1),
            reply.1 ==> reply.0@ is Some && exists|v: &mut T| #[trigger]
                reply.0@->0.allows(v) && *v == *old(value) && *final(v) == *final(value),
            !reply.1 ==> *final(value) == *old(value),
            final(trace)@ == old(trace)@.push(self.ran(index, head.id(), reply.0@ is Some)),
            final(trace).thread() == step(
                old(trace).thread()->0,
                self.ran(index, head.id(), reply.0@ is Some),
            ),
    {
        let taken = self.take(index, head, trace);
        let ghost found = taken;
        let mut pending = false;
        if let Some(f) = taken {
            pending = f.invoke(value);
        }
        (Ghost(found), pending)
    }

    /// The mark by which the owner learns that the operation has been run.
    pub(crate) fn waiter(&self) -> (mark: &Mark<K>)
        ensures
            mark.id() == self.mark(),
    {
        &self.waiter
    }

    /// The link to the next record.
    pub(crate) fn next(&self) -> (link: &Link<K>)
        ensures
            link.id() == self.link(),
    {
        &self.next
    }
}

impl<T, K> Default for OpRecord<T, K> {
    /// A record without an operation.
    fn default() -> (record: Self)
        ensures
            record.operation() is None,
            record.starts_as(None),
            record.mark().starts_as(false),
            record.link().starts_as(END),
    {
        OpRecord {
            f: Shared::new_of_two(
                RwLock::<Option<ErasedFn<T>>, Expected<T>>::new,
                None,
                Ghost(Expected { operation: None }),
            ),
            waiter: Mark::new(),
            next: Link::new(),
        }
    }
}

/// Applies an operation of the thread's own to the value, which it has access to.
pub(crate) fn apply<T, F: FnOnce(&mut T), K>(f: F, value: &mut T, trace: &mut Trace<K>)
    requires
        is_total::<T, F>(f),
        old(trace).thread() matches Some(t) && step(t, stage(QueueEvent::Apply)) is Some,
    ensures
        exists|v: &mut T| #[trigger]
            call_ensures(f, (v,), ()) && *v == *old(value) && *final(v) == *final(value),
        final(trace)@ == old(trace)@.push(stage(QueueEvent::Apply)),
        final(trace).thread() == step(old(trace).thread()->0, stage(QueueEvent::Apply)),
{
    let ghost function = f;
    f(value);
    assert(exists|v: &mut T| #[trigger]
        call_ensures(function, (v,), ()) && *v == *old(value) && *final(v) == *value);
    trace.note(Ghost(stage(QueueEvent::Apply)));
}

/// Applies an operation of the thread's own, which others can reach, to the value,
/// which the thread has access to, unless others have done so.
///
/// Returns whether it was applied now.
pub(crate) fn apply_deferred<T, F: FnOnce(&mut T), K>(
    f: &Deferred<F>,
    value: &mut T,
    trace: &mut Trace<K>,
) -> (pending: bool)
    requires
        f.is_ready::<T>(),
        old(trace).thread() matches Some(t) && step(t, stage(QueueEvent::Apply)) is Some,
    ensures
        is_applied::<T, F>(f.function()),
        f.may_be_found(pending),
        if pending {
            exists|v: &mut T| #[trigger]
                call_ensures(f.function(), (v,), ()) && *v == *old(value) && *final(v)
                    == *final(value)
        } else {
            *final(value) == *old(value)
        },
        final(trace)@ == old(trace)@.push(stage(QueueEvent::Apply)),
        final(trace).thread() == step(old(trace).thread()->0, stage(QueueEvent::Apply)),
{
    let pending = f.invoke(value);
    trace.note(Ghost(stage(QueueEvent::Apply)));
    pending
}

} // verus!

//! The list of pending records, as a stack of slot indices.

use std::sync::atomic::{AtomicBool, AtomicU8, Ordering};

use vstd::prelude::*;

use crate::flat_combining::memory::event::{Event, Place, QueueEvent};
use crate::flat_combining::memory::shared::{Make, Peek, Shared, WeakExchange};
use crate::flat_combining::memory::{Outside, Trace};
use crate::flat_combining::protocol::step;

verus! {

/// The link that leads nowhere.
pub const END: u8 = 0xff;

/// The head of the list.
#[verifier::reject_recursive_types(K)]
pub struct Head<K = Outside> {
    link: Shared<AtomicU8, K>,
}

impl Head {
    /// Whether the head was made with this link.
    pub closed spec fn starts_as(&self, link: u8) -> bool {
        self.link.cell().is_made_of(link)
    }

    /// An event at this head.
    pub open spec fn event(&self, event: QueueEvent) -> Event {
        Event::Queue { place: Place::Head(*self), event }
    }

    /// Whether an access to this head can go like this.
    pub closed spec fn allows(&self, event: QueueEvent) -> bool {
        match event {
            QueueEvent::LoadHead { head } => call_ensures(
                AtomicU8::load,
                (&self.link.cell(), Ordering::Acquire),
                head,
            ),
            QueueEvent::CompareExchangeHead { current, new, success } => exists|
                reply: Result<u8, u8>,
            | #[trigger]
                call_ensures(
                    AtomicU8::compare_exchange_weak,
                    (&self.link.cell(), current, new, Ordering::Release, Ordering::Acquire),
                    reply,
                ) && success == reply is Ok,
            QueueEvent::TakeAll { head } => call_ensures(
                AtomicU8::swap,
                (&self.link.cell(), END, Ordering::AcqRel),
                head,
            ),
            _ => false,
        }
    }
}

impl<K> Head<K> {
    /// The head, whatever the kind of the traces is.
    pub closed spec fn id(&self) -> Head {
        Head { link: self.link.id() }
    }

    /// The head of an empty list.
    pub(crate) fn new() -> (head: Self)
        ensures
            head.id().starts_as(END),
    {
        Head { link: Shared::new(AtomicU8::new, END) }
    }

    /// Reads the head; later accesses stay after it.
    pub(crate) fn load(&self, trace: &mut Trace<K>) -> (head: u8)
        requires
            old(trace).thread() matches Some(t) && forall|head: u8| #[trigger]
            step(t, self.id().event(QueueEvent::LoadHead { head })) is Some,
        ensures
            self.id().allows(QueueEvent::LoadHead { head }),
            final(trace)@ == old(trace)@.push(self.id().event(QueueEvent::LoadHead { head })),
            final(trace).thread() == step(
                old(trace).thread()->0,
                self.id().event(QueueEvent::LoadHead { head }),
            ),
    {
        self.link.call(
            AtomicU8::load,
            Ordering::Acquire,
            Ghost(|head: u8| self.id().event(QueueEvent::LoadHead { head })),
            trace,
        )
    }

    /// Exchanges the head if it is `current`; earlier accesses stay before a
    /// success.  May fail without a reason.
    pub(crate) fn compare_exchange_weak(
        &self,
        current: u8,
        new: u8,
        trace: &mut Trace<K>,
    ) -> (success: bool)
        requires
            old(trace).thread() matches Some(t) && forall|success: bool| #[trigger]
            step(
                t,
                self.id().event(QueueEvent::CompareExchangeHead { current, new, success }),
            ) is Some,
        ensures
            self.id().allows(QueueEvent::CompareExchangeHead { current, new, success }),
            final(trace)@ == old(trace)@.push(
                self.id().event(QueueEvent::CompareExchangeHead { current, new, success }),
            ),
            final(trace).thread() == step(
                old(trace).thread()->0,
                self.id().event(QueueEvent::CompareExchangeHead { current, new, success }),
            ),
    {
        let reply: Result<u8, u8> = self.link.exchange_weak(
            AtomicU8::compare_exchange_weak,
            current,
            new,
            Ordering::Release,
            Ordering::Acquire,
            Ghost(
                |reply: Result<u8, u8>|
                    self.id().event(
                        QueueEvent::CompareExchangeHead { current, new, success: reply is Ok },
                    ),
            ),
            trace,
        );
        reply.is_ok()
    }

    /// Takes the whole list, leaving it empty.
    pub(crate) fn take_all(&self, trace: &mut Trace<K>) -> (head: u8)
        requires
            old(trace).thread() matches Some(t) && forall|head: u8| #[trigger]
            step(t, self.id().event(QueueEvent::TakeAll { head })) is Some,
        ensures
            self.id().allows(QueueEvent::TakeAll { head }),
            final(trace)@ == old(trace)@.push(self.id().event(QueueEvent::TakeAll { head })),
            final(trace).thread() == step(
                old(trace).thread()->0,
                self.id().event(QueueEvent::TakeAll { head }),
            ),
    {
        self.link.call_with_two(
            AtomicU8::swap,
            END,
            Ordering::AcqRel,
            Ghost(|head: u8| self.id().event(QueueEvent::TakeAll { head })),
            trace,
        )
    }
}

/// The link from one record to the next.
#[verifier::reject_recursive_types(K)]
pub struct Link<K = Outside> {
    link: Shared<AtomicU8, K>,
}

impl Link {
    /// Whether the link was made to lead there.
    pub closed spec fn starts_as(&self, link: u8) -> bool {
        self.link.cell().is_made_of(link)
    }

    /// An event at this link.
    pub open spec fn event(&self, event: QueueEvent) -> Event {
        Event::Queue { place: Place::Link(*self), event }
    }

    /// Whether an access to this link can go like this.
    pub closed spec fn allows(&self, event: QueueEvent) -> bool {
        match event {
            QueueEvent::StoreNext { next, .. } => call_ensures(
                AtomicU8::store,
                (&self.link.cell(), next, Ordering::Relaxed),
                (),
            ),
            QueueEvent::LoadNext { next, .. } => call_ensures(
                AtomicU8::load,
                (&self.link.cell(), Ordering::Acquire),
                next,
            ),
            _ => false,
        }
    }
}

impl<K> Link<K> {
    /// The link, whatever the kind of the traces is.
    pub closed spec fn id(&self) -> Link {
        Link { link: self.link.id() }
    }

    /// A link that leads nowhere.
    pub(crate) fn new() -> (link: Self)
        ensures
            link.id().starts_as(END),
    {
        Link { link: Shared::new(AtomicU8::new, END) }
    }

    /// Writes the link of the record `index`.
    pub(crate) fn store(&self, index: u8, next: u8, trace: &mut Trace<K>)
        requires
            old(trace).thread() matches Some(t) && step(
            t,
            self.id().event(QueueEvent::StoreNext { index, next }),
        ) is Some,
        ensures
            self.id().allows(QueueEvent::StoreNext { index, next }),
            final(trace)@ == old(trace)@.push(
                self.id().event(QueueEvent::StoreNext { index, next }),
            ),
            final(trace).thread() == step(
                old(trace).thread()->0,
                self.id().event(QueueEvent::StoreNext { index, next }),
            ),
    {
        self.link.call_with_two(
            AtomicU8::store,
            next,
            Ordering::Relaxed,
            Ghost(|reply: ()| self.id().event(QueueEvent::StoreNext { index, next })),
            trace,
        );
    }

    /// Reads the link of the record `index`; later accesses stay after it.
    pub(crate) fn load(&self, index: u8, trace: &mut Trace<K>) -> (next: u8)
        requires
            old(trace).thread() matches Some(t) && forall|next: u8| #[trigger]
            step(t, self.id().event(QueueEvent::LoadNext { index, next })) is Some,
        ensures
            self.id().allows(QueueEvent::LoadNext { index, next }),
            final(trace)@ == old(trace)@.push(
                self.id().event(QueueEvent::LoadNext { index, next }),
            ),
            final(trace).thread() == step(
                old(trace).thread()->0,
                self.id().event(QueueEvent::LoadNext { index, next }),
            ),
    {
        self.link.call(
            AtomicU8::load,
            Ordering::Acquire,
            Ghost(|next: u8| self.id().event(QueueEvent::LoadNext { index, next })),
            trace,
        )
    }
}

/// The mark of a record that has been run.
#[verifier::reject_recursive_types(K)]
pub struct Mark<K = Outside> {
    ready: Shared<AtomicBool, K>,
}

impl Mark {
    /// Whether the mark was made set, or unset.
    pub closed spec fn starts_as(&self, ready: bool) -> bool {
        self.ready.cell().is_made_of(ready)
    }

    /// An event at this mark.
    pub open spec fn event(&self, event: QueueEvent) -> Event {
        Event::Queue { place: Place::Mark(*self), event }
    }

    /// Whether an access to this mark can go like this.
    pub closed spec fn allows(&self, event: QueueEvent) -> bool {
        match event {
            QueueEvent::StoreReady { .. } => call_ensures(
                AtomicBool::store,
                (&self.ready.cell(), true, Ordering::Release),
                (),
            ),
            QueueEvent::LoadReady { ready, .. } => call_ensures(
                AtomicBool::load,
                (&self.ready.cell(), Ordering::Relaxed),
                ready,
            ),
            _ => false,
        }
    }

    /// Whether a read of the mark, with later accesses staying after it, can
    /// give this.
    pub closed spec fn may_show(&self, ready: bool) -> bool {
        call_ensures(AtomicBool::load, (&self.ready.cell(), Ordering::Acquire), ready)
    }
}

impl<K> Mark<K> {
    /// The mark, whatever the kind of the traces is.
    pub closed spec fn id(&self) -> Mark {
        Mark { ready: self.ready.id() }
    }

    /// The mark of a record that has not been run.
    pub(crate) fn new() -> (mark: Self)
        ensures
            mark.id().starts_as(false),
    {
        Mark { ready: Shared::new(AtomicBool::new, false) }
    }

    /// Reads the mark for a condition, which a mutex asks and notes; later
    /// accesses stay after it.
    pub(crate) fn peek(&self) -> (ready: bool)
        ensures
            self.id().may_show(ready),
    {
        self.ready.peek(AtomicBool::load, Ordering::Acquire)
    }

    /// Reads the mark of the record `index`.
    pub(crate) fn load(&self, index: u8, trace: &mut Trace<K>) -> (ready: bool)
        requires
            old(trace).thread() matches Some(t) && forall|ready: bool| #[trigger]
            step(t, self.id().event(QueueEvent::LoadReady { index, ready })) is Some,
        ensures
            self.id().allows(QueueEvent::LoadReady { index, ready }),
            final(trace)@ == old(trace)@.push(
                self.id().event(QueueEvent::LoadReady { index, ready }),
            ),
            final(trace).thread() == step(
                old(trace).thread()->0,
                self.id().event(QueueEvent::LoadReady { index, ready }),
            ),
    {
        self.ready.call(
            AtomicBool::load,
            Ordering::Relaxed,
            Ghost(|ready: bool| self.id().event(QueueEvent::LoadReady { index, ready })),
            trace,
        )
    }

    /// Marks the record `index`; earlier accesses stay before it.
    pub(crate) fn store(&self, index: u8, trace: &mut Trace<K>)
        requires
            old(trace).thread() matches Some(t) && step(
            t,
            self.id().event(QueueEvent::StoreReady { index }),
        ) is Some,
        ensures
            self.id().allows(QueueEvent::StoreReady { index }),
            final(trace)@ == old(trace)@.push(self.id().event(QueueEvent::StoreReady { index })),
            final(trace).thread() == step(
                old(trace).thread()->0,
                self.id().event(QueueEvent::StoreReady { index }),
            ),
    {
        self.ready.call_with_two(
            AtomicBool::store,
            true,
            Ordering::Release,
            Ghost(|reply: ()| self.id().event(QueueEvent::StoreReady { index })),
            trace,
        );
    }
}

} // verus!

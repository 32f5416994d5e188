//! The availability masks of a pool, one for each group of slots.

use core::ops::Deref;
use std::sync::atomic::{AtomicU8, Ordering};

use crossbeam_utils::CachePadded;
use vstd::prelude::*;

use crate::flat_combining::memory::event::{Event, PoolEvent};
use crate::flat_combining::memory::shared::{Make, Shared, WeakExchange};
use crate::flat_combining::memory::{Outside, Trace};
use crate::flat_combining::protocol::{step, GROUPS};

verus! {

/// `crossbeam_utils::CachePadded`: a value that has its cache lines to itself.
#[verifier::external_type_specification]
#[verifier::external_body]
#[verifier::reject_recursive_types(T)]
pub struct ExCachePadded<T>(CachePadded<T>);

/// `CachePadded::new` wraps a value; what `CachePadded`'s `Deref::deref` gives
/// access to is the value that was wrapped.
#[verifier::external_body]
pub(crate) fn pad<T>(value: T) -> (padded: CachePadded<T>)
    ensures
        forall|inner: &T| #[trigger] holds(padded, inner) ==> *inner == value,
{
    CachePadded::new(value)
}

/// `CachePadded`'s `Deref::deref` gives access to the value that was wrapped.
/// Which one that is, the contract of `pad` says.
pub assume_specification<T>[ <CachePadded<T> as Deref>::deref ](padded: &CachePadded<T>) -> (value:
    &T);

/// Whether this is the value that a padded one gives access to.
pub open spec fn holds<T>(padded: CachePadded<T>, value: &T) -> bool {
    call_ensures(<CachePadded<T> as Deref>::deref, (&padded,), value)
}

/// CPU-specific bitmasks tracking available slots.  Each one tracks 8 slots.
#[verifier::reject_recursive_types(K)]
pub struct Masks<K = Outside> {
    groups: Vec<CachePadded<Shared<AtomicU8, K>>>,
    cells: Ghost<Seq<AtomicU8>>,
}

/// Whether a padded cell gives access to this one.
spec fn is_padded<K>(padded: CachePadded<Shared<AtomicU8, K>>, cell: AtomicU8) -> bool {
    forall|shared: &Shared<AtomicU8, K>| #[trigger]
        holds(padded, shared) ==> shared.id().cell() == cell
}

impl Masks {
    /// Whether the mask of a group was made with this value.
    pub closed spec fn starts_as(&self, group: usize, mask: u8) -> bool {
        self.at(group).is_made_of(mask)
    }

    /// The mask of a group.
    spec fn at(&self, group: usize) -> AtomicU8 {
        self.cells@[group as int]
    }

    /// An event at these masks.
    pub open spec fn event(&self, event: PoolEvent) -> Event {
        Event::Pool { masks: *self, event }
    }

    /// Whether a read of the mask of a group can give this.
    pub closed spec fn may_load(&self, group: usize, mask: u8) -> bool {
        call_ensures(AtomicU8::load, (&self.at(group), Ordering::Acquire), mask)
    }

    /// Whether an exchange of the mask of a group can go like this.
    pub closed spec fn may_exchange(
        &self,
        group: usize,
        current: u8,
        new: u8,
        success: bool,
    ) -> bool {
        exists|reply: Result<u8, u8>| #[trigger]
            self.at(group).exchanges(current, new, Ordering::AcqRel, Ordering::Relaxed, reply)
                && success == reply is Ok
    }

    /// Whether the addition of bits to the mask of a group can go like this.
    pub closed spec fn may_add(&self, group: usize, bits: u8, previous: u8) -> bool {
        call_ensures(AtomicU8::fetch_or, (&self.at(group), bits, Ordering::AcqRel), previous)
    }

    /// Whether an access to these masks can go like this.
    pub open spec fn allows(&self, event: PoolEvent) -> bool {
        match event {
            PoolEvent::Load { group, mask } => self.may_load(group, mask),
            PoolEvent::CompareExchange { group, current, new, success } => self.may_exchange(
                group,
                current,
                new,
                success,
            ),
            PoolEvent::FetchOr { group, bits, previous } => self.may_add(group, bits, previous),
            // Nothing is done to the masks.
            PoolEvent::GiveUp | PoolEvent::Store { .. } | PoolEvent::Clear { .. } => false,
        }
    }
}

impl<K> Masks<K> {
    #[verifier::type_invariant]
    spec fn is_complete(self) -> bool {
        &&& self.groups@.len() == GROUPS
        &&& self.cells@.len() == GROUPS
        &&& forall|i: int|
            0 <= i < GROUPS ==> is_padded(#[trigger] self.groups@[i], self.cells@[i])
    }

    /// The masks, whatever the kind of the traces is.
    pub closed spec fn id(&self) -> Masks {
        Masks { groups: arbitrary(), cells: self.cells }
    }

    /// Masks by which every slot is available.
    pub(crate) fn new() -> (masks: Self)
        ensures
            forall|group: usize|
                group < GROUPS ==> #[trigger] masks.id().starts_as(group, u8::MAX),
    {
        let mut groups: Vec<CachePadded<Shared<AtomicU8, K>>> = Vec::new();
        let ghost mut cells: Seq<AtomicU8> = Seq::empty();
        while groups.len() < GROUPS
            invariant
                groups@.len() <= GROUPS,
                cells.len() == groups@.len(),
                forall|i: int|
                    0 <= i < groups@.len() ==> is_padded(#[trigger] groups@[i], cells[i]),
                forall|i: int|
                    0 <= i < groups@.len() ==> (#[trigger] cells[i]).is_made_of(u8::MAX),
            decreases GROUPS - groups@.len(),
        {
            let shared = Shared::new(AtomicU8::new, u8::MAX);
            let ghost made = shared.id().cell();
            let padded = pad(shared);
            assert(is_padded(padded, made));
            groups.push(padded);
            proof {
                cells = cells.push(made);
            }
        }
        Masks { groups, cells: Ghost(cells) }
    }

    /// The mask of a group.
    fn cell(&self, group: usize) -> (cell: &Shared<AtomicU8, K>)
        requires
            group < GROUPS,
        ensures
            cell.id().cell() == self.id().at(group),
    {
        proof {
            use_type_invariant(self);
        }
        let cell = self.groups[group].deref();
        assert(is_padded(self.groups@[group as int], self.cells@[group as int]));
        assert(holds(self.groups@[group as int], cell));
        cell
    }

    /// Reads the mask of a group; later accesses stay after it.
    pub(crate) fn load(&self, group: usize, trace: &mut Trace<K>) -> (mask: u8)
        requires
            group < GROUPS,
            old(trace).thread() matches Some(t) && forall|mask: u8| #[trigger]
            step(t, self.id().event(PoolEvent::Load { group, mask })) is Some,
        ensures
            self.id().allows(PoolEvent::Load { group, mask }),
            final(trace)@ == old(trace)@.push(self.id().event(PoolEvent::Load { group, mask })),
            final(trace).thread() == step(
                old(trace).thread()->0,
                self.id().event(PoolEvent::Load { group, mask }),
            ),
    {
        self.cell(group).call(
            AtomicU8::load,
            Ordering::Acquire,
            Ghost(|mask: u8| self.id().event(PoolEvent::Load { group, mask })),
            trace,
        )
    }

    /// Exchanges the mask of a group if it is `current`; may fail without a
    /// reason.
    pub(crate) fn compare_exchange_weak(
        &self,
        group: usize,
        current: u8,
        new: u8,
        trace: &mut Trace<K>,
    ) -> (success: bool)
        requires
            group < GROUPS,
            old(trace).thread() matches Some(t) && forall|success: bool| #[trigger]
            step(
                t,
                self.id().event(PoolEvent::CompareExchange { group, current, new, success }),
            ) is Some,
        ensures
            self.id().allows(PoolEvent::CompareExchange { group, current, new, success }),
            final(trace)@ == old(trace)@.push(
                self.id().event(PoolEvent::CompareExchange { group, current, new, success }),
            ),
            final(trace).thread() == step(
                old(trace).thread()->0,
                self.id().event(PoolEvent::CompareExchange { group, current, new, success }),
            ),
    {
        let reply: Result<u8, u8> = self.cell(group).exchange_weak(
            AtomicU8::compare_exchange_weak,
            current,
            new,
            Ordering::AcqRel,
            Ordering::Relaxed,
            Ghost(
                |reply: Result<u8, u8>|
                    self.id().event(
                        PoolEvent::CompareExchange { group, current, new, success: reply is Ok },
                    ),
            ),
            trace,
        );
        reply.is_ok()
    }

    /// Adds bits to the mask of a group.
    pub(crate) fn fetch_or(&self, group: usize, bits: u8, trace: &mut Trace<K>) -> (previous: u8)
        requires
            group < GROUPS,
            old(trace).thread() matches Some(t) && forall|previous: u8| #[trigger]
            step(t, self.id().event(PoolEvent::FetchOr { group, bits, previous })) is Some,
        ensures
            self.id().allows(PoolEvent::FetchOr { group, bits, previous }),
            final(trace)@ == old(trace)@.push(
                self.id().event(PoolEvent::FetchOr { group, bits, previous }),
            ),
            final(trace).thread() == step(
                old(trace).thread()->0,
                self.id().event(PoolEvent::FetchOr { group, bits, previous }),
            ),
    {
        self.cell(group).call_with_two(
            AtomicU8::fetch_or,
            bits,
            Ordering::AcqRel,
            Ghost(|previous: u8| self.id().event(PoolEvent::FetchOr { group, bits, previous })),
            trace,
        )
    }
}

} // verus!

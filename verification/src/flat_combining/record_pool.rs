//! A pool of records that threads claim and return without locks.

use std::sync::Arc;

use vstd::prelude::*;

use crate::flat_combining::memory::event::{Event, PoolEvent};
use crate::flat_combining::memory::mask::Masks;
use crate::flat_combining::memory::slot::{is_default, Slots};
use crate::flat_combining::memory::{extends, Outside, Trace};
use crate::flat_combining::protocol::{
    bit_of, lemma_lowest, lowest, SlotPhase, CAPACITY, GROUPS, GROUP_SIZE, ROUNDS,
};

verus! {

/// `rustix::thread::sched_getcpu` tells the CPU that the thread runs on.  It may
/// be any, and another the next moment.
pub assume_specification[ rustix::thread::sched_getcpu ]() -> (cpu: usize);

/// Whether the thread can be running on this CPU.
pub open spec fn may_run_on(cpu: usize) -> bool {
    call_ensures(rustix::thread::sched_getcpu, (), cpu)
}

/// A concurrent-safe pool of records with a fixed capacity of 64 items.
///
/// All slots are pre-initialized with `T::default()` values.
#[verifier::reject_recursive_types(T)]
#[verifier::reject_recursive_types(K)]
pub struct RecordPool<T, K = Outside> {
    /// Storage for the items, cache-padded to reduce false sharing.
    items: Slots<T, K>,
    /// Which slots are available.
    available: Masks<K>,
}

/// The lowest slot that a mask has available, and the mask without it; `None`
/// if there is none.
pub fn choose_slot(mask: u8) -> (choice: Option<(u8, u8)>)
    ensures
        choice is None <==> mask == 0,
        choice matches Some((slot, rest)) ==> {
            &&& slot == lowest(mask)
            &&& slot < GROUP_SIZE
            &&& mask & bit_of(slot) != 0
            &&& forall|lower: u8| lower < slot ==> mask & #[trigger] bit_of(lower) == 0
            &&& rest == mask & !bit_of(slot)
        },
{
    if mask == 0 {
        return None;
    }
    // Find the lowest set bit (first available slot within this mask)
    proof {
        lemma_lowest(mask);
    }
    let slot: u8 = mask.trailing_zeros() as u8;
    // Claim this slot by clearing its bit
    Some((slot, mask & !(1u8 << slot)))
}

/// The group that a slot is in, and the mask that has just this slot.
pub fn locate_slot(index: u8) -> (place: (usize, u8))
    ensures
        place.0 == index as nat / GROUP_SIZE as nat,
        place.1 == bit_of((index % 8) as u8),
{
    ((index / 8) as usize, 1u8 << (index % 8))
}

impl<T: Default, K> RecordPool<T, K> {
    /// Whether a slot was made with a default item in it.
    pub closed spec fn starts_default(&self, index: u8) -> bool {
        self.items.starts_default(index)
    }

    /// Whether every slot was made available and with a default item in it.
    pub open spec fn starts_unused(&self) -> bool {
        &&& forall|group: usize|
            group < GROUPS ==> #[trigger] self.masks().starts_as(group, u8::MAX)
        &&& forall|index: u8| index < CAPACITY ==> #[trigger] self.starts_default(index)
    }

    /// Creates a new pool with all slots pre-initialized and available.
    pub fn new() -> (pool: Self)
        ensures
            pool.starts_unused(),
    {
        RecordPool { items: Slots::new(), available: Masks::new() }
    }

    /// Attempts to allocate a slot from the pool.
    ///
    /// Returns a reference to the initialized slot and its index if successful,
    /// `None` if the pool is full: if none of the groups had a slot available
    /// when the thread looked at it, starting with the group of the CPU that it
    /// runs on.  `None` also comes back if other threads were faster
    /// [`ROUNDS`] times.
    pub fn allocate(&self, init: T, trace: &mut Trace<K>) -> (result: Option<(Arc<T>, u8)>)
        requires
            old(trace).thread() matches Some(t) && (t.slot is Free || t.slot is Full
                || t.slot is GaveUp),
        ensures
            result matches Some((item, index)) ==> *item == init && index < CAPACITY
                && self.was_put(index, item),
            extends(old(trace)@, final(trace)@),
            final(trace).thread() is Some,
            // The slot is written last, when it has been claimed.
            result matches Some((item, index)) ==> final(trace)@.last() == self.masks().event(
                PoolEvent::Store { index },
            ),
            // The search starts with the group of the CPU.
            exists|cpu: usize|
                {
                    &&& #[trigger] may_run_on(cpu)
                    &&& final(trace).thread()->0 == old(trace).thread()->0.asking(
                        self.masks(),
                        (cpu % GROUPS) as usize,
                    ).with(final(trace).thread()->0.slot)
                },
            match result {
                Some((item, index)) => final(trace).thread()->0.slot == (SlotPhase::Owns { index }),
                None => final(trace).thread()->0.slot is Full
                    || final(trace).thread()->0.slot is GaveUp,
            },
    {
        let ghost t = trace.thread()->0;
        // Get current CPU to determine which group to prefer
        let cpu: usize = rustix::thread::sched_getcpu();
        let first: usize = cpu % GROUPS;
        assert(may_run_on(cpu));
        let mut skipped: usize = 0;
        let mut failures: u64 = 0;
        while failures < ROUNDS
            invariant
                first < GROUPS,
                skipped < GROUPS,
                failures <= ROUNDS,
                t == old(trace).thread()->0,
                t.slot is Free || t.slot is Full || t.slot is GaveUp,
                may_run_on(cpu),
                first == cpu % GROUPS,
                extends(old(trace)@, trace@),
                trace.thread() == Some(t) && skipped == 0 && failures == 0 || trace.thread()
                    == Some(
                    t.asking(self.masks(), first).with(
                        SlotPhase::Looking {
                            first,
                            skipped: skipped as nat,
                            failures: failures as nat,
                        },
                    ),
                ),
            decreases ROUNDS - failures, GROUPS - skipped,
        {
            let group: usize = (first + skipped) % GROUPS;
            let current = self.available.load(group, trace);
            match choose_slot(current) {
                None => {
                    // If no bits are set in this mask, no slots available
                    if skipped + 1 == GROUPS {
                        return None;
                    }
                    skipped = skipped + 1;
                },
                Some((slot, rest)) => {
                    // Try to atomically claim this slot by clearing its bit
                    if self.available.compare_exchange_weak(group, current, rest, trace) {
                        let index: u8 = (group * GROUP_SIZE) as u8 + slot;
                        let item = Arc::new(init);
                        self.items.store(index, item.clone(), &self.available, trace);
                        return Some((item, index));
                    }
                    // Another thread modified this mask, retry
                    failures = failures + 1;
                },
            }
        }
        trace.give_up_slot(&self.available);
        None
    }

    /// Returns a slot to the pool, making it available for future allocations.
    ///
    /// Returns whether the slot had not been available; if the thread owns the
    /// slot, it had not.
    pub fn free(&self, index: u8, trace: &mut Trace<K>) -> (was_taken: bool)
        requires
            index < CAPACITY,
            old(trace).thread() matches Some(t) && t.at.masks == Some(self.masks()) && t.slot == (
            SlotPhase::Owns { index }) && (t.record is Absent || t.record is Finished),
        ensures
            final(trace).thread() == Some(old(trace).thread()->0.freed(self.masks(), index)),
            // The slot is emptied, and then made available.
            exists|previous: u8|
                {
                    &&& final(trace)@ == old(trace)@.push(
                        self.masks().event(PoolEvent::Clear { index }),
                    ).push(#[trigger] returned(self.masks(), index, previous))
                    &&& was_taken <==> previous & bit_of((index % 8) as u8) == 0
                },
            // Nothing is left in the slot but a default item.
            exists|item: T| #[trigger] is_default(item) && self.was_put(index, Arc::new(item)),
    {
        self.items.clear(index, &self.available, trace);
        assert(exists|item: T| #[trigger] is_default(item) && self.was_put(index, Arc::new(item)));
        // Determine which mask and bit position this index corresponds to
        let (group, bits) = locate_slot(index);
        let previous = self.available.fetch_or(group, bits, trace);
        assert(trace@ == old(trace)@.push(self.masks().event(PoolEvent::Clear { index })).push(
            returned(self.masks(), index, previous),
        ));
        // Check for double-free
        (previous & bits) == 0
    }

    /// The item of a slot.
    pub(crate) fn get(&self, index: u8) -> (item: Arc<T>)
        requires
            index < CAPACITY,
        ensures
            self.may_show(index, item),
    {
        self.items.get(index)
    }
}

/// The return of a slot.
pub open spec fn returned(masks: Masks, index: u8, previous: u8) -> Event {
    masks.event(
        PoolEvent::FetchOr {
            group: (index as nat / GROUP_SIZE as nat) as usize,
            bits: bit_of((index % 8) as u8),
            previous,
        },
    )
}

impl<T, K> RecordPool<T, K> {
    /// The masks that tell which slots are available.
    pub closed spec fn masks(&self) -> Masks {
        self.available.id()
    }

    /// Whether a look at a slot can find this item.
    pub closed spec fn may_show(&self, index: u8, item: Arc<T>) -> bool {
        self.items.may_show(index, item)
    }

    /// Whether this item can have been put into a slot.
    pub closed spec fn was_put(&self, index: u8, item: Arc<T>) -> bool {
        self.items.was_put(index, item)
    }
}

impl<T: Default, K> Default for RecordPool<T, K> {
    fn default() -> (pool: Self)
        ensures
            pool.starts_unused(),
    {
        Self::new()
    }
}

} // verus!

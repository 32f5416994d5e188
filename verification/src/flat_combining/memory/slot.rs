//! The slots of a pool, each with an item in it.

use core::ops::Deref;
use std::sync::Arc;

use crossbeam_utils::CachePadded;
use vstd::prelude::*;
use vstd::rwlock::{ReadHandle, RwLock, WriteHandle};

use crate::flat_combining::memory::cell::AnyValue;
use crate::flat_combining::memory::event::{Event, PoolEvent};
use crate::flat_combining::memory::mask::{holds, pad, Masks};
use crate::flat_combining::memory::shared::{Enter, Look, Make, Shared};
use crate::flat_combining::memory::{Outside, Trace};
use crate::flat_combining::protocol::{is_real, step, CAPACITY};

verus! {

/// Storage for the items, cache-padded to reduce false sharing.
#[verifier::reject_recursive_types(T)]
#[verifier::reject_recursive_types(K)]
pub struct Slots<T, K = Outside> {
    items: Vec<CachePadded<Shared<RwLock<Arc<T>, AnyValue>, K>>>,
    cells: Ghost<Seq<RwLock<Arc<T>, AnyValue>>>,
}

/// Whether this is a value that `T::default` can give.
pub open spec fn is_default<T: Default>(item: T) -> bool {
    call_ensures(T::default, (), item)
}

/// Whether a padded cell gives access to this one.
spec fn is_padded<T, K>(
    padded: CachePadded<Shared<RwLock<Arc<T>, AnyValue>, K>>,
    cell: RwLock<Arc<T>, AnyValue>,
) -> bool {
    forall|shared: &Shared<RwLock<Arc<T>, AnyValue>, K>| #[trigger]
        holds(padded, shared) ==> shared.id().cell() == cell
}

/// Whether a cell was made with a default item in it.
spec fn is_made<T: Default>(cell: RwLock<Arc<T>, AnyValue>) -> bool {
    exists|item: T| #[trigger]
        is_default(item) && cell.is_made_of((Arc::new(item), Ghost(AnyValue)))
}

impl<T, K> Slots<T, K> {
    #[verifier::type_invariant]
    spec fn is_complete(self) -> bool {
        &&& self.items@.len() == CAPACITY
        &&& self.cells@.len() == CAPACITY
        &&& forall|i: int|
            0 <= i < CAPACITY ==> is_padded(#[trigger] self.items@[i], self.cells@[i])
    }

    /// The cell of a slot.
    spec fn at(&self, index: u8) -> RwLock<Arc<T>, AnyValue> {
        self.cells@[index as int]
    }

    /// Whether a look at a slot can find this item: the cell of this slot was
    /// looked into, this was there, and the cell was left.
    pub closed spec fn may_show(&self, index: u8, item: Arc<T>) -> bool {
        exists|handle: ReadHandle<'_, Arc<T>, AnyValue>|
            {
                &&& #[trigger] self.at(index).lets_see(handle)
                &&& item == handle.view()
                &&& self.at(index).lets_go(handle)
            }
    }

    /// Whether this item can have been put into a slot: the cell of this slot
    /// was entered, and this was left behind.
    pub closed spec fn was_put(&self, index: u8, item: Arc<T>) -> bool {
        exists|previous: Arc<T>, handle: WriteHandle<'_, Arc<T>, AnyValue>|
            {
                &&& #[trigger] self.at(index).lets_in((previous, handle))
                &&& call_ensures(
                    WriteHandle::<Arc<T>, AnyValue>::release_write,
                    (handle, item),
                    (),
                )
            }
    }

    /// The cell of a slot.
    fn cell(&self, index: u8) -> (cell: &Shared<RwLock<Arc<T>, AnyValue>, K>)
        requires
            index < CAPACITY,
        ensures
            cell.id().cell() == self.at(index),
    {
        proof {
            use_type_invariant(self);
        }
        let cell = self.items[index as usize].deref();
        assert(is_padded(self.items@[index as int], self.cells@[index as int]));
        assert(holds(self.items@[index as int], cell));
        cell
    }

    /// The item of a slot.
    pub(crate) fn get(&self, index: u8) -> (item: Arc<T>)
        requires
            index < CAPACITY,
        ensures
            self.may_show(index, item),
    {
        let read = |handle: &ReadHandle<'_, Arc<T>, AnyValue>| -> (item: Arc<T>)
            ensures
                item == handle.view(),
            { handle.borrow().clone() };
        self.cell(index).look(
            RwLock::<Arc<T>, AnyValue>::acquire_read,
            read,
            ReadHandle::<Arc<T>, AnyValue>::release_read,
        )
    }

    /// Replaces the item of a slot, and notes it.
    fn put(&self, index: u8, item: Arc<T>, Ghost(event): Ghost<Event>, trace: &mut Trace<K>)
        requires
            index < CAPACITY,
            old(trace).thread() matches Some(t) && is_real(t, event),
        ensures
            self.was_put(index, item),
            final(trace)@ == old(trace)@.push(event),
            final(trace).thread() == step(old(trace).thread()->0, event),
    {
        let (previous, handle) = self.cell(index).enter(
            RwLock::<Arc<T>, AnyValue>::acquire_write,
            Ghost(|entry: (Arc<T>, WriteHandle<'_, Arc<T>, AnyValue>)| event),
            trace,
        );
        let ghost entry = (previous, handle);
        handle.release_write(item);
        assert(self.at(index).lets_in((entry.0, entry.1)));
    }

    /// Puts an item into a slot of the pool with these masks, which the thread
    /// has claimed.
    pub(crate) fn store(&self, index: u8, item: Arc<T>, masks: &Masks<K>, trace: &mut Trace<K>)
        requires
            index < CAPACITY,
            old(trace).thread() matches Some(t) && step(
                t,
                masks.id().event(PoolEvent::Store { index }),
            ) is Some,
        ensures
            self.was_put(index, item),
            final(trace)@ == old(trace)@.push(masks.id().event(PoolEvent::Store { index })),
            final(trace).thread() == step(
                old(trace).thread()->0,
                masks.id().event(PoolEvent::Store { index }),
            ),
    {
        self.put(index, item, Ghost(masks.id().event(PoolEvent::Store { index })), trace);
    }
}

impl<T: Default, K> Slots<T, K> {
    /// Whether a slot was made with a default item in it.
    pub closed spec fn starts_default(&self, index: u8) -> bool {
        is_made::<T>(self.at(index))
    }

    /// Slots with default items in them.
    pub(crate) fn new() -> (slots: Self)
        ensures
            forall|index: u8| index < CAPACITY ==> #[trigger] slots.starts_default(index),
    {
        let mut items: Vec<CachePadded<Shared<RwLock<Arc<T>, AnyValue>, K>>> = Vec::new();
        let ghost mut cells: Seq<RwLock<Arc<T>, AnyValue>> = Seq::empty();
        while items.len() < CAPACITY
            invariant
                items@.len() <= CAPACITY,
                cells.len() == items@.len(),
                forall|i: int| 0 <= i < items@.len() ==> is_padded(#[trigger] items@[i], cells[i]),
                forall|i: int| 0 <= i < items@.len() ==> is_made::<T>(#[trigger] cells[i]),
            decreases CAPACITY - items@.len(),
        {
            let item = T::default();
            let ghost made = item;
            let shared = Shared::new_of_two(
                RwLock::<Arc<T>, AnyValue>::new,
                Arc::new(item),
                Ghost(AnyValue),
            );
            let ghost around = shared.id().cell();
            let padded = pad(shared);
            assert(is_default(made));
            assert(is_made::<T>(around));
            assert(is_padded(padded, around));
            items.push(padded);
            proof {
                cells = cells.push(around);
            }
        }
        Slots { items, cells: Ghost(cells) }
    }

    /// Puts a default item into a slot of the pool with these masks, which the
    /// thread owns.
    pub(crate) fn clear(&self, index: u8, masks: &Masks<K>, trace: &mut Trace<K>)
        requires
            index < CAPACITY,
            old(trace).thread() matches Some(t) && step(
                t,
                masks.id().event(PoolEvent::Clear { index }),
            ) is Some,
        ensures
            exists|item: T| #[trigger] is_default(item) && self.was_put(index, Arc::new(item)),
            final(trace)@ == old(trace)@.push(masks.id().event(PoolEvent::Clear { index })),
            final(trace).thread() == step(
                old(trace).thread()->0,
                masks.id().event(PoolEvent::Clear { index }),
            ),
    {
        let item = T::default();
        let ghost left = item;
        self.put(
            index,
            Arc::new(item),
            Ghost(masks.id().event(PoolEvent::Clear { index })),
            trace,
        );
        assert(is_default(left));
    }
}

} // verus!

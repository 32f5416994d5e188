//! Storage for values that one thread at a time may use.

use vstd::prelude::*;
use vstd::rwlock::{RwLock, RwLockPredicate, WriteHandle};

use crate::flat_combining::memory::event::WordEvent;
use crate::flat_combining::memory::shared::{Enter, Make, Shared};
use crate::flat_combining::memory::word::MutexWord;
use crate::flat_combining::memory::{Outside, Trace};
use crate::flat_combining::protocol::step;

verus! {

/// The predicate of a cell that may hold anything.
pub struct AnyValue;

impl<T> RwLockPredicate<T> for AnyValue {
    open spec fn inv(self, value: T) -> bool {
        true
    }
}

/// The cell of the value of a mutex.
#[verifier::reject_recursive_types(K)]
pub struct Vault<T, K = Outside> {
    data: Shared<RwLock<T, AnyValue>, K>,
}

impl<T, K> Vault<T, K> {
    /// The cell itself.
    spec fn cell(&self) -> RwLock<T, AnyValue> {
        self.data.id().cell()
    }

    /// Whether the cell was made with this value in it.
    pub closed spec fn starts_with(&self, value: T) -> bool {
        self.cell().is_made_of((value, Ghost(AnyValue)))
    }

    /// Whether a thread can have entered the cell, found this value, and got
    /// this handle.
    pub closed spec fn may_give(&self, value: T, handle: WriteHandle<'_, T, AnyValue>) -> bool {
        &&& handle.rwlock() == self.cell()
        &&& self.cell().lets_in((value, handle))
    }

    /// Whether a thread with this handle can have put this value back and left.
    pub closed spec fn was_left(&self, handle: WriteHandle<'_, T, AnyValue>, value: T) -> bool {
        &&& handle.rwlock() == self.cell()
        &&& call_ensures(WriteHandle::<T, AnyValue>::release_write, (handle, value), ())
    }

    /// A cell with a value in it.
    pub(crate) fn new(value: T) -> (vault: Self)
        ensures
            vault.starts_with(value),
    {
        Vault { data: Shared::new_of_two(RwLock::<T, AnyValue>::new, value, Ghost(AnyValue)) }
    }

    /// Enters the cell, which belongs to the mutex with this word, and takes the
    /// value.
    pub(crate) fn enter(&self, word: &MutexWord<K>, trace: &mut Trace<K>) -> (entry: (
        T,
        WriteHandle<'_, T, AnyValue>,
    ))
        requires
            old(trace).thread() matches Some(t) && step(
                t,
                word.id().event(WordEvent::Enter),
            ) is Some,
        ensures
            self.may_give(entry.0, entry.1),
            final(trace)@ == old(trace)@.push(word.id().event(WordEvent::Enter)),
            final(trace).thread() == step(
                old(trace).thread()->0,
                word.id().event(WordEvent::Enter),
            ),
    {
        self.data.enter(
            RwLock::<T, AnyValue>::acquire_write,
            Ghost(|entry: (T, WriteHandle<'_, T, AnyValue>)| word.id().event(WordEvent::Enter)),
            trace,
        )
    }

    /// Puts a value into the cell, which belongs to the mutex with this word, and
    /// leaves.
    pub(crate) fn leave(
        &self,
        handle: WriteHandle<'_, T, AnyValue>,
        value: T,
        word: &MutexWord<K>,
        trace: &mut Trace<K>,
    )
        requires
            exists|found: T| #[trigger] self.may_give(found, handle),
            old(trace).thread() matches Some(t) && step(
                t,
                word.id().event(WordEvent::Leave),
            ) is Some,
        ensures
            self.was_left(handle, value),
            final(trace)@ == old(trace)@.push(word.id().event(WordEvent::Leave)),
            final(trace).thread() == step(
                old(trace).thread()->0,
                word.id().event(WordEvent::Leave),
            ),
    {
        handle.release_write(value);
        trace.note(Ghost(word.id().event(WordEvent::Leave)));
    }
}

} // verus!

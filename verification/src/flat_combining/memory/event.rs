//! The accesses to shared memory, as a trace notes them.

use vstd::prelude::*;

use crate::flat_combining::memory::list::{Head, Link, Mark};
use crate::flat_combining::memory::mask::Masks;
use crate::flat_combining::memory::word::{MutexWord, WaiterWord};

verus! {

/// A call of one of the operations on a mutex.
pub enum Call {
    /// `Mutex::try_lock`.
    TryLock,
    /// `Mutex::lock`.
    Lock,
    /// `Mutex::bitset_wait_or_lock` with this set.
    WaitOrLock { mask: u32 },
    /// `wait_mutex_or_waiter` with this waiter.
    WaitAny { waiter: WaiterWord },
    /// Release of a guard, waking the waiters of this set (empty for none).
    Unlock { mask: u32 },
}

/// Something that a thread set out to do, with the shared cell that it did it
/// to.
pub enum Deed {
    /// An operation on the mutex with this word.
    Mutex { word: MutexWord, call: Call },
    /// `RecordPool::allocate` on the pool with these masks, starting at this
    /// group.
    Allocate { masks: Masks, first: usize },
    /// `RecordPool::free` of this slot of the pool with these masks.
    Free { masks: Masks, index: u8 },
    /// The record in this slot became the head of this list.
    Push { head: Head, index: u8 },
    /// This list was taken.
    Sweep { head: Head },
    /// An operation of the thread's own was applied.
    Apply,
    /// The record in this slot, which was not marked, was left behind.
    Abandon { index: u8 },
}

/// What a thread does to the futex word of a mutex, to the cell of its value,
/// and around them.
pub enum WordEvent {
    /// An operation starts.
    Begin { call: Call },
    /// The word was read.
    Load { value: u32 },
    /// The word was exchanged for `new`; it held `previous`.
    Swap { new: u32, previous: u32 },
    /// The word was exchanged for `new` if it held `current`.
    CompareExchange { current: u32, new: u32, reply: Result<u32, u32> },
    /// The caller's condition was asked.
    Poll { ready: bool },
    /// The thread asked to sleep while the word holds `expected`, and is back.
    Wait { expected: u32 },
    /// The same, listening for wake-ups that share a bit with `mask`.
    WaitBitset { expected: u32, mask: u32 },
    /// The thread asked to sleep while the word holds `mutex` and a waiter's
    /// word holds `waiter`, and is back; `index` is that of the word that
    /// ended the sleep, if the kernel named one.
    WaitAny { mutex: u32, waiter: u32, index: Option<usize> },
    /// At most `count` sleepers were woken.
    Wake { count: u32 },
    /// At most `count` sleepers that share a bit with `mask` were woken.
    WakeBitset { count: u32, mask: u32 },
    /// The thread stopped waiting for the word.
    GiveUp,
    /// The cell of the value was entered.
    Enter,
    /// The value was put back into its cell, and the cell left.
    Leave,
}

/// What a thread does to the word of a `Waiter`.
pub enum WaiterEvent {
    /// The word was read.
    Load { value: u32 },
    /// The word was exchanged for `new`; it held `previous`.
    Swap { new: u32, previous: u32 },
    /// At most `count` sleepers were woken.
    Wake { count: u32 },
}

/// What a thread does to the availability masks and to the slots of a
/// `RecordPool`.
pub enum PoolEvent {
    /// The mask of a group was read.
    Load { group: usize, mask: u8 },
    /// The mask of a group was exchanged for `new` if it held `current`.
    CompareExchange { group: usize, current: u8, new: u8, success: bool },
    /// Bits were added to the mask of a group; it held `previous`.
    FetchOr { group: usize, bits: u8, previous: u8 },
    /// The thread stopped trying to claim a slot.
    GiveUp,
    /// An item was put into a slot.
    Store { index: u8 },
    /// A default item was put into a slot, in place of what was there.
    Clear { index: u8 },
}

/// What a thread does to the list of pending records and to the records.
pub enum QueueEvent {
    /// The record in the slot that the thread owns is set up, with an operation
    /// that waits to be run.
    Fill { index: u8 },
    /// The head of the list was read.
    LoadHead { head: u8 },
    /// The link of a record was written.
    StoreNext { index: u8, next: u8 },
    /// The head was exchanged for `new` if it was `current`.
    CompareExchangeHead { current: u8, new: u8, success: bool },
    /// The head was exchanged for the end of the list; it was `head`.
    TakeAll { head: u8 },
    /// The operation of a record was taken out of it and, if it was there,
    /// run.
    Run { index: u8, found: bool },
    /// The link of a record was read.
    LoadNext { index: u8, next: u8 },
    /// A record was marked as done.
    StoreReady { index: u8 },
    /// The mark of a record was read.
    LoadReady { index: u8, ready: bool },
    /// The thread stopped trying to put its record into the list.
    GiveUp,
    /// The thread, which has access to the value, applied an operation of its
    /// own.
    Apply,
    /// The thread, which has come back and found its record not marked, leaves
    /// the record and its slot behind.
    Abandon { index: u8 },
}

/// The cells that a record in a list has to do with.
pub struct Cells {
    /// The head of the list.
    pub head: Head,
    /// The link of the record.
    pub link: Link,
    /// The mark of the record.
    pub mark: Mark,
}

/// Where something is done to a list of records.
pub enum Place {
    /// At its head.
    Head(Head),
    /// At the link of a record.
    Link(Link),
    /// At the mark of a record.
    Mark(Mark),
    /// At a record as a whole.
    Record(Cells),
    /// At no cell.
    Nowhere,
}

/// One access to a shared cell, or a stage of an operation on it.
#[allow(inconsistent_fields)]
pub enum Event {
    /// At the word of a mutex.
    Word { word: MutexWord, event: WordEvent },
    /// At the word of a waiter.
    Waiter { waiter: WaiterWord, event: WaiterEvent },
    /// At the masks of a pool.
    Pool { masks: Masks, event: PoolEvent },
    /// At a list of records.
    Queue { place: Place, event: QueueEvent },
}

} // verus!

//! A futex word: an atomic that threads can sleep on.

use std::num::NonZeroU32;
use std::sync::atomic::{AtomicU32, Ordering};

use rustix::thread::futex;
use vstd::prelude::*;

use crate::flat_combining::memory::event::{Event, WaiterEvent, WordEvent};
use crate::flat_combining::memory::shared::{Make, Shared};
use crate::flat_combining::memory::{Outside, Trace};
use crate::flat_combining::protocol::{step, UNLOCKED};

verus! {

/// `rustix::thread::futex::wait`, on a word that only this process uses and
/// without a time limit.
///
/// The kernel puts the thread to sleep if the word holds `expected`.  Nothing
/// is claimed: the thread may be back for any reason and at any time, and
/// whether the kernel reports a wake-up or an error changes nothing.
#[verifier::external_body]
fn futex_wait(word: &AtomicU32, expected: u32) {
    let _ = futex::wait(word, futex::Flags::PRIVATE, expected, None);
}

/// `rustix::thread::futex::wait_bitset`, on a word that only this process uses
/// and without a time limit.
///
/// As `futex_wait`, for wake-ups that share a bit with `mask`; the kernel takes
/// no empty set.  Nothing is claimed.
#[verifier::external_body]
fn futex_wait_bitset(word: &AtomicU32, expected: u32, mask: u32)
    requires
        mask != 0,
{
    let mask = NonZeroU32::new(mask).unwrap();
    let _ = futex::wait_bitset(word, futex::Flags::PRIVATE, expected, None, mask);
}

/// `rustix::thread::futex::waitv`, on two words that only this process uses and
/// without a time limit.
///
/// The kernel puts the thread to sleep if each word holds what is expected of
/// it, and names the word that ended the sleep by its index.  Nothing is
/// claimed: the kernel may name either word, or report an error (`None`), at
/// any time.
#[verifier::external_body]
fn futex_waitv(
    first: &AtomicU32,
    first_expected: u32,
    second: &AtomicU32,
    second_expected: u32,
) -> (reply: Option<usize>) {
    let mut waits = [futex::Wait::new(), futex::Wait::new()];
    waits[0].val = first_expected as u64;
    waits[0].uaddr = futex::WaitPtr::new(first.as_ptr().cast());
    waits[0].flags = futex::WaitFlags::SIZE_U32 | futex::WaitFlags::PRIVATE;
    waits[1].val = second_expected as u64;
    waits[1].uaddr = futex::WaitPtr::new(second.as_ptr().cast());
    waits[1].flags = futex::WaitFlags::SIZE_U32 | futex::WaitFlags::PRIVATE;
    futex::waitv(&waits, futex::WaitvFlags::empty(), None, futex::ClockId::Realtime).ok()
}

/// `rustix::thread::futex::wake`, on a word that only this process uses.
///
/// The kernel wakes at most `count` of the threads that sleep on the word.
/// Nothing is claimed: how many there were is up to the other threads.
#[verifier::external_body]
fn futex_wake(word: &AtomicU32, count: u32) {
    let _ = futex::wake(word, futex::Flags::PRIVATE, count);
}

/// `rustix::thread::futex::wake_bitset`, on a word that only this process uses.
///
/// The kernel wakes at most `count` of the threads that sleep on the word and
/// share a bit with `mask`; it takes no empty set.  Nothing is claimed.
#[verifier::external_body]
fn futex_wake_bitset(word: &AtomicU32, count: u32, mask: u32)
    requires
        mask != 0,
{
    let mask = NonZeroU32::new(mask).unwrap();
    let _ = futex::wake_bitset(word, futex::Flags::PRIVATE, count, mask);
}

/// Asks a condition, on behalf of a thread that waits for a word.
pub(crate) fn poll<F: Fn() -> bool, K>(
    condition: &F,
    word: &MutexWord<K>,
    trace: &mut Trace<K>,
) -> (ready: bool)
    requires
        call_requires(*condition, ()),
        old(trace).thread() matches Some(t) && forall|ready: bool| #[trigger]
            step(t, word.id().event(WordEvent::Poll { ready })) is Some,
    ensures
        call_ensures(*condition, (), ready),
        final(trace)@ == old(trace)@.push(word.id().event(WordEvent::Poll { ready })),
        final(trace).thread() == step(
            old(trace).thread()->0,
            word.id().event(WordEvent::Poll { ready }),
        ),
{
    let ready = condition();
    trace.note(Ghost(word.id().event(WordEvent::Poll { ready })));
    ready
}

/// The futex word of a mutex.
#[verifier::reject_recursive_types(K)]
pub struct MutexWord<K = Outside> {
    word: Shared<AtomicU32, K>,
}

impl MutexWord {
    /// Whether the word was made with this value.
    pub closed spec fn starts_as(&self, value: u32) -> bool {
        self.word.cell().is_made_of(value)
    }

    /// An event at this word.
    pub open spec fn event(&self, event: WordEvent) -> Event {
        Event::Word { word: *self, event }
    }

    /// Whether an access to this word can go like this, for a thread that uses
    /// this waiter, if any.
    pub closed spec fn allows(&self, event: WordEvent, waiter: Option<WaiterWord>) -> bool {
        match event {
            WordEvent::Load { value } => call_ensures(
                AtomicU32::load,
                (&self.word.cell(), Ordering::Relaxed),
                value,
            ),
            WordEvent::Swap { new, previous } => call_ensures(
                AtomicU32::swap,
                (
                    &self.word.cell(),
                    new,
                    if new == UNLOCKED {
                        Ordering::Release
                    } else {
                        Ordering::Acquire
                    },
                ),
                previous,
            ),
            WordEvent::CompareExchange { current, new, reply } => call_ensures(
                AtomicU32::compare_exchange,
                (&self.word.cell(), current, new, Ordering::Acquire, Ordering::Relaxed),
                reply,
            ),
            WordEvent::Wait { expected } => call_ensures(
                futex_wait,
                (&self.word.cell(), expected),
                (),
            ),
            WordEvent::WaitBitset { expected, mask } => call_ensures(
                futex_wait_bitset,
                (&self.word.cell(), expected, mask),
                (),
            ),
            WordEvent::WaitAny { mutex, waiter: unready, index } => waiter matches Some(waiter)
                && call_ensures(
                futex_waitv,
                (&self.word.cell(), mutex, &waiter.word.cell(), unready),
                index,
            ),
            WordEvent::Wake { count } => call_ensures(futex_wake, (&self.word.cell(), count), ()),
            WordEvent::WakeBitset { count, mask } => call_ensures(
                futex_wake_bitset,
                (&self.word.cell(), count, mask),
                (),
            ),
            // Nothing is done to the word.
            WordEvent::Begin { .. } | WordEvent::Poll { .. } | WordEvent::GiveUp => false,
            WordEvent::Enter | WordEvent::Leave => false,
        }
    }
}

impl<K> MutexWord<K> {
    /// The word, whatever the kind of the traces is.
    pub closed spec fn id(&self) -> MutexWord {
        MutexWord { word: self.word.id() }
    }

    /// A word that holds `value`.
    pub(crate) fn new(value: u32) -> (word: Self)
        ensures
            word.id().starts_as(value),
    {
        MutexWord { word: Shared::new(AtomicU32::new, value) }
    }

    /// Reads the word, without ordering other accesses.
    pub(crate) fn load(&self, trace: &mut Trace<K>) -> (value: u32)
        requires
            old(trace).thread() matches Some(t) && forall|value: u32| #[trigger]
            step(t, self.id().event(WordEvent::Load { value })) is Some,
        ensures
            self.id().allows(WordEvent::Load { value }, old(trace).thread()->0.at.waiter),
            final(trace)@ == old(trace)@.push(self.id().event(WordEvent::Load { value })),
            final(trace).thread() == step(
                old(trace).thread()->0,
                self.id().event(WordEvent::Load { value }),
            ),
    {
        self.word.call(
            AtomicU32::load,
            Ordering::Relaxed,
            Ghost(|value: u32| self.id().event(WordEvent::Load { value })),
            trace,
        )
    }

    /// Exchanges the word; later accesses stay after it.
    pub(crate) fn swap_acquire(&self, new: u32, trace: &mut Trace<K>) -> (previous: u32)
        requires
            new != UNLOCKED,
            old(trace).thread() matches Some(t) && forall|previous: u32| #[trigger]
            step(t, self.id().event(WordEvent::Swap { new, previous })) is Some,
        ensures
            self.id().allows(WordEvent::Swap { new, previous }, old(trace).thread()->0.at.waiter),
            final(trace)@ == old(trace)@.push(self.id().event(WordEvent::Swap { new, previous })),
            final(trace).thread() == step(
                old(trace).thread()->0,
                self.id().event(WordEvent::Swap { new, previous }),
            ),
    {
        self.word.call_with_two(
            AtomicU32::swap,
            new,
            Ordering::Acquire,
            Ghost(|previous: u32| self.id().event(WordEvent::Swap { new, previous })),
            trace,
        )
    }

    /// Marks the word as unlocked; earlier accesses stay before it.
    pub(crate) fn swap_release(&self, new: u32, trace: &mut Trace<K>) -> (previous: u32)
        requires
            new == UNLOCKED,
            old(trace).thread() matches Some(t) && forall|previous: u32| #[trigger]
            step(t, self.id().event(WordEvent::Swap { new, previous })) is Some,
        ensures
            self.id().allows(WordEvent::Swap { new, previous }, old(trace).thread()->0.at.waiter),
            final(trace)@ == old(trace)@.push(self.id().event(WordEvent::Swap { new, previous })),
            final(trace).thread() == step(
                old(trace).thread()->0,
                self.id().event(WordEvent::Swap { new, previous }),
            ),
    {
        self.word.call_with_two(
            AtomicU32::swap,
            new,
            Ordering::Release,
            Ghost(|previous: u32| self.id().event(WordEvent::Swap { new, previous })),
            trace,
        )
    }

    /// Exchanges the word if it holds `current`; later accesses stay after a
    /// success.
    pub(crate) fn compare_exchange(
        &self,
        current: u32,
        new: u32,
        trace: &mut Trace<K>,
    ) -> (reply: Result<u32, u32>)
        requires
            old(trace).thread() matches Some(t) && forall|reply: Result<u32, u32>| #[trigger]
            step(t, self.id().event(WordEvent::CompareExchange { current, new, reply })) is Some,
        ensures
            self.id().allows(
                WordEvent::CompareExchange { current, new, reply },
                old(trace).thread()->0.at.waiter,
            ),
            final(trace)@ == old(trace)@.push(
                self.id().event(WordEvent::CompareExchange { current, new, reply }),
            ),
            final(trace).thread() == step(
                old(trace).thread()->0,
                self.id().event(WordEvent::CompareExchange { current, new, reply }),
            ),
    {
        self.word.call_with_four(
            AtomicU32::compare_exchange,
            current,
            new,
            Ordering::Acquire,
            Ordering::Relaxed,
            Ghost(
                |reply: Result<u32, u32>|
                    self.id().event(WordEvent::CompareExchange { current, new, reply }),
            ),
            trace,
        )
    }

    /// Sleeps while the word holds `expected`.
    pub(crate) fn wait(&self, expected: u32, trace: &mut Trace<K>)
        requires
            old(trace).thread() matches Some(t) && step(
            t,
            self.id().event(WordEvent::Wait { expected }),
        ) is Some,
        ensures
            self.id().allows(WordEvent::Wait { expected }, old(trace).thread()->0.at.waiter),
            final(trace)@ == old(trace)@.push(self.id().event(WordEvent::Wait { expected })),
            final(trace).thread() == step(
                old(trace).thread()->0,
                self.id().event(WordEvent::Wait { expected }),
            ),
    {
        self.word.call(
            futex_wait,
            expected,
            Ghost(|reply: ()| self.id().event(WordEvent::Wait { expected })),
            trace,
        );
    }

    /// Sleeps while the word holds `expected`, listening for a set.
    pub(crate) fn wait_bitset(&self, expected: u32, mask: u32, trace: &mut Trace<K>)
        requires
            mask != 0,
            old(trace).thread() matches Some(t) && step(
            t,
            self.id().event(WordEvent::WaitBitset { expected, mask }),
        ) is Some,
        ensures
            self.id().allows(
                WordEvent::WaitBitset { expected, mask },
                old(trace).thread()->0.at.waiter,
            ),
            final(trace)@ == old(trace)@.push(
                self.id().event(WordEvent::WaitBitset { expected, mask }),
            ),
            final(trace).thread() == step(
                old(trace).thread()->0,
                self.id().event(WordEvent::WaitBitset { expected, mask }),
            ),
    {
        self.word.call_with_two(
            futex_wait_bitset,
            expected,
            mask,
            Ghost(|reply: ()| self.id().event(WordEvent::WaitBitset { expected, mask })),
            trace,
        );
    }

    /// Sleeps while the word holds `mutex` and the word of a waiter holds
    /// `unready`.
    pub(crate) fn wait_any(
        &self,
        mutex: u32,
        waiter: &WaiterWord<K>,
        unready: u32,
        trace: &mut Trace<K>,
    ) -> (index: Option<usize>)
        requires
            old(trace).thread() matches Some(t) && t.at.waiter == Some(waiter.id()),
            old(trace).thread() matches Some(t) && forall|index: Option<usize>| #[trigger]
            step(t, self.id().event(WordEvent::WaitAny { mutex, waiter: unready, index })) is Some,
        ensures
            self.id().allows(
                WordEvent::WaitAny { mutex, waiter: unready, index },
                old(trace).thread()->0.at.waiter,
            ),
            final(trace)@ == old(trace)@.push(
                self.id().event(WordEvent::WaitAny { mutex, waiter: unready, index }),
            ),
            final(trace).thread() == step(
                old(trace).thread()->0,
                self.id().event(WordEvent::WaitAny { mutex, waiter: unready, index }),
            ),
    {
        self.word.call_with_other(
            futex_waitv,
            mutex,
            &waiter.word,
            unready,
            Ghost(
                |index: Option<usize>|
                    self.id().event(WordEvent::WaitAny { mutex, waiter: unready, index }),
            ),
            trace,
        )
    }

    /// Wakes at most `count` of the threads that sleep on the word.
    pub(crate) fn wake(&self, count: u32, trace: &mut Trace<K>)
        requires
            old(trace).thread() matches Some(t) && step(
            t,
            self.id().event(WordEvent::Wake { count }),
        ) is Some,
        ensures
            self.id().allows(WordEvent::Wake { count }, old(trace).thread()->0.at.waiter),
            final(trace)@ == old(trace)@.push(self.id().event(WordEvent::Wake { count })),
            final(trace).thread() == step(
                old(trace).thread()->0,
                self.id().event(WordEvent::Wake { count }),
            ),
    {
        self.word.call(
            futex_wake,
            count,
            Ghost(|reply: ()| self.id().event(WordEvent::Wake { count })),
            trace,
        );
    }

    /// Wakes at most `count` of the threads that sleep on the word and listen
    /// for a bit of `mask`.
    pub(crate) fn wake_bitset(&self, count: u32, mask: u32, trace: &mut Trace<K>)
        requires
            mask != 0,
            old(trace).thread() matches Some(t) && step(
            t,
            self.id().event(WordEvent::WakeBitset { count, mask }),
        ) is Some,
        ensures
            self.id().allows(
                WordEvent::WakeBitset { count, mask },
                old(trace).thread()->0.at.waiter,
            ),
            final(trace)@ == old(trace)@.push(
                self.id().event(WordEvent::WakeBitset { count, mask }),
            ),
            final(trace).thread() == step(
                old(trace).thread()->0,
                self.id().event(WordEvent::WakeBitset { count, mask }),
            ),
    {
        self.word.call_with_two(
            futex_wake_bitset,
            count,
            mask,
            Ghost(|reply: ()| self.id().event(WordEvent::WakeBitset { count, mask })),
            trace,
        );
    }
}

/// The futex word of a waiter.
#[verifier::reject_recursive_types(K)]
pub struct WaiterWord<K = Outside> {
    word: Shared<AtomicU32, K>,
}

impl WaiterWord {
    /// Whether the word was made with this value.
    pub closed spec fn starts_as(&self, value: u32) -> bool {
        self.word.cell().is_made_of(value)
    }

    /// An event at this word.
    pub open spec fn event(&self, event: WaiterEvent) -> Event {
        Event::Waiter { waiter: *self, event }
    }

    /// Whether an access to this word can go like this.
    pub closed spec fn allows(&self, event: WaiterEvent) -> bool {
        match event {
            WaiterEvent::Load { value } => call_ensures(
                AtomicU32::load,
                (&self.word.cell(), Ordering::Acquire),
                value,
            ),
            WaiterEvent::Swap { new, previous } => call_ensures(
                AtomicU32::swap,
                (&self.word.cell(), new, Ordering::Release),
                previous,
            ),
            WaiterEvent::Wake { count } => call_ensures(futex_wake, (&self.word.cell(), count), ()),
        }
    }
}

impl<K> WaiterWord<K> {
    /// The word, whatever the kind of the traces is.
    pub closed spec fn id(&self) -> WaiterWord {
        WaiterWord { word: self.word.id() }
    }

    /// A word that holds `value`.
    pub(crate) fn new(value: u32) -> (word: Self)
        ensures
            word.id().starts_as(value),
    {
        WaiterWord { word: Shared::new(AtomicU32::new, value) }
    }

    /// Reads the word; later accesses stay after it.
    pub(crate) fn load(&self, trace: &mut Trace<K>) -> (value: u32)
        requires
            old(trace).thread() matches Some(t) && forall|value: u32| #[trigger]
            step(t, self.id().event(WaiterEvent::Load { value })) is Some,
        ensures
            self.id().allows(WaiterEvent::Load { value }),
            final(trace)@ == old(trace)@.push(self.id().event(WaiterEvent::Load { value })),
            final(trace).thread() == step(
                old(trace).thread()->0,
                self.id().event(WaiterEvent::Load { value }),
            ),
    {
        self.word.call(
            AtomicU32::load,
            Ordering::Acquire,
            Ghost(|value: u32| self.id().event(WaiterEvent::Load { value })),
            trace,
        )
    }

    /// Exchanges the word; earlier accesses stay before it.
    pub(crate) fn swap(&self, new: u32, trace: &mut Trace<K>) -> (previous: u32)
        requires
            old(trace).thread() matches Some(t) && forall|previous: u32| #[trigger]
            step(t, self.id().event(WaiterEvent::Swap { new, previous })) is Some,
        ensures
            self.id().allows(WaiterEvent::Swap { new, previous }),
            final(trace)@ == old(trace)@.push(self.id().event(WaiterEvent::Swap { new, previous })),
            final(trace).thread() == step(
                old(trace).thread()->0,
                self.id().event(WaiterEvent::Swap { new, previous }),
            ),
    {
        self.word.call_with_two(
            AtomicU32::swap,
            new,
            Ordering::Release,
            Ghost(|previous: u32| self.id().event(WaiterEvent::Swap { new, previous })),
            trace,
        )
    }

    /// Wakes at most `count` of the threads that sleep on the word.
    pub(crate) fn wake(&self, count: u32, trace: &mut Trace<K>)
        requires
            old(trace).thread() matches Some(t) && step(
            t,
            self.id().event(WaiterEvent::Wake { count }),
        ) is Some,
        ensures
            self.id().allows(WaiterEvent::Wake { count }),
            final(trace)@ == old(trace)@.push(self.id().event(WaiterEvent::Wake { count })),
            final(trace).thread() == step(
                old(trace).thread()->0,
                self.id().event(WaiterEvent::Wake { count }),
            ),
    {
        self.word.call(
            futex_wake,
            count,
            Ghost(|reply: ()| self.id().event(WaiterEvent::Wake { count })),
            trace,
        );
    }
}

} // verus!

//! A cell that threads share, and the ways to use it.

use std::marker::PhantomData;
use std::sync::atomic::{AtomicBool, AtomicU32, AtomicU8, Ordering};

use vstd::prelude::*;
use vstd::rwlock::{ReadHandle, RwLock, RwLockPredicate, WriteHandle};

use crate::flat_combining::memory::event::Event;
use crate::flat_combining::memory::trace::{Outside, Trace};
use crate::flat_combining::protocol::{is_real, step};

verus! {

/// A cell that threads with traces of the kind `K` share.
///
/// The cell is used by handing in a function, which is called with it once, and
/// what the function did is noted.  Nothing here knows what kind of cell it is,
/// so nothing else can be done to it here; and elsewhere it cannot be reached.
/// Which functions are taken, the contracts say: those of which the note tells
/// just what they do.  So the notes of a cell are all that was ever done to it,
/// besides looking at it by [`Shared::peek`] and [`Shared::look`].
#[verifier::reject_recursive_types(K)]
pub struct Shared<A, K = Outside> {
    cell: A,
    kind: PhantomData<K>,
}

/// A cell that can be made out of something.
pub trait Make<B> {
    /// Whether the cell can have been made out of this.
    spec fn is_made_of(&self, content: B) -> bool;
}

impl Make<u32> for AtomicU32 {
    open spec fn is_made_of(&self, content: u32) -> bool {
        call_ensures(AtomicU32::new, (content,), *self)
    }
}

impl Make<u8> for AtomicU8 {
    open spec fn is_made_of(&self, content: u8) -> bool {
        call_ensures(AtomicU8::new, (content,), *self)
    }
}

impl Make<bool> for AtomicBool {
    open spec fn is_made_of(&self, content: bool) -> bool {
        call_ensures(AtomicBool::new, (content,), *self)
    }
}

impl<T, P: RwLockPredicate<T>> Make<(T, Ghost<P>)> for RwLock<T, P> {
    open spec fn is_made_of(&self, content: (T, Ghost<P>)) -> bool {
        call_ensures(RwLock::<T, P>::new, content, *self)
    }
}

/// A cell that can be exchanged in a way that may fail without a reason.
pub trait WeakExchange<V> {
    /// Whether the exchange of `current` for `new` can go like this.
    spec fn exchanges(
        &self,
        current: V,
        new: V,
        success: Ordering,
        failure: Ordering,
        reply: Result<V, V>,
    ) -> bool;
}

impl WeakExchange<u8> for AtomicU8 {
    open spec fn exchanges(
        &self,
        current: u8,
        new: u8,
        success: Ordering,
        failure: Ordering,
        reply: Result<u8, u8>,
    ) -> bool {
        call_ensures(
            AtomicU8::compare_exchange_weak,
            (self, current, new, success, failure),
            reply,
        )
    }
}

/// A cell that can be read.
pub trait Peek<V> {
    /// Whether a read of the cell can give this.
    spec fn shows(&self, order: Ordering, value: V) -> bool;
}

impl Peek<bool> for AtomicBool {
    open spec fn shows(&self, order: Ordering, value: bool) -> bool {
        call_ensures(AtomicBool::load, (self, order), value)
    }
}

/// A cell that one thread at a time can enter.
pub trait Enter<R> {
    /// Whether a thread that enters can get this.
    spec fn lets_in(&self, entry: R) -> bool;
}

impl<'a, T, P: RwLockPredicate<T>> Enter<(T, WriteHandle<'a, T, P>)> for RwLock<T, P> {
    open spec fn lets_in(&self, entry: (T, WriteHandle<'a, T, P>)) -> bool {
        call_ensures(RwLock::<T, P>::acquire_write, (self,), entry)
    }
}

/// A cell that threads can look into.
pub trait Look<R> {
    /// Whether a thread that looks can get this.
    spec fn lets_see(&self, view: R) -> bool;

    /// Whether a thread that has got this can stop looking.
    spec fn lets_go(&self, view: R) -> bool;
}

impl<'a, T, P: RwLockPredicate<T>> Look<ReadHandle<'a, T, P>> for RwLock<T, P> {
    open spec fn lets_see(&self, view: ReadHandle<'a, T, P>) -> bool {
        call_ensures(RwLock::<T, P>::acquire_read, (self,), view)
    }

    open spec fn lets_go(&self, view: ReadHandle<'a, T, P>) -> bool {
        call_ensures(ReadHandle::<'a, T, P>::release_read, (view,), ())
    }
}

impl<A, K> Shared<A, K> {
    /// The cell itself.
    pub closed spec fn cell(&self) -> A {
        self.cell
    }

    /// The cell, whatever the kind of the traces is.
    pub closed spec fn id(&self) -> Shared<A> {
        Shared { cell: self.cell, kind: PhantomData }
    }

    /// Makes a cell that threads share; nobody has used it before.
    pub(super) fn new<B, F: FnOnce(B) -> A>(f: F, content: B) -> (shared: Self) where A: Make<B>
        requires
            call_requires(f, (content,)),
            forall|cell: A| #[trigger]
                call_ensures(f, (content,), cell) <==> cell.is_made_of(content),
        ensures
            shared.id().cell().is_made_of(content),
    {
        Shared { cell: f(content), kind: PhantomData }
    }

    /// Makes a cell that threads share out of two things; nobody has used it before.
    pub(super) fn new_of_two<B, C, F: FnOnce(B, C) -> A>(f: F, b: B, c: C) -> (shared:
        Self) where A: Make<(B, C)>
        requires
            call_requires(f, (b, c)),
            forall|cell: A| #[trigger]
                call_ensures(f, (b, c), cell) <==> cell.is_made_of((b, c)),
        ensures
            shared.id().cell().is_made_of((b, c)),
    {
        Shared { cell: f(b, c), kind: PhantomData }
    }

    /// Uses the cell in a way that takes one argument.
    pub(super) fn call<B, R, F: FnOnce(&A, B) -> R>(
        &self,
        f: F,
        b: B,
        Ghost(event): Ghost<spec_fn(R) -> Event>,
        trace: &mut Trace<K>,
    ) -> (reply: R)
        requires
            call_requires(f, (&self.id().cell(), b)),
            old(trace).thread() matches Some(t) && forall|reply: R| #[trigger]
                call_ensures(f, (&self.id().cell(), b), reply) <==> is_real(t, event(reply)),
        ensures
            is_real(old(trace).thread()->0, event(reply)),
            final(trace)@ == old(trace)@.push(event(reply)),
            final(trace).thread() == step(old(trace).thread()->0, event(reply)),
    {
        let reply = f(&self.cell, b);
        trace.note(Ghost(event(reply)));
        reply
    }

    /// Uses the cell in a way that takes two arguments.
    pub(super) fn call_with_two<B, C, R, F: FnOnce(&A, B, C) -> R>(
        &self,
        f: F,
        b: B,
        c: C,
        Ghost(event): Ghost<spec_fn(R) -> Event>,
        trace: &mut Trace<K>,
    ) -> (reply: R)
        requires
            call_requires(f, (&self.id().cell(), b, c)),
            old(trace).thread() matches Some(t) && forall|reply: R| #[trigger]
                call_ensures(f, (&self.id().cell(), b, c), reply) <==> is_real(t, event(reply)),
        ensures
            is_real(old(trace).thread()->0, event(reply)),
            final(trace)@ == old(trace)@.push(event(reply)),
            final(trace).thread() == step(old(trace).thread()->0, event(reply)),
    {
        let reply = f(&self.cell, b, c);
        trace.note(Ghost(event(reply)));
        reply
    }

    /// Uses the cell in a way that takes four arguments.
    pub(super) fn call_with_four<B, C, D, E, R, F: FnOnce(&A, B, C, D, E) -> R>(
        &self,
        f: F,
        b: B,
        c: C,
        d: D,
        e: E,
        Ghost(event): Ghost<spec_fn(R) -> Event>,
        trace: &mut Trace<K>,
    ) -> (reply: R)
        requires
            call_requires(f, (&self.id().cell(), b, c, d, e)),
            old(trace).thread() matches Some(t) && forall|reply: R| #[trigger]
                call_ensures(f, (&self.id().cell(), b, c, d, e), reply) <==> is_real(
                    t,
                    event(reply),
                ),
        ensures
            is_real(old(trace).thread()->0, event(reply)),
            final(trace)@ == old(trace)@.push(event(reply)),
            final(trace).thread() == step(old(trace).thread()->0, event(reply)),
    {
        let reply = f(&self.cell, b, c, d, e);
        trace.note(Ghost(event(reply)));
        reply
    }

    /// Uses this cell and another one, each with an argument.
    pub(super) fn call_with_other<B, C, R, F: FnOnce(&A, B, &A, C) -> R>(
        &self,
        f: F,
        b: B,
        other: &Shared<A, K>,
        c: C,
        Ghost(event): Ghost<spec_fn(R) -> Event>,
        trace: &mut Trace<K>,
    ) -> (reply: R)
        requires
            call_requires(f, (&self.id().cell(), b, &other.id().cell(), c)),
            old(trace).thread() matches Some(t) && forall|reply: R| #[trigger]
                call_ensures(f, (&self.id().cell(), b, &other.id().cell(), c), reply) <==> is_real(
                    t,
                    event(reply),
                ),
        ensures
            is_real(old(trace).thread()->0, event(reply)),
            final(trace)@ == old(trace)@.push(event(reply)),
            final(trace).thread() == step(old(trace).thread()->0, event(reply)),
    {
        let reply = f(&self.cell, b, &other.cell, c);
        trace.note(Ghost(event(reply)));
        reply
    }

    /// Exchanges the cell if it holds `current`; may fail without a reason.
    pub(super) fn exchange_weak<V, F: FnOnce(&A, V, V, Ordering, Ordering) -> Result<V, V>>(
        &self,
        f: F,
        current: V,
        new: V,
        success: Ordering,
        failure: Ordering,
        Ghost(event): Ghost<spec_fn(Result<V, V>) -> Event>,
        trace: &mut Trace<K>,
    ) -> (reply: Result<V, V>) where A: WeakExchange<V>
        requires
            call_requires(f, (&self.id().cell(), current, new, success, failure)),
            forall|reply: Result<V, V>| #[trigger]
                call_ensures(f, (&self.id().cell(), current, new, success, failure), reply)
                    <==> self.id().cell().exchanges(current, new, success, failure, reply),
            old(trace).thread() matches Some(t) && forall|reply: Result<V, V>| #[trigger]
                self.id().cell().exchanges(current, new, success, failure, reply) ==> is_real(
                    t,
                    event(reply),
                ),
        ensures
            self.id().cell().exchanges(current, new, success, failure, reply),
            final(trace)@ == old(trace)@.push(event(reply)),
            final(trace).thread() == step(old(trace).thread()->0, event(reply)),
    {
        let reply = f(&self.cell, current, new, success, failure);
        trace.note(Ghost(event(reply)));
        reply
    }

    /// Enters the cell.
    pub(super) fn enter<'a, R, F: FnOnce(&'a A) -> R>(
        &'a self,
        f: F,
        Ghost(event): Ghost<spec_fn(R) -> Event>,
        trace: &mut Trace<K>,
    ) -> (entry: R) where A: Enter<R>
        requires
            call_requires(f, (&self.id().cell(),)),
            forall|entry: R| #[trigger]
                call_ensures(f, (&self.id().cell(),), entry) <==> self.id().cell().lets_in(entry),
            old(trace).thread() matches Some(t) && forall|entry: R| #[trigger]
                self.id().cell().lets_in(entry) ==> is_real(t, event(entry)),
        ensures
            self.id().cell().lets_in(entry),
            final(trace)@ == old(trace)@.push(event(entry)),
            final(trace).thread() == step(old(trace).thread()->0, event(entry)),
    {
        let entry = f(&self.cell);
        trace.note(Ghost(event(entry)));
        entry
    }

    /// Reads the cell, which is not noted.
    pub(super) fn peek<V, F: FnOnce(&A, Ordering) -> V>(&self, f: F, order: Ordering) -> (value:
        V) where A: Peek<V>
        requires
            call_requires(f, (&self.id().cell(), order)),
            forall|value: V| #[trigger]
                call_ensures(f, (&self.id().cell(), order), value) <==> self.id().cell().shows(
                    order,
                    value,
                ),
        ensures
            self.id().cell().shows(order, value),
    {
        f(&self.cell, order)
    }

    /// Looks into the cell, reads what is there, and stops looking, which is not
    /// noted.
    pub(super) fn look<'a, R, V, F: FnOnce(&'a A) -> R, G: FnOnce(&R) -> V, H: FnOnce(R)>(
        &'a self,
        f: F,
        read: G,
        stop: H,
    ) -> (value: V) where A: Look<R>
        requires
            call_requires(f, (&self.id().cell(),)),
            forall|view: R| #[trigger]
                call_ensures(f, (&self.id().cell(),), view) <==> self.id().cell().lets_see(view),
            forall|view: R| #[trigger] call_requires(read, (&view,)),
            forall|view: R| #[trigger] call_requires(stop, (view,)),
            forall|view: R| #[trigger]
                call_ensures(stop, (view,), ()) <==> self.id().cell().lets_go(view),
        ensures
            exists|view: R|
                {
                    &&& #[trigger] self.id().cell().lets_see(view)
                    &&& call_ensures(read, (&view,), value)
                    &&& self.id().cell().lets_go(view)
                },
    {
        let view = f(&self.cell);
        let value = read(&view);
        let ghost seen = view;
        stop(view);
        assert(self.id().cell().lets_see(seen));
        value
    }
}

} // verus!

//! Functions that wait to be called, by their owner or by another thread.

use std::sync::Arc;

use vstd::prelude::*;
use vstd::rwlock::{ReadHandle, RwLock, RwLockPredicate, WriteHandle};

verus! {

/// Whether `f` can be called on whatever value there is.
pub open spec fn is_total<T, F: FnOnce(&mut T)>(f: F) -> bool {
    forall|value: &mut T| #[trigger] call_requires(f, (value,))
}

/// Whether `f` has been called: there is a value that it was called on.
pub open spec fn is_applied<T, F: FnOnce(&mut T)>(f: F) -> bool {
    exists|value: &mut T| #[trigger] call_ensures(f, (value,), ())
}

/// A function that has been called, or has not.
pub enum State<F> {
    /// The function waits to be called.
    Pending(F),
    /// The function has been called.
    Done,
}

/// What holds of a deferred function at any time.
pub struct Fate<F> {
    /// The function.
    pub f: F,
    /// What is true once it has been called.
    pub outcome: bool,
}

impl<F> RwLockPredicate<State<F>> for Fate<F> {
    open spec fn inv(self, state: State<F>) -> bool {
        match state {
            State::Pending(f) => f == self.f,
            State::Done => self.outcome,
        }
    }
}

/// A function that several threads can reach and that one of them calls, once.
#[verifier::reject_recursive_types(F)]
pub struct Deferred<F> {
    state: RwLock<State<F>, Fate<F>>,
}

impl<F> Deferred<F> {
    /// The function.
    pub closed spec fn function(&self) -> F {
        self.state.pred().f
    }

    /// What is true once the function has been called.
    pub closed spec fn outcome(&self) -> bool {
        self.state.pred().outcome
    }

    /// Whether this is a function on values of type `T` that can be called on
    /// any of them.
    pub open spec fn is_ready<T>(&self) -> bool where F: FnOnce(&mut T) {
        &&& is_total::<T, F>(self.function())
        &&& self.outcome() == is_applied::<T, F>(self.function())
    }

    /// Whether a look at the function can find it called, or not called.
    pub closed spec fn may_show(&self, done: bool) -> bool {
        exists|handle: ReadHandle<'_, State<F>, Fate<F>>|
            {
                &&& #[trigger] call_ensures(
                    RwLock::<State<F>, Fate<F>>::acquire_read,
                    (&self.state,),
                    handle,
                )
                &&& done <==> handle.view() is Done
                &&& call_ensures(ReadHandle::<State<F>, Fate<F>>::release_read, (handle,), ())
            }
    }

    /// Whether whoever is to call the function can find it waiting, or called,
    /// and leave it called.
    pub closed spec fn may_be_found(&self, pending: bool) -> bool {
        exists|state: State<F>, handle: WriteHandle<'_, State<F>, Fate<F>>|
            {
                &&& #[trigger] call_ensures(
                    RwLock::<State<F>, Fate<F>>::acquire_write,
                    (&self.state,),
                    (state, handle),
                )
                &&& call_ensures(
                    WriteHandle::<State<F>, Fate<F>>::release_write,
                    (handle, State::Done),
                    (),
                )
                &&& pending <==> state is Pending
            }
    }

    /// A function that waits to be called.
    pub fn new<T>(f: F) -> (deferred: Self) where F: FnOnce(&mut T)
        requires
            is_total::<T, F>(f),
        ensures
            deferred.function() == f,
            deferred.is_ready::<T>(),
    {
        let ghost outcome = is_applied::<T, F>(f);
        Deferred { state: RwLock::new(State::Pending(f), Ghost(Fate { f, outcome })) }
    }

    /// Whether the function has been called.
    pub fn is_done<T>(&self) -> (done: bool) where F: FnOnce(&mut T)
        requires
            self.is_ready::<T>(),
        ensures
            self.may_show(done),
            done ==> is_applied::<T, F>(self.function()),
    {
        let handle = self.state.acquire_read();
        let done = match handle.borrow() {
            State::Pending(_) => false,
            State::Done => true,
        };
        let ghost held = handle;
        handle.release_read();
        assert(call_ensures(RwLock::<State<F>, Fate<F>>::acquire_read, (&self.state,), held));
        done
    }

    /// Calls the function, unless it has been called; returns whether it was
    /// called now.
    pub fn invoke<T>(&self, arg: &mut T) -> (pending: bool) where F: FnOnce(&mut T)
        requires
            self.is_ready::<T>(),
        ensures
            is_applied::<T, F>(self.function()),
            self.may_be_found(pending),
            if pending {
                exists|value: &mut T| #[trigger]
                    call_ensures(self.function(), (value,), ()) && *value == *old(arg)
                        && *final(value) == *final(arg)
            } else {
                *final(arg) == *old(arg)
            },
    {
        let (state, handle) = self.state.acquire_write();
        let ghost found = state;
        let mut pending = false;
        if let State::Pending(f) = state {
            pending = true;
            f(arg);
            assert(exists|value: &mut T| #[trigger]
                call_ensures(self.function(), (value,), ()) && *value == *old(arg)
                    && *final(value) == *arg);
        }
        handle.release_write(State::Done);
        assert(self.may_be_found(found is Pending));
        pending
    }
}

/// Something to be called on a value.
trait Invoke<T>: Send + Sync {
    /// Whether it can be called on any value.
    spec fn is_callable(&self) -> bool;

    /// Whether a call can do this to a value.
    spec fn allows(&self, value: &mut T) -> bool;

    /// What is true once it has been called.
    spec fn outcome(&self) -> bool;

    /// Whether whoever is to call it can find it waiting, or called.
    spec fn may_be_found(&self, pending: bool) -> bool;

    /// Calls it, unless it has been called; returns whether it was called now.
    fn invoke(&self, arg: &mut T) -> (pending: bool)
        requires
            self.is_callable(),
        ensures
            self.outcome(),
            self.may_be_found(pending),
            if pending {
                exists|value: &mut T| #[trigger]
                    self.allows(value) && *value == *old(arg) && *final(value) == *final(arg)
            } else {
                *final(arg) == *old(arg)
            },
    ;
}

/// A reference to a deferred function.
#[verifier::reject_recursive_types(F)]
struct Handle<F> {
    target: Arc<Deferred<F>>,
}

impl<T, F: FnOnce(&mut T) + Send + Sync> Invoke<T> for Handle<F> {
    closed spec fn is_callable(&self) -> bool {
        self.target.is_ready::<T>()
    }

    closed spec fn allows(&self, value: &mut T) -> bool {
        call_ensures(self.target.function(), (value,), ())
    }

    closed spec fn outcome(&self) -> bool {
        self.target.outcome()
    }

    closed spec fn may_be_found(&self, pending: bool) -> bool {
        self.target.may_be_found(pending)
    }

    fn invoke(&self, arg: &mut T) -> (pending: bool) {
        let pending = self.target.invoke(arg);
        proof {
            assert forall|value: &mut T| #[trigger]
                call_ensures(self.target.function(), (value,), ()) implies Invoke::<T>::allows(
                self,
                value,
            ) by {}
        }
        pending
    }
}

/// A function on values of type `T` whose own type is forgotten.
#[verifier::reject_recursive_types(T)]
pub struct ErasedFn<T> {
    target: Box<dyn Invoke<T>>,
}

impl<T> ErasedFn<T> {
    /// Whether the function can be called on any value.
    pub closed spec fn is_callable(&self) -> bool {
        self.target.is_callable()
    }

    /// Whether a call can do this to a value.
    pub closed spec fn allows(&self, value: &mut T) -> bool {
        self.target.allows(value)
    }

    /// What is true once the function has been called.
    pub closed spec fn outcome(&self) -> bool {
        self.target.outcome()
    }

    /// Whether whoever is to call the function can find it waiting, or called,
    /// and leave it called.
    pub closed spec fn may_be_found(&self, pending: bool) -> bool {
        self.target.may_be_found(pending)
    }

    /// Whether this function does what `f` does.
    pub open spec fn is_of<F: FnOnce(&mut T)>(&self, f: F) -> bool {
        forall|value: &mut T| #[trigger]
            self.allows(value) <==> call_ensures(f, (value,), ())
    }

    /// Forgets the type of a function, which stays where its owner has it.
    pub fn new<F: FnOnce(&mut T) + Send + Sync + 'static>(f: &Arc<Deferred<F>>) -> (erased: Self)
        requires
            f.is_ready::<T>(),
        ensures
            erased.is_callable(),
            erased.outcome() == is_applied::<T, F>(f.function()),
            erased.is_of(f.function()),
            forall|pending: bool| #[trigger]
                erased.may_be_found(pending) <==> f.may_be_found(pending),
    {
        let target: Box<Handle<F>> = Box::new(Handle { target: f.clone() });
        ErasedFn { target }
    }

    /// Calls the function on `arg`, unless it has been called; returns whether
    /// it was called now.
    pub fn invoke(self, arg: &mut T) -> (pending: bool)
        requires
            self.is_callable(),
        ensures
            self.outcome(),
            self.may_be_found(pending),
            if pending {
                exists|value: &mut T| #[trigger]
                    self.allows(value) && *value == *old(arg) && *final(value) == *final(arg)
            } else {
                *final(arg) == *old(arg)
            },
    {
        let pending = self.target.invoke(arg);
        proof {
            assert forall|value: &mut T| #[trigger] self.target.allows(value) implies self.allows(
                value,
            ) by {}
        }
        pending
    }
}

} // verus!

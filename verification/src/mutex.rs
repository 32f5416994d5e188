//! A shared value under a lock of the standard library.

use core::ops::DerefMut;

use vstd::prelude::*;

use crate::flat_combining::erased_fn::{is_applied, is_total};
use crate::Mutator;

verus! {

/// `std::sync::Mutex`.
#[verifier::external_type_specification]
#[verifier::external_body]
#[verifier::reject_recursive_types(T)]
pub struct ExMutex<T: ?Sized>(std::sync::Mutex<T>);

/// `std::sync::MutexGuard`.
#[verifier::external_type_specification]
#[verifier::external_body]
#[verifier::reject_recursive_types(T)]
pub struct ExMutexGuard<'a, T: ?Sized + 'a>(std::sync::MutexGuard<'a, T>);

/// `std::sync::PoisonError`.
#[verifier::external_type_specification]
#[verifier::external_body]
#[verifier::reject_recursive_types(T)]
pub struct ExPoisonError<T>(std::sync::PoisonError<T>);

/// `std::sync::Mutex::new` makes an unlocked mutex over a value.
#[verifier::external_body]
fn locked<T>(value: T) -> (mutex: std::sync::Mutex<T>) {
    std::sync::Mutex::new(value)
}

/// `std::sync::Mutex::lock` waits for the mutex, and fails if a thread panicked
/// while it held it.  When that is the case is up to the other threads.
pub assume_specification<T: ?Sized>[ std::sync::Mutex::<T>::lock ](
    mutex: &std::sync::Mutex<T>,
) -> (reply: std::sync::LockResult<std::sync::MutexGuard<'_, T>>);

/// `std::sync::Mutex::into_inner` takes the value out of a mutex, and fails if a
/// thread panicked while it held it.
#[verifier::external_body]
fn unlocked<T>(mutex: std::sync::Mutex<T>) -> (reply: Result<T, std::sync::PoisonError<T>>) {
    mutex.into_inner()
}

/// `std::sync::MutexGuard`'s `DerefMut::deref_mut` gives access to the value of
/// the mutex, which may be any.
#[verifier::external_body]
fn value_of<'b, T>(guard: &'b mut std::sync::MutexGuard<'_, T>) -> (value: &'b mut T) {
    guard.deref_mut()
}

/// Whether a guard of the standard library can give access to this.
pub closed spec fn gives_access<T>(
    guard: &mut std::sync::MutexGuard<'_, T>,
    value: &mut T,
) -> bool {
    call_ensures(value_of::<T>, (guard,), value)
}

/// A function that was applied to the value did not come to its end.
#[derive(Clone, Copy, Debug, PartialEq, Eq, Structural)]
pub struct Poisoned;

/// A value under a lock of the standard library.
#[verifier::reject_recursive_types(T)]
pub struct Mutex<T> {
    data: std::sync::Mutex<T>,
}

/// Whether `Result::ok` took what it needs out of a reply, and dropped the rest: a
/// lock that failed is released by that.
pub open spec fn is_used_up<V>(reply: Result<V, std::sync::PoisonError<V>>) -> bool {
    exists|kept: Option<V>| #[trigger]
        call_ensures(Result::<V, std::sync::PoisonError<V>>::ok, (reply,), kept)
}

/// What a lock of the standard library replies, without what it adds to an
/// error.
pub fn unless_poisoned<V>(reply: Result<V, std::sync::PoisonError<V>>) -> (result: Result<
    V,
    Poisoned,
>)
    ensures
        result == match reply {
            Ok(value) => Ok::<V, Poisoned>(value),
            Err(_) => Err::<V, Poisoned>(Poisoned),
        },
        is_used_up(reply),
{
    let kept = reply.ok();
    assert(call_ensures(Result::<V, std::sync::PoisonError<V>>::ok, (reply,), kept));
    match kept {
        Some(value) => Ok(value),
        None => Err(Poisoned),
    }
}

/// Applies `f` to the value that a lock of the standard library gave access to,
/// and releases the lock; if the lock failed, `f` is not applied.
pub fn apply_unless_poisoned<T, F: FnOnce(&mut T)>(
    reply: std::sync::LockResult<std::sync::MutexGuard<'_, T>>,
    f: F,
) -> (result: Result<(), Poisoned>)
    requires
        is_total::<T, F>(f),
    ensures
        result == match reply {
            Ok(_) => Ok::<(), Poisoned>(()),
            Err(_) => Err::<(), Poisoned>(Poisoned),
        },
        is_used_up(reply),
        reply is Ok ==> is_applied::<T, F>(f),
        // It is applied to what the guard gives access to.
        reply matches Ok(guard) ==> exists|access: &mut std::sync::MutexGuard<'_, T>, value: &mut T|
            {
                &&& *access == guard
                &&& #[trigger] gives_access(access, value)
                &&& #[trigger] call_ensures(f, (value,), ())
            },
{
    match unless_poisoned(reply) {
        Ok(mut guard) => {
            f(value_of(&mut guard));
            assert forall|access: &mut std::sync::MutexGuard<'_, T>, value: &mut T| #[trigger]
                call_ensures(value_of::<T>, (access,), value) implies gives_access(
                access,
                value,
            ) by {}
            Ok(())
        },
        Err(poisoned) => Err(poisoned),
    }
}

impl<T> Mutex<T> {
    /// Whether the lock of the standard library was made over this value.
    pub closed spec fn starts_with(&self, value: T) -> bool {
        call_ensures(locked::<T>, (value,), self.data)
    }

    /// Whether the lock of the standard library, asked for access, can give this
    /// reply.
    pub closed spec fn may_reply<'a>(
        &'a self,
        reply: std::sync::LockResult<std::sync::MutexGuard<'a, T>>,
    ) -> bool {
        call_ensures(std::sync::Mutex::<T>::lock, (&self.data,), reply)
    }

    /// Whether the lock of the standard library, taken apart, can give this
    /// reply.
    pub closed spec fn may_yield(self, reply: Result<T, std::sync::PoisonError<T>>) -> bool {
        call_ensures(unlocked::<T>, (self.data,), reply)
    }

    /// The value; an error if a function that was applied to it did not come to
    /// its end.
    pub fn into_inner(self) -> (result: Result<T, Poisoned>)
        ensures
            exists|reply: Result<T, std::sync::PoisonError<T>>| #[trigger]
                self.may_yield(reply) && result == match reply {
                    Ok(value) => Ok::<T, Poisoned>(value),
                    Err(_) => Err::<T, Poisoned>(Poisoned),
                },
    {
        let ghost mutex = self;
        let reply = unlocked(self.data);
        assert(mutex.may_yield(reply));
        unless_poisoned(reply)
    }
}

impl<T> Mutator<T> for Mutex<T> {
    fn new(value: T) -> (mutator: Self)
        ensures
            mutator.starts_with(value),
    {
        Mutex { data: locked(value) }
    }

    fn mutate<F: FnOnce(&mut T) + Send + Sync + 'static>(&self, f: F) -> (result: Result<
        (),
        Poisoned,
    >)
        ensures
            exists|reply: std::sync::LockResult<std::sync::MutexGuard<'_, T>>| #[trigger]
                self.may_reply(reply) && is_used_up(reply) && result == (match reply {
                    Ok(_) => Ok::<(), Poisoned>(()),
                    Err(_) => Err::<(), Poisoned>(Poisoned),
                }) && (reply matches Ok(guard) ==> exists|
                    access: &mut std::sync::MutexGuard<'_, T>,
                    value: &mut T,
                |
                    {
                        &&& *access == guard
                        &&& #[trigger] gives_access(access, value)
                        &&& #[trigger] call_ensures(f, (value,), ())
                    }),
    {
        let reply = self.data.lock();
        assert(self.may_reply(reply));
        apply_unless_poisoned(reply, f)
    }
}

} // verus!

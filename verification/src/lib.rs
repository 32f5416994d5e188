//! Shared values that threads change by handing in functions.
//!
//! [`Mutex`] runs each function under a lock of the standard library.
//! [`FlatCombining`] lets the thread that has its lock run the functions of the
//! threads that wait for it.

pub mod flat_combining;
pub mod mutex;

use vstd::prelude::*;

use crate::flat_combining::erased_fn::{is_applied, is_total};
use crate::flat_combining::memory::event::Event;
use crate::flat_combining::memory::{Outside, Trace};
pub use crate::flat_combining::FlatCombining;
pub use crate::mutex::{Mutex, Poisoned};

verus! {

/// A value that threads change by handing in functions.
pub trait Mutator<T>: Sized {
    /// A shared value that starts as `value`.
    fn new(value: T) -> Self;

    /// Applies `f` to the value, while nobody else uses it.
    ///
    /// On return `f` has been applied; it has not if an earlier function left
    /// the value in disorder.
    fn mutate<F: FnOnce(&mut T) + Send + Sync + 'static>(&self, f: F) -> (result: Result<
        (),
        Poisoned,
    >)
        requires
            is_total::<T, F>(f),
        ensures
            result is Ok ==> is_applied::<T, F>(f),
    ;
}

impl<T> Mutator<T> for FlatCombining<T> {
    fn new(value: T) -> (mutator: Self)
        ensures
            mutator.starts_with(value),
            mutator.starts_unused(),
    {
        FlatCombining::holding(value)
    }

    fn mutate<F: FnOnce(&mut T) + Send + Sync + 'static>(&self, f: F) -> (result: Result<
        (),
        Poisoned,
    >)
        ensures
            result is Ok,
            // It is `combine`, for a thread that has done nothing yet.
            exists|trace: &mut Trace| #[trigger]
                call_ensures(FlatCombining::<T, Outside>::combine::<F>, (self, f, trace), ())
                    && trace@ == Seq::<Event>::empty(),
    {
        let mut trace = Trace::new();
        self.combine(f, &mut trace);
        Ok(())
    }
}

} // verus!

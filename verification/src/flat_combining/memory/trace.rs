//! What a thread has done to shared memory.

use std::marker::PhantomData;

use vstd::prelude::*;

use crate::flat_combining::memory::event::Event;
use crate::flat_combining::protocol::{is_real, lemma_run_push, run, step, Thread};

verus! {

/// The kind of the traces that the users of this library make.
pub struct Outside;

/// What one thread has done so far.
///
/// A trace that holds an access which was not made, or could not go like that,
/// is the trace of no thread: see [`Trace::thread`].  What a thread notes
/// besides accesses are the stages of its work, such as the start of an
/// operation.
///
/// A trace is of some kind `K`, and is good for cells of that kind only.  What
/// this library does to cells it does for every kind, and so cannot make a trace
/// for them: it has none but the one that it is handed.  A trace of the kind
/// [`Outside`], which can be made, is for those who use the library.
#[verifier::reject_recursive_types(K)]
pub struct Trace<K = Outside> {
    events: Ghost<Seq<Event>>,
    kind: PhantomData<K>,
}

impl<K> View for Trace<K> {
    type V = Seq<Event>;

    closed spec fn view(&self) -> Seq<Event> {
        self.events@
    }
}

impl Trace {
    /// The trace of a thread that has done nothing yet.
    pub fn new() -> (trace: Self)
        ensures
            trace@ == Seq::<Event>::empty(),
            trace.thread() == Some(Thread::start()),
    {
        Trace { events: Ghost(Seq::empty()), kind: PhantomData }
    }
}

impl<K> Trace<K> {
    /// Where the thread stands after what it has done; `None` if it did
    /// something that the protocol does not allow, or notes an access that was
    /// not made.
    pub open spec fn thread(&self) -> Option<Thread> {
        run(self@)
    }

    /// Notes an event that was real.
    pub(super) fn note(&mut self, Ghost(event): Ghost<Event>)
        requires
            old(self).thread() matches Some(t) && is_real(t, event),
        ensures
            final(self)@ == old(self)@.push(event),
            final(self).thread() == step(old(self).thread()->0, event),
    {
        self.events = Ghost(self.events@.push(event));
        proof {
            lemma_run_push(old(self)@, event);
        }
    }
}

} // verus!

//! What threads find in the value of a mutex, and leave behind.

use vstd::prelude::*;

use crate::flat_combining::laws::lock::{is_lost, law_exclusion_is_kept, Futex};
use crate::flat_combining::memory::event::WordEvent;
use crate::flat_combining::protocol::{word_step, Phase};

verus! {

/// A mutex and its value.
pub struct Visits<V> {
    pub futex: Futex,
    /// What is in the cell, or was there when the thread that is inside entered.
    pub value: V,
    /// What each thread that is inside has found.
    pub found: Map<int, V>,
    /// What each visitor who has left found and left behind, in order.
    pub log: Seq<(V, V)>,
}

/// Whether a thread is inside the cell.
pub open spec fn is_inside(phase: Phase) -> bool {
    phase is Held || phase is Leaving
}

impl<V> Visits<V> {
    /// Nobody has used the mutex yet, and this is its value.
    pub open spec fn initial(self, first: V) -> bool {
        &&& self.futex.initial()
        &&& self.value == first
        &&& self.found.dom().is_empty()
        &&& self.log.len() == 0
    }

    /// Thread `t` lets an event happen; if it leaves the cell, it leaves `exit`
    /// behind.
    pub open spec fn does(self, t: int, event: WordEvent, exit: V, after: Visits<V>) -> bool {
        &&& self.futex.does(t, event, after.futex)
        &&& after == match event {
            WordEvent::Enter => Visits {
                futex: after.futex,
                found: self.found.insert(t, self.value),
                ..self
            },
            WordEvent::Leave => Visits {
                futex: after.futex,
                value: exit,
                found: self.found.remove(t),
                log: self.log.push((self.found[t], exit)),
            },
            _ => Visits { futex: after.futex, ..self },
        }
    }

    /// Something else happens at the word.
    pub open spec fn passes(self, after: Visits<V>) -> bool {
        &&& self.futex.next(after.futex)
        &&& after == Visits { futex: after.futex, ..self }
        // Nobody enters or leaves by that.
        &&& forall|t: int| #[trigger]
            after.futex.phases.contains_key(t) ==> is_inside(after.futex.phases[t]) == is_inside(
                self.futex.phases[t],
            )
    }

    /// Something happens, and nobody has given up waiting for the lock.
    pub open spec fn next(self, after: Visits<V>) -> bool {
        &&& forall|t: int| #[trigger]
            after.futex.phases.contains_key(t) ==> !is_lost(after.futex.phases[t])
        &&& {
            ||| exists|t: int, event: WordEvent, exit: V| #[trigger]
                self.does(t, event, exit, after)
            ||| self.passes(after)
        }
    }

    /// One thread at most is inside, it has found what the last visitor left
    /// behind, and so did every visitor.
    pub open spec fn is_linked(self, first: V) -> bool {
        &&& self.futex.is_exclusive()
        &&& forall|t: int| #[trigger]
            self.futex.phases.contains_key(t) ==> !is_lost(self.futex.phases[t])
        &&& forall|t: int| #[trigger]
            self.found.contains_key(t) <==> self.futex.phases.contains_key(t) && is_inside(
                self.futex.phases[t],
            )
        &&& forall|t: int| #[trigger] self.found.contains_key(t) ==> self.found[t] == self.value
        &&& self.value == if self.log.len() == 0 {
            first
        } else {
            self.log.last().1
        }
        &&& forall|k: int|
            0 <= k < self.log.len() ==> (#[trigger] self.log[k]).0 == if k == 0 {
                first
            } else {
                self.log[k - 1].1
            }
    }
}

/// Whatever happens next, every visitor has found what the visitor before left
/// behind.
pub proof fn law_visits_stay_linked<V>(first: V, before: Visits<V>, after: Visits<V>)
    requires
        before.is_linked(first),
        before.next(after),
    ensures
        after.is_linked(first),
{
    if exists|t: int, event: WordEvent, exit: V| #[trigger] before.does(t, event, exit, after) {
        let (t, event, exit) = choose|t: int, event: WordEvent, exit: V| #[trigger]
            before.does(t, event, exit, after);
        assert(before.futex.next(after.futex));
        law_exclusion_is_kept(before.futex, after.futex);
        assert(before.futex.phases.contains_key(t));
        assert forall|x: int| x != t && #[trigger] after.futex.phases.contains_key(x) implies {
            &&& before.futex.phases.contains_key(x)
            &&& is_inside(after.futex.phases[x]) == is_inside(before.futex.phases[x])
        } by {
            assert(before.futex.phases.dom().contains(x));
        }
        assert forall|x: int| #[trigger] before.futex.phases.contains_key(x) implies
            after.futex.phases.contains_key(x) by {
            assert(after.futex.phases.dom().contains(x));
        }
        assert(after.futex.phases[t] == word_step(before.futex.phases[t], event)->0) by {
            assert(before.futex.phases.contains_key(t));
        }
        if event is Enter || event is Leave {
            assert forall|x: int| x != t implies !#[trigger] before.found.contains_key(x) by {
                if before.found.contains_key(x) {
                    assert(before.futex.owns(x));
                    assert(before.futex.owns(t));
                }
            }
        }
        if event is Leave {
            assert(before.found.contains_key(t));
            assert forall|k: int| 0 <= k < after.log.len() implies (#[trigger] after.log[k]).0
                == if k == 0 {
                first
            } else {
                after.log[k - 1].1
            } by {
                if k < before.log.len() {
                    assert(after.log[k] == before.log[k]);
                }
            }
        }
    } else {
        law_exclusion_is_kept(before.futex, after.futex);
        assert forall|x: int| #[trigger] before.found.contains_key(x) implies
            after.futex.phases.contains_key(x) by {
            assert(before.futex.phases.contains_key(x));
            lemma_same_threads(before.futex, after.futex, x);
        }
        assert forall|x: int| #[trigger] after.futex.phases.contains_key(x) implies
            before.futex.phases.contains_key(x) by {
            lemma_same_threads(before.futex, after.futex, x);
        }
    }
}

/// No thread comes or goes.
proof fn lemma_same_threads(before: Futex, after: Futex, t: int)
    requires
        before.next(after),
    ensures
        before.phases.contains_key(t) <==> after.phases.contains_key(t),
{
    assert(before.phases.dom() == after.phases.dom());
    assert(before.phases.dom().contains(t) <==> after.phases.dom().contains(t));
}

/// A run: it starts with a first value, and one thing happens at a time.
pub open spec fn is_execution<V>(first: V, states: Seq<Visits<V>>) -> bool {
    &&& states.len() > 0
    &&& states[0].initial(first)
    &&& forall|i: int| 0 <= i < states.len() - 1 ==> (#[trigger] states[i]).next(states[i + 1])
}

/// Every guard sees what was written through earlier ones: in every state that a
/// mutex can come to, who is inside has found what the last visitor left behind,
/// and so did every visitor before.
pub proof fn law_guards_see_earlier_writes<V>(first: V, states: Seq<Visits<V>>, i: int)
    requires
        is_execution(first, states),
        0 <= i < states.len(),
    ensures
        states[i].is_linked(first),
    decreases i,
{
    if i > 0 {
        law_guards_see_earlier_writes(first, states, i - 1);
        assert(states[i - 1].next(states[i - 1 + 1]));
        law_visits_stay_linked(first, states[i - 1], states[i]);
    }
}

} // verus!

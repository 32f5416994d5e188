//! Any number of threads at the masks of one pool.

use vstd::prelude::*;
use vstd::set_lib::{lemma_int_range, lemma_len_subset, lemma_map_size, set_int_range};

use crate::flat_combining::memory::event::PoolEvent;
use crate::flat_combining::protocol::{
    bit_of, group_at, index_of, lemma_lowest, lowest, slot_of, slot_step, SlotPhase, CAPACITY,
    GROUPS, GROUP_SIZE,
};

verus! {

/// The masks of a pool and the threads that use it.
#[verifier::ext_equal]
pub struct Pool {
    pub masks: Seq<u8>,
    pub slots: Map<int, SlotPhase>,
}

/// The masks after an event; `None` if the reply is not one that memory gives.
pub open spec fn effect(masks: Seq<u8>, event: PoolEvent) -> Option<Seq<u8>> {
    match event {
        PoolEvent::Load { group, mask } => if masks[group as int] == mask {
            Some(masks)
        } else {
            None
        },
        PoolEvent::CompareExchange { group, current, new, success } => if !success {
            Some(masks)
        } else if masks[group as int] == current {
            Some(masks.update(group as int, new))
        } else {
            None
        },
        PoolEvent::FetchOr { group, bits, previous } => if masks[group as int] == previous {
            Some(masks.update(group as int, previous | bits))
        } else {
            None
        },
        PoolEvent::GiveUp | PoolEvent::Store { .. } | PoolEvent::Clear { .. } => Some(masks),
    }
}

impl Pool {
    /// Nobody has used the pool yet.
    pub open spec fn initial(self) -> bool {
        &&& self.masks == Seq::new(GROUPS as nat, |g: int| u8::MAX)
        &&& forall|t: int| #[trigger]
            self.slots.contains_key(t) ==> self.slots[t] == SlotPhase::Free
    }

    /// Thread `t` lets an event happen.
    pub open spec fn does(self, t: int, event: PoolEvent, after: Pool) -> bool {
        &&& self.slots.contains_key(t)
        &&& slot_step(self.slots[t], event) is Some
        &&& effect(self.masks, event) == Some(after.masks)
        &&& after.slots == self.slots.insert(t, slot_step(self.slots[t], event)->0)
    }

    /// Something happens.
    pub open spec fn next(self, after: Pool) -> bool {
        exists|t: int, event: PoolEvent| #[trigger] self.does(t, event, after)
    }

    /// Whether a slot can be claimed.
    pub open spec fn is_available(self, index: u8) -> bool {
        self.masks[index as int / GROUP_SIZE as int] & bit_of((index % 8) as u8) != 0
    }

    /// Whether thread `t` owns a slot.
    pub open spec fn owns(self, t: int, index: u8) -> bool {
        self.slots.contains_key(t) && slot_of(self.slots[t]) == Some(index)
    }

    /// Every slot is either available or owned by one thread.
    pub open spec fn is_sound(self) -> bool {
        &&& self.masks.len() == GROUPS
        &&& forall|t: int, index: u8| #[trigger]
            self.owns(t, index) ==> index < CAPACITY && !self.is_available(index)
        &&& forall|a: int, b: int, index: u8| #[trigger]
            self.owns(a, index) && #[trigger] self.owns(b, index) ==> a == b
        &&& forall|index: u8|
            index < CAPACITY && !#[trigger] self.is_available(index) ==> exists|t: int|
                self.owns(t, index)
        &&& forall|t: int| #[trigger]
            self.slots.contains_key(t) ==> match self.slots[t] {
                SlotPhase::Looking { skipped, .. } => skipped < GROUPS,
                SlotPhase::Choosing { skipped, mask, .. } => skipped < GROUPS && mask != 0,
                _ => true,
            }
    }
}

/// Clearing a bit of a mask, or setting it, leaves the other bits alone.
pub(crate) proof fn lemma_bits(mask: u8, slot: u8, other: u8)
    requires
        slot < 8,
        other < 8,
    ensures
        (mask & !bit_of(slot)) & bit_of(other) != 0 <==> mask & bit_of(other) != 0 && other != slot,
        (mask | bit_of(slot)) & bit_of(other) != 0 <==> mask & bit_of(other) != 0 || other == slot,
{
    assert((mask & !(1u8 << slot)) & (1u8 << other) != 0 <==> mask & (1u8 << other) != 0 && other
        != slot) by (bit_vector)
        requires
            slot < 8,
            other < 8,
    ;
    assert((mask | (1u8 << slot)) & (1u8 << other) != 0 <==> mask & (1u8 << other) != 0 || other
        == slot) by (bit_vector)
        requires
            slot < 8,
            other < 8,
    ;
}

/// Whatever one thread does next, every slot is still either available or owned
/// by one thread.
pub proof fn law_slots_stay_sound(before: Pool, after: Pool)
    requires
        before.is_sound(),
        before.next(after),
    ensures
        after.is_sound(),
{
    let (t, event) = choose|t: int, event: PoolEvent| #[trigger] before.does(t, event, after);
    assert(forall|x: int| #[trigger]
        after.slots.contains_key(x) <==> before.slots.contains_key(x));
    assert forall|x: int, i: u8| x != t implies #[trigger] after.owns(x, i) == before.owns(x, i) by {}
    match event {
        PoolEvent::CompareExchange { group, current, new, success } if success => {
            let mask = before.masks[group as int];
            let slot = lowest(mask);
            lemma_lowest(mask);
            let index = index_of(group as nat, slot) as u8;
            assert(group < GROUPS);
            assert(index / 8 == group && index % 8 == slot);
            assert(before.is_available(index));
            assert(after.owns(t, index));
            assert forall|i: u8| i < CAPACITY implies #[trigger] after.is_available(i) == (
            before.is_available(i) && i != index) by {
                if i / 8 == group {
                    lemma_bits(mask, slot, (i % 8) as u8);
                }
            }
            assert forall|i: u8| i < CAPACITY && !#[trigger] after.is_available(i) implies exists|
                x: int,
            | after.owns(x, i) by {
                if i != index {
                    assert(!before.is_available(i));
                    let x = choose|x: int| before.owns(x, i);
                    assert(x != t);
                    assert(after.owns(x, i));
                }
            }
        },
        PoolEvent::FetchOr { group, bits, previous } => {
            let index = slot_of(before.slots[t])->0;
            assert(before.owns(t, index));
            assert forall|i: u8| i < CAPACITY implies #[trigger] after.is_available(i) == (
            before.is_available(i) || i == index) by {
                if i / 8 == group {
                    lemma_bits(previous, (index % 8) as u8, (i % 8) as u8);
                }
            }
            assert forall|i: u8| i < CAPACITY && !#[trigger] after.is_available(i) implies exists|
                x: int,
            | after.owns(x, i) by {
                let x = choose|x: int| before.owns(x, i);
                assert(before.owns(x, i));
                assert(x != t);
                assert(after.owns(x, i));
            }
            assert forall|x: int, i: u8| #[trigger] after.owns(x, i) implies i < CAPACITY
                && !after.is_available(i) by {
                assert(x != t);
                assert(before.owns(x, i));
            }
        },
        _ => {
            assert(after.masks == before.masks);
            assert forall|i: u8| #[trigger] after.is_available(i) == before.is_available(i) by {}
            assert forall|i: u8| #[trigger] after.owns(t, i) == before.owns(t, i) by {}
            assert forall|i: u8| i < CAPACITY && !#[trigger] after.is_available(i) implies exists|
                x: int,
            | after.owns(x, i) by {
                let x = choose|x: int| before.owns(x, i);
                assert(before.owns(x, i));
                assert(after.owns(x, i));
            }
        },
    }
}

/// A run of the pool: it starts unused, and one thing happens at a time.
pub open spec fn is_execution(states: Seq<Pool>) -> bool {
    &&& states.len() > 0
    &&& states[0].initial()
    &&& forall|i: int| 0 <= i < states.len() - 1 ==> (#[trigger] states[i]).next(states[i + 1])
}

/// In every state that a pool can come to, every slot is either available or
/// owned by exactly one thread.
pub proof fn law_slots_are_exclusive(states: Seq<Pool>, i: int)
    requires
        is_execution(states),
        0 <= i < states.len(),
    ensures
        forall|index: u8|
            index < CAPACITY ==> (#[trigger] states[i].is_available(index) <==> forall|t: int|
                !states[i].owns(t, index)),
        forall|a: int, b: int, index: u8| #[trigger]
            states[i].owns(a, index) && #[trigger] states[i].owns(b, index) ==> a == b,
        states[i].is_sound(),
    decreases i,
{
    if i > 0 {
        law_slots_are_exclusive(states, i - 1);
        assert(states[i - 1].next(states[i - 1 + 1]));
        law_slots_stay_sound(states[i - 1], states[i]);
    } else {
        assert forall|index: u8| index < CAPACITY implies #[trigger] states[0].is_available(
            index,
        ) by {
            let slot = (index % 8) as u8;
            assert(0xffu8 & (1u8 << slot) != 0) by (bit_vector)
                requires
                    slot < 8,
            ;
        }
    }
}

/// A pool never has more than its capacity of slots in use.
pub proof fn law_capacity(pool: Pool, threads: Set<int>)
    requires
        pool.is_sound(),
        threads.finite(),
        forall|t: int| #[trigger]
            threads.contains(t) ==> pool.slots.contains_key(t) && slot_of(pool.slots[t]) is Some,
    ensures
        threads.len() <= CAPACITY,
{
    let f = |t: int| slot_of(pool.slots[t])->0 as int;
    let range = set_int_range(0, CAPACITY as int);
    lemma_int_range(0, CAPACITY as int);
    assert forall|a: int, b: int| threads.contains(a) && threads.contains(b) && #[trigger] f(a)
        == #[trigger] f(b) implies a == b by {
        assert(pool.owns(a, slot_of(pool.slots[a])->0));
        assert(pool.owns(b, slot_of(pool.slots[a])->0));
    }
    let used = threads.map(f);
    threads.lemma_map_finite(f);
    lemma_map_size(threads, used, f);
    assert forall|x: int| used.contains(x) implies range.contains(x) by {
        let t = choose|t: int| threads.contains(t) && f(t) == x;
        assert(pool.owns(t, slot_of(pool.slots[t])->0));
    }
    lemma_len_subset(used, range);
}

/// A thread that returns the slot that it owns finds it taken, and leaves it
/// available and all other slots as they were.
pub proof fn law_own_slot_is_freed_once(
    before: Pool,
    t: int,
    group: usize,
    bits: u8,
    previous: u8,
    after: Pool,
)
    requires
        before.is_sound(),
        before.does(t, PoolEvent::FetchOr { group, bits, previous }, after),
    ensures
        before.slots[t] is Cleared,
        previous & bits == 0,
        after.is_available(slot_of(before.slots[t])->0),
        forall|index: u8|
            index < CAPACITY && index != slot_of(before.slots[t])->0 ==> #[trigger] after.is_available(
                index,
            ) == before.is_available(index),
{
    let own = slot_of(before.slots[t])->0;
    assert(before.owns(t, own));
    assert(!before.is_available(own));
    assert forall|index: u8| index < CAPACITY implies #[trigger] after.is_available(index) == (
    before.is_available(index) || index == own) by {
        if index / 8 == group {
            lemma_bits(previous, (own % 8) as u8, (index % 8) as u8);
        }
    }
}

/// A thread claims the lowest available slot of the group that it looks at, and
/// nobody else's.
pub proof fn law_lowest_slot_is_claimed(
    before: Pool,
    t: int,
    group: usize,
    current: u8,
    new: u8,
    after: Pool,
)
    requires
        before.is_sound(),
        before.does(
            t,
            PoolEvent::CompareExchange { group, current, new, success: true },
            after,
        ),
    ensures
        after.slots[t] is Claimed,
        slot_of(after.slots[t])->0 as nat / GROUP_SIZE as nat == group,
        before.is_available(slot_of(after.slots[t])->0),
        forall|x: int| !before.owns(x, slot_of(after.slots[t])->0),
        forall|index: u8|
            index as nat / GROUP_SIZE as nat == group && index < slot_of(after.slots[t])->0
                ==> !#[trigger] before.is_available(index),
{
    let mask = before.masks[group as int];
    lemma_lowest(mask);
    let own = index_of(group as nat, lowest(mask)) as u8;
    assert(own / 8 == group && own % 8 == lowest(mask));
    assert forall|index: u8| index as nat / GROUP_SIZE as nat == group && index < own implies
        !#[trigger] before.is_available(index) by {
        let slot = (index % 8) as u8;
        assert(slot < lowest(mask));
        assert(mask & bit_of(slot) == 0);
    }
}

/// A thread that finds the pool full, while nothing changes, is right: no slot
/// is available.
pub proof fn law_full_is_full(before: Pool, t: int, group: usize, mask: u8, after: Pool)
    requires
        before.is_sound(),
        before.does(t, PoolEvent::Load { group, mask }, after),
        before.slots[t] matches SlotPhase::Looking { first, skipped, .. } && forall|j: nat|
            j < skipped ==> before.masks[#[trigger] group_at(first, j) as int] == 0,
        after.slots[t] is Full,
    ensures
        forall|index: u8| index < CAPACITY ==> !#[trigger] after.is_available(index),
{
    let first = before.slots[t]->Looking_first;
    let skipped = before.slots[t]->Looking_skipped;
    assert forall|index: u8| index < CAPACITY implies !#[trigger] after.is_available(index) by {
        let g = index as nat / GROUP_SIZE as nat;
        let j = ((g - first) % GROUPS as int) as nat;
        assert(group_at(first, j) == g) by {
            vstd::arithmetic::div_mod::lemma_add_mod_noop_right(first as int, g - first, 8);
        }
        let slot = (index % 8) as u8;
        assert(0u8 & (1u8 << slot) == 0) by (bit_vector);
    }
}

} // verus!

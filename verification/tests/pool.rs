use std::sync::Arc;

use crossbeam_utils::thread::scope;
use flat_combining::flat_combining::memory::Trace;
use flat_combining::flat_combining::record_pool::{choose_slot, locate_slot, RecordPool};

#[test]
fn lowest_available_slot_is_chosen() {
    assert_eq!(choose_slot(0), None);
    assert_eq!(choose_slot(0b1111_1111), Some((0, 0b1111_1110)));
    assert_eq!(choose_slot(0b0101_1000), Some((3, 0b0101_0000)));
    assert_eq!(choose_slot(0b1000_0000), Some((7, 0)));
}

#[test]
fn slots_are_located_by_group() {
    assert_eq!(locate_slot(0), (0, 0b0000_0001));
    assert_eq!(locate_slot(7), (0, 0b1000_0000));
    assert_eq!(locate_slot(8), (1, 0b0000_0001));
    assert_eq!(locate_slot(29), (3, 0b0010_0000));
    assert_eq!(locate_slot(63), (7, 0b1000_0000));
}

#[test]
fn pool_has_room_for_64_items() {
    let pool: RecordPool<u32> = RecordPool::new();
    let mut seen = [false; 64];
    for item in 0..64u32 {
        let (found, index) = pool.allocate(item, &mut Trace::new()).unwrap();
        assert_eq!(*found, item);
        assert!(!seen[index as usize]);
        seen[index as usize] = true;
    }
    assert!(pool.allocate(64, &mut Trace::new()).is_none());
}

#[test]
fn returned_slot_is_given_out_again() {
    let pool: RecordPool<u32> = RecordPool::default();
    let mut traces = Vec::new();
    let mut indices = Vec::new();
    for item in 0..64u32 {
        let mut trace = Trace::new();
        indices.push(pool.allocate(item, &mut trace).unwrap().1);
        traces.push(trace);
    }
    assert!(pool.allocate(0, &mut Trace::new()).is_none());
    assert!(pool.free(indices[17], &mut traces[17]));
    let (item, index) = pool.allocate(99, &mut Trace::new()).unwrap();
    assert_eq!((*item, index), (99, indices[17]));
    assert!(pool.allocate(0, &mut Trace::new()).is_none());
}

#[test]
fn pools_do_not_share_slots() {
    let one: RecordPool<u8> = RecordPool::new();
    let other: RecordPool<u8> = RecordPool::new();
    for _ in 0..64 {
        assert!(one.allocate(1, &mut Trace::new()).is_some());
    }
    assert!(one.allocate(1, &mut Trace::new()).is_none());
    assert!(other.allocate(1, &mut Trace::new()).is_some());
}

#[test]
fn item_is_dropped_with_its_slot() {
    let pool: RecordPool<Arc<u8>> = RecordPool::new();
    let mut trace = Trace::new();
    let item = Arc::new(4u8);
    let (found, index) = pool.allocate(Arc::clone(&item), &mut trace).unwrap();
    drop(found);
    assert_eq!(Arc::strong_count(&item), 2);
    assert!(pool.free(index, &mut trace));
    assert_eq!(Arc::strong_count(&item), 1);
}

#[test]
fn slots_are_never_shared() {
    let pool: RecordPool<usize> = RecordPool::new();
    scope(|s| {
        for thread in 0..16usize {
            let pool = &pool;
            s.spawn(move |_| {
                let mut trace = Trace::new();
                for op in 0..500usize {
                    let mark = thread * 1000 + op;
                    if let Some((item, index)) = pool.allocate(mark, &mut trace) {
                        assert_eq!(*item, mark);
                        assert!(pool.free(index, &mut trace));
                    }
                }
            });
        }
    })
    .unwrap();
    for item in 0..64usize {
        assert!(pool.allocate(item, &mut Trace::new()).is_some());
    }
    assert!(pool.allocate(64, &mut Trace::new()).is_none());
}

#[test]
fn slots_of_a_group_come_out_lowest_first() {
    let pool: RecordPool<u8> = RecordPool::new();
    let mut next = [0u8; 8];
    for _ in 0..64 {
        let (_, index) = pool.allocate(0, &mut Trace::new()).unwrap();
        let group = (index / 8) as usize;
        assert_eq!(index % 8, next[group]);
        next[group] += 1;
    }
    assert_eq!(next, [8; 8]);
}

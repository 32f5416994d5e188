use std::sync::Arc;

use flat_combining::flat_combining::erased_fn::{Deferred, ErasedFn};
use flat_combining::flat_combining::idx_to_bitset;

#[test]
fn indices_share_bits_modulo_32() {
    assert_eq!(idx_to_bitset(0), 1);
    assert_eq!(idx_to_bitset(5), 32);
    assert_eq!(idx_to_bitset(31), 0x8000_0000);
    assert_eq!(idx_to_bitset(32), 1);
    assert_eq!(idx_to_bitset(63), 0x8000_0000);
    assert_eq!(idx_to_bitset(255), 0x8000_0000);
}

#[test]
fn erased_function_is_the_deferred_one() {
    let deferred = Arc::new(Deferred::new::<u32>(|v: &mut u32| *v += 5));
    let erased = ErasedFn::new(&deferred);
    assert!(!deferred.is_done::<u32>());
    let mut value = 1u32;
    assert!(erased.invoke(&mut value));
    assert_eq!(value, 6);
    assert!(deferred.is_done::<u32>());
}

#[test]
fn deferred_function_is_called_once() {
    let deferred = Arc::new(Deferred::new::<u32>(|v: &mut u32| *v *= 3));
    let first = ErasedFn::new(&deferred);
    let second = ErasedFn::new(&deferred);
    let mut value = 2u32;
    assert!(first.invoke(&mut value));
    assert!(!second.invoke(&mut value));
    assert!(!deferred.invoke(&mut value));
    assert_eq!(value, 6);
}

# flat_combining

Shared values that threads change by handing in functions.

- `Mutex` runs each function under a lock of the standard library.
- `FlatCombining` lets the thread that has its lock run the functions of the
  threads that wait for it. A thread that cannot have the lock at once puts its
  function into a list and sleeps; whoever has the lock takes the whole list,
  runs the functions, marks them as done and wakes their owners.

The library in `src/` is verified with Verus.

## What the contracts speak of

What an atomic holds is up to the other threads, so no contract says what a load
returns. Contracts speak of accesses instead. Each access to an atomic is noted,
with its cell, its arguments and its reply, in a ghost `Trace`, which holds
nothing at run time. A trace that notes an access which was not made is the trace
of no thread. What is done to the value of a mutex, to a slot and to the function
in a record is noted as well, by the functions of `flat_combining/memory/` that do
it and by nobody else, so that the order of the notes is the order of what was
done. `flat_combining/protocol.rs` says what a thread may do where it stands, and
to which cells; each function says where it takes the thread. Contracts also say
what was found in a cell that is no atomic, and what was left there.

The value of a mutex, and the functions that wait to be called, stand in the
verified reader-writer lock of `vstd`, used as a cell that lets one thread in at
a time. Loops end: a thread that has waited for the futex word `ROUNDS` times
(2^64 - 1) stops sleeping and goes straight for the cell.

A function that panics is not provided for in `src/`, and a guard is released by a
call; `app/` adds what is needed for both.

## Layout

- `src/lib.rs`: the `Mutator` trait.
- `src/mutex.rs`: `Mutex`.
- `src/flat_combining/mod.rs`: `FlatCombining`.
- `src/flat_combining/memory/`: the cells that threads share (words, masks, the
  list, slots, records, values), and traces.
- `src/flat_combining/protocol.rs`: what a thread may do.
- `src/flat_combining/mutex.rs`, `waiter.rs`, `waitv.rs`: a futex mutex, a flag
  to sleep on, and waiting for either.
- `src/flat_combining/record_pool.rs`, `erased_fn.rs`: the pool of slots, and
  functions whose type is forgotten.
- `src/flat_combining/laws/`: what any number of threads that keep to the
  protocol cannot break, however they interleave. Memory is taken to answer with
  what was written last, and the kernel to wake as it is asked.
  - `lock.rs`, `visits.rs`, `waiter.rs`, `pool.rs`, `queue.rs`, `history.rs`: the
    lock is exclusive; a guard sees what was written through earlier ones; nobody who sleeps on it is forgotten, as long as no thread waits for
    a waiter besides; a slot has one owner; a record that a thread waits for is run
    once, and before its mark; the value is what the functions, one after the
    other, made of it, in the order of time.
  - `world.rs`: what the others say of the lock, the slots, the list and the
    functions holds of the traces of threads that work on one `FlatCombining`.
    Nobody who comes back finds its record unmarked, and when all calls have
    returned, everything is as it was at first.
- `app/`: the library for everyday use, with functions that borrow or panic,
  values that are not `Sync`, and guards that release themselves.

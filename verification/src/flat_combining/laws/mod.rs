//! What holds of all threads together.
//!
//! Each file describes shared memory and any number of threads that keep to
//! the protocol, and states what no interleaving of theirs can break.  [`world`]
//! puts them together, for the traces that threads leave behind.  [`calls`] is about
//! single calls.

pub mod calls;
pub mod history;
pub mod lock;
pub mod pool;
pub mod queue;
pub mod thread;
pub mod visits;
pub mod waiter;
pub mod world;

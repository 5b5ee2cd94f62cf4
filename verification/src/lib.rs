//! A monotonic double-ended queue.
//!
//! Items enter at the back and leave at the front. Each insertion takes an
//! ordering predicate and first evicts, from the back, every item that the
//! predicate places below the newcomer, so that no item in the queue is ever
//! followed by one that outranks it. The front therefore always holds the
//! extreme item of the current window, which is what sliding-window maximum
//! and minimum scans need.

pub mod laws;
pub mod model;
pub mod queue;

pub use queue::MonotonicQueue;

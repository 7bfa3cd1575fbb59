//! Bounded key-value caches that discard one resident entry when a new key
//! arrives at a full cache. Which entry goes is the eviction rule: the
//! oldest, the newest, or the one in a drawn slot.

pub mod error;
pub mod fifo;
pub mod laws;
pub mod model;
pub mod queue;
pub mod rr;
pub mod slots;

//! A non-thread-safe, non-reference-counted bidirectional event queue for
//! 1:1 communication between two endpoints, the capability traits
//! (emitting, listening, emptiness queries) any queue variant offers, and
//! the proved laws the queue operations obey.

pub mod bidir;
pub mod error;
pub mod laws;
pub mod traits;

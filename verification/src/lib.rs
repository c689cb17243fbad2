//! Two data-exchange primitives for exactly one producer and one consumer:
//! a bounded FIFO channel ([`spsc`]) and a "latest value" exchange cell
//! ([`triple_buffer`]).
//!
//! Each primitive is a pair of handles around one shared, reference-counted
//! state. The state itself is an ordinary value whose operations are verified
//! against a mathematical model; a handle operation applies exactly one of
//! those operations to the shared state.

pub mod spsc;
pub mod sync;
pub mod triple_buffer;

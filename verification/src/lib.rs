//! Growable arrays whose growth cost is spread over a pipeline of pre-sized
//! buffers instead of being paid in one stop-the-world copy.
//!
//! - [`fvec`]: the segment, one buffer with an append cursor, whose capacity
//!   no append changes while there is room.
//! - [`avec`]: the pipelined ring of segments of doubling capacity.
//! - [`scheduler`]: the messages between a producer and the worker that
//!   refreshes the ring's stale segments.
//! - [`ahead`]: a single buffer that is grown ahead of need, in two steps.
//! - [`block_vec`]: the plain doubling buffer that the others are measured
//!   against.
//! - [`ring`]: index arithmetic on a ring whose size is a power of two.
//! - [`model`]: the ring as a state free of machine limits, its steps, and
//!   what holds of every run of them.
//! - [`laws`]: what holds of every run of pushes, over the views.
//!
//! Memory comes from `Vec`: a request that the allocator cannot satisfy
//! ends the process, as it does for any `Vec`.

pub mod ahead;
pub mod avec;
pub mod block_vec;
mod chain;
pub mod fvec;
pub mod laws;
pub mod model;
pub mod ring;
pub mod scheduler;

//! What a producer and a grow worker say to each other when the refreshing
//! of stale segments is handed to a worker.
//!
//! The producer appends and rotates; for every rotation it owes the worker
//! one `Grow` message that names the segment which became active. The worker
//! takes the messages in the order in which they were made and retires one
//! stale segment for each. A `Stop` message ends the worker.

use vstd::prelude::*;

verus! {

/// The operation a message asks of the grow worker.
#[derive(Clone, Copy, Debug, PartialEq, Eq, Structural)]
pub enum GrowOp {
    /// End the worker.
    Stop,
    /// Retire the oldest stale segment.
    Grow,
}

/// A message to the grow worker.
#[derive(Clone, Copy, Debug, PartialEq, Eq, Structural)]
pub struct GrowMessage {
    pub op: GrowOp,
    /// For `Grow`, the position of the segment that receives the values of
    /// the stale segment before it.
    pub slot: usize,
}

/// What became of a push whose growing is left to the worker.
#[derive(Debug)]
pub enum Pushed<T> {
    /// The value was appended; the active segment still has room.
    Stored,
    /// The value was appended and filled the active segment; the next
    /// segment is active now, and the message is owed to the worker.
    Rotated(GrowMessage),
    /// Nothing was done and the value comes back: appending it would fill
    /// the active segment while every other segment of the ring is stale.
    /// The worker must retire a segment first.
    Refused(T),
}

/// What the worker did with a message.
#[derive(Clone, Copy, Debug, PartialEq, Eq, Structural)]
pub enum Handled {
    /// The message was `Stop`: the worker ends.
    Stopped,
    /// The oldest stale segment was retired.
    Refreshed,
    /// The message named no segment that waits for a refresh, or not the
    /// oldest one: nothing was done.
    Ignored,
}

} // verus!

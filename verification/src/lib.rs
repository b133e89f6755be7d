//! A minimal actor runtime: addressable units of private state that process
//! one message at a time, communicate only through asynchronous message
//! passing, and hand the caller a reply handle with a guaranteed terminal
//! outcome.
//!
//! The runtime is deterministic and sequential: suspension points of a
//! concurrent implementation (waiting on an empty mailbox, waiting for
//! mailbox capacity) appear here as explicit scheduling steps, so that every
//! guarantee of the design - FIFO dispatch, bounded-mailbox backpressure,
//! exactly-one-outcome per envelope, clean shutdown - is stated as a contract
//! and proved.

pub mod handler;
pub mod mailbox;
pub mod messages;
pub mod model;
pub mod system;

//! Continuous-batching core of a text-generation inference router.
//!
//! The library models the batching scheduler as an explicit state machine
//! over plain values: backend responses, decoded text deltas and the current
//! time arrive as data, and every decision the core makes (admission, batch
//! growth, per-token bookkeeping, stopping criteria, response emission and
//! failure handling) is verified. The asynchronous plumbing that carries
//! those values (channels, RPC transport, timers) lives outside the library.

pub mod types;
pub mod bytes;
pub mod entry;
pub mod response;
pub mod stopping;
pub mod processor;
pub mod queue;
pub mod scheduler;
pub mod stream;

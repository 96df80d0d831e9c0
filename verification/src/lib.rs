//! Shared-memory request/response transport: a framed single-producer,
//! single-consumer byte queue, the call envelope codec that travels over it,
//! the calling end of a channel, and the state machine of the loop that
//! serves it.
//!
//! Calls go from the client through [`protocol`] into the request
//! [`ring_buffer`]; the serving loop, driven by [`daemon`], takes them
//! off, has them dispatched, and sends each answer back through the
//! response buffer. The queue itself is [`region`] (frames in a data
//! region, going round at its end), [`position`] (the two counters) and
//! [`queue`] (the queue as a value, with its laws); [`framing`] is the
//! length-prefixed frame that the queue and the codec share.

pub mod client;
pub mod daemon;
pub mod error;
pub mod framing;
pub mod position;
pub mod protocol;
pub mod queue;
pub mod region;
pub mod ring_buffer;
pub mod shm;
pub mod values;

pub use client::{IpcClient, DEFAULT_BUFFER_SIZE, DEFAULT_SHM_NAME};
pub use error::{AssassinateError, IpcError};
pub use ring_buffer::RingBuffer;
pub use shm::SharedMemory;

//! A growable ring buffer of bytes with a self-referential append, as used
//! for the output window of an LZ-style decompressor.
//!
//! Literal bytes are appended with [`RingBuffer::extend`]; a back-reference
//! is replayed with [`RingBuffer::extend_from_within`]; finished output is
//! read through [`RingBuffer::data_slices`] and released with
//! [`RingBuffer::drain`].
//!
//! Every operation is proved to follow the abstract state machine of
//! [`state::RingState`], whose laws are proved in [`state`] and [`history`].

#![allow(unused_imports)]

pub mod block;
pub mod error;
pub mod growth;
pub mod history;
pub mod plan;
pub mod pow2;
pub mod region;
pub mod ringbuffer;
pub mod state;

pub use crate::error::RingBufferError;
pub use crate::ringbuffer::RingBuffer;

//! Client-side diagnostic logging in the style of the automotive DLT wire
//! protocol: a byte-exact frame codec, bounded rings with three overflow
//! disciplines, per-ring batching workers and a stream reassembler, each
//! with a machine-checked contract.
//!
//! The library is sequential: whoever calls into a ring, a worker or the
//! facade holds it exclusively for the call. Threads, sockets, the
//! environment and the process-wide instance belong to the program around it.

pub mod bytes;
pub mod client;
pub mod clock;
pub mod config;
pub mod envelope;
pub mod lockless;
pub mod protocol;
pub mod ring;
pub mod text;
pub mod transport;
pub mod types;
pub mod user;
pub mod worker;

pub use client::{parse_message_text, render_message, take_frames, CivilTime, DltClient};
pub use config::BufferConfig;
pub use envelope::{DltLogLevel, LogEnvelope};
pub use lockless::LocklessBuffer;
pub use protocol::{
    DecodeError, DltExtendedHeader, DltMessage, DltStandardHeader, DltStorageHeader,
};
pub use ring::{BufferStats, EmitError, OverflowMode, RingBuffer};
pub use transport::{Transport, TransportError, TransportListener};
pub use types::{AppId, ContextId, EcuId, LogLevel, MessageType};
pub use user::{
    dlt_buffer_stats_lines, dlt_disable_local_print, dlt_enable_local_print, dlt_get_buffer_stats,
    dlt_get_local_print, dlt_get_num_buffers, dlt_get_overflow_count, dlt_get_overflow_mode,
    dlt_set_overflow_mode, DltContext, DltUserState,
};
pub use worker::{Batch, CycleOutcome, CyclePlan, CycleReport, Worker};

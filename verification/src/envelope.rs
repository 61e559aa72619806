//! What travels through a ring: a frame with its routing data.

use crate::protocol::{DltMessage, DltMessageView};
use crate::types::{AppId, ContextId};
use vstd::prelude::*;

verus! {

/// Log levels of the producer API, most severe first.
#[derive(Debug, Clone, Copy, PartialEq, Eq)]
pub enum DltLogLevel {
    Fatal,
    Error,
    Warn,
    Info,
    Debug,
    Verbose,
}

/// The number that stands for a level in routing: 1 for `Fatal` up to 6 for
/// `Verbose`.
pub open spec fn dlt_level_number(level: DltLogLevel) -> nat {
    match level {
        DltLogLevel::Fatal => 1,
        DltLogLevel::Error => 2,
        DltLogLevel::Warn => 3,
        DltLogLevel::Info => 4,
        DltLogLevel::Debug => 5,
        DltLogLevel::Verbose => 6,
    }
}

impl DltLogLevel {
    /// The level's number, 1 to 6.
    pub fn as_u8(&self) -> (n: u8)
        ensures
            n == dlt_level_number(*self),
    {
        match self {
            DltLogLevel::Fatal => 1,
            DltLogLevel::Error => 2,
            DltLogLevel::Warn => 3,
            DltLogLevel::Info => 4,
            DltLogLevel::Debug => 5,
            DltLogLevel::Verbose => 6,
        }
    }
}

/// A frame on its way to the collector, with the level it was logged at, the
/// ring it was routed to, the ids of its origin and the local-print flag.
#[derive(Debug, Clone)]
pub struct LogEnvelope {
    pub message: DltMessage,
    pub level: DltLogLevel,
    pub buffer_id: usize,
    pub local_print: bool,
    pub app_id: AppId,
    pub ctx_id: ContextId,
}

/// An envelope as a mathematical value.
pub struct LogEnvelopeView {
    pub message: DltMessageView,
    pub level: DltLogLevel,
    pub buffer_id: usize,
    pub local_print: bool,
    pub app_id: AppId,
    pub ctx_id: ContextId,
}

impl View for LogEnvelope {
    type V = LogEnvelopeView;

    open spec fn view(&self) -> LogEnvelopeView {
        LogEnvelopeView {
            message: self.message@,
            level: self.level,
            buffer_id: self.buffer_id,
            local_print: self.local_print,
            app_id: self.app_id,
            ctx_id: self.ctx_id,
        }
    }
}

/// The views of a sequence of envelopes, in order.
pub open spec fn envelope_views(envelopes: Seq<LogEnvelope>) -> Seq<LogEnvelopeView> {
    Seq::new(envelopes.len(), |i: int| envelopes[i]@)
}

} // verus!

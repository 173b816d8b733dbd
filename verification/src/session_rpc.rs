//! The records of the read-only session service.
use vstd::prelude::*;
use crate::protocol::{ErrorEnvelope, SequencedEvent, SessionId};

verus! {

/// A request for a page of a session's turns. The cursor is the index of a turn.
#[derive(Debug, PartialEq, Eq, Clone)]
pub struct SessionTimelineQuery {
    pub session_id: SessionId,
    pub connection_generation: Option<u64>,
    pub cursor: Option<u64>,
    pub limit: u32,
}

/// Where a turn stands.
#[derive(Debug, Clone, Copy, PartialEq, Eq, Structural)]
pub enum SessionTurnStatus {
    Completed,
    Aborted,
    Active,
}

/// One turn, as the service shows it.
#[derive(Debug, PartialEq, Eq, Clone, Copy)]
pub struct SessionTurnSummary {
    pub turn_id: u64,
    pub start_seq: u64,
    pub end_seq: Option<u64>,
    pub status: SessionTurnStatus,
}

/// A page of turns.
#[derive(Debug, PartialEq, Eq, Clone)]
pub struct SessionTimelinePage {
    pub session_id: SessionId,
    pub connection_generation: u64,
    pub turns: Vec<SessionTurnSummary>,
    pub next_cursor: Option<u64>,
}

/// A request for the events after `last_seq`, the last one that the client has.
#[derive(Debug, PartialEq, Eq, Clone)]
pub struct SessionEventQuery {
    pub session_id: SessionId,
    pub connection_generation: Option<u64>,
    pub last_seq: Option<u64>,
}

/// One event of the stream.
#[derive(Debug, PartialEq, Eq, Clone)]
pub struct SessionEventFrame {
    pub session_id: SessionId,
    pub connection_generation: u64,
    pub record: SequencedEvent,
}

/// What the service offers; clients send the generation back.
#[derive(Debug, PartialEq, Eq, Clone, Copy)]
pub struct SessionRpcCapabilities {
    pub connection_generation: u64,
    pub read_only: bool,
    pub timeline: bool,
    pub event_stream: bool,
    pub last_event_id: bool,
    pub follow_before_page: bool,
    pub retry_business_errors: bool,
}

/// The body of every failed request.
#[derive(Debug, PartialEq, Eq, Clone)]
pub struct RpcErrorResponse {
    pub error: ErrorEnvelope,
    pub retryable: bool,
}

} // verus!

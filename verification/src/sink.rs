//! Error surface of the per-operator sink runtime. The operator runtime
//! itself is an external collaborator; only its error shapes belong to the
//! core, so that task results can be reported through the coordinator.

use vstd::prelude::*;

verus! {

/// Why a sink rejected or lost a message.
#[derive(Clone, Copy, Debug, PartialEq, Eq, Structural)]
pub enum ErrorKind {
    InvalidMessageType,
    MessageSendFailed,
    KafkaMessageSendFailed,
    SqlExecutionFailed,
    RemoteSinkFailed,
}

/// A sink failure, with a human-readable message.
#[derive(Clone, Debug)]
pub struct SinkException {
    pub kind: ErrorKind,
    pub msg: String,
}

impl SinkException {
    /// The error reported when a sink is handed a message of a type it
    /// does not accept.
    pub fn invalid_message_type() -> (r: SinkException)
        ensures
            r.kind == ErrorKind::InvalidMessageType,
            r.msg@ == "invalid message type"@,
    {
        SinkException { kind: ErrorKind::InvalidMessageType, msg: "invalid message type".to_owned() }
    }

    /// The error reported when a message could not be handed to the sink's
    /// channel.
    pub fn message_send_failed(detail: String) -> (r: SinkException)
        ensures
            r.kind == ErrorKind::MessageSendFailed,
            r.msg@ == detail@,
    {
        SinkException { kind: ErrorKind::MessageSendFailed, msg: detail }
    }
}

/// A task run that failed; the runtime carries no further detail.
#[derive(Clone, Copy, Debug, PartialEq, Eq, Structural)]
pub struct RunnableTaskError {}

} // verus!

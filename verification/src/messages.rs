use vstd::prelude::*;

verus! {

/// What a client asks of the daemon.
#[derive(Debug, PartialEq)]
pub enum ClientRequest {
    Ping,
    Start(String),
    Remaining,
    Halt,
}

/// What the daemon answers.
#[derive(Debug, Clone, Copy, PartialEq, Eq, Structural)]
pub enum ServerResponse {
    Pong,
    Remaining(u64),
    Failed,
    Halting,
    Starting,
    AlreadyStarted,
}

} // verus!

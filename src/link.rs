//! The connection to the feed as a state machine: the caller performs each
//! action and reports what came of it as the next event.
use vstd::prelude::*;

verus! {

/// Milliseconds to wait before connecting again after a failure.
pub const RETRY_DELAY_MS: u64 = 1000;

#[derive(Clone, Copy, Debug, PartialEq, Eq, Structural)]
pub enum LinkState {
    Disconnected,
    Connecting,
    Streaming,
}

#[derive(Clone, Copy, Debug, PartialEq, Eq, Structural)]
pub enum LinkEvent {
    /// The caller starts, or a wait has ended.
    Ready,
    /// The connection attempt failed.
    ConnectFailed,
    /// The connection was established.
    Connected,
    /// A complete line was read, and has been applied to the registry.
    LineReceived,
    /// The peer closed the stream, or reading failed.
    StreamEnded,
}

#[derive(Clone, Copy, Debug, PartialEq, Eq, Structural)]
pub enum LinkAction {
    /// Open a connection to the feed.
    Connect,
    /// Wait this many milliseconds, then report `Ready`.
    Wait(u64),
    /// Read the next line and apply it to the registry.
    ReadLine,
}

/// The state and action that follow `event` in `state`. A failure of any
/// kind leads back to `Disconnected` through a fixed wait; nothing ever ends
/// the cycle.
pub fn next_step(state: LinkState, event: LinkEvent) -> (r: (LinkState, LinkAction))
    ensures
        state == LinkState::Disconnected ==> r == (LinkState::Connecting, LinkAction::Connect),
        state == LinkState::Connecting && event == LinkEvent::Connected ==> r == (
            LinkState::Streaming,
            LinkAction::ReadLine,
        ),
        state == LinkState::Connecting && event != LinkEvent::Connected ==> r == (
            LinkState::Disconnected,
            LinkAction::Wait(RETRY_DELAY_MS),
        ),
        state == LinkState::Streaming && event == LinkEvent::LineReceived ==> r == (
            LinkState::Streaming,
            LinkAction::ReadLine,
        ),
        state == LinkState::Streaming && event != LinkEvent::LineReceived ==> r == (
            LinkState::Disconnected,
            LinkAction::Wait(RETRY_DELAY_MS),
        ),
{
    match state {
        LinkState::Disconnected => (LinkState::Connecting, LinkAction::Connect),
        LinkState::Connecting => match event {
            LinkEvent::Connected => (LinkState::Streaming, LinkAction::ReadLine),
            _ => (LinkState::Disconnected, LinkAction::Wait(RETRY_DELAY_MS)),
        },
        LinkState::Streaming => match event {
            LinkEvent::LineReceived => (LinkState::Streaming, LinkAction::ReadLine),
            _ => (LinkState::Disconnected, LinkAction::Wait(RETRY_DELAY_MS)),
        },
    }
}

} // verus!

//! The decisions of the task that keeps the station connected to its access
//! point: what to do next after each thing that happens on the link.
use vstd::prelude::*;

verus! {

/// How long the task waits before it tries again after a failed connection,
/// in milliseconds.
pub const RECONNECT_DELAY_MS: u64 = 5000;

/// What happened on the link.
#[derive(Debug, Clone, Copy, PartialEq, Eq)]
pub enum LinkEvent {
    /// The task starts.
    Started,
    /// A connection attempt succeeded.
    Connected,
    /// A connection attempt failed.
    ConnectFailed,
    /// The station was disconnected from the access point.
    StationDisconnected,
    /// Waiting for a disconnection failed.
    DisconnectWaitFailed,
    /// An access-point event arrived, or waiting for one failed.
    AccessPointEvent,
    /// The wait after a failed connection is over.
    DelayElapsed,
}

/// What the task does next.
#[derive(Debug, Clone, Copy, PartialEq, Eq)]
pub enum LinkAction {
    /// Try to connect.
    Connect,
    /// Wait for the next disconnection or access-point event.
    WaitForEvents,
    /// Wait this many milliseconds, then report `DelayElapsed`.
    Delay(u64),
}

/// The action that follows `event`.
pub open spec fn link_action(event: LinkEvent) -> LinkAction {
    match event {
        LinkEvent::Started => LinkAction::Connect,
        LinkEvent::Connected => LinkAction::WaitForEvents,
        LinkEvent::ConnectFailed => LinkAction::Delay(RECONNECT_DELAY_MS),
        LinkEvent::StationDisconnected => LinkAction::Connect,
        LinkEvent::DisconnectWaitFailed => LinkAction::WaitForEvents,
        LinkEvent::AccessPointEvent => LinkAction::WaitForEvents,
        LinkEvent::DelayElapsed => LinkAction::Connect,
    }
}

/// What the connection task does after `event`: it connects at the start,
/// after a disconnection and after the delay that follows a failed attempt;
/// it waits for events while connected, whatever they are.
pub fn next_link_action(event: LinkEvent) -> (action: LinkAction)
    ensures
        action == link_action(event),
{
    match event {
        LinkEvent::Started => LinkAction::Connect,
        LinkEvent::Connected => LinkAction::WaitForEvents,
        LinkEvent::ConnectFailed => LinkAction::Delay(RECONNECT_DELAY_MS),
        LinkEvent::StationDisconnected => LinkAction::Connect,
        LinkEvent::DisconnectWaitFailed => LinkAction::WaitForEvents,
        LinkEvent::AccessPointEvent => LinkAction::WaitForEvents,
        LinkEvent::DelayElapsed => LinkAction::Connect,
    }
}

} // verus!

//! The Wi-Fi connection loop of the Pico W as a state machine: the caller
//! performs each action (join, wait, query, leave) and reports what happened.

use vstd::prelude::*;

verus! {

/// Pause before joining again after a failed join, in milliseconds.
pub const JOIN_RETRY_MS: u32 = 200;

/// Pause between two DNS checks while online, in milliseconds.
pub const QUERY_INTERVAL_MS: u32 = 10000;

/// Where the connection loop stands.
#[derive(Clone, Copy, Debug, PartialEq, Eq)]
pub enum WifiState {
    /// At the top of the loop.
    Start,
    /// A join is under way.
    Joining,
    /// Waiting for the link to come up.
    WaitingLink,
    /// Waiting for the network configuration.
    WaitingConfig,
    /// Connected, checking the connection periodically.
    Online,
}

/// What the caller reports.
#[derive(Clone, Copy, Debug, PartialEq, Eq)]
pub enum WifiEvent {
    /// The previous action is done (a leave, a pause, a query).
    Done,
    /// The join succeeded.
    Joined,
    /// The join failed.
    JoinFailed,
    /// The link is up.
    LinkUp,
    /// The network configuration is up.
    ConfigUp,
    /// Whether link and configuration are still up.
    Status { link_up: bool, config_up: bool },
}

/// What the caller is to do next.
#[derive(Clone, Copy, Debug, PartialEq, Eq)]
pub enum WifiAction {
    /// Join the configured network.
    Join,
    /// Pause for the given milliseconds, then join again.
    RetryJoin { after_ms: u32 },
    /// Wait for the link to come up.
    WaitLinkUp,
    /// Wait for the network configuration.
    WaitConfigUp,
    /// Report whether link and configuration are still up.
    CheckStatus,
    /// Send a DNS query, then pause for the given milliseconds.
    Query { then_wait_ms: u32 },
    /// Leave the network.
    Leave,
    /// Nothing to do for this event in this state.
    Ignore,
}

/// One step of the connection loop: joining happens only with credentials,
/// a failed join is retried after a pause, and once link and configuration
/// are up the connection is checked with a DNS query every interval until
/// either goes down, when the network is left and the loop starts over.
pub open spec fn spec_wifi_step(state: WifiState, event: WifiEvent, has_credentials: bool) -> (WifiState, WifiAction) {
    match (state, event) {
        (WifiState::Start, _) => if has_credentials {
            (WifiState::Joining, WifiAction::Join)
        } else {
            (WifiState::WaitingLink, WifiAction::WaitLinkUp)
        },
        (WifiState::Joining, WifiEvent::JoinFailed) => (
            WifiState::Joining,
            WifiAction::RetryJoin { after_ms: JOIN_RETRY_MS },
        ),
        (WifiState::Joining, WifiEvent::Joined) => (WifiState::WaitingLink, WifiAction::WaitLinkUp),
        (WifiState::WaitingLink, WifiEvent::LinkUp) => (WifiState::WaitingConfig, WifiAction::WaitConfigUp),
        (WifiState::WaitingConfig, WifiEvent::ConfigUp) => (WifiState::Online, WifiAction::CheckStatus),
        (WifiState::Online, WifiEvent::Status { link_up, config_up }) => if link_up && config_up {
            (WifiState::Online, WifiAction::Query { then_wait_ms: QUERY_INTERVAL_MS })
        } else {
            (WifiState::Start, WifiAction::Leave)
        },
        (WifiState::Online, WifiEvent::Done) => (WifiState::Online, WifiAction::CheckStatus),
        _ => (state, WifiAction::Ignore),
    }
}

/// One step of the connection loop.
pub fn wifi_step(state: WifiState, event: WifiEvent, has_credentials: bool) -> (r: (WifiState, WifiAction))
    ensures
        r == spec_wifi_step(state, event, has_credentials),
{
    match (state, event) {
        (WifiState::Start, _) => {
            if has_credentials {
                (WifiState::Joining, WifiAction::Join)
            } else {
                (WifiState::WaitingLink, WifiAction::WaitLinkUp)
            }
        },
        (WifiState::Joining, WifiEvent::JoinFailed) => (
            WifiState::Joining,
            WifiAction::RetryJoin { after_ms: JOIN_RETRY_MS },
        ),
        (WifiState::Joining, WifiEvent::Joined) => (WifiState::WaitingLink, WifiAction::WaitLinkUp),
        (WifiState::WaitingLink, WifiEvent::LinkUp) => (WifiState::WaitingConfig, WifiAction::WaitConfigUp),
        (WifiState::WaitingConfig, WifiEvent::ConfigUp) => (WifiState::Online, WifiAction::CheckStatus),
        (WifiState::Online, WifiEvent::Status { link_up, config_up }) => {
            if link_up && config_up {
                (WifiState::Online, WifiAction::Query { then_wait_ms: QUERY_INTERVAL_MS })
            } else {
                (WifiState::Start, WifiAction::Leave)
            }
        },
        (WifiState::Online, WifiEvent::Done) => (WifiState::Online, WifiAction::CheckStatus),
        _ => (state, WifiAction::Ignore),
    }
}

} // verus!

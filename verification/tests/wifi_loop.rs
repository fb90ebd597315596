use embassy_boards::wifi::{wifi_step, WifiAction, WifiEvent, WifiState, JOIN_RETRY_MS, QUERY_INTERVAL_MS};

#[test]
fn connection_loop_with_credentials() {
    let (s, a) = wifi_step(WifiState::Start, WifiEvent::Done, true);
    assert_eq!((s, a), (WifiState::Joining, WifiAction::Join));
    let (s, a) = wifi_step(s, WifiEvent::JoinFailed, true);
    assert_eq!((s, a), (WifiState::Joining, WifiAction::RetryJoin { after_ms: JOIN_RETRY_MS }));
    let (s, a) = wifi_step(s, WifiEvent::Joined, true);
    assert_eq!((s, a), (WifiState::WaitingLink, WifiAction::WaitLinkUp));
    let (s, a) = wifi_step(s, WifiEvent::LinkUp, true);
    assert_eq!((s, a), (WifiState::WaitingConfig, WifiAction::WaitConfigUp));
    let (s, a) = wifi_step(s, WifiEvent::ConfigUp, true);
    assert_eq!((s, a), (WifiState::Online, WifiAction::CheckStatus));
    let (s, a) = wifi_step(s, WifiEvent::Status { link_up: true, config_up: true }, true);
    assert_eq!((s, a), (WifiState::Online, WifiAction::Query { then_wait_ms: QUERY_INTERVAL_MS }));
    let (s, a) = wifi_step(s, WifiEvent::Done, true);
    assert_eq!((s, a), (WifiState::Online, WifiAction::CheckStatus));
    let (s, a) = wifi_step(s, WifiEvent::Status { link_up: true, config_up: false }, true);
    assert_eq!((s, a), (WifiState::Start, WifiAction::Leave));
}

#[test]
fn connection_loop_without_credentials() {
    let (s, a) = wifi_step(WifiState::Start, WifiEvent::Done, false);
    assert_eq!((s, a), (WifiState::WaitingLink, WifiAction::WaitLinkUp));
    let (s2, a2) = wifi_step(s, WifiEvent::ConfigUp, false);
    assert_eq!((s2, a2), (WifiState::WaitingLink, WifiAction::Ignore));
    assert_eq!(QUERY_INTERVAL_MS, 10000);
    assert_eq!(JOIN_RETRY_MS, 200);
}

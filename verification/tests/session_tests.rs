use serial_bridge::session::step;
use serial_bridge::session::SessionEvent;
use serial_bridge::session::SessionState;

#[test]
fn happy_path_reaches_active_then_closes() {
    let s = SessionState::Connecting;
    let s = step(s, SessionEvent::UpgradeOk);
    assert_eq!(s, SessionState::Upgraded);
    let s = step(s, SessionEvent::Registered);
    assert_eq!(s, SessionState::Active);
    let s = step(s, SessionEvent::ReceiveClosed);
    assert_eq!(s, SessionState::Closed);
}

#[test]
fn failed_handshake_closes() {
    assert_eq!(
        step(SessionState::Connecting, SessionEvent::UpgradeFailed),
        SessionState::Closed
    );
}

#[test]
fn active_ends_on_any_failure() {
    for e in [
        SessionEvent::ReceiveClosed,
        SessionEvent::ReceiveFailed,
        SessionEvent::SendFailed,
    ] {
        assert_eq!(step(SessionState::Active, e), SessionState::Closed);
    }
}

#[test]
fn closed_is_terminal_under_every_event() {
    for e in [
        SessionEvent::UpgradeOk,
        SessionEvent::UpgradeFailed,
        SessionEvent::Registered,
        SessionEvent::ReceiveClosed,
        SessionEvent::ReceiveFailed,
        SessionEvent::SendFailed,
    ] {
        assert_eq!(step(SessionState::Closed, e), SessionState::Closed);
    }
}

#[test]
fn registration_is_the_only_way_to_active() {
    let all_states = [
        SessionState::Connecting,
        SessionState::Upgraded,
        SessionState::Active,
        SessionState::Closed,
    ];
    let all_events = [
        SessionEvent::UpgradeOk,
        SessionEvent::UpgradeFailed,
        SessionEvent::Registered,
        SessionEvent::ReceiveClosed,
        SessionEvent::ReceiveFailed,
        SessionEvent::SendFailed,
    ];
    for s in all_states {
        for e in all_events {
            if step(s, e) == SessionState::Active {
                assert!(s == SessionState::Upgraded || s == SessionState::Active);
            }
        }
    }
}

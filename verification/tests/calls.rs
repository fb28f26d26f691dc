use pptalk::calls::{call_duration_ms, CallError, CallPeer, Calls};
use pptalk::ids::{CallId, DeviceId, IdentityId};

fn call(n: u8) -> CallId {
    CallId::from_bytes([n; 32])
}

fn peer(n: u8) -> CallPeer {
    CallPeer {
        identity_id: IdentityId::from_bytes([n; 32]),
        device_id: DeviceId::from_bytes([n; 32]),
        endpoint_id: format!("endpoint-{n}"),
    }
}

#[test]
fn a_second_call_needs_the_first_on_hold() {
    let mut calls = Calls::new();
    calls.start(call(1), "Bob".into(), vec![peer(2)], 100, true, 5).expect("start");
    assert!(calls.active.as_ref().expect("active").connected_at_ms.is_none());
    assert_eq!(calls.start(call(2), "Carol".into(), vec![peer(3)], 101, false, 6), Err(CallError::CallActive));
    // Joining another call holds the active one.
    assert_eq!(calls.join(call(3), "Dave".into(), vec![peer(4)], 102, 7), Ok(Some(call(1))));
    assert_eq!(calls.held.as_ref().expect("held").id, call(1));
    assert_eq!(calls.join(call(4), "Eve".into(), vec![peer(5)], 103, 8), Err(CallError::AlreadyHolding));
    // Leaving the active call resumes the held one.
    let (ended, resumed) = calls.leave(call(3));
    assert_eq!(ended.expect("ended").id, call(3));
    assert_eq!(resumed, Some(call(1)));
    assert_eq!(calls.active.as_ref().expect("active").id, call(1));
    assert!(calls.held.is_none());
}

#[test]
fn holding_and_resuming_a_call() {
    let mut calls = Calls::new();
    calls.start(call(1), "Bob".into(), vec![peer(2)], 100, false, 5).expect("start");
    assert_eq!(calls.hold(call(9)), Err(CallError::ActiveNotFound));
    calls.hold(call(1)).expect("hold");
    assert!(calls.active.is_none());
    assert!(!calls.plays_media_of(call(1)));
    calls.resume(call(1)).expect("resume");
    assert!(calls.plays_media_of(call(1)));
    assert_eq!(calls.resume(call(1)), Err(CallError::CallActive));
    calls.hold(call(1)).expect("hold");
    // Asking for another call gives up the held one.
    assert_eq!(calls.resume(call(2)), Err(CallError::HeldNotFound));
    assert!(calls.held.is_none());
}

#[test]
fn peers_connect_leave_and_reject_calls() {
    let mut calls = Calls::new();
    calls.start(call(1), "Team".into(), vec![peer(2), peer(3)], 100, true, 5).expect("start");
    assert!(!calls.peer_joined(call(9), 10));
    assert!(calls.peer_joined(call(1), 10));
    assert!(calls.peer_joined(call(1), 20));
    let active = calls.active.as_ref().expect("active");
    assert_eq!(active.connected_at_ms, Some(10));
    assert_eq!(call_duration_ms(active, 1_010), 1_000);
    assert_eq!(call_duration_ms(active, 3), 0);
    assert!(!calls.peer_left(call(1), "endpoint-2"));
    assert_eq!(calls.active.as_ref().expect("active").recipients.len(), 1);
    assert!(calls.check_participant(call(1), DeviceId::from_bytes([3; 32])).is_ok());
    assert_eq!(calls.check_participant(call(1), DeviceId::from_bytes([2; 32])), Err(CallError::ParticipantNotFound));
    assert!(calls.media_recipients(call(1), "team").is_ok());
    assert_eq!(calls.media_recipients(call(1), "Other").err(), Some(CallError::NotInCall));
    assert!(calls.peer_left(call(1), "endpoint-3"));
    assert!(calls.active.is_none());

    calls.start(call(5), "Bob".into(), vec![peer(2)], 200, true, 30).expect("start");
    assert!(calls.peer_rejected(call(6)).is_none());
    assert_eq!(calls.peer_rejected(call(5)).expect("ended").label, "Bob");
    assert!(calls.active.is_none());
}

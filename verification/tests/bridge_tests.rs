use serial_bridge::bridge::Bridge;
use serial_bridge::bridge::ForwardAction;
use serial_bridge::bridge::RecvOutcome;

#[test]
fn broadcast_reaches_every_client_in_order() {
    let mut b = Bridge::new();
    let id1 = b.connect();
    let id2 = b.connect();
    let id3 = b.connect();

    b.emit_from_device(&vec![b'a', b'b']);
    let n = b.poll_once(128);
    assert_eq!(n, 2);
    b.emit_from_device(&vec![b'c', b'd']);
    let n = b.poll_once(128);
    assert_eq!(n, 2);

    for id in [id1, id2, id3] {
        let got = b.delivered_to(id).unwrap();
        assert_eq!(got, vec![b'a', b'b', b'c', b'd']);
    }
}

#[test]
fn failed_sink_present_before_absent_after() {
    let mut b = Bridge::new();
    let id1 = b.connect();
    let id2 = b.connect();
    b.fail_client(id1);

    assert!(b.is_connected(id1));
    assert!(b.is_connected(id2));
    assert_eq!(b.client_count(), 2);

    b.emit_from_device(&vec![b'x']);
    b.poll_once(16);

    assert!(!b.is_connected(id1));
    assert!(b.is_connected(id2));
    assert_eq!(b.client_count(), 1);
    assert_eq!(b.delivered_to(id2).unwrap(), vec![b'x']);
    assert!(b.delivered_to(id1).is_none());
}

#[test]
fn ready_then_ok_scenario() {
    // the channel emits "ready\n" once; two clients receive it; client 1
    // drops; "ok\n" reaches only client 2 and the registry shrinks to 1
    let mut b = Bridge::new();
    let id1 = b.connect();
    let id2 = b.connect();

    let ready: Vec<u8> = b"ready\n".to_vec();
    b.emit_from_device(&ready);
    let n = b.poll_once(128);
    assert_eq!(n, 6);
    assert_eq!(b.delivered_to(id1).unwrap(), ready);
    assert_eq!(b.delivered_to(id2).unwrap(), ready);

    b.fail_client(id1);
    let ok: Vec<u8> = b"ok\n".to_vec();
    b.emit_from_device(&ok);
    b.poll_once(128);

    assert_eq!(b.client_count(), 1);
    assert!(b.delivered_to(id1).is_none());
    let mut expect = ready.clone();
    expect.extend_from_slice(&ok);
    assert_eq!(b.delivered_to(id2).unwrap(), expect);
}

#[test]
fn client_ping_reaches_wire_exactly() {
    // one client sends "ping"; the write log holds exactly "ping", whole,
    // with no extra bytes and no truncation
    let mut b = Bridge::new();
    let _id = b.connect();

    let ping: Vec<u8> = b"ping".to_vec();
    assert!(b.forward_inbound(&ping));

    assert_eq!(b.write_count(), 1);
    assert_eq!(b.write_record(0), ping);
    assert_eq!(b.wire_bytes(), ping);
}

#[test]
fn quiet_channel_changes_no_client() {
    let mut b = Bridge::new();
    let id1 = b.connect();
    b.fail_client(id1);
    let n = b.poll_once(64);
    assert_eq!(n, 0);
    // no broadcast happened, so even the failing client is still there
    assert!(b.is_connected(id1));
    assert_eq!(b.delivered_to(id1).unwrap(), Vec::<u8>::new());
}

#[test]
fn poll_respects_max_len_and_consumes() {
    let mut b = Bridge::new();
    let id = b.connect();
    b.emit_from_device(&vec![1, 2, 3, 4, 5]);
    assert_eq!(b.poll_once(2), 2);
    assert_eq!(b.poll_once(2), 2);
    assert_eq!(b.poll_once(2), 1);
    assert_eq!(b.poll_once(2), 0);
    assert_eq!(b.delivered_to(id).unwrap(), vec![1, 2, 3, 4, 5]);
}

#[test]
fn connection_ids_fresh_after_removal() {
    // ids are never reused, even after the holder is gone
    let mut b = Bridge::new();
    let id1 = b.connect();
    b.fail_client(id1);
    b.emit_from_device(&vec![0]);
    b.poll_once(8);
    assert_eq!(b.client_count(), 0);
    let id2 = b.connect();
    assert!(id2 > id1);
    assert_eq!(b.connected_ids(), vec![id2]);
}

#[test]
fn outbound_and_inbound_paths_stay_apart() {
    // broadcast bytes never leak onto the wire, and a client's inbound
    // bytes never show up in any client's delivered stream
    let mut b = Bridge::new();
    let id = b.connect();

    b.emit_from_device(&b"out1".to_vec());
    b.poll_once(64);
    b.forward_inbound(&b"in1".to_vec());
    b.emit_from_device(&b"out2".to_vec());
    b.poll_once(64);
    b.forward_inbound(&b"in2".to_vec());

    assert_eq!(b.delivered_to(id).unwrap(), b"out1out2".to_vec());
    assert_eq!(b.wire_bytes(), b"in1in2".to_vec());
    assert_eq!(b.write_count(), 2);
}

#[test]
fn forward_decision_forwards_data_and_stops_on_close() {
    match serial_bridge::bridge::forward_decision(RecvOutcome::Data(b"abc".to_vec())) {
        ForwardAction::WriteAndContinue(bytes) => assert_eq!(bytes, b"abc".to_vec()),
        ForwardAction::Stop => panic!("data must be forwarded"),
    }
    assert!(matches!(
        serial_bridge::bridge::forward_decision(RecvOutcome::PeerClosed),
        ForwardAction::Stop
    ));
    assert!(matches!(
        serial_bridge::bridge::forward_decision(RecvOutcome::RecvFailed),
        ForwardAction::Stop
    ));
}

use webrtc_unreliable_core::{
    datagram_len_ok, BufferPool, IncomingSession, MessageType, PacketDispatch, RemoteAddr,
    SendError, Server, StunUser, MAX_MESSAGE_LEN, MAX_UDP_PAYLOAD_SIZE,
};

fn mk_server(now: u64) -> (Server, flume::Receiver<IncomingSession>) {
    let (tx, rx) = flume::bounded(8);
    let s = Server::new(
        "1.2.3.4".to_string(),
        false,
        5000,
        "AA:BB:CC".to_string(),
        tx,
        now,
    );
    (s, rx)
}

fn peer(port: u16) -> RemoteAddr {
    RemoteAddr::new("9.9.9.9".to_string(), port, false)
}

fn session(user: &str, passwd: &str, remote: &str) -> IncomingSession {
    IncomingSession {
        server_user: user.to_string(),
        server_passwd: passwd.to_string(),
        remote_user: remote.to_string(),
    }
}

fn stun(user: &str, remote: &str) -> StunUser {
    StunUser {
        server_user: user.to_string(),
        remote_user: remote.to_string(),
    }
}

fn handshake(s: &mut Server, addr: &RemoteAddr, now: u64) {
    s.accept_session(session("srv", "secret", "abc"), now);
    let d = s.receive_packet(addr, Some(&stun("srv", "abc")), now);
    assert!(matches!(d, PacketDispatch::RespondStun(_)));
    assert!(s.enqueue_stun_success(addr, vec![0x01, 0x01], now));
    let _ = s.take_outgoing_udp();
}

#[test]
fn matched_stun_yields_response_and_client_slot() {
    let (mut s, _rx) = mk_server(0);
    s.accept_session(session("srv", "secret", "abc"), 0);
    let addr = peer(40000);
    let d = s.receive_packet(&addr, Some(&stun("srv", "abc")), 1);
    match d {
        PacketDispatch::RespondStun(pw) => assert_eq!(pw, "secret"),
        _ => panic!("expected a STUN response directive"),
    }
    assert!(s.enqueue_stun_success(&addr, vec![1, 2, 3], 1));
    let out = s.take_outgoing_udp();
    assert_eq!(out.len(), 1);
    assert_eq!(out[0].payload, vec![1, 2, 3]);
    assert_eq!(out[0].remote_addr.ip, "9.9.9.9");
    assert_eq!(out[0].remote_addr.port, 40000);
    assert_eq!(s.active_clients(), 1);
    // The slot starts out not yet established.
    assert!(!s.is_connected(&addr));
    s.client_transport_established(&addr);
    assert!(s.is_connected(&addr));
}

#[test]
fn unknown_stun_username_changes_nothing() {
    let (mut s, _rx) = mk_server(0);
    s.accept_session(session("srv", "secret", "abc"), 0);
    let addr = peer(40000);
    let d = s.receive_packet(&addr, Some(&stun("bogus", "abc")), 1);
    assert!(matches!(d, PacketDispatch::Discard));
    // No response was authorized, so no client slot can appear.
    assert!(!s.enqueue_stun_success(&addr, vec![1], 1));
    assert_eq!(s.active_clients(), 0);
    assert!(s.take_outgoing_udp().is_empty());
}

#[test]
fn unmatched_stun_does_not_refresh_the_session_ttl() {
    let (mut s, _rx) = mk_server(0);
    s.accept_session(session("srv", "secret", "abc"), 0);
    // A mismatched binding request at 29 s must not refresh the TTL ...
    let addr = peer(40000);
    let _ = s.receive_packet(&addr, Some(&stun("bogus", "abc")), 29_000);
    // ... so the session still expires at the 31 s cleanup.
    let events = s.timeout_clients(31_000);
    assert!(events.is_empty());
    let d = s.receive_packet(&addr, Some(&stun("srv", "abc")), 31_001);
    assert!(matches!(d, PacketDispatch::Discard));
}

#[test]
fn session_expires_after_thirty_seconds() {
    let (mut s, _rx) = mk_server(0);
    s.accept_session(session("srv", "secret", "abc"), 0);
    let events = s.timeout_clients(31_000);
    assert!(events.is_empty());
    let addr = peer(40000);
    let d = s.receive_packet(&addr, Some(&stun("srv", "abc")), 31_001);
    assert!(matches!(d, PacketDispatch::Discard));
    assert_eq!(s.active_clients(), 0);
}

#[test]
fn matched_stun_refreshes_the_session_ttl() {
    let (mut s, _rx) = mk_server(0);
    s.accept_session(session("srv", "secret", "abc"), 0);
    let addr = peer(40000);
    // A matched binding request at 29 s refreshes the TTL ...
    let d = s.receive_packet(&addr, Some(&stun("srv", "abc")), 29_000);
    assert!(matches!(d, PacketDispatch::RespondStun(_)));
    // ... so the 31 s cleanup keeps the session alive.
    let _ = s.timeout_clients(31_000);
    let d2 = s.receive_packet(&addr, Some(&stun("srv", "abc")), 31_001);
    assert!(matches!(d2, PacketDispatch::RespondStun(_)));
}

#[test]
fn duplicate_session_key_is_replaced() {
    let (mut s, _rx) = mk_server(0);
    s.accept_session(session("srv", "old", "abc"), 0);
    s.accept_session(session("srv", "new", "abc"), 5);
    let addr = peer(40000);
    match s.receive_packet(&addr, Some(&stun("srv", "abc")), 6) {
        PacketDispatch::RespondStun(pw) => assert_eq!(pw, "new"),
        _ => panic!("expected a STUN response directive"),
    }
}

#[test]
fn idle_client_is_evicted_with_exactly_one_event() {
    let (mut s, _rx) = mk_server(0);
    let addr = peer(41000);
    handshake(&mut s, &addr, 0);
    s.client_transport_established(&addr);
    assert_eq!(s.active_clients(), 1);
    // No traffic for 11 s: the client is evicted, with one 1002 event.
    let events = s.timeout_clients(11_000);
    assert_eq!(events.len(), 1);
    assert_eq!(events[0].code, 1002);
    assert_eq!(events[0].message, "9.9.9.9:41000");
    assert_eq!(s.active_clients(), 0);
    // A later sweep has nothing left to report.
    let events2 = s.timeout_clients(22_000);
    assert!(events2.is_empty());
}

#[test]
fn active_client_survives_the_cleanup() {
    let (mut s, _rx) = mk_server(0);
    let addr = peer(41000);
    handshake(&mut s, &addr, 0);
    // Traffic at 5 s refreshes the activity clock.
    let d = s.receive_packet(&addr, None, 5_000);
    assert!(matches!(d, PacketDispatch::FeedClient));
    let events = s.timeout_clients(11_000);
    assert!(events.is_empty());
    assert_eq!(s.active_clients(), 1);
}

#[test]
fn orderly_shutdown_eviction_emits_no_event() {
    let (mut s, _rx) = mk_server(0);
    let addr = peer(41000);
    handshake(&mut s, &addr, 0);
    s.disconnect(&addr, 1);
    assert_eq!(s.shutdown_started(&addr), Some(true));
    let events = s.timeout_clients(11_000);
    assert!(events.is_empty());
    assert_eq!(s.active_clients(), 0);
}

#[test]
fn send_to_unknown_peer_fails_with_client_not_connected() {
    let (mut s, _rx) = mk_server(0);
    let r = s.send(b"x", MessageType::Binary, &peer(1), 0);
    assert!(matches!(r, Err(SendError::ClientNotConnected)));
}

#[test]
fn send_to_starting_client_fails_with_client_not_connected() {
    let (mut s, _rx) = mk_server(0);
    let addr = peer(41000);
    handshake(&mut s, &addr, 0);
    let r = s.send(b"x", MessageType::Binary, &addr, 1);
    assert!(matches!(r, Err(SendError::ClientNotConnected)));
}

#[test]
fn oversized_send_fails_with_incomplete_message_write() {
    let (mut s, _rx) = mk_server(0);
    let addr = peer(41000);
    handshake(&mut s, &addr, 0);
    s.client_transport_established(&addr);
    let big = vec![0u8; MAX_MESSAGE_LEN + 1];
    let r = s.send(&big, MessageType::Binary, &addr, 1);
    assert!(matches!(r, Err(SendError::IncompleteMessageWrite)));
}

#[test]
fn send_drains_ready_ciphertext_to_the_outgoing_queue() {
    let (mut s, _rx) = mk_server(0);
    let addr = peer(41000);
    handshake(&mut s, &addr, 0);
    s.client_transport_established(&addr);
    s.client_deposit_packet(&addr, vec![0xAA, 0xBB]);
    s.send(b"hello", MessageType::Text, &addr, 7).unwrap();
    let out = s.take_outgoing_udp();
    assert_eq!(out.len(), 1);
    assert_eq!(out[0].payload, vec![0xAA, 0xBB]);
    assert_eq!(out[0].remote_addr.port, 41000);
    assert!(s.take_outgoing_udp().is_empty());
}

#[test]
fn deposited_messages_come_back_through_recv_in_order() {
    let (mut s, _rx) = mk_server(0);
    let addr = peer(41000);
    handshake(&mut s, &addr, 0);
    s.client_deposit_message(&addr, MessageType::Text, b"one".to_vec());
    s.client_deposit_message(&addr, MessageType::Binary, b"two".to_vec());
    let m1 = s.recv().unwrap();
    assert_eq!(m1.message.0, b"one".to_vec());
    assert!(matches!(m1.message_type, MessageType::Text));
    assert_eq!(m1.remote_addr.port, 41000);
    let m2 = s.recv().unwrap();
    assert_eq!(m2.message.0, b"two".to_vec());
    assert!(s.recv().is_none());
}

#[test]
fn messages_from_unknown_addresses_are_dropped() {
    let (mut s, _rx) = mk_server(0);
    s.client_deposit_message(&peer(1), MessageType::Text, b"x".to_vec());
    assert!(s.recv().is_none());
}

#[test]
fn transport_error_starts_shutdown_once() {
    let (mut s, _rx) = mk_server(0);
    let addr = peer(41000);
    handshake(&mut s, &addr, 0);
    assert_eq!(s.shutdown_started(&addr), Some(false));
    assert!(s.client_transport_error(&addr));
    assert_eq!(s.shutdown_started(&addr), Some(true));
    assert!(!s.client_transport_error(&addr));
    assert_eq!(s.shutdown_started(&peer(1)), None);
}

#[test]
fn periodic_generation_is_gated_to_one_second() {
    let (mut s, _rx) = mk_server(0);
    let addr = peer(41000);
    handshake(&mut s, &addr, 0);
    assert!(s.generate_periodic_packets(500).is_empty());
    let due = s.generate_periodic_packets(1000);
    assert_eq!(due.len(), 1);
    assert_eq!(due[0].port, 41000);
    assert!(s.generate_periodic_packets(1500).is_empty());
    assert_eq!(s.generate_periodic_packets(2000).len(), 1);
}

#[test]
fn client_activity_reports_clock_ages() {
    let (mut s, _rx) = mk_server(0);
    let addr = peer(41000);
    handshake(&mut s, &addr, 100);
    let _ = s.receive_packet(&addr, None, 300);
    let (activity, sent, received) = s.client_activity(&addr, 1000).unwrap();
    assert_eq!(activity, 700);
    assert_eq!(sent, 900);
    assert_eq!(received, 700);
    assert!(s.client_activity(&peer(1), 1000).is_none());
}

#[test]
fn connected_clients_lists_established_peers_with_commas() {
    let (mut s, _rx) = mk_server(0);
    let a = peer(41000);
    handshake(&mut s, &a, 0);
    assert_eq!(s.connected_clients(), "");
    s.client_transport_established(&a);
    assert_eq!(s.connected_clients(), "9.9.9.9:41000,");
}

#[test]
fn shutdown_clears_sessions_and_clients() {
    let (mut s, _rx) = mk_server(0);
    let addr = peer(41000);
    handshake(&mut s, &addr, 0);
    s.accept_session(session("other", "pw", "xyz"), 0);
    s.shutdown();
    assert_eq!(s.active_clients(), 0);
    assert_eq!(s.connected_clients(), "");
    // Both tables are empty: a previously valid binding request now matches
    // nothing, and the old client slot is gone.
    let d = s.receive_packet(&addr, Some(&stun("other", "xyz")), 1);
    assert!(matches!(d, PacketDispatch::Discard));
    let d2 = s.receive_packet(&addr, None, 1);
    assert!(matches!(d2, PacketDispatch::Discard));
}

#[test]
fn oversized_datagrams_are_refused_at_the_door() {
    assert!(datagram_len_ok(0));
    assert!(datagram_len_ok(MAX_UDP_PAYLOAD_SIZE));
    assert!(!datagram_len_ok(MAX_UDP_PAYLOAD_SIZE + 1));
}

#[test]
fn buffer_pool_counts_idle_buffers() {
    let mut p = BufferPool::new();
    assert_eq!(p.idle_buffers(), 0);
    let b = p.acquire();
    assert!(b.is_empty());
    p.release(b);
    assert_eq!(p.idle_buffers(), 1);
    let b2 = p.acquire();
    assert_eq!(p.idle_buffers(), 0);
    let mut b2 = b2;
    b2.extend_from_slice(&[1, 2, 3]);
    p.release(b2);
    // A released buffer comes back empty on the next acquire.
    assert!(p.acquire().is_empty());
}

#[test]
fn session_request_round_trip_reaches_the_server() {
    let (mut s, rx) = mk_server(0);
    let mut ep = s.session_endpoint();
    let offer = "v=0\r\na=ice-ufrag:abc\r\na=ice-pwd:xyz\r\na=mid:0\r\n";
    let answer = ep.session_request(offer).unwrap();
    assert!(answer.contains("a=setup:passive"));
    assert!(answer.contains("a=ice-lite"));
    assert!(answer.contains("a=mid:0"));
    assert!(answer.contains("a=fingerprint:sha-256 AA:BB:CC"));
    assert!(answer.contains("candidate:1 1 UDP "));
    assert!(answer.contains("1.2.3.4 5000 typ host"));

    let pending = rx.recv().unwrap();
    assert_eq!(pending.remote_user, "abc");
    assert_eq!(pending.server_user.len(), 12);
    assert_eq!(pending.server_passwd.len(), 24);
    assert!(pending.server_user.chars().all(|c| c.is_ascii_alphanumeric()));
    assert!(pending.server_passwd.chars().all(|c| c.is_ascii_alphanumeric()));
    assert!(answer.contains(&format!("a=ice-ufrag:{}", pending.server_user)));
    assert!(answer.contains(&format!("a=ice-pwd:{}", pending.server_passwd)));

    // The pending session then authenticates a STUN binding from the peer.
    s.accept_session(pending, 1);
    let addr = peer(50000);
    let user = {
        let p2 = ep.session_request(offer).unwrap();
        assert!(p2.len() > 0);
        rx.recv().unwrap()
    };
    s.accept_session(user, 1);
    let probe = s.receive_packet(&addr, Some(&stun("nosuch", "abc")), 2);
    assert!(matches!(probe, PacketDispatch::Discard));
}

#[test]
fn session_request_rejects_malformed_offers() {
    let (s, _rx) = mk_server(0);
    let mut ep = s.session_endpoint();
    let r = ep.session_request("v=0\r\na=ice-ufrag:abc\r\n");
    assert!(matches!(
        r,
        Err(webrtc_unreliable_core::SessionError::ParseError(_))
    ));
}

#[test]
fn session_request_reports_a_dropped_server_as_disconnected() {
    let (s, rx) = mk_server(0);
    let mut ep = s.session_endpoint();
    drop(s);
    drop(rx);
    let offer = "v=0\r\na=ice-ufrag:abc\r\na=ice-pwd:xyz\r\na=mid:0\r\n";
    let r = ep.session_request(offer);
    assert!(matches!(
        r,
        Err(webrtc_unreliable_core::SessionError::Disconnected)
    ));
}

#[test]
fn ipv6_clients_are_listed_with_brackets() {
    let (mut s, _rx) = mk_server(0);
    s.accept_session(session("srv", "secret", "abc"), 0);
    let addr = RemoteAddr::new("::1".to_string(), 7000, true);
    let d = s.receive_packet(&addr, Some(&stun("srv", "abc")), 0);
    assert!(matches!(d, PacketDispatch::RespondStun(_)));
    assert!(s.enqueue_stun_success(&addr, vec![1], 0));
    s.client_transport_established(&addr);
    assert_eq!(s.connected_clients(), "[::1]:7000,");
    // The eviction event uses the bare ip:port form.
    let events = s.timeout_clients(11_000);
    assert_eq!(events.len(), 1);
    assert_eq!(events[0].message, "::1:7000");
}

#[test]
fn session_endpoint_clones_share_the_channel() {
    let (s, rx) = mk_server(0);
    let ep = s.session_endpoint();
    let offer = "v=0\r\na=ice-ufrag:abc\r\na=ice-pwd:xyz\r\na=mid:0\r\n";
    let mut ep2 = ep.clone();
    ep2.session_request(offer).unwrap();
    assert_eq!(rx.recv().unwrap().remote_user, "abc");
    let mut ep3 = ep.duplicate();
    ep3.session_request(offer).unwrap();
    assert!(rx.recv().is_ok());
}

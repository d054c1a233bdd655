use webrtc_unreliable_core::{Client, ClientError, ClientState, MessageType, MAX_MESSAGE_LEN};

#[test]
fn new_client_is_starting_with_clocks_at_now() {
    let c = Client::new(42);
    assert!(matches!(c.state, ClientState::Starting));
    assert!(!c.is_established());
    assert!(!c.is_shutdown());
    assert!(!c.shutdown_started());
    assert_eq!(c.last_activity(), 42);
    assert_eq!(c.last_sent, 42);
    assert_eq!(c.last_received, 42);
}

#[test]
fn transport_established_moves_starting_to_established() {
    let mut c = Client::new(0);
    c.transport_established();
    assert!(c.is_established());
    // A second report changes nothing.
    c.transport_established();
    assert!(c.is_established());
}

#[test]
fn start_shutdown_returns_true_only_once() {
    let mut c = Client::new(0);
    c.transport_established();
    assert!(c.start_shutdown());
    assert!(!c.start_shutdown());
    assert!(!c.start_shutdown());
    assert!(c.shutdown_started());
    assert!(!c.is_shutdown());
    c.finish_shutdown();
    assert!(c.is_shutdown());
    assert!(!c.start_shutdown());
}

#[test]
fn receive_incoming_packet_updates_receive_clocks() {
    let mut c = Client::new(0);
    c.receive_incoming_packet(7);
    assert_eq!(c.last_activity(), 7);
    assert_eq!(c.last_received, 7);
    assert_eq!(c.last_sent, 0);
}

#[test]
fn send_message_requires_established() {
    let mut c = Client::new(0);
    let r = c.send_message(MessageType::Binary, vec![1, 2, 3]);
    assert!(matches!(r, Err(ClientError::NotConnected)));
    assert_eq!(c.take_pending_messages().len(), 0);
}

#[test]
fn send_message_rejects_oversized_payload() {
    let mut c = Client::new(0);
    c.transport_established();
    let big = vec![0u8; MAX_MESSAGE_LEN + 1];
    let r = c.send_message(MessageType::Binary, big);
    assert!(matches!(r, Err(ClientError::IncompletePacketWrite)));
    let exact = vec![0u8; MAX_MESSAGE_LEN];
    assert!(c.send_message(MessageType::Binary, exact).is_ok());
}

#[test]
fn send_message_queues_for_the_transport() {
    let mut c = Client::new(0);
    c.transport_established();
    c.send_message(MessageType::Text, b"hi".to_vec()).unwrap();
    c.send_message(MessageType::Binary, b"there".to_vec()).unwrap();
    let msgs = c.take_pending_messages();
    assert_eq!(msgs.len(), 2);
    assert!(matches!(msgs[0].message_type, MessageType::Text));
    assert_eq!(msgs[0].payload, b"hi".to_vec());
    assert!(matches!(msgs[1].message_type, MessageType::Binary));
    assert_eq!(msgs[1].payload, b"there".to_vec());
    assert_eq!(c.take_pending_messages().len(), 0);
}

#[test]
fn take_outgoing_packets_drains_and_stamps_last_sent() {
    let mut c = Client::new(0);
    c.deposit_outgoing_packet(vec![1]);
    c.deposit_outgoing_packet(vec![2, 2]);
    let pkts = c.take_outgoing_packets(33);
    assert_eq!(pkts, vec![vec![1], vec![2, 2]]);
    assert_eq!(c.last_sent, 33);
    // Draining an empty queue leaves the send clock alone.
    let none = c.take_outgoing_packets(99);
    assert!(none.is_empty());
    assert_eq!(c.last_sent, 33);
}

#[test]
fn receive_messages_drains_the_inbox() {
    let mut c = Client::new(0);
    c.deposit_incoming_message(MessageType::Text, b"a".to_vec());
    let msgs = c.receive_messages();
    assert_eq!(msgs.len(), 1);
    assert_eq!(msgs[0].payload, b"a".to_vec());
    assert!(c.receive_messages().is_empty());
}

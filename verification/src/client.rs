//! Per-peer client state machine.
//!
//! A [`Client`] owns the bookkeeping for one remote UDP endpoint: its
//! lifecycle state, its activity clocks, and the buffer queues exchanged with
//! the DTLS/SCTP transport collaborator.  The transport itself runs outside
//! this crate; it deposits ciphertext packets and decoded application
//! messages here, and consumes the messages queued by [`Client::send_message`].
//! All times are wall-clock milliseconds supplied by the caller.

use vstd::prelude::*;

verus! {

/// Largest application message accepted by [`Client::send_message`], in bytes
/// (the SCTP-layer limit advertised as `a=max-message-size` in the answer).
pub const MAX_MESSAGE_LEN: usize = 1160;

/// Largest UDP payload the server accepts or emits, in bytes.
pub const MAX_UDP_PAYLOAD_SIZE: usize = 1500;

/// Kind of an application datagram carried over the data channel.
#[derive(Clone, Copy, PartialEq, Eq, Structural, Debug)]
pub enum MessageType {
    Binary,
    Text,
}

/// Error raised by an operation on a single client.
#[derive(Clone, Copy, PartialEq, Eq, Structural, Debug)]
pub enum ClientError {
    /// The data channel is not fully established.
    NotConnected,
    /// The payload exceeds `MAX_MESSAGE_LEN` and cannot be written whole.
    IncompletePacketWrite,
}

/// Lifecycle of a client connection.
#[derive(Clone, Copy, PartialEq, Eq, Structural, Debug)]
pub enum ClientState {
    /// Created after a matched STUN binding; DTLS/SCTP still handshaking.
    Starting,
    /// Handshake complete: application messages may flow.
    Established,
    /// Shutdown begun; close frames may still need draining.
    ShuttingDown,
    /// Fully shut down.
    Shutdown,
}

/// One queued application message with its kind.
#[derive(Debug)]
pub struct QueuedMessage {
    pub message_type: MessageType,
    pub payload: Vec<u8>,
}

/// State for one remote peer.  See the module documentation.
#[derive(Debug)]
pub struct Client {
    pub state: ClientState,
    /// Last time any packet arrived from the peer (milliseconds).
    pub last_activity: u64,
    /// Last time outgoing packets were drained toward the socket.
    pub last_sent: u64,
    /// Last time an incoming packet was accepted.
    pub last_received: u64,
    /// Ciphertext UDP payloads produced by the transport, awaiting the socket.
    pub outgoing_packets: Vec<Vec<u8>>,
    /// Decoded application messages, awaiting delivery to the application.
    pub incoming_messages: Vec<QueuedMessage>,
    /// Messages accepted from the application, awaiting the transport.
    pub pending_messages: Vec<QueuedMessage>,
}

impl Client {
    /// Whether `start_shutdown` has run (or a fatal error forced it).
    pub open spec fn spec_shutdown_started(self) -> bool {
        self.state == ClientState::ShuttingDown || self.state == ClientState::Shutdown
    }

    pub open spec fn spec_is_established(self) -> bool {
        self.state == ClientState::Established
    }

    pub open spec fn spec_is_shutdown(self) -> bool {
        self.state == ClientState::Shutdown
    }

    /// A client exactly as `new` creates it at time `now`.
    pub open spec fn spec_is_fresh(self, now: u64) -> bool {
        &&& self.state == ClientState::Starting
        &&& self.last_activity == now
        &&& self.last_sent == now
        &&& self.last_received == now
        &&& self.outgoing_packets@ =~= Seq::<Vec<u8>>::empty()
        &&& self.incoming_messages@ =~= Seq::<QueuedMessage>::empty()
        &&& self.pending_messages@ =~= Seq::<QueuedMessage>::empty()
    }

    /// A fresh client as created on the first matched STUN binding.
    pub fn new(now: u64) -> (c: Client)
        ensures
            c.spec_is_fresh(now),
            c.state == ClientState::Starting,
            c.last_activity == now,
            c.last_sent == now,
            c.last_received == now,
            c.outgoing_packets@ == Seq::<Vec<u8>>::empty(),
            c.incoming_messages@ == Seq::<QueuedMessage>::empty(),
            c.pending_messages@ == Seq::<QueuedMessage>::empty(),
    {
        Client {
            state: ClientState::Starting,
            last_activity: now,
            last_sent: now,
            last_received: now,
            outgoing_packets: Vec::new(),
            incoming_messages: Vec::new(),
            pending_messages: Vec::new(),
        }
    }

    /// Record that a packet from the peer was accepted at `now`.
    pub fn receive_incoming_packet(&mut self, now: u64)
        ensures
            *final(self) == (Client {
                last_activity: now,
                last_received: now,
                ..*old(self)
            }),
    {
        self.last_activity = now;
        self.last_received = now;
    }

    /// The transport reports that the DTLS handshake and the SCTP association
    /// are both complete.  Only a `Starting` client moves to `Established`.
    pub fn transport_established(&mut self)
        ensures
            old(self).state == ClientState::Starting ==> *final(self) == (Client {
                state: ClientState::Established,
                ..*old(self)
            }),
            old(self).state != ClientState::Starting ==> *final(self) == *old(self),
    {
        if self.state == ClientState::Starting {
            self.state = ClientState::Established;
        }
    }

    /// What `start_shutdown` does: the client after the call, and whether
    /// this call was the one that began the shutdown.
    pub open spec fn spec_start_shutdown(self) -> (Client, bool) {
        if self.spec_shutdown_started() {
            (self, false)
        } else {
            ((Client { state: ClientState::ShuttingDown, ..self }), true)
        }
    }

    /// Begin shutting the client down.  Returns `true` only on the first
    /// call: every later call (from any path) returns `false` and changes
    /// nothing.
    pub fn start_shutdown(&mut self) -> (started: bool)
        ensures
            (*final(self), started) == old(self).spec_start_shutdown(),
            started == !old(self).spec_shutdown_started(),
            final(self).spec_shutdown_started(),
    {
        match self.state {
            ClientState::ShuttingDown => false,
            ClientState::Shutdown => false,
            _ => {
                self.state = ClientState::ShuttingDown;
                true
            },
        }
    }

    /// The transport reports that all close frames have been flushed.
    pub fn finish_shutdown(&mut self)
        ensures
            old(self).state == ClientState::ShuttingDown ==> *final(self) == (Client {
                state: ClientState::Shutdown,
                ..*old(self)
            }),
            old(self).state != ClientState::ShuttingDown ==> *final(self) == *old(self),
    {
        if self.state == ClientState::ShuttingDown {
            self.state = ClientState::Shutdown;
        }
    }

    /// Queue one application message for the transport.
    ///
    /// Fails with `NotConnected` unless the client is `Established`, and with
    /// `IncompletePacketWrite` when the payload exceeds `MAX_MESSAGE_LEN`;
    /// in both cases the client is unchanged.  On success the message is
    /// appended, whole, to the pending queue.
    pub fn send_message(&mut self, message_type: MessageType, payload: Vec<u8>) -> (r: Result<
        (),
        ClientError,
    >)
        ensures
            old(self).state != ClientState::Established
                ==> r == Result::<(), ClientError>::Err(ClientError::NotConnected)
                    && *final(self) == *old(self),
            old(self).state == ClientState::Established && payload@.len() > MAX_MESSAGE_LEN
                ==> r == Result::<(), ClientError>::Err(ClientError::IncompletePacketWrite)
                    && *final(self) == *old(self),
            old(self).state == ClientState::Established && payload@.len() <= MAX_MESSAGE_LEN
                ==> r == Result::<(), ClientError>::Ok(())
                    && final(self).pending_messages@ == old(self).pending_messages@.push(
                        (QueuedMessage { message_type, payload }),
                    )
                    && *final(self) == (Client {
                        pending_messages: final(self).pending_messages,
                        ..*old(self)
                    }),
    {
        if self.state != ClientState::Established {
            return Err(ClientError::NotConnected);
        }
        if payload.len() > MAX_MESSAGE_LEN {
            return Err(ClientError::IncompletePacketWrite);
        }
        self.pending_messages.push(QueuedMessage { message_type, payload });
        Ok(())
    }

    /// Drain the messages awaiting the transport.
    pub fn take_pending_messages(&mut self) -> (r: Vec<QueuedMessage>)
        ensures
            r@ == old(self).pending_messages@,
            *final(self) == (Client { pending_messages: final(self).pending_messages, ..*old(self) }),
            final(self).pending_messages@ == Seq::<QueuedMessage>::empty(),
    {
        let mut out: Vec<QueuedMessage> = Vec::new();
        core::mem::swap(&mut out, &mut self.pending_messages);
        out
    }

    /// The transport deposits one ciphertext packet bound for the socket.
    pub fn deposit_outgoing_packet(&mut self, packet: Vec<u8>)
        ensures
            *final(self) == (Client { outgoing_packets: final(self).outgoing_packets, ..*old(self) }),
            final(self).outgoing_packets@ == old(self).outgoing_packets@.push(packet),
    {
        self.outgoing_packets.push(packet);
    }

    /// The transport deposits one decoded application message.
    pub fn deposit_incoming_message(&mut self, message_type: MessageType, payload: Vec<u8>)
        ensures
            *final(self) == (Client {
                incoming_messages: final(self).incoming_messages,
                ..*old(self)
            }),
            final(self).incoming_messages@ == old(self).incoming_messages@.push(
                (QueuedMessage { message_type, payload }),
            ),
    {
        self.incoming_messages.push(QueuedMessage { message_type, payload });
    }

    /// Drain the ciphertext packets awaiting the socket.  When any were
    /// pending, the send clock moves to `now`.
    pub fn take_outgoing_packets(&mut self, now: u64) -> (r: Vec<Vec<u8>>)
        ensures
            r@ == old(self).outgoing_packets@,
            final(self).outgoing_packets@ == Seq::<Vec<u8>>::empty(),
            old(self).outgoing_packets@.len() > 0 ==> *final(self) == (Client {
                outgoing_packets: final(self).outgoing_packets,
                last_sent: now,
                ..*old(self)
            }),
            old(self).outgoing_packets@.len() == 0 ==> *final(self) == (Client {
                outgoing_packets: final(self).outgoing_packets,
                ..*old(self)
            }),
    {
        let mut out: Vec<Vec<u8>> = Vec::new();
        core::mem::swap(&mut out, &mut self.outgoing_packets);
        if out.len() > 0 {
            self.last_sent = now;
        }
        out
    }

    /// Drain the application messages received so far.
    pub fn receive_messages(&mut self) -> (r: Vec<QueuedMessage>)
        ensures
            r@ == old(self).incoming_messages@,
            *final(self) == (Client {
                incoming_messages: final(self).incoming_messages,
                ..*old(self)
            }),
            final(self).incoming_messages@ == Seq::<QueuedMessage>::empty(),
    {
        let mut out: Vec<QueuedMessage> = Vec::new();
        core::mem::swap(&mut out, &mut self.incoming_messages);
        out
    }

    pub fn is_established(&self) -> (r: bool)
        ensures
            r == self.spec_is_established(),
    {
        self.state == ClientState::Established
    }

    pub fn is_shutdown(&self) -> (r: bool)
        ensures
            r == self.spec_is_shutdown(),
    {
        self.state == ClientState::Shutdown
    }

    pub fn shutdown_started(&self) -> (r: bool)
        ensures
            r == self.spec_shutdown_started(),
    {
        match self.state {
            ClientState::ShuttingDown => true,
            ClientState::Shutdown => true,
            _ => false,
        }
    }

    pub fn last_activity(&self) -> (r: u64)
        ensures
            r == self.last_activity,
    {
        self.last_activity
    }
}

/// `start_shutdown` is idempotent: whatever the starting state, a second
/// call right after a first one returns `false` and leaves the client as the
/// first call left it.
pub proof fn lemma_start_shutdown_idempotent(c: Client)
    ensures
        c.spec_start_shutdown().0.spec_start_shutdown() == (c.spec_start_shutdown().0, false),
{
}

} // verus!

//! The server core: session and client tables, packet classification, and
//! housekeeping.
//!
//! One UDP socket serves every peer.  The embedding program owns the socket,
//! the periodic timer and the DTLS/SCTP transport; this module owns all the
//! decisions: which pending session a STUN binding request matches, when a
//! client slot is created, which sessions and clients have timed out, and
//! what leaves through the outgoing queue.  Offers arrive from any number of
//! intake tasks through a bounded channel whose sending half lives in
//! [`SessionEndpoint`].

use vstd::prelude::*;

use crate::addr::RemoteAddr;
use crate::client::{Client, ClientError, ClientState, MessageType, MAX_MESSAGE_LEN,
    MAX_UDP_PAYLOAD_SIZE};
use crate::queue::{in_queue, in_queue_new, in_queue_pop_front, in_queue_push, out_queue,
    out_queue_new, out_queue_push, out_queue_take_all};
use crate::rng::{alnum_seq, rand_alnum_string, rand_u32};
use crate::sdp::{gen_sdp_response, parse_sdp_fields, parsed_mid, spec_parse_sdp, spec_sdp_answer,
    SdpError};

verus! {

/// Error returned to a caller of [`Server::send`].
#[derive(Debug)]
pub enum SendError {
    /// No fully established client exists at the given address.
    ClientNotConnected,
    /// The message exceeds `MAX_MESSAGE_LEN` and cannot be written whole.
    IncompleteMessageWrite,
    /// The client's transport failed; the text describes the failure.
    ClientError(String),
    /// A socket error, rendered as text by the embedding program.
    Io(String),
}

/// Error returned to a caller of [`SessionEndpoint::session_request`].
#[derive(Debug)]
pub enum SessionError {
    /// The server is gone: the channel to it is closed.
    Disconnected,
    /// The SDP offer was rejected.
    ParseError(SdpError),
}

/// A received message, owned by the caller until it hands the buffer back
/// to its pool.
#[derive(Debug)]
pub struct MessageBuffer(pub Vec<u8>);

/// An observability event: `code` 1002 reports a client evicted for
/// inactivity, with `message` holding its `ip:port`.
#[derive(Debug)]
pub struct ErrorMessage {
    pub code: i32,
    pub message: String,
}

/// One received application message with its sender.
#[derive(Debug)]
pub struct MessageResult {
    pub message: MessageBuffer,
    pub message_type: MessageType,
    pub remote_addr: RemoteAddr,
}

/// One UDP payload waiting for the socket, with its destination.
#[derive(Debug)]
pub struct OutboundPacket {
    pub payload: Vec<u8>,
    pub remote_addr: RemoteAddr,
}

/// An accepted offer on its way from the endpoint to the server: the
/// server-side ICE credentials and the peer's `ice-ufrag`.
#[derive(Debug)]
pub struct IncomingSession {
    pub server_user: String,
    pub server_passwd: String,
    pub remote_user: String,
}

/// An accepted offer waiting in the session table for its first
/// authenticated STUN binding.  Keyed by `(server_user, remote_user)`;
/// `ttl` is the last time the entry was created or refreshed.
#[derive(Debug)]
pub struct PendingSession {
    pub server_user: String,
    pub remote_user: String,
    pub server_passwd: String,
    pub ttl: u64,
}

/// One slot of the client table.
#[derive(Debug)]
pub struct ClientEntry {
    pub addr: RemoteAddr,
    pub client: Client,
}

/// The `USERNAME` of a STUN binding request, split at its first `:`.
#[derive(Debug)]
pub struct StunUser {
    pub server_user: String,
    pub remote_user: String,
}

/// What the server decided about one incoming datagram.
#[derive(Debug)]
pub enum PacketDispatch {
    /// The datagram is a STUN binding request matching a pending session:
    /// answer it, signed with the carried `server_passwd`.
    RespondStun(String),
    /// The datagram belongs to the client at its source address: feed it to
    /// that client's transport.
    FeedClient,
    /// The datagram matches nothing and is dropped.
    Discard,
}

/// The sending half of the bounded offer channel.
#[verifier::external_type_specification]
#[verifier::external_body]
#[verifier::reject_recursive_types(T)]
pub struct ExFlumeSender<T>(flume::Sender<T>);

/// Relies on `flume::Sender::clone`: a new handle sending into the same
/// channel.  Nothing is promised of the value, which is opaque here.
pub assume_specification<T>[ <flume::Sender<T> as Clone>::clone ](
    tx: &flume::Sender<T>,
) -> flume::Sender<T>;

/// Relies on `flume::Sender::send`: delivers the value into the channel,
/// blocking while the bounded channel is full, and fails exactly when every
/// receiving half (the server) has been dropped.  Whether that has happened
/// cannot be known here, so nothing is promised about the outcome.
#[verifier::external_body]
fn send_pending_session(tx: &flume::Sender<IncomingSession>, s: IncomingSession) -> bool {
    tx.send(s).is_ok()
}

/// Accepts SDP offers on behalf of a [`Server`] and renders their answers.
/// Cheaply clonable, so any number of intake tasks can hold one.
#[derive(Clone)]
pub struct SessionEndpoint {
    pub public_ip: String,
    pub public_is_ipv6: bool,
    pub public_port: u16,
    pub cert_fingerprint: String,
    pub session_sender: flume::Sender<IncomingSession>,
}

impl SessionEndpoint {
    /// A new handle submitting offers into the same channel, with the same
    /// advertised address and certificate digest.
    pub fn duplicate(&self) -> (r: SessionEndpoint)
        ensures
            r.public_ip@ == self.public_ip@,
            r.public_is_ipv6 == self.public_is_ipv6,
            r.public_port == self.public_port,
            r.cert_fingerprint@ == self.cert_fingerprint@,
    {
        SessionEndpoint {
            public_ip: self.public_ip.clone(),
            public_is_ipv6: self.public_is_ipv6,
            public_port: self.public_port,
            cert_fingerprint: self.cert_fingerprint.clone(),
            session_sender: self.session_sender.clone(),
        }
    }

    /// Accept one SDP offer.
    ///
    /// A malformed offer (any of `ice-ufrag`, `ice-pwd`, `mid` missing or
    /// empty) is rejected with `ParseError`, and only such an offer is.  For
    /// a well-formed offer, fresh random ICE credentials — a 12-character
    /// user and a 24-character password, both alphanumeric — are drawn, the
    /// pending session is handed to the server through the channel, and the
    /// JSON answer of [`spec_sdp_answer`] is returned; `Disconnected` comes
    /// back only when the server is gone.
    pub fn session_request(&mut self, sdp_descriptor: &str) -> (r: Result<String, SessionError>)
        ensures
            *final(self) == *old(self),
            match r {
                Result::Ok(answer) => {
                    &&& spec_parse_sdp(sdp_descriptor@) is Some
                    &&& exists|user: Seq<char>, passwd: Seq<char>, r1: u32, r2: u32|
                        {
                            &&& user.len() == 12
                            &&& alnum_seq(user)
                            &&& passwd.len() == 24
                            &&& alnum_seq(passwd)
                            &&& answer@ == spec_sdp_answer(
                                r1,
                                r2,
                                old(self).cert_fingerprint@,
                                old(self).public_ip@,
                                old(self).public_is_ipv6,
                                old(self).public_port,
                                user,
                                passwd,
                                parsed_mid(sdp_descriptor@),
                            )
                        }
                },
                Result::Err(SessionError::ParseError(e)) => spec_parse_sdp(sdp_descriptor@)
                    is None && e == SdpError::MissingAttribute,
                Result::Err(SessionError::Disconnected) => spec_parse_sdp(sdp_descriptor@)
                    is Some,
            },
    {
        let fields = match parse_sdp_fields(sdp_descriptor) {
            Ok(fields) => fields,
            Err(e) => {
                return Err(SessionError::ParseError(e));
            },
        };
        let server_user = rand_alnum_string(12);
        let server_passwd = rand_alnum_string(24);
        let rand1 = rand_u32();
        let rand2 = rand_u32();
        let incoming_session = IncomingSession {
            server_user: server_user.clone(),
            server_passwd: server_passwd.clone(),
            remote_user: fields.ice_ufrag,
        };
        let response = gen_sdp_response(
            rand1,
            rand2,
            self.cert_fingerprint.as_str(),
            self.public_ip.as_str(),
            self.public_is_ipv6,
            self.public_port,
            server_user.as_str(),
            server_passwd.as_str(),
            fields.mid.as_str(),
        );
        proof {
            assert(response@ == spec_sdp_answer(
                rand1,
                rand2,
                old(self).cert_fingerprint@,
                old(self).public_ip@,
                old(self).public_is_ipv6,
                old(self).public_port,
                server_user@,
                server_passwd@,
                parsed_mid(sdp_descriptor@),
            ));
        }
        if !send_pending_session(&self.session_sender, incoming_session) {
            return Err(SessionError::Disconnected);
        }
        Ok(response)
    }
}

/// The view of observability events compared in contracts: code and text.
pub open spec fn events_view(s: Seq<ErrorMessage>) -> Seq<(int, Seq<char>)>
    decreases s.len(),
{
    if s.len() == 0 {
        Seq::empty()
    } else {
        events_view(s.drop_last()).push((s.last().code as int, s.last().message@))
    }
}

/// A pending session young enough to survive the cleanup at `now`.
pub open spec fn session_live(e: PendingSession, now: u64) -> bool {
    spec_elapsed(now, e.ttl) < 30000
}

/// A client slot young and alive enough to survive the cleanup at `now`.
pub open spec fn client_live(e: ClientEntry, now: u64) -> bool {
    !e.client.spec_is_shutdown() && spec_elapsed(now, e.client.last_activity) < 10000
}

/// A client whose eviction at `now` emits an observability event: it is
/// dropped by the cleanup without having started an orderly shutdown.
pub open spec fn client_evicted_live(e: ClientEntry, now: u64) -> bool {
    !client_live(e, now) && !e.client.spec_shutdown_started()
}

/// The pending sessions that survive a cleanup at `now`, in table order.
pub open spec fn live_sessions(s: Seq<PendingSession>, now: u64) -> Seq<PendingSession>
    decreases s.len(),
{
    if s.len() == 0 {
        s
    } else {
        let pre = live_sessions(s.drop_last(), now);
        if session_live(s.last(), now) {
            pre.push(s.last())
        } else {
            pre
        }
    }
}

/// The client slots that survive a cleanup at `now`, in table order.
pub open spec fn live_clients(s: Seq<ClientEntry>, now: u64) -> Seq<ClientEntry>
    decreases s.len(),
{
    if s.len() == 0 {
        s
    } else {
        let pre = live_clients(s.drop_last(), now);
        if client_live(s.last(), now) {
            pre.push(s.last())
        } else {
            pre
        }
    }
}

/// The events a cleanup at `now` emits: one `code` 1002 entry, holding the
/// peer's `ip:port`, for each client dropped without an orderly shutdown.
pub open spec fn eviction_events(s: Seq<ClientEntry>, now: u64) -> Seq<(int, Seq<char>)>
    decreases s.len(),
{
    if s.len() == 0 {
        Seq::empty()
    } else {
        let pre = eviction_events(s.drop_last(), now);
        if client_evicted_live(s.last(), now) {
            pre.push((1002int, s.last().addr.spec_event_string()))
        } else {
            pre
        }
    }
}

/// The identities of a run of client slots, in order.
pub open spec fn client_addr_keys(s: Seq<ClientEntry>) -> Seq<(Seq<char>, u16, bool)>
    decreases s.len(),
{
    if s.len() == 0 {
        Seq::empty()
    } else {
        client_addr_keys(s.drop_last()).push(s.last().addr.key())
    }
}

/// The identities of a run of addresses, in order.
pub open spec fn addr_keys(s: Seq<RemoteAddr>) -> Seq<(Seq<char>, u16, bool)>
    decreases s.len(),
{
    if s.len() == 0 {
        Seq::empty()
    } else {
        addr_keys(s.drop_last()).push(s.last().key())
    }
}

/// Milliseconds from `then` to `now`, zero when the clock went backward.
pub open spec fn spec_elapsed(now: u64, then: u64) -> u64 {
    if now >= then {
        (now - then) as u64
    } else {
        0
    }
}

fn elapsed(now: u64, then: u64) -> (r: u64)
    ensures
        r == spec_elapsed(now, then),
{
    if now >= then {
        now - then
    } else {
        0
    }
}

/// The key of a pending session.
pub open spec fn sess_key_of(e: PendingSession) -> (Seq<char>, Seq<char>) {
    (e.server_user@, e.remote_user@)
}

pub open spec fn sess_has(s: Seq<PendingSession>, k: (Seq<char>, Seq<char>)) -> bool {
    exists|i: int| 0 <= i < s.len() && sess_key_of(s[i]) == k
}

pub open spec fn sess_idx(s: Seq<PendingSession>, k: (Seq<char>, Seq<char>)) -> int {
    choose|i: int| 0 <= i < s.len() && sess_key_of(s[i]) == k
}

/// Session keys are pairwise distinct.
pub open spec fn sess_unique(s: Seq<PendingSession>) -> bool {
    forall|i: int, j: int|
        0 <= i < j < s.len() ==> sess_key_of(s[i]) != sess_key_of(s[j])
}

pub open spec fn cli_has(s: Seq<ClientEntry>, a: (Seq<char>, u16, bool)) -> bool {
    exists|i: int| 0 <= i < s.len() && s[i].addr.key() == a
}

pub open spec fn cli_idx(s: Seq<ClientEntry>, a: (Seq<char>, u16, bool)) -> int {
    choose|i: int| 0 <= i < s.len() && s[i].addr.key() == a
}

/// Client addresses are pairwise distinct.
pub open spec fn cli_unique(s: Seq<ClientEntry>) -> bool {
    forall|i: int, j: int| 0 <= i < j < s.len() ==> s[i].addr.key() != s[j].addr.key()
}

/// The multiplexed WebRTC datagram server core.
pub struct Server {
    session_endpoint: SessionEndpoint,
    sessions: Vec<PendingSession>,
    clients: Vec<ClientEntry>,
    outgoing_udp: atone::Vc<OutboundPacket>,
    incoming_rtc: atone::Vc<MessageResult>,
    last_generate_periodic: u64,
    last_cleanup: u64,
    /// Address authorized by the last matched STUN binding request, waiting
    /// for its signed response to be written.
    stun_pending: Option<RemoteAddr>,
    /// Every address that ever completed a matched STUN exchange.
    authenticated: Ghost<Set<(Seq<char>, u16, bool)>>,
}

impl Server {
    pub closed spec fn spec_sessions(self) -> Seq<PendingSession> {
        self.sessions@
    }

    pub closed spec fn spec_clients(self) -> Seq<ClientEntry> {
        self.clients@
    }

    pub closed spec fn spec_outgoing(self) -> Seq<OutboundPacket> {
        out_queue(self.outgoing_udp)
    }

    pub closed spec fn spec_incoming(self) -> Seq<MessageResult> {
        in_queue(self.incoming_rtc)
    }

    pub closed spec fn spec_last_generate_periodic(self) -> u64 {
        self.last_generate_periodic
    }

    pub closed spec fn spec_last_cleanup(self) -> u64 {
        self.last_cleanup
    }

    pub closed spec fn spec_stun_pending(self) -> Option<(Seq<char>, u16, bool)> {
        match self.stun_pending {
            Option::None => Option::None,
            Option::Some(a) => Option::Some(a.key()),
        }
    }

    /// Addresses that have completed a matched STUN exchange so far.
    pub closed spec fn spec_authenticated(self) -> Set<(Seq<char>, u16, bool)> {
        self.authenticated@
    }

    pub closed spec fn spec_endpoint(self) -> SessionEndpoint {
        self.session_endpoint
    }

    /// Well-formedness: both tables have pairwise distinct keys, and every
    /// client slot belongs to an address that completed a matched STUN
    /// exchange.
    pub open spec fn wf(self) -> bool {
        &&& sess_unique(self.spec_sessions())
        &&& cli_unique(self.spec_clients())
        &&& forall|i: int|
            0 <= i < self.spec_clients().len() ==> self.spec_authenticated().contains(
                #[trigger] self.spec_clients()[i].addr.key(),
            )
    }

    pub open spec fn spec_has_session(self, k: (Seq<char>, Seq<char>)) -> bool {
        sess_has(self.spec_sessions(), k)
    }

    pub open spec fn spec_session_passwd(self, k: (Seq<char>, Seq<char>)) -> Seq<char> {
        self.spec_sessions()[sess_idx(self.spec_sessions(), k)].server_passwd@
    }

    pub open spec fn spec_session_ttl(self, k: (Seq<char>, Seq<char>)) -> u64 {
        self.spec_sessions()[sess_idx(self.spec_sessions(), k)].ttl
    }

    pub open spec fn spec_has_client(self, a: (Seq<char>, u16, bool)) -> bool {
        cli_has(self.spec_clients(), a)
    }

    pub open spec fn spec_client(self, a: (Seq<char>, u16, bool)) -> Client {
        self.spec_clients()[cli_idx(self.spec_clients(), a)].client
    }

    /// A fresh server around the sending half of an offer channel.  The
    /// embedding program keeps the receiving half and forwards everything it
    /// yields to [`Server::accept_session`].
    pub fn new(
        public_ip: String,
        public_is_ipv6: bool,
        public_port: u16,
        cert_fingerprint: String,
        session_sender: flume::Sender<IncomingSession>,
        now: u64,
    ) -> (s: Server)
        ensures
            s.wf(),
            s.spec_sessions() == Seq::<PendingSession>::empty(),
            s.spec_clients() == Seq::<ClientEntry>::empty(),
            s.spec_outgoing() == Seq::<OutboundPacket>::empty(),
            s.spec_incoming() == Seq::<MessageResult>::empty(),
            s.spec_last_generate_periodic() == now,
            s.spec_last_cleanup() == now,
            s.spec_stun_pending() is None,
            s.spec_endpoint().public_ip@ == public_ip@,
            s.spec_endpoint().public_is_ipv6 == public_is_ipv6,
            s.spec_endpoint().public_port == public_port,
            s.spec_endpoint().cert_fingerprint@ == cert_fingerprint@,
    {
        Server {
            session_endpoint: SessionEndpoint {
                public_ip,
                public_is_ipv6,
                public_port,
                cert_fingerprint,
                session_sender,
            },
            sessions: Vec::new(),
            clients: Vec::new(),
            outgoing_udp: out_queue_new(),
            incoming_rtc: in_queue_new(),
            last_generate_periodic: now,
            last_cleanup: now,
            stun_pending: None,
            authenticated: Ghost(Set::empty()),
        }
    }

    /// A new handle for submitting offers, sharing the server's channel and
    /// advertised address.
    pub fn session_endpoint(&self) -> (r: SessionEndpoint)
        ensures
            r.public_ip@ == self.spec_endpoint().public_ip@,
            r.public_is_ipv6 == self.spec_endpoint().public_is_ipv6,
            r.public_port == self.spec_endpoint().public_port,
            r.cert_fingerprint@ == self.spec_endpoint().cert_fingerprint@,
    {
        SessionEndpoint {
            public_ip: self.session_endpoint.public_ip.clone(),
            public_is_ipv6: self.session_endpoint.public_is_ipv6,
            public_port: self.session_endpoint.public_port,
            cert_fingerprint: self.session_endpoint.cert_fingerprint.clone(),
            session_sender: self.session_endpoint.session_sender.clone(),
        }
    }

    /// The index of the pending session with the given key, if any.
    fn find_session(&self, server_user: &String, remote_user: &String) -> (r: Option<usize>)
        ensures
            match r {
                Option::Some(i) => i < self.spec_sessions().len() && sess_key_of(
                    self.spec_sessions()[i as int],
                ) == (server_user@, remote_user@),
                Option::None => !self.spec_has_session((server_user@, remote_user@)),
            },
    {
        let n = self.sessions.len();
        let mut i: usize = 0;
        while i < n
            invariant
                n == self.spec_sessions().len(),
                i <= n,
                forall|j: int|
                    0 <= j < i ==> sess_key_of(#[trigger] self.spec_sessions()[j]) != (
                        server_user@,
                        remote_user@,
                    ),
            decreases n - i,
        {
            let e = &self.sessions[i];
            if e.server_user == *server_user && e.remote_user == *remote_user {
                return Some(i);
            }
            i = i + 1;
        }
        None
    }

    /// The index of the client slot at the given address, if any.
    fn find_client(&self, remote: &RemoteAddr) -> (r: Option<usize>)
        ensures
            match r {
                Option::Some(i) => i < self.spec_clients().len() && self.spec_clients()[
                    i as int
                ].addr.key() == remote.key(),
                Option::None => !self.spec_has_client(remote.key()),
            },
    {
        let n = self.clients.len();
        let mut i: usize = 0;
        while i < n
            invariant
                n == self.spec_clients().len(),
                i <= n,
                forall|j: int|
                    0 <= j < i ==> (#[trigger] self.spec_clients()[j]).addr.key() != remote.key(),
            decreases n - i,
        {
            let e = &self.clients[i];
            if e.addr.ip == remote.ip && e.addr.port == remote.port && e.addr.is_ipv6
                == remote.is_ipv6 {
                return Some(i);
            }
            i = i + 1;
        }
        None
    }

    /// Insert an accepted offer into the session table with a fresh TTL,
    /// replacing any entry with the same `(server_user, remote_user)` key.
    pub fn accept_session(&mut self, incoming: IncomingSession, now: u64)
        requires
            old(self).wf(),
        ensures
            final(self).wf(),
            final(self).spec_has_session((incoming.server_user@, incoming.remote_user@)),
            final(self).spec_session_passwd((incoming.server_user@, incoming.remote_user@))
                == incoming.server_passwd@,
            final(self).spec_session_ttl((incoming.server_user@, incoming.remote_user@)) == now,
            forall|k2: (Seq<char>, Seq<char>)|
                k2 != (incoming.server_user@, incoming.remote_user@)
                    ==> #[trigger] final(self).spec_has_session(k2)
                        == old(self).spec_has_session(k2),
            forall|k2: (Seq<char>, Seq<char>)|
                k2 != (incoming.server_user@, incoming.remote_user@)
                    && old(self).spec_has_session(k2)
                    ==> #[trigger] final(self).spec_session_passwd(k2)
                        == old(self).spec_session_passwd(k2)
                        && final(self).spec_session_ttl(k2) == old(self).spec_session_ttl(k2),
            final(self).spec_sessions().len() == old(self).spec_sessions().len() + (
            if old(self).spec_has_session((incoming.server_user@, incoming.remote_user@)) {
                0int
            } else {
                1int
            }),
            final(self).spec_clients() == old(self).spec_clients(),
            final(self).spec_outgoing() == old(self).spec_outgoing(),
            final(self).spec_incoming() == old(self).spec_incoming(),
            final(self).spec_last_generate_periodic() == old(self).spec_last_generate_periodic(),
            final(self).spec_last_cleanup() == old(self).spec_last_cleanup(),
            final(self).spec_stun_pending() == old(self).spec_stun_pending(),
            final(self).spec_authenticated() == old(self).spec_authenticated(),
    {
        let ghost k = (incoming.server_user@, incoming.remote_user@);
        let idx = self.find_session(&incoming.server_user, &incoming.remote_user);
        let IncomingSession { server_user, server_passwd, remote_user } = incoming;
        let entry = PendingSession { server_user, remote_user, server_passwd, ttl: now };
        match idx {
            Some(i) => {
                self.sessions.set(i, entry);
                proof {
                    assert(sess_key_of(self.spec_sessions()[i as int]) == k);
                    assert forall|k2: (Seq<char>, Seq<char>)| k2 != k implies #[trigger] self
                        .spec_has_session(k2) == old(self).spec_has_session(k2) by {
                        if old(self).spec_has_session(k2) {
                            let j = sess_idx(old(self).spec_sessions(), k2);
                            assert(sess_key_of(self.spec_sessions()[j]) == k2);
                        }
                        if self.spec_has_session(k2) {
                            let j = sess_idx(self.spec_sessions(), k2);
                            assert(sess_key_of(old(self).spec_sessions()[j]) == k2);
                        }
                    }
                    assert forall|k2: (Seq<char>, Seq<char>)|
                        k2 != k && old(self).spec_has_session(k2) implies #[trigger] self
                        .spec_session_passwd(k2) == old(self).spec_session_passwd(k2) && self
                        .spec_session_ttl(k2) == old(self).spec_session_ttl(k2) by {
                        let j = sess_idx(old(self).spec_sessions(), k2);
                        assert(sess_key_of(self.spec_sessions()[j]) == k2);
                        let j2 = sess_idx(self.spec_sessions(), k2);
                        assert(j2 == j);
                    }
                }
            },
            None => {
                self.sessions.push(entry);
                proof {
                    let s_new = self.spec_sessions();
                    let s_old = old(self).spec_sessions();
                    assert(s_new.len() == s_old.len() + 1);
                    assert(sess_key_of(s_new[s_old.len() as int]) == k);
                    assert(forall|j: int| 0 <= j < s_old.len() ==> s_new[j] == s_old[j]);
                    assert forall|k2: (Seq<char>, Seq<char>)| k2 != k implies #[trigger] self
                        .spec_has_session(k2) == old(self).spec_has_session(k2) by {
                        if self.spec_has_session(k2) {
                            let j = sess_idx(s_new, k2);
                            assert(j < s_old.len());
                            assert(sess_key_of(s_old[j]) == k2);
                        }
                    }
                    assert forall|k2: (Seq<char>, Seq<char>)|
                        k2 != k && old(self).spec_has_session(k2) implies #[trigger] self
                        .spec_session_passwd(k2) == old(self).spec_session_passwd(k2) && self
                        .spec_session_ttl(k2) == old(self).spec_session_ttl(k2) by {
                        let j = sess_idx(s_old, k2);
                        assert(sess_key_of(s_new[j]) == k2);
                        let j2 = sess_idx(s_new, k2);
                        assert(sess_key_of(s_new[j2]) == k2);
                        assert(j2 < s_old.len());
                        assert(j2 == j);
                    }
                }
            },
        }
    }

    /// Classify one incoming datagram from `remote`.
    ///
    /// `stun` carries the `USERNAME` halves when the embedding program's
    /// STUN codec recognized a binding request, and nothing otherwise.  A
    /// binding request matching a pending session refreshes that session's
    /// TTL, authorizes `remote` for a client slot, and asks the caller to
    /// answer with a success signed by the returned `server_passwd`; an
    /// unmatched one changes nothing and is dropped.  Any other datagram is
    /// fed to the client at `remote` (whose receive clocks move to `now`),
    /// or dropped when no such client exists.
    pub fn receive_packet(&mut self, remote: &RemoteAddr, stun: Option<&StunUser>, now: u64) -> (d:
        PacketDispatch)
        requires
            old(self).wf(),
        ensures
            final(self).wf(),
            final(self).spec_outgoing() == old(self).spec_outgoing(),
            final(self).spec_incoming() == old(self).spec_incoming(),
            final(self).spec_last_generate_periodic() == old(self).spec_last_generate_periodic(),
            final(self).spec_last_cleanup() == old(self).spec_last_cleanup(),
            final(self).spec_authenticated() == old(self).spec_authenticated(),
            final(self).spec_endpoint() == old(self).spec_endpoint(),
            match stun {
                Option::Some(user) => {
                    let k = (user.server_user@, user.remote_user@);
                    final(self).spec_clients() == old(self).spec_clients() && if old(self).spec_has_session(k) {
                        &&& d matches PacketDispatch::RespondStun(pw) && pw@ == old(self).spec_session_passwd(k)
                        &&& final(self).spec_stun_pending() == Option::Some(remote.key())
                        &&& final(self).spec_has_session(k)
                        &&& final(self).spec_session_passwd(k) == old(self).spec_session_passwd(k)
                        &&& final(self).spec_session_ttl(k) == now
                        &&& final(self).spec_sessions().len() == old(self).spec_sessions().len()
                        &&& forall|k2: (Seq<char>, Seq<char>)|
                            k2 != k ==> #[trigger] final(self).spec_has_session(k2) == old(self).spec_has_session(k2)
                        &&& forall|k2: (Seq<char>, Seq<char>)|
                            k2 != k && old(self).spec_has_session(k2)
                                ==> #[trigger] final(self).spec_session_passwd(k2) == old(self).spec_session_passwd(k2) && final(self).spec_session_ttl(k2) == old(self).spec_session_ttl(k2)
                    } else {
                        &&& d is Discard
                        &&& final(self).spec_sessions() == old(self).spec_sessions()
                        &&& final(self).spec_stun_pending() is None
                    }
                },
                Option::None => {
                    &&& final(self).spec_sessions() == old(self).spec_sessions()
                    &&& final(self).spec_stun_pending() == old(self).spec_stun_pending()
                    &&& if old(self).spec_has_client(remote.key()) {
                        &&& d is FeedClient
                        &&& final(self).spec_has_client(remote.key())
                        &&& final(self).spec_client(remote.key()) == (Client {
                            last_activity: now,
                            last_received: now,
                            ..old(self).spec_client(remote.key())
                        })
                        &&& final(self).spec_clients().len() == old(self).spec_clients().len()
                        &&& forall|a2: (Seq<char>, u16, bool)|
                            a2 != remote.key() ==> #[trigger] final(self).spec_has_client(a2)
                                == old(self).spec_has_client(a2)
                        &&& forall|a2: (Seq<char>, u16, bool)|
                            a2 != remote.key() && old(self).spec_has_client(a2)
                                ==> #[trigger] final(self).spec_client(a2) == old(self).spec_client(a2)
                    } else {
                        d is Discard && final(self).spec_clients() == old(self).spec_clients()
                    }
                },
            },
    {
        match stun {
            Some(user) => {
                let ghost k = (user.server_user@, user.remote_user@);
                let idx = self.find_session(&user.server_user, &user.remote_user);
                match idx {
                    Some(i) => {
                        let mut tmp = PendingSession {
                            server_user: String::new(),
                            remote_user: String::new(),
                            server_passwd: String::new(),
                            ttl: 0,
                        };
                        self.sessions.set_and_swap(i, &mut tmp);
                        tmp.ttl = now;
                        let pw = tmp.server_passwd.clone();
                        self.sessions.set_and_swap(i, &mut tmp);
                        self.stun_pending = Some(remote.duplicate());
                        proof {
                            let s_old = old(self).spec_sessions();
                            let s_new = self.spec_sessions();
                            assert(s_new =~= s_old.update(
                                i as int,
                                s_new[i as int],
                            ));
                            assert(sess_key_of(s_new[i as int]) == k);
                            assert(sess_idx(s_new, k) == i && sess_idx(s_old, k) == i);
                            assert forall|k2: (Seq<char>, Seq<char>)| k2 != k implies #[trigger] self
                                .spec_has_session(k2) == old(self).spec_has_session(k2) by {
                                if old(self).spec_has_session(k2) {
                                    let j = sess_idx(s_old, k2);
                                    assert(sess_key_of(s_new[j]) == k2);
                                }
                                if self.spec_has_session(k2) {
                                    let j = sess_idx(s_new, k2);
                                    assert(sess_key_of(s_old[j]) == k2);
                                }
                            }
                            assert forall|k2: (Seq<char>, Seq<char>)|
                                k2 != k && old(self).spec_has_session(k2) implies #[trigger] self
                                .spec_session_passwd(k2) == old(self).spec_session_passwd(k2)
                                && self.spec_session_ttl(k2) == old(self).spec_session_ttl(k2) by {
                                let j = sess_idx(s_old, k2);
                                assert(sess_key_of(s_new[j]) == k2);
                                let j2 = sess_idx(s_new, k2);
                                assert(j2 == j);
                            }
                        }
                        PacketDispatch::RespondStun(pw)
                    },
                    None => {
                        self.stun_pending = None;
                        PacketDispatch::Discard
                    },
                }
            },
            None => {
                let idx = self.find_client(remote);
                match idx {
                    Some(i) => {
                        let mut tmp = ClientEntry {
                            addr: RemoteAddr::new(String::new(), 0, false),
                            client: Client::new(0),
                        };
                        self.clients.set_and_swap(i, &mut tmp);
                        tmp.client.receive_incoming_packet(now);
                        self.clients.set_and_swap(i, &mut tmp);
                        proof {
                            let c_old = old(self).spec_clients();
                            let c_new = self.spec_clients();
                            assert(c_new =~= c_old.update(i as int, c_new[i as int]));
                            assert(c_new[i as int].addr.key() == remote.key());
                            assert(cli_idx(c_new, remote.key()) == i && cli_idx(c_old, remote.key())
                                == i);
                            assert forall|a2: (Seq<char>, u16, bool)| a2 != remote.key() implies
                                #[trigger] self.spec_has_client(a2) == old(self).spec_has_client(
                                a2,
                            ) by {
                                if old(self).spec_has_client(a2) {
                                    let j = cli_idx(c_old, a2);
                                    assert(c_new[j].addr.key() == a2);
                                }
                                if self.spec_has_client(a2) {
                                    let j = cli_idx(c_new, a2);
                                    assert(c_old[j].addr.key() == a2);
                                }
                            }
                            assert forall|a2: (Seq<char>, u16, bool)|
                                a2 != remote.key() && old(self).spec_has_client(a2) implies
                                #[trigger] self.spec_client(a2) == old(self).spec_client(a2) by {
                                let j = cli_idx(c_old, a2);
                                assert(c_new[j].addr.key() == a2);
                                let j2 = cli_idx(c_new, a2);
                                assert(j2 == j);
                            }
                        }
                        PacketDispatch::FeedClient
                    },
                    None => PacketDispatch::Discard,
                }
            },
        }
    }

    /// The embedding program wrote the signed STUN success that
    /// [`Server::receive_packet`] asked for: queue it toward `remote`, and
    /// create a client slot there if none exists.  Returns whether a slot
    /// was created.  Does nothing unless `remote` is the address the last
    /// matched binding request authorized.
    pub fn enqueue_stun_success(&mut self, remote: &RemoteAddr, response: Vec<u8>, now: u64) -> (
        created: bool)
        requires
            old(self).wf(),
        ensures
            final(self).wf(),
            final(self).spec_sessions() == old(self).spec_sessions(),
            final(self).spec_incoming() == old(self).spec_incoming(),
            final(self).spec_last_generate_periodic() == old(self).spec_last_generate_periodic(),
            final(self).spec_last_cleanup() == old(self).spec_last_cleanup(),
            final(self).spec_endpoint() == old(self).spec_endpoint(),
            if old(self).spec_stun_pending() == Option::Some(remote.key()) {
                &&& final(self).spec_stun_pending() is None
                &&& final(self).spec_outgoing().len() == old(self).spec_outgoing().len() + 1
                &&& final(self).spec_outgoing().last().payload == response
                &&& final(self).spec_outgoing().last().remote_addr.key() == remote.key()
                &&& final(self).spec_outgoing().take(old(self).spec_outgoing().len() as int) == old(self).spec_outgoing()
                &&& final(self).spec_authenticated() == old(self).spec_authenticated().insert(
                    remote.key(),
                )
                &&& created == !old(self).spec_has_client(remote.key())
                &&& final(self).spec_has_client(remote.key())
                &&& (created ==> final(self).spec_client(remote.key()).spec_is_fresh(now)
                    && final(self).spec_clients().len() == old(self).spec_clients().len() + 1)
                &&& (!created ==> final(self).spec_clients() == old(self).spec_clients())
                &&& forall|a2: (Seq<char>, u16, bool)|
                    a2 != remote.key() ==> #[trigger] final(self).spec_has_client(a2) == old(self).spec_has_client(a2)
                &&& forall|a2: (Seq<char>, u16, bool)|
                    a2 != remote.key() && old(self).spec_has_client(a2) ==> #[trigger] final(self).spec_client(a2) == old(self).spec_client(a2)
            } else {
                &&& created == false
                &&& final(self).spec_outgoing() == old(self).spec_outgoing()
                &&& final(self).spec_clients() == old(self).spec_clients()
                &&& final(self).spec_stun_pending() == old(self).spec_stun_pending()
                &&& final(self).spec_authenticated() == old(self).spec_authenticated()
            },
    {
        let pending_match = match &self.stun_pending {
            Some(a) => a.ip == remote.ip && a.port == remote.port && a.is_ipv6 == remote.is_ipv6,
            None => false,
        };
        if !pending_match {
            return false;
        }
        self.stun_pending = None;
        let packet = OutboundPacket { payload: response, remote_addr: remote.duplicate() };
        out_queue_push(&mut self.outgoing_udp, packet);
        proof {
            assert(self.spec_outgoing().take(old(self).spec_outgoing().len() as int) =~= old(self).spec_outgoing());
        }
        self.authenticated = Ghost(self.authenticated@.insert(remote.key()));
        let idx = self.find_client(remote);
        match idx {
            Some(_) => {
                proof {
                    let c = self.spec_clients();
                    assert forall|i: int| 0 <= i < c.len() implies self.spec_authenticated()
                        .contains(#[trigger] c[i].addr.key()) by {
                        assert(old(self).spec_authenticated().contains(c[i].addr.key()));
                    }
                }
                false
            },
            None => {
                self.clients.push(ClientEntry { addr: remote.duplicate(), client: Client::new(now) });
                proof {
                    let c_old = old(self).spec_clients();
                    let c_new = self.spec_clients();
                    assert(c_new[c_old.len() as int].addr.key() == remote.key());
                    assert(forall|j: int| 0 <= j < c_old.len() ==> c_new[j] == c_old[j]);
                    assert forall|i: int| 0 <= i < c_new.len() implies self.spec_authenticated()
                        .contains(#[trigger] c_new[i].addr.key()) by {
                        if i < c_old.len() {
                            assert(old(self).spec_authenticated().contains(c_old[i].addr.key()));
                        }
                    }
                    let j0 = cli_idx(c_new, remote.key());
                    assert(c_new[j0].addr.key() == remote.key());
                    assert(j0 == c_old.len() as int) by {
                        if j0 < c_old.len() {
                            assert(c_old[j0].addr.key() == remote.key());
                        }
                    }
                    assert forall|a2: (Seq<char>, u16, bool)| a2 != remote.key() implies #[trigger]
                        self.spec_has_client(a2) == old(self).spec_has_client(a2) by {
                        if self.spec_has_client(a2) {
                            let j = cli_idx(c_new, a2);
                            assert(j < c_old.len());
                            assert(c_old[j].addr.key() == a2);
                        }
                    }
                    assert forall|a2: (Seq<char>, u16, bool)|
                        a2 != remote.key() && old(self).spec_has_client(a2) implies #[trigger] self
                        .spec_client(a2) == old(self).spec_client(a2) by {
                        let j = cli_idx(c_old, a2);
                        assert(c_new[j].addr.key() == a2);
                        let j2 = cli_idx(c_new, a2);
                        assert(j2 < c_old.len());
                        assert(j2 == j);
                    }
                }
                true
            },
        }
    }

    /// When a full periodic interval has passed, note the time and return
    /// the address of every client slot, so the embedding program can give
    /// each transport a chance to emit heartbeats and retransmits.
    pub fn generate_periodic_packets(&mut self, now: u64) -> (r: Vec<RemoteAddr>)
        requires
            old(self).wf(),
        ensures
            final(self).wf(),
            final(self).spec_sessions() == old(self).spec_sessions(),
            final(self).spec_clients() == old(self).spec_clients(),
            final(self).spec_outgoing() == old(self).spec_outgoing(),
            final(self).spec_incoming() == old(self).spec_incoming(),
            final(self).spec_last_cleanup() == old(self).spec_last_cleanup(),
            final(self).spec_stun_pending() == old(self).spec_stun_pending(),
            final(self).spec_authenticated() == old(self).spec_authenticated(),
            final(self).spec_endpoint() == old(self).spec_endpoint(),
            if spec_elapsed(now, old(self).spec_last_generate_periodic()) >= 1000 {
                &&& final(self).spec_last_generate_periodic() == now
                &&& addr_keys(r@) == client_addr_keys(old(self).spec_clients())
            } else {
                &&& final(self).spec_last_generate_periodic() == old(self).spec_last_generate_periodic()
                &&& r@.len() == 0
            },
    {
        let mut r: Vec<RemoteAddr> = Vec::new();
        if elapsed(now, self.last_generate_periodic) >= 1000 {
            self.last_generate_periodic = now;
            let n = self.clients.len();
            let mut i: usize = 0;
            while i < n
                invariant
                    n == self.spec_clients().len(),
                    i <= n,
                    addr_keys(r@) =~= client_addr_keys(self.spec_clients().take(i as int)),
                decreases n - i,
            {
                let ghost rbefore = r@;
                r.push(self.clients[i].addr.duplicate());
                proof {
                    let ghost cs = self.spec_clients();
                    assert(r@.drop_last() =~= rbefore);
                    assert(cs.take(i + 1).drop_last() =~= cs.take(i as int));
                    assert(cs.take(i + 1).last() == cs[i as int]);
                    assert(addr_keys(r@) == client_addr_keys(cs.take(i + 1)));
                }
                i = i + 1;
            }
            proof {
                assert(self.spec_clients().take(n as int) =~= self.spec_clients());
            }
        }
        r
    }

    /// When a full cleanup interval has passed, drop every pending session
    /// whose TTL age reached 30 s and every client slot that is shut down or
    /// whose last activity is 10 s old.  For each dropped client that never
    /// started an orderly shutdown, exactly one `code` 1002 event carrying
    /// its `ip:port` is returned, in table order.
    pub fn timeout_clients(&mut self, now: u64) -> (r: Vec<ErrorMessage>)
        requires
            old(self).wf(),
        ensures
            final(self).wf(),
            final(self).spec_outgoing() == old(self).spec_outgoing(),
            final(self).spec_incoming() == old(self).spec_incoming(),
            final(self).spec_last_generate_periodic() == old(self).spec_last_generate_periodic(),
            final(self).spec_stun_pending() == old(self).spec_stun_pending(),
            final(self).spec_authenticated() == old(self).spec_authenticated(),
            final(self).spec_endpoint() == old(self).spec_endpoint(),
            if spec_elapsed(now, old(self).spec_last_cleanup()) >= 10000 {
                &&& final(self).spec_last_cleanup() == now
                &&& final(self).spec_sessions() == live_sessions(old(self).spec_sessions(), now)
                &&& final(self).spec_clients() == live_clients(old(self).spec_clients(), now)
                &&& events_view(r@) == eviction_events(old(self).spec_clients(), now)
            } else {
                &&& final(self).spec_last_cleanup() == old(self).spec_last_cleanup()
                &&& final(self).spec_sessions() == old(self).spec_sessions()
                &&& final(self).spec_clients() == old(self).spec_clients()
                &&& r@.len() == 0
            },
            forall|i: int|
                0 <= i < final(self).spec_sessions().len() ==> session_live(
                    #[trigger] final(self).spec_sessions()[i],
                    now,
                ) || spec_elapsed(now, old(self).spec_last_cleanup()) < 10000,
            forall|i: int|
                0 <= i < final(self).spec_clients().len() ==> client_live(
                    #[trigger] final(self).spec_clients()[i],
                    now,
                ) || spec_elapsed(now, old(self).spec_last_cleanup()) < 10000,
    {
        let mut r: Vec<ErrorMessage> = Vec::new();
        if elapsed(now, self.last_cleanup) < 10000 {
            return r;
        }
        self.last_cleanup = now;

        let ghost orig_s = self.sessions@;
        let mut olds: Vec<PendingSession> = Vec::new();
        core::mem::swap(&mut olds, &mut self.sessions);
        let ghost mut i: int = 0;
        proof {
            assert(orig_s.skip(0) =~= orig_s);
            assert(live_sessions(orig_s.take(0), now) =~= Seq::<PendingSession>::empty());
        }
        while olds.len() > 0
            invariant
                0 <= i <= orig_s.len(),
                olds@ == orig_s.skip(i),
                self.sessions@ == live_sessions(orig_s.take(i), now),
                sess_unique(orig_s),
                sess_unique(self.sessions@),
                forall|p: int|
                    0 <= p < self.sessions@.len() ==> exists|j: int|
                        0 <= j < i && orig_s[j] == #[trigger] self.sessions@[p],
                forall|p: int|
                    0 <= p < self.sessions@.len() ==> session_live(
                        #[trigger] self.sessions@[p],
                        now,
                    ),
                self.clients@ == old(self).spec_clients(),
                self.outgoing_udp == old(self).outgoing_udp,
                self.incoming_rtc == old(self).incoming_rtc,
                self.last_generate_periodic == old(self).spec_last_generate_periodic(),
                self.last_cleanup == now,
                self.spec_stun_pending() == old(self).spec_stun_pending(),
                self.authenticated@ == old(self).spec_authenticated(),
                self.session_endpoint == old(self).spec_endpoint(),
            decreases olds@.len(),
        {
            proof {
                assert(orig_s.skip(i).len() == orig_s.len() - i);
            }
            let e = olds.remove(0);
            proof {
                assert(orig_s.skip(i)[0] == orig_s[i]);
                assert(orig_s.skip(i).remove(0) =~= orig_s.skip(i + 1));
            }
            let keep = elapsed(now, e.ttl) < 30000;
            let ghost before = self.sessions@;
            if keep {
                self.sessions.push(e);
            }
            proof {
                assert(orig_s.take(i + 1).drop_last() =~= orig_s.take(i));
                assert(orig_s.take(i + 1).last() == orig_s[i]);
                assert(self.sessions@ == live_sessions(orig_s.take(i + 1), now));
                if keep {
                    assert forall|p: int| 0 <= p < self.sessions@.len() implies exists|j: int|
                        0 <= j < i + 1 && orig_s[j] == #[trigger] self.sessions@[p] by {
                        if p < before.len() {
                            assert(before[p] == self.sessions@[p]);
                            let j = choose|j: int| 0 <= j < i && orig_s[j] == before[p];
                            assert(orig_s[j] == self.sessions@[p]);
                        } else {
                            assert(orig_s[i] == self.sessions@[p]);
                        }
                    }
                    assert forall|p: int, q: int| 0 <= p < q < self.sessions@.len() implies
                        sess_key_of(self.sessions@[p]) != sess_key_of(self.sessions@[q]) by {
                        if q == self.sessions@.len() - 1 {
                            let j = choose|j: int| 0 <= j < i && orig_s[j] == before[p];
                            assert(sess_key_of(orig_s[j]) != sess_key_of(orig_s[i]));
                        }
                    }
                }
                i = i + 1;
            }
        }
        proof {
            assert(orig_s.skip(i).len() == orig_s.len() - i);
            assert(i == orig_s.len());
            assert(orig_s.take(orig_s.len() as int) =~= orig_s);
        }

        let ghost orig_c = self.clients@;
        let mut oldc: Vec<ClientEntry> = Vec::new();
        core::mem::swap(&mut oldc, &mut self.clients);
        let ghost mut ci: int = 0;
        let ghost sessions_done = self.sessions@;
        proof {
            assert(orig_c.skip(0) =~= orig_c);
            assert(live_clients(orig_c.take(0), now) =~= Seq::<ClientEntry>::empty());
            assert(eviction_events(orig_c.take(0), now) =~= Seq::<(int, Seq<char>)>::empty());
            assert(events_view(r@) =~= eviction_events(orig_c.take(0), now));
        }
        while oldc.len() > 0
            invariant
                0 <= ci <= orig_c.len(),
                oldc@ == orig_c.skip(ci),
                self.clients@ == live_clients(orig_c.take(ci), now),
                events_view(r@) == eviction_events(orig_c.take(ci), now),
                cli_unique(orig_c),
                cli_unique(self.clients@),
                forall|p: int|
                    0 <= p < self.clients@.len() ==> exists|j: int|
                        0 <= j < ci && orig_c[j] == #[trigger] self.clients@[p],
                forall|p: int|
                    0 <= p < self.clients@.len() ==> client_live(#[trigger] self.clients@[p], now),
                self.sessions@ == sessions_done,
                self.outgoing_udp == old(self).outgoing_udp,
                self.incoming_rtc == old(self).incoming_rtc,
                self.last_generate_periodic == old(self).spec_last_generate_periodic(),
                self.last_cleanup == now,
                self.spec_stun_pending() == old(self).spec_stun_pending(),
                self.authenticated@ == old(self).spec_authenticated(),
                self.session_endpoint == old(self).spec_endpoint(),
            decreases oldc@.len(),
        {
            proof {
                assert(orig_c.skip(ci).len() == orig_c.len() - ci);
            }
            let e = oldc.remove(0);
            proof {
                assert(orig_c.skip(ci)[0] == orig_c[ci]);
                assert(orig_c.skip(ci).remove(0) =~= orig_c.skip(ci + 1));
            }
            let keep = !e.client.is_shutdown() && elapsed(now, e.client.last_activity) < 10000;
            let ghost before = self.clients@;
            let ghost rbefore = r@;
            if keep {
                self.clients.push(e);
            } else {
                if !e.client.shutdown_started() {
                    let message = e.addr.event_string();
                    r.push(ErrorMessage { code: 1002, message });
                }
            }
            proof {
                assert(orig_c.take(ci + 1).drop_last() =~= orig_c.take(ci));
                assert(orig_c.take(ci + 1).last() == orig_c[ci]);
                assert(self.clients@ == live_clients(orig_c.take(ci + 1), now));
                if keep {
                    assert forall|p: int| 0 <= p < self.clients@.len() implies exists|j: int|
                        0 <= j < ci + 1 && orig_c[j] == #[trigger] self.clients@[p] by {
                        if p < before.len() {
                            assert(before[p] == self.clients@[p]);
                            let j = choose|j: int| 0 <= j < ci && orig_c[j] == before[p];
                            assert(orig_c[j] == self.clients@[p]);
                        } else {
                            assert(orig_c[ci] == self.clients@[p]);
                        }
                    }
                    assert forall|p: int, q: int| 0 <= p < q < self.clients@.len() implies self
                        .clients@[p].addr.key() != self.clients@[q].addr.key() by {
                        if q == self.clients@.len() - 1 {
                            let j = choose|j: int| 0 <= j < ci && orig_c[j] == before[p];
                            assert(orig_c[j].addr.key() != orig_c[ci].addr.key());
                        }
                    }
                }
                if client_evicted_live(orig_c[ci], now) {
                    assert(r@.drop_last() =~= rbefore);
                    assert(r@.last().code == 1002 && r@.last().message@ == orig_c[ci]
                        .addr.spec_event_string());
                }
                assert(events_view(r@) == eviction_events(orig_c.take(ci + 1), now));
                ci = ci + 1;
            }
        }
        proof {
            assert(orig_c.skip(ci).len() == orig_c.len() - ci);
            assert(ci == orig_c.len());
            assert(orig_c.take(orig_c.len() as int) =~= orig_c);
            assert forall|p: int| 0 <= p < self.clients@.len() implies self.spec_authenticated()
                .contains(#[trigger] self.clients@[p].addr.key()) by {
                let j = choose|j: int| 0 <= j < orig_c.len() && orig_c[j] == self.clients@[p];
                assert(old(self).spec_authenticated().contains(orig_c[j].addr.key()));
            }
        }
        r
    }

    /// Mark the client at `remote` established: its transport reports the
    /// DTLS handshake and the SCTP association both complete.
    pub fn client_transport_established(&mut self, remote: &RemoteAddr)
        requires
            old(self).wf(),
        ensures
            final(self).wf(),
            final(self).spec_sessions() == old(self).spec_sessions(),
            final(self).spec_outgoing() == old(self).spec_outgoing(),
            final(self).spec_incoming() == old(self).spec_incoming(),
            final(self).spec_last_generate_periodic() == old(self).spec_last_generate_periodic(),
            final(self).spec_last_cleanup() == old(self).spec_last_cleanup(),
            final(self).spec_stun_pending() == old(self).spec_stun_pending(),
            final(self).spec_authenticated() == old(self).spec_authenticated(),
            final(self).spec_endpoint() == old(self).spec_endpoint(),
            !old(self).spec_has_client(remote.key()) ==> final(self).spec_clients() == old(self).spec_clients(),
            old(self).spec_has_client(remote.key()) ==> {
                let c = old(self).spec_client(remote.key());
                &&& final(self).spec_has_client(remote.key())
                &&& final(self).spec_clients().len() == old(self).spec_clients().len()
                &&& (c.state == ClientState::Starting ==> final(self).spec_client(remote.key())
                    == (Client { state: ClientState::Established, ..c }))
                &&& (c.state != ClientState::Starting ==> final(self).spec_client(remote.key())
                    == c)
                &&& forall|a2: (Seq<char>, u16, bool)|
                    a2 != remote.key() ==> #[trigger] final(self).spec_has_client(a2) == old(self).spec_has_client(a2)
                &&& forall|a2: (Seq<char>, u16, bool)|
                    a2 != remote.key() && old(self).spec_has_client(a2) ==> #[trigger] final(self).spec_client(a2) == old(self).spec_client(a2)
            },
    {
        let idx = self.find_client(remote);
        match idx {
            Some(i) => {
                let mut tmp = ClientEntry {
                    addr: RemoteAddr::new(String::new(), 0, false),
                    client: Client::new(0),
                };
                self.clients.set_and_swap(i, &mut tmp);
                tmp.client.transport_established();
                self.clients.set_and_swap(i, &mut tmp);
                proof {
                    self.lemma_client_update_framing(*old(self), i as int, remote.key());
                }
            },
            None => {},
        }
    }

    /// The client's transport failed: begin its shutdown unless one has
    /// already begun.  Returns whether this call began it.
    pub fn client_transport_error(&mut self, remote: &RemoteAddr) -> (started: bool)
        requires
            old(self).wf(),
        ensures
            final(self).wf(),
            final(self).spec_sessions() == old(self).spec_sessions(),
            final(self).spec_outgoing() == old(self).spec_outgoing(),
            final(self).spec_incoming() == old(self).spec_incoming(),
            final(self).spec_last_generate_periodic() == old(self).spec_last_generate_periodic(),
            final(self).spec_last_cleanup() == old(self).spec_last_cleanup(),
            final(self).spec_stun_pending() == old(self).spec_stun_pending(),
            final(self).spec_authenticated() == old(self).spec_authenticated(),
            final(self).spec_endpoint() == old(self).spec_endpoint(),
            !old(self).spec_has_client(remote.key()) ==> final(self).spec_clients() == old(self).spec_clients() && !started,
            old(self).spec_has_client(remote.key()) ==> {
                let c = old(self).spec_client(remote.key());
                &&& final(self).spec_has_client(remote.key())
                &&& final(self).spec_clients().len() == old(self).spec_clients().len()
                &&& (final(self).spec_client(remote.key()), started) == c.spec_start_shutdown()
                &&& final(self).spec_client(remote.key()).spec_shutdown_started()
                &&& forall|a2: (Seq<char>, u16, bool)|
                    a2 != remote.key() ==> #[trigger] final(self).spec_has_client(a2) == old(self).spec_has_client(a2)
                &&& forall|a2: (Seq<char>, u16, bool)|
                    a2 != remote.key() && old(self).spec_has_client(a2) ==> #[trigger] final(self).spec_client(a2) == old(self).spec_client(a2)
            },
    {
        let idx = self.find_client(remote);
        match idx {
            Some(i) => {
                let mut tmp = ClientEntry {
                    addr: RemoteAddr::new(String::new(), 0, false),
                    client: Client::new(0),
                };
                self.clients.set_and_swap(i, &mut tmp);
                let started = tmp.client.start_shutdown();
                self.clients.set_and_swap(i, &mut tmp);
                proof {
                    self.lemma_client_update_framing(*old(self), i as int, remote.key());
                }
                started
            },
            None => false,
        }
    }

    /// The client's transport hands over one ciphertext UDP payload, to
    /// leave for `remote` on the next drain.
    pub fn client_deposit_packet(&mut self, remote: &RemoteAddr, packet: Vec<u8>)
        requires
            old(self).wf(),
        ensures
            final(self).wf(),
            final(self).spec_sessions() == old(self).spec_sessions(),
            final(self).spec_outgoing() == old(self).spec_outgoing(),
            final(self).spec_incoming() == old(self).spec_incoming(),
            final(self).spec_last_generate_periodic() == old(self).spec_last_generate_periodic(),
            final(self).spec_last_cleanup() == old(self).spec_last_cleanup(),
            final(self).spec_stun_pending() == old(self).spec_stun_pending(),
            final(self).spec_authenticated() == old(self).spec_authenticated(),
            final(self).spec_endpoint() == old(self).spec_endpoint(),
            !old(self).spec_has_client(remote.key()) ==> final(self).spec_clients() == old(self).spec_clients(),
            old(self).spec_has_client(remote.key()) ==> {
                let c = old(self).spec_client(remote.key());
                &&& final(self).spec_has_client(remote.key())
                &&& final(self).spec_clients().len() == old(self).spec_clients().len()
                &&& final(self).spec_client(remote.key()) == (Client {
                    outgoing_packets: final(self).spec_client(remote.key()).outgoing_packets,
                    ..c
                })
                &&& final(self).spec_client(remote.key()).outgoing_packets@ == c.outgoing_packets@
                    .push(packet)
                &&& forall|a2: (Seq<char>, u16, bool)|
                    a2 != remote.key() ==> #[trigger] final(self).spec_has_client(a2) == old(self).spec_has_client(a2)
                &&& forall|a2: (Seq<char>, u16, bool)|
                    a2 != remote.key() && old(self).spec_has_client(a2) ==> #[trigger] final(self).spec_client(a2) == old(self).spec_client(a2)
            },
    {
        let idx = self.find_client(remote);
        match idx {
            Some(i) => {
                let mut tmp = ClientEntry {
                    addr: RemoteAddr::new(String::new(), 0, false),
                    client: Client::new(0),
                };
                self.clients.set_and_swap(i, &mut tmp);
                tmp.client.deposit_outgoing_packet(packet);
                self.clients.set_and_swap(i, &mut tmp);
                proof {
                    self.lemma_client_update_framing(*old(self), i as int, remote.key());
                }
            },
            None => {},
        }
    }

    /// The client's transport hands over one decoded application message:
    /// queue it for [`Server::recv`], tagged with its sender.
    pub fn client_deposit_message(
        &mut self,
        remote: &RemoteAddr,
        message_type: MessageType,
        payload: Vec<u8>,
    )
        requires
            old(self).wf(),
        ensures
            final(self).wf(),
            final(self).spec_sessions() == old(self).spec_sessions(),
            final(self).spec_clients() == old(self).spec_clients(),
            final(self).spec_outgoing() == old(self).spec_outgoing(),
            final(self).spec_last_generate_periodic() == old(self).spec_last_generate_periodic(),
            final(self).spec_last_cleanup() == old(self).spec_last_cleanup(),
            final(self).spec_stun_pending() == old(self).spec_stun_pending(),
            final(self).spec_authenticated() == old(self).spec_authenticated(),
            final(self).spec_endpoint() == old(self).spec_endpoint(),
            !old(self).spec_has_client(remote.key()) ==> final(self).spec_incoming() == old(self).spec_incoming(),
            old(self).spec_has_client(remote.key()) ==> {
                &&& final(self).spec_incoming().len() == old(self).spec_incoming().len() + 1
                &&& final(self).spec_incoming().take(old(self).spec_incoming().len() as int)
                    == old(self).spec_incoming()
                &&& final(self).spec_incoming().last().message.0@ == payload@
                &&& final(self).spec_incoming().last().message_type == message_type
                &&& final(self).spec_incoming().last().remote_addr.key() == remote.key()
            },
    {
        let has = match self.find_client(remote) {
            Some(_) => true,
            None => false,
        };
        if has {
            let entry = MessageResult {
                message: MessageBuffer(payload),
                message_type,
                remote_addr: remote.duplicate(),
            };
            in_queue_push(&mut self.incoming_rtc, entry);
            proof {
                assert(self.spec_incoming().take(old(self).spec_incoming().len() as int) =~= old(self).spec_incoming());
            }
        }
    }

    /// Move every ciphertext payload the client at `remote` has ready into
    /// the outgoing UDP queue, addressed to it.
    pub fn drain_client_packets(&mut self, remote: &RemoteAddr, now: u64)
        requires
            old(self).wf(),
        ensures
            final(self).wf(),
            final(self).spec_sessions() == old(self).spec_sessions(),
            final(self).spec_incoming() == old(self).spec_incoming(),
            final(self).spec_last_generate_periodic() == old(self).spec_last_generate_periodic(),
            final(self).spec_last_cleanup() == old(self).spec_last_cleanup(),
            final(self).spec_stun_pending() == old(self).spec_stun_pending(),
            final(self).spec_authenticated() == old(self).spec_authenticated(),
            final(self).spec_endpoint() == old(self).spec_endpoint(),
            !old(self).spec_has_client(remote.key()) ==> final(self).spec_clients() == old(self).spec_clients() && final(self).spec_outgoing() == old(self).spec_outgoing(),
            old(self).spec_has_client(remote.key()) ==> {
                let c = old(self).spec_client(remote.key());
                let q = c.outgoing_packets@;
                &&& final(self).spec_has_client(remote.key())
                &&& final(self).spec_clients().len() == old(self).spec_clients().len()
                &&& final(self).spec_client(remote.key()).outgoing_packets@ == Seq::<Vec<
                    u8,
                >>::empty()
                &&& (q.len() > 0 ==> final(self).spec_client(remote.key()) == (Client {
                    outgoing_packets: final(self).spec_client(remote.key()).outgoing_packets,
                    last_sent: now,
                    ..c
                }))
                &&& (q.len() == 0 ==> final(self).spec_client(remote.key()) == (Client {
                    outgoing_packets: final(self).spec_client(remote.key()).outgoing_packets,
                    ..c
                }))
                &&& final(self).spec_outgoing().len() == old(self).spec_outgoing().len() + q.len()
                &&& final(self).spec_outgoing().take(old(self).spec_outgoing().len() as int)
                    == old(self).spec_outgoing()
                &&& forall|t: int|
                    0 <= t < q.len() ==> (#[trigger] final(self).spec_outgoing()[old(self).spec_outgoing().len() + t].payload == q[t] && final(self).spec_outgoing()[
                        old(self).spec_outgoing().len() + t
                    ].remote_addr.key() == remote.key())
                &&& forall|a2: (Seq<char>, u16, bool)|
                    a2 != remote.key() ==> #[trigger] final(self).spec_has_client(a2) == old(self).spec_has_client(a2)
                &&& forall|a2: (Seq<char>, u16, bool)|
                    a2 != remote.key() && old(self).spec_has_client(a2) ==> #[trigger] final(self).spec_client(a2) == old(self).spec_client(a2)
            },
    {
        let idx = self.find_client(remote);
        match idx {
            Some(i) => {
                let mut tmp = ClientEntry {
                    addr: RemoteAddr::new(String::new(), 0, false),
                    client: Client::new(0),
                };
                self.clients.set_and_swap(i, &mut tmp);
                let mut pkts = tmp.client.take_outgoing_packets(now);
                self.clients.set_and_swap(i, &mut tmp);
                proof {
                    self.lemma_client_update_framing(*old(self), i as int, remote.key());
                }
                let ghost orig_p = pkts@;
                let ghost out0 = out_queue(self.outgoing_udp);
                let ghost mid = *self;
                let ghost mut j: int = 0;
                proof {
                    assert(orig_p.skip(0) =~= orig_p);
                }
                while pkts.len() > 0
                    invariant
                        0 <= j <= orig_p.len(),
                        pkts@ == orig_p.skip(j),
                        out_queue(self.outgoing_udp).len() == out0.len() + j,
                        out_queue(self.outgoing_udp).take(out0.len() as int) == out0,
                        forall|t: int|
                            0 <= t < j ==> (#[trigger] out_queue(self.outgoing_udp)[out0.len()
                                + t].payload == orig_p[t] && out_queue(self.outgoing_udp)[out0.len()
                                + t].remote_addr.key() == remote.key()),
                        self.sessions@ == mid.sessions@,
                        self.clients@ == mid.clients@,
                        self.incoming_rtc == mid.incoming_rtc,
                        self.last_generate_periodic == mid.last_generate_periodic,
                        self.last_cleanup == mid.last_cleanup,
                        self.stun_pending == mid.stun_pending,
                        self.authenticated@ == mid.authenticated@,
                        self.session_endpoint == mid.session_endpoint,
                    decreases pkts@.len(),
                {
                    proof {
                        assert(orig_p.skip(j).len() == orig_p.len() - j);
                    }
                    let p = pkts.remove(0);
                    proof {
                        assert(orig_p.skip(j)[0] == orig_p[j]);
                        assert(orig_p.skip(j).remove(0) =~= orig_p.skip(j + 1));
                    }
                    let packet = OutboundPacket { payload: p, remote_addr: remote.duplicate() };
                    out_queue_push(&mut self.outgoing_udp, packet);
                    proof {
                        assert(out_queue(self.outgoing_udp).take(out0.len() as int) =~= out0);
                        j = j + 1;
                    }
                }
                proof {
                    assert(orig_p.skip(j).len() == orig_p.len() - j);
                    assert(j == orig_p.len());
                    assert(self.spec_clients() == mid.spec_clients());
                    assert(self.spec_has_client(remote.key()) == mid.spec_has_client(
                        remote.key(),
                    ));
                    assert(self.spec_client(remote.key()) == mid.spec_client(remote.key()));
                    assert forall|a2: (Seq<char>, u16, bool)| a2 != remote.key() implies
                        #[trigger] self.spec_has_client(a2) == old(self).spec_has_client(a2) by {
                        assert(mid.spec_has_client(a2) == old(self).spec_has_client(a2));
                    }
                    assert forall|a2: (Seq<char>, u16, bool)|
                        a2 != remote.key() && old(self).spec_has_client(a2) implies #[trigger] self
                        .spec_client(a2) == old(self).spec_client(a2) by {
                        assert(mid.spec_client(a2) == old(self).spec_client(a2));
                    }
                }
            },
            None => {},
        }
    }

    /// Send one application message to the client at `remote`.
    ///
    /// Fails with `ClientNotConnected` when no client slot exists there or
    /// its data channel is not fully established, and with
    /// `IncompleteMessageWrite` when the message exceeds `MAX_MESSAGE_LEN`;
    /// in both cases nothing changes.  On success the message joins the
    /// client's queue toward its transport, and any ciphertext the transport
    /// had ready moves into the outgoing UDP queue.
    pub fn send(
        &mut self,
        message: &[u8],
        message_type: MessageType,
        remote_addr: &RemoteAddr,
        now: u64,
    ) -> (r: Result<(), SendError>)
        requires
            old(self).wf(),
        ensures
            final(self).wf(),
            final(self).spec_sessions() == old(self).spec_sessions(),
            final(self).spec_incoming() == old(self).spec_incoming(),
            final(self).spec_last_generate_periodic() == old(self).spec_last_generate_periodic(),
            final(self).spec_last_cleanup() == old(self).spec_last_cleanup(),
            final(self).spec_stun_pending() == old(self).spec_stun_pending(),
            final(self).spec_authenticated() == old(self).spec_authenticated(),
            final(self).spec_endpoint() == old(self).spec_endpoint(),
            match r {
                Result::Ok(u) => {
                    let c = old(self).spec_client(remote_addr.key());
                    let q = c.outgoing_packets@;
                    &&& old(self).spec_has_client(remote_addr.key())
                    &&& c.state == ClientState::Established
                    &&& message@.len() <= MAX_MESSAGE_LEN
                    &&& final(self).spec_has_client(remote_addr.key())
                    &&& final(self).spec_clients().len() == old(self).spec_clients().len()
                    &&& final(self).spec_client(remote_addr.key()).pending_messages@.len() == c
                        .pending_messages@.len() + 1
                    &&& final(self).spec_client(remote_addr.key()).pending_messages@.last()
                        .message_type == message_type
                    &&& final(self).spec_client(remote_addr.key()).pending_messages@.last()
                        .payload@ == message@
                    &&& final(self).spec_client(remote_addr.key()).pending_messages@.take(
                        c.pending_messages@.len() as int,
                    ) == c.pending_messages@
                    &&& final(self).spec_client(remote_addr.key()).state == c.state
                    &&& final(self).spec_client(remote_addr.key()).outgoing_packets@ == Seq::<Vec<
                        u8,
                    >>::empty()
                    &&& final(self).spec_outgoing().len() == old(self).spec_outgoing().len()
                        + q.len()
                    &&& final(self).spec_outgoing().take(old(self).spec_outgoing().len() as int)
                        == old(self).spec_outgoing()
                    &&& forall|t: int|
                        0 <= t < q.len() ==> (#[trigger] final(self).spec_outgoing()[old(self).spec_outgoing().len() + t].payload == q[t] && final(self).spec_outgoing()[old(self).spec_outgoing().len() + t].remote_addr.key()
                            == remote_addr.key())
                    &&& forall|a2: (Seq<char>, u16, bool)|
                        a2 != remote_addr.key() ==> #[trigger] final(self).spec_has_client(a2)
                            == old(self).spec_has_client(a2)
                    &&& forall|a2: (Seq<char>, u16, bool)|
                        a2 != remote_addr.key() && old(self).spec_has_client(a2) ==> #[trigger]
                            final(self).spec_client(a2) == old(self).spec_client(a2)
                },
                Result::Err(SendError::ClientNotConnected) => {
                    &&& (!old(self).spec_has_client(remote_addr.key()) || old(self).spec_client(
                        remote_addr.key(),
                    ).state != ClientState::Established)
                    &&& final(self).spec_clients() == old(self).spec_clients()
                    &&& final(self).spec_outgoing() == old(self).spec_outgoing()
                },
                Result::Err(SendError::IncompleteMessageWrite) => {
                    &&& old(self).spec_has_client(remote_addr.key())
                    &&& old(self).spec_client(remote_addr.key()).state == ClientState::Established
                    &&& message@.len() > MAX_MESSAGE_LEN
                    &&& final(self).spec_clients() == old(self).spec_clients()
                    &&& final(self).spec_outgoing() == old(self).spec_outgoing()
                },
                _ => false,
            },
    {
        let idx = self.find_client(remote_addr);
        let i = match idx {
            Some(i) => i,
            None => {
                return Err(SendError::ClientNotConnected);
            },
        };
        let mut tmp = ClientEntry {
            addr: RemoteAddr::new(String::new(), 0, false),
            client: Client::new(0),
        };
        self.clients.set_and_swap(i, &mut tmp);
        let res = tmp.client.send_message(message_type, vstd::slice::slice_to_vec(message));
        self.clients.set_and_swap(i, &mut tmp);
        proof {
            self.lemma_client_update_framing(*old(self), i as int, remote_addr.key());
        }
        match res {
            Err(ClientError::NotConnected) => {
                proof {
                    assert(self.clients@ =~= old(self).clients@);
                }
                Err(SendError::ClientNotConnected)
            },
            Err(ClientError::IncompletePacketWrite) => {
                proof {
                    assert(self.clients@ =~= old(self).clients@);
                }
                Err(SendError::IncompleteMessageWrite)
            },
            Ok(()) => {
                self.drain_client_packets(remote_addr, now);
                Ok(())
            },
        }
    }

    /// Hand out the oldest received application message, if any is queued.
    /// The embedding program loops its event sources until this yields one.
    pub fn recv(&mut self) -> (r: Option<MessageResult>)
        requires
            old(self).wf(),
        ensures
            final(self).wf(),
            final(self).spec_sessions() == old(self).spec_sessions(),
            final(self).spec_clients() == old(self).spec_clients(),
            final(self).spec_outgoing() == old(self).spec_outgoing(),
            final(self).spec_last_generate_periodic() == old(self).spec_last_generate_periodic(),
            final(self).spec_last_cleanup() == old(self).spec_last_cleanup(),
            final(self).spec_stun_pending() == old(self).spec_stun_pending(),
            final(self).spec_authenticated() == old(self).spec_authenticated(),
            final(self).spec_endpoint() == old(self).spec_endpoint(),
            old(self).spec_incoming().len() == 0 ==> r is None && final(self).spec_incoming()
                == old(self).spec_incoming(),
            old(self).spec_incoming().len() > 0 ==> r == Option::Some(old(self).spec_incoming()[0])
                && final(self).spec_incoming() == old(self).spec_incoming().skip(1),
    {
        in_queue_pop_front(&mut self.incoming_rtc)
    }

    /// Hand every queued outgoing UDP payload to the embedding program for
    /// the socket; the queue is empty afterward.  The embedding program
    /// drains this after every event it hands the core, so the queue is
    /// empty between events and its depth stays bounded by one event's
    /// fan-out.
    pub fn take_outgoing_udp(&mut self) -> (r: Vec<OutboundPacket>)
        requires
            old(self).wf(),
        ensures
            final(self).wf(),
            r@ == old(self).spec_outgoing(),
            final(self).spec_outgoing() == Seq::<OutboundPacket>::empty(),
            final(self).spec_sessions() == old(self).spec_sessions(),
            final(self).spec_clients() == old(self).spec_clients(),
            final(self).spec_incoming() == old(self).spec_incoming(),
            final(self).spec_last_generate_periodic() == old(self).spec_last_generate_periodic(),
            final(self).spec_last_cleanup() == old(self).spec_last_cleanup(),
            final(self).spec_stun_pending() == old(self).spec_stun_pending(),
            final(self).spec_authenticated() == old(self).spec_authenticated(),
            final(self).spec_endpoint() == old(self).spec_endpoint(),
    {
        out_queue_take_all(&mut self.outgoing_udp)
    }

    /// Begin an orderly shutdown of the client at `remote`, then move any
    /// close frames its transport had ready into the outgoing queue.  Does
    /// nothing when no such client exists.
    pub fn disconnect(&mut self, remote_addr: &RemoteAddr, now: u64)
        requires
            old(self).wf(),
        ensures
            final(self).wf(),
            final(self).spec_sessions() == old(self).spec_sessions(),
            final(self).spec_incoming() == old(self).spec_incoming(),
            final(self).spec_last_generate_periodic() == old(self).spec_last_generate_periodic(),
            final(self).spec_last_cleanup() == old(self).spec_last_cleanup(),
            final(self).spec_stun_pending() == old(self).spec_stun_pending(),
            final(self).spec_authenticated() == old(self).spec_authenticated(),
            final(self).spec_endpoint() == old(self).spec_endpoint(),
            !old(self).spec_has_client(remote_addr.key()) ==> final(self).spec_clients() == old(self).spec_clients() && final(self).spec_outgoing() == old(self).spec_outgoing(),
            old(self).spec_has_client(remote_addr.key()) ==> {
                let c = old(self).spec_client(remote_addr.key());
                &&& final(self).spec_has_client(remote_addr.key())
                &&& final(self).spec_clients().len() == old(self).spec_clients().len()
                &&& final(self).spec_client(remote_addr.key()).spec_shutdown_started()
                &&& final(self).spec_client(remote_addr.key()).state == c.spec_start_shutdown()
                    .0.state
                &&& final(self).spec_client(remote_addr.key()).outgoing_packets@ == Seq::<Vec<
                    u8,
                >>::empty()
                &&& final(self).spec_outgoing().len() == old(self).spec_outgoing().len() + c
                    .outgoing_packets@.len()
                &&& final(self).spec_outgoing().take(old(self).spec_outgoing().len() as int)
                    == old(self).spec_outgoing()
                &&& forall|a2: (Seq<char>, u16, bool)|
                    a2 != remote_addr.key() ==> #[trigger] final(self).spec_has_client(a2) == old(self).spec_has_client(a2)
                &&& forall|a2: (Seq<char>, u16, bool)|
                    a2 != remote_addr.key() && old(self).spec_has_client(a2) ==> #[trigger] final(self).spec_client(a2) == old(self).spec_client(a2)
            },
    {
        let idx = self.find_client(remote_addr);
        match idx {
            Some(i) => {
                let mut tmp = ClientEntry {
                    addr: RemoteAddr::new(String::new(), 0, false),
                    client: Client::new(0),
                };
                self.clients.set_and_swap(i, &mut tmp);
                let _ = tmp.client.start_shutdown();
                self.clients.set_and_swap(i, &mut tmp);
                proof {
                    self.lemma_client_update_framing(*old(self), i as int, remote_addr.key());
                }
                self.drain_client_packets(remote_addr, now);
            },
            None => {},
        }
    }

    /// Tear the whole server down: every pending session and client slot is
    /// dropped.  The embedding program closes the socket and its transports.
    pub fn shutdown(&mut self)
        requires
            old(self).wf(),
        ensures
            final(self).wf(),
            final(self).spec_sessions() == Seq::<PendingSession>::empty(),
            final(self).spec_clients() == Seq::<ClientEntry>::empty(),
            final(self).spec_stun_pending() is None,
            final(self).spec_outgoing() == old(self).spec_outgoing(),
            final(self).spec_incoming() == old(self).spec_incoming(),
            final(self).spec_last_generate_periodic() == old(self).spec_last_generate_periodic(),
            final(self).spec_last_cleanup() == old(self).spec_last_cleanup(),
            final(self).spec_authenticated() == old(self).spec_authenticated(),
            final(self).spec_endpoint() == old(self).spec_endpoint(),
    {
        self.clients.clear();
        self.sessions.clear();
        self.stun_pending = None;
    }

    /// Whether the client at `remote` has a fully established data channel.
    pub fn is_connected(&self, remote_addr: &RemoteAddr) -> (r: bool)
        requires
            self.wf(),
        ensures
            r == (self.spec_has_client(remote_addr.key()) && self.spec_client(
                remote_addr.key(),
            ).spec_is_established()),
    {
        match self.find_client(remote_addr) {
            Some(i) => {
                proof {
                    let j = cli_idx(self.spec_clients(), remote_addr.key());
                    assert(self.spec_clients()[j].addr.key() == remote_addr.key());
                    assert(j == i);
                }
                self.clients[i].client.is_established()
            },
            None => false,
        }
    }

    /// How many client slots are not yet fully shut down.
    pub fn active_clients(&self) -> (r: usize)
        ensures
            r == active_count(self.spec_clients()),
    {
        let n = self.clients.len();
        let mut count: usize = 0;
        let mut i: usize = 0;
        while i < n
            invariant
                n == self.spec_clients().len(),
                i <= n,
                count == active_count(self.spec_clients().take(i as int)),
                count <= i,
            decreases n - i,
        {
            proof {
                assert(self.spec_clients().take(i + 1).drop_last() =~= self.spec_clients().take(
                    i as int,
                ));
                assert(self.spec_clients().take(i + 1).last() == self.spec_clients()[i as int]);
            }
            if !self.clients[i].client.is_shutdown() {
                count = count + 1;
            }
            i = i + 1;
        }
        proof {
            assert(self.spec_clients().take(n as int) =~= self.spec_clients());
        }
        count
    }

    /// The fully established clients as one text: each `ip:port` (IPv6
    /// bracketed) followed by a comma, in table order.
    pub fn connected_clients(&self) -> (r: String)
        ensures
            r@ == client_list_text(self.spec_clients()),
    {
        let mut s = String::new();
        let n = self.clients.len();
        let mut i: usize = 0;
        while i < n
            invariant
                n == self.spec_clients().len(),
                i <= n,
                s@ == client_list_text(self.spec_clients().take(i as int)),
            decreases n - i,
        {
            proof {
                assert(self.spec_clients().take(i + 1).drop_last() =~= self.spec_clients().take(
                    i as int,
                ));
                assert(self.spec_clients().take(i + 1).last() == self.spec_clients()[i as int]);
            }
            if self.clients[i].client.is_established() {
                let part = self.clients[i].addr.display_string();
                s.append(part.as_str());
                s.append(",");
            }
            i = i + 1;
        }
        proof {
            assert(self.spec_clients().take(n as int) =~= self.spec_clients());
        }
        s
    }

    /// Whether the client at `remote` has begun shutting down; nothing when
    /// no such client exists.
    pub fn shutdown_started(&self, remote_addr: &RemoteAddr) -> (r: Option<bool>)
        requires
            self.wf(),
        ensures
            !self.spec_has_client(remote_addr.key()) ==> r is None,
            self.spec_has_client(remote_addr.key()) ==> r == Option::Some(
                self.spec_client(remote_addr.key()).spec_shutdown_started(),
            ),
    {
        match self.find_client(remote_addr) {
            Some(i) => {
                proof {
                    let j = cli_idx(self.spec_clients(), remote_addr.key());
                    assert(self.spec_clients()[j].addr.key() == remote_addr.key());
                    assert(j == i);
                }
                Some(self.clients[i].client.shutdown_started())
            },
            None => None,
        }
    }

    /// The client's activity, send and receive clock ages at `now`, in
    /// milliseconds; nothing when no such client exists.
    pub fn client_activity(&self, remote_addr: &RemoteAddr, now: u64) -> (r: Option<(
        u64,
        u64,
        u64,
    )>)
        requires
            self.wf(),
        ensures
            !self.spec_has_client(remote_addr.key()) ==> r is None,
            self.spec_has_client(remote_addr.key()) ==> {
                let c = self.spec_client(remote_addr.key());
                r == Option::Some(
                    (
                        spec_elapsed(now, c.last_activity),
                        spec_elapsed(now, c.last_sent),
                        spec_elapsed(now, c.last_received),
                    ),
                )
            },
    {
        match self.find_client(remote_addr) {
            Some(i) => {
                proof {
                    let j = cli_idx(self.spec_clients(), remote_addr.key());
                    assert(self.spec_clients()[j].addr.key() == remote_addr.key());
                    assert(j == i);
                }
                let c = &self.clients[i].client;
                Some(
                    (
                        elapsed(now, c.last_activity),
                        elapsed(now, c.last_sent),
                        elapsed(now, c.last_received),
                    ),
                )
            },
            None => None,
        }
    }

    /// Framing for one in-place client-table update that keeps the slot's
    /// address: the table stays well keyed, and every other slot reads back
    /// unchanged.
    proof fn lemma_client_update_framing(self, pre: Server, i: int, a: (Seq<char>, u16, bool))
        requires
            cli_unique(pre.spec_clients()),
            0 <= i < pre.spec_clients().len(),
            self.spec_clients().len() == pre.spec_clients().len(),
            forall|j: int|
                0 <= j < pre.spec_clients().len() && j != i ==> #[trigger] self.spec_clients()[j]
                    == pre.spec_clients()[j],
            self.spec_clients()[i].addr.key() == pre.spec_clients()[i].addr.key(),
            pre.spec_clients()[i].addr.key() == a,
        ensures
            cli_unique(self.spec_clients()),
            self.spec_has_client(a),
            pre.spec_has_client(a),
            cli_idx(self.spec_clients(), a) == i,
            cli_idx(pre.spec_clients(), a) == i,
            self.spec_client(a) == self.spec_clients()[i].client,
            forall|a2: (Seq<char>, u16, bool)|
                a2 != a ==> #[trigger] self.spec_has_client(a2) == pre.spec_has_client(a2),
            forall|a2: (Seq<char>, u16, bool)|
                a2 != a && pre.spec_has_client(a2) ==> #[trigger] self.spec_client(a2)
                    == pre.spec_client(a2),
    {
        let c_old = pre.spec_clients();
        let c_new = self.spec_clients();
        assert(c_new[i].addr.key() == a);
        assert forall|p: int, q: int| 0 <= p < q < c_new.len() implies c_new[p].addr.key()
            != c_new[q].addr.key() by {
            assert(c_old[p].addr.key() != c_old[q].addr.key());
        }
        assert(cli_idx(c_new, a) == i) by {
            let j = cli_idx(c_new, a);
            assert(c_new[j].addr.key() == a);
            if j != i {
                assert(c_old[j].addr.key() == a);
            }
        }
        assert(cli_idx(c_old, a) == i) by {
            let j = cli_idx(c_old, a);
            assert(c_old[j].addr.key() == a);
        }
        assert forall|a2: (Seq<char>, u16, bool)| a2 != a implies #[trigger] self.spec_has_client(
            a2,
        ) == pre.spec_has_client(a2) by {
            if pre.spec_has_client(a2) {
                let j = cli_idx(c_old, a2);
                assert(j != i);
                assert(c_new[j].addr.key() == a2);
            }
            if self.spec_has_client(a2) {
                let j = cli_idx(c_new, a2);
                assert(j != i);
                assert(c_old[j].addr.key() == a2);
            }
        }
        assert forall|a2: (Seq<char>, u16, bool)| a2 != a && pre.spec_has_client(a2) implies
            #[trigger] self.spec_client(a2) == pre.spec_client(a2) by {
            let j = cli_idx(c_old, a2);
            assert(j != i);
            assert(c_new[j].addr.key() == a2);
            let j2 = cli_idx(c_new, a2);
            assert(c_new[j2].addr.key() == a2);
            if j2 != i {
                assert(c_old[j2].addr.key() == a2);
            }
            assert(j2 == j);
        }
    }
}

/// How many client slots have not fully shut down.
pub open spec fn active_count(s: Seq<ClientEntry>) -> nat
    decreases s.len(),
{
    if s.len() == 0 {
        0
    } else {
        active_count(s.drop_last()) + (if !s.last().client.spec_is_shutdown() {
            1nat
        } else {
            0nat
        })
    }
}

/// The text listing the fully established clients, in table order: each
/// one's display form followed by a comma.
pub open spec fn client_list_text(s: Seq<ClientEntry>) -> Seq<char>
    decreases s.len(),
{
    if s.len() == 0 {
        Seq::empty()
    } else {
        client_list_text(s.drop_last()) + (if s.last().client.spec_is_established() {
            s.last().addr.spec_display_string() + ","@
        } else {
            Seq::empty()
        })
    }
}

/// Whether a received UDP payload fits inside the transport MTU.  The
/// embedding program's receive loop surfaces an oversized read as an I/O
/// error instead of feeding it to the server.
pub fn datagram_len_ok(len: usize) -> (r: bool)
    ensures
        r == (len <= MAX_UDP_PAYLOAD_SIZE),
{
    len <= MAX_UDP_PAYLOAD_SIZE
}

/// Authenticated before admitted: in a well-formed server, every client
/// slot belongs to an address that completed a matched STUN exchange —
/// its binding request named a live pending session, and the signed success
/// was queued toward it.  Client slots are created nowhere else.
pub proof fn lemma_clients_are_authenticated(s: Server, i: int)
    requires
        s.wf(),
        0 <= i < s.spec_clients().len(),
    ensures
        s.spec_authenticated().contains(s.spec_clients()[i].addr.key()),
{
}

} // verus!

//! Server core of an unreliable WebRTC data-channel transport.
//!
//! A browser peer negotiates a data channel out of band: it submits an SDP
//! offer to a `SessionEndpoint`, receives a JSON answer, and then opens a
//! UDP flow carrying STUN, DTLS and SCTP toward a single server socket shared
//! by all peers.  This crate holds the verified heart of that server: the SDP
//! codec, the per-peer client state machine, the session and client tables
//! with their three timeout clocks, and the packet classification and
//! housekeeping rules.  Socket I/O, the DTLS/SCTP transport and the periodic
//! timer are collaborators driven by the embedding program, which exchanges
//! plain byte buffers and events with this core.

mod addr;
mod client;
mod numfmt;
mod pool;
mod queue;
mod rng;
mod sdp;
mod server;

pub use addr::RemoteAddr;
pub use numfmt::{dec_seq, push_dec_u16, push_dec_u32};
pub use pool::BufferPool;
pub use queue::{in_queue, out_queue};
pub use rng::{alnum_seq, is_alnum_char, rand_alnum_string, rand_u32};
pub use sdp::{apply_line, clip_line, gen_sdp_response, has_prefix, lemma_parse_sdp_pure,
    parse_sdp_fields, parsed_mid, scan_sdp, spec_parse_sdp, spec_sdp_answer, strip_cr, SdpError,
    SdpFields};
pub use server::{datagram_len_ok, ClientEntry, ErrorMessage, IncomingSession, MessageBuffer,
    MessageResult, OutboundPacket, PacketDispatch, PendingSession, SendError, Server,
    SessionEndpoint, SessionError, StunUser};
pub use server::{active_count, addr_keys, cli_has, cli_idx, cli_unique, client_addr_keys,
    client_evicted_live, client_list_text, client_live, eviction_events, events_view,
    lemma_clients_are_authenticated, live_clients, live_sessions, sess_has, sess_idx,
    sess_key_of, sess_unique, session_live, spec_elapsed};

pub use client::{Client, ClientError, ClientState, MessageType, QueuedMessage, MAX_MESSAGE_LEN,
    MAX_UDP_PAYLOAD_SIZE};
pub use client::lemma_start_shutdown_idempotent;

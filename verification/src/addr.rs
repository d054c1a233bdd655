//! The remote UDP endpoint of a peer, as the server logic sees it.
//!
//! The socket types of the embedding program stay outside this crate; the
//! logic only needs the address as an identity (the key of the client table)
//! and as text (for observability events).  The embedding program renders
//! the IP once, when the datagram arrives, and hands it over as a string.

use vstd::prelude::*;

use crate::numfmt::{dec_seq, push_dec_u16};

verus! {

/// A peer's UDP endpoint: the rendered IP address, the port, and whether
/// the address is IPv6.
#[derive(Debug)]
pub struct RemoteAddr {
    pub ip: String,
    pub port: u16,
    pub is_ipv6: bool,
}

impl RemoteAddr {
    /// The identity of the endpoint, the key of the client table.
    pub open spec fn key(self) -> (Seq<char>, u16, bool) {
        (self.ip@, self.port, self.is_ipv6)
    }

    pub fn new(ip: String, port: u16, is_ipv6: bool) -> (r: RemoteAddr)
        ensures
            r.key() == (ip@, port, is_ipv6),
    {
        RemoteAddr { ip, port, is_ipv6 }
    }

    /// A copy with the same identity.
    pub fn duplicate(&self) -> (r: RemoteAddr)
        ensures
            r.key() == self.key(),
    {
        RemoteAddr { ip: self.ip.clone(), port: self.port, is_ipv6: self.is_ipv6 }
    }

    /// The text of the endpoint in observability events: `ip:port`.
    pub open spec fn spec_event_string(self) -> Seq<char> {
        self.ip@ + ":"@ + dec_seq(self.port as nat)
    }

    pub fn event_string(&self) -> (r: String)
        ensures
            r@ == self.spec_event_string(),
    {
        let mut s = String::new();
        s.append(self.ip.as_str());
        s.append(":");
        push_dec_u16(&mut s, self.port);
        s
    }

    /// The text of the endpoint in client listings: `ip:port`, with the IP
    /// bracketed when it is IPv6.
    pub open spec fn spec_display_string(self) -> Seq<char> {
        if self.is_ipv6 {
            "["@ + self.ip@ + "]:"@ + dec_seq(self.port as nat)
        } else {
            self.ip@ + ":"@ + dec_seq(self.port as nat)
        }
    }

    pub fn display_string(&self) -> (r: String)
        ensures
            r@ == self.spec_display_string(),
    {
        let mut s = String::new();
        if self.is_ipv6 {
            s.append("[");
            s.append(self.ip.as_str());
            s.append("]:");
        } else {
            s.append(self.ip.as_str());
            s.append(":");
        }
        push_dec_u16(&mut s, self.port);
        s
    }
}

impl PartialEq for RemoteAddr {
    fn eq(&self, other: &RemoteAddr) -> (r: bool) {
        self.ip == other.ip && self.port == other.port && self.is_ipv6 == other.is_ipv6
    }
}

impl vstd::std_specs::cmp::PartialEqSpecImpl for RemoteAddr {
    open spec fn obeys_eq_spec() -> bool {
        true
    }

    open spec fn eq_spec(&self, other: &RemoteAddr) -> bool {
        self.key() == other.key()
    }
}

} // verus!

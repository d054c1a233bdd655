//! SDP codec: extract the ICE attributes from an offer, and render the JSON
//! answer.
//!
//! The parser is line oriented over CRLF-or-LF terminated records.  Each
//! recognized attribute line (`a=ice-ufrag:`, `a=ice-pwd:`, `a=mid:`)
//! overwrites the value captured so far, so the last occurrence wins, as a
//! sequential scan would leave it.  Lines are clipped to 512 characters
//! before matching, silently.  All three attributes must end up non-empty,
//! else the offer is rejected.

use vstd::prelude::*;
use vstd::string::*;

use crate::numfmt::{dec_seq, push_dec_u16, push_dec_u32};

verus! {

/// Why an SDP offer was rejected: at least one of `ice-ufrag`, `ice-pwd`
/// and `mid` is missing or empty.
#[derive(Clone, Copy, PartialEq, Eq, Structural, Debug)]
pub enum SdpError {
    MissingAttribute,
}

/// The three attributes extracted from an SDP offer.
#[derive(Debug)]
pub struct SdpFields {
    pub ice_ufrag: String,
    pub ice_passwd: String,
    pub mid: String,
}

/// A line with its terminator and any trailing carriage return removed.
pub open spec fn strip_cr(l: Seq<char>) -> Seq<char> {
    if l.len() > 0 && l.last() == '\r' {
        l.drop_last()
    } else {
        l
    }
}

/// A line as the parser sees it: terminator stripped, clipped to 512
/// characters.
pub open spec fn clip_line(l: Seq<char>) -> Seq<char> {
    let s = strip_cr(l);
    if s.len() > 512 {
        s.take(512)
    } else {
        s
    }
}

pub open spec fn has_prefix(l: Seq<char>, p: Seq<char>) -> bool {
    p.len() <= l.len() && l.take(p.len() as int) == p
}

/// The captured `(ice-ufrag, ice-pwd, mid)` values after one more line.
pub open spec fn apply_line(
    st: (Seq<char>, Seq<char>, Seq<char>),
    raw: Seq<char>,
) -> (Seq<char>, Seq<char>, Seq<char>) {
    let l = clip_line(raw);
    if has_prefix(l, "a=ice-ufrag:"@) {
        (l.skip("a=ice-ufrag:"@.len() as int), st.1, st.2)
    } else if has_prefix(l, "a=ice-pwd:"@) {
        (st.0, l.skip("a=ice-pwd:"@.len() as int), st.2)
    } else if has_prefix(l, "a=mid:"@) {
        (st.0, st.1, l.skip("a=mid:"@.len() as int))
    } else {
        st
    }
}

/// Scan the rest of the offer: `cur` is the current, still unterminated
/// line, `st` the values captured so far.
pub open spec fn scan_sdp(
    rest: Seq<char>,
    cur: Seq<char>,
    st: (Seq<char>, Seq<char>, Seq<char>),
) -> (Seq<char>, Seq<char>, Seq<char>)
    decreases rest.len(),
{
    if rest.len() == 0 {
        apply_line(st, cur)
    } else if rest[0] == '\n' {
        scan_sdp(rest.skip(1), Seq::empty(), apply_line(st, cur))
    } else {
        scan_sdp(rest.skip(1), cur.push(rest[0]), st)
    }
}

/// What parsing an offer yields: the three attribute values when all are
/// present and non-empty, nothing otherwise.
pub open spec fn spec_parse_sdp(s: Seq<char>) -> Option<(Seq<char>, Seq<char>, Seq<char>)> {
    let st = scan_sdp(s, Seq::empty(), (Seq::<char>::empty(), Seq::<char>::empty(), Seq::<char>::empty()));
    if st.0.len() > 0 && st.1.len() > 0 && st.2.len() > 0 {
        Some(st)
    } else {
        None
    }
}

/// The `mid` that parsing captures, for an offer that parses.
pub open spec fn parsed_mid(s: Seq<char>) -> Seq<char> {
    match spec_parse_sdp(s) {
        Option::Some(t) => t.2,
        Option::None => Seq::empty(),
    }
}

/// Parsing is a pure function of the offer text: any two results computed
/// for the same text are the same.
pub proof fn lemma_parse_sdp_pure(
    s: Seq<char>,
    r1: Option<(Seq<char>, Seq<char>, Seq<char>)>,
    r2: Option<(Seq<char>, Seq<char>, Seq<char>)>,
)
    requires
        r1 == spec_parse_sdp(s),
        r2 == spec_parse_sdp(s),
    ensures
        r1 == r2,
{
}

/// The value captured by a field, as a range of `body`'s characters.
pub open spec fn rng_val(s: Seq<char>, o: Option<(usize, usize)>) -> Seq<char> {
    match o {
        Option::None => Seq::empty(),
        Option::Some(r) => s.subrange(r.0 as int, r.1 as int),
    }
}

pub open spec fn rng_ok(s: Seq<char>, o: Option<(usize, usize)>) -> bool {
    match o {
        Option::None => true,
        Option::Some(r) => r.0 <= r.1 <= s.len(),
    }
}

/// Does the line `body[ls..le]` start with `pfx`?
fn matches_prefix(body: &str, ls: usize, le: usize, pfx: &str) -> (r: bool)
    requires
        ls <= le <= body@.len(),
    ensures
        r == has_prefix(body@.subrange(ls as int, le as int), pfx@),
{
    let ghost l = body@.subrange(ls as int, le as int);
    let plen = pfx.unicode_len();
    if le - ls < plen {
        return false;
    }
    let mut j: usize = 0;
    while j < plen
        invariant
            j <= plen,
            plen == pfx@.len(),
            ls <= le <= body@.len(),
            plen <= le - ls,
            l == body@.subrange(ls as int, le as int),
            forall|k: int| 0 <= k < j ==> l[k] == pfx@[k],
        decreases plen - j,
    {
        let c = body.get_char(ls + j);
        let d = pfx.get_char(j);
        if c != d {
            proof {
                assert(l[j as int] == body@[ls + j as int]);
                assert(l.take(plen as int) != pfx@) by {
                    if l.take(plen as int) == pfx@ {
                        assert(l.take(plen as int)[j as int] == pfx@[j as int]);
                    }
                }
            }
            return false;
        }
        j += 1;
    }
    proof {
        assert(l.take(plen as int) =~= pfx@);
    }
    true
}

/// Strip, clip, and match the line `body[ls..le]` against the three
/// recognized attributes, updating the captured ranges.
fn apply_line_ranges(
    body: &str,
    ls: usize,
    le: usize,
    u: &mut Option<(usize, usize)>,
    p: &mut Option<(usize, usize)>,
    m: &mut Option<(usize, usize)>,
)
    requires
        ls <= le <= body@.len(),
        rng_ok(body@, *old(u)),
        rng_ok(body@, *old(p)),
        rng_ok(body@, *old(m)),
    ensures
        rng_ok(body@, *final(u)),
        rng_ok(body@, *final(p)),
        rng_ok(body@, *final(m)),
        (rng_val(body@, *final(u)), rng_val(body@, *final(p)), rng_val(body@, *final(m)))
            == apply_line(
            (rng_val(body@, *old(u)), rng_val(body@, *old(p)), rng_val(body@, *old(m))),
            body@.subrange(ls as int, le as int),
        ),
{
    let ghost raw = body@.subrange(ls as int, le as int);
    let mut end = le;
    if end > ls && body.get_char(end - 1) == '\r' {
        end = end - 1;
        proof {
            assert(body@.subrange(ls as int, end as int) =~= strip_cr(raw));
        }
    } else {
        proof {
            assert(body@.subrange(ls as int, end as int) =~= strip_cr(raw));
        }
    }
    if end - ls > 512 {
        end = ls + 512;
        proof {
            assert(body@.subrange(ls as int, end as int) =~= clip_line(raw));
        }
    } else {
        proof {
            assert(body@.subrange(ls as int, end as int) =~= clip_line(raw));
        }
    }
    let ghost l = clip_line(raw);
    if matches_prefix(body, ls, end, "a=ice-ufrag:") {
        let plen = "a=ice-ufrag:".unicode_len();
        *u = Some((ls + plen, end));
        proof {
            assert(body@.subrange(ls + plen as int, end as int) =~= l.skip(plen as int));
        }
    } else if matches_prefix(body, ls, end, "a=ice-pwd:") {
        let plen = "a=ice-pwd:".unicode_len();
        *p = Some((ls + plen, end));
        proof {
            assert(body@.subrange(ls + plen as int, end as int) =~= l.skip(plen as int));
        }
    } else if matches_prefix(body, ls, end, "a=mid:") {
        let plen = "a=mid:".unicode_len();
        *m = Some((ls + plen, end));
        proof {
            assert(body@.subrange(ls + plen as int, end as int) =~= l.skip(plen as int));
        }
    }
}

/// Extract `ice-ufrag`, `ice-pwd` and `mid` from an SDP offer.
///
/// Returns the three captured values exactly as [`spec_parse_sdp`] describes
/// them, and `MissingAttribute` if and only if at least one of the three is
/// absent or empty.
pub fn parse_sdp_fields(body: &str) -> (r: Result<SdpFields, SdpError>)
    ensures
        match r {
            Ok(f) => spec_parse_sdp(body@) == Some((f.ice_ufrag@, f.ice_passwd@, f.mid@)),
            Err(e) => spec_parse_sdp(body@) is None && e == SdpError::MissingAttribute,
        },
{
    let ghost s = body@;
    let ghost goal = scan_sdp(
        s,
        Seq::empty(),
        (Seq::<char>::empty(), Seq::<char>::empty(), Seq::<char>::empty()),
    );
    let n = body.unicode_len();
    let mut u: Option<(usize, usize)> = None;
    let mut p: Option<(usize, usize)> = None;
    let mut m: Option<(usize, usize)> = None;
    let mut i: usize = 0;
    let mut ls: usize = 0;
    proof {
        assert(s.skip(0) =~= s);
        assert(s.subrange(0, 0) =~= Seq::<char>::empty());
    }
    while i < n
        invariant
            n == s.len(),
            s == body@,
            ls <= i <= n,
            rng_ok(s, u),
            rng_ok(s, p),
            rng_ok(s, m),
            scan_sdp(
                s.skip(i as int),
                s.subrange(ls as int, i as int),
                (rng_val(s, u), rng_val(s, p), rng_val(s, m)),
            ) == goal,
        decreases n - i,
    {
        let c = body.get_char(i);
        let ghost st_before = (rng_val(s, u), rng_val(s, p), rng_val(s, m));
        if c == '\n' {
            apply_line_ranges(body, ls, i, &mut u, &mut p, &mut m);
            proof {
                let rest = s.skip(i as int);
                assert(rest[0] == '\n');
                assert(rest.skip(1) =~= s.skip(i + 1));
                assert(s.subrange(i + 1, i + 1) =~= Seq::<char>::empty());
            }
            ls = i + 1;
        } else {
            proof {
                let rest = s.skip(i as int);
                assert(rest[0] == c);
                assert(rest.skip(1) =~= s.skip(i + 1));
                assert(s.subrange(ls as int, i as int).push(c) =~= s.subrange(ls as int, i + 1));
            }
        }
        i = i + 1;
    }
    proof {
        assert(s.skip(n as int) =~= Seq::<char>::empty());
    }
    apply_line_ranges(body, ls, n, &mut u, &mut p, &mut m);
    let ok = match (&u, &p, &m) {
        (Some(ur), Some(pr), Some(mr)) => ur.0 < ur.1 && pr.0 < pr.1 && mr.0 < mr.1,
        _ => false,
    };
    if !ok {
        return Err(SdpError::MissingAttribute);
    }
    match (u, p, m) {
        (Some((us, ue)), Some((ps, pe)), Some((ms, me))) => {
            let ice_ufrag = String::from_str(body.substring_char(us, ue));
            let ice_passwd = String::from_str(body.substring_char(ps, pe));
            let mid = String::from_str(body.substring_char(ms, me));
            Ok(SdpFields { ice_ufrag, ice_passwd, mid })
        },
        _ => Err(SdpError::MissingAttribute),
    }
}

/// The JSON answer for an accepted offer, character for character: an
/// `answer` object holding the SDP (ice-lite, passive DTLS role, one
/// `webrtc-datachannel` m-line, the certificate digest), and a single host
/// `candidate` for the advertised address.
pub open spec fn spec_sdp_answer(
    rand1: u32,
    rand2: u32,
    fingerprint: Seq<char>,
    ip: Seq<char>,
    is_ipv6: bool,
    port: u16,
    ufrag: Seq<char>,
    passwd: Seq<char>,
    mid: Seq<char>,
) -> Seq<char> {
    let ipv = if is_ipv6 {
        "IP6"@
    } else {
        "IP4"@
    };
    "{\"answer\":{\"sdp\":\"v=0\\r\\no=FTL "@ + dec_seq(rand1 as nat) + " 1 IN "@ + ipv + " "@
        + ip + "\\r\\ns=-\\r\\nc=IN "@ + ipv + " "@ + ip + "\\r\\nt=0 0\\r\\na=ice-lite\\r\\na=ice-ufrag:"@
        + ufrag + "\\r\\na=ice-pwd:"@ + passwd + "\\r\\nm=application "@ + dec_seq(port as nat)
        + " UDP/DTLS/SCTP webrtc-datachannel\\r\\na=max-message-size:1160\\r\\na=fingerprint:sha-256 "@
        + fingerprint + "\\r\\na=ice-options:trickle\\r\\na=setup:passive\\r\\na=mid:"@ + mid
        + "\\r\\na=sctpmap:"@ + dec_seq(port as nat) + " webrtc-datachannel 8000\\r\\na=max-message-size:1160\\r\\na=sendrecv\\r\\na=sctp-port:"@
        + dec_seq(port as nat) + "\\r\\n\",\"type\":\"answer\"},\"candidate\":{\"sdpMLineIndex\":0,\"sdpMid\":\""@
        + mid + "\",\"candidate\":\"candidate:1 1 UDP "@ + dec_seq(rand2 as nat) + " "@ + ip + " "@
        + dec_seq(port as nat) + " typ host\"}}"@
}

/// Render the JSON answer.  `rand1` and `rand2` are caller-supplied random
/// values for the SDP origin and the candidate foundation line.
pub fn gen_sdp_response(
    rand1: u32,
    rand2: u32,
    cert_fingerprint: &str,
    server_ip: &str,
    server_is_ipv6: bool,
    server_port: u16,
    ufrag: &str,
    pass: &str,
    remote_mid: &str,
) -> (r: String)
    ensures
        r@ == spec_sdp_answer(
            rand1,
            rand2,
            cert_fingerprint@,
            server_ip@,
            server_is_ipv6,
            server_port,
            ufrag@,
            pass@,
            remote_mid@,
        ),
{
    let ipv: &str = if server_is_ipv6 {
        "IP6"
    } else {
        "IP4"
    };
    let mut s = String::new();
    s.append("{\"answer\":{\"sdp\":\"v=0\\r\\no=FTL ");
    push_dec_u32(&mut s, rand1);
    s.append(" 1 IN ");
    s.append(ipv);
    s.append(" ");
    s.append(server_ip);
    s.append("\\r\\ns=-\\r\\nc=IN ");
    s.append(ipv);
    s.append(" ");
    s.append(server_ip);
    s.append("\\r\\nt=0 0\\r\\na=ice-lite\\r\\na=ice-ufrag:");
    s.append(ufrag);
    s.append("\\r\\na=ice-pwd:");
    s.append(pass);
    s.append("\\r\\nm=application ");
    push_dec_u16(&mut s, server_port);
    s.append(" UDP/DTLS/SCTP webrtc-datachannel\\r\\na=max-message-size:1160\\r\\na=fingerprint:sha-256 ");
    s.append(cert_fingerprint);
    s.append("\\r\\na=ice-options:trickle\\r\\na=setup:passive\\r\\na=mid:");
    s.append(remote_mid);
    s.append("\\r\\na=sctpmap:");
    push_dec_u16(&mut s, server_port);
    s.append(" webrtc-datachannel 8000\\r\\na=max-message-size:1160\\r\\na=sendrecv\\r\\na=sctp-port:");
    push_dec_u16(&mut s, server_port);
    s.append("\\r\\n\",\"type\":\"answer\"},\"candidate\":{\"sdpMLineIndex\":0,\"sdpMid\":\"");
    s.append(remote_mid);
    s.append("\",\"candidate\":\"candidate:1 1 UDP ");
    push_dec_u32(&mut s, rand2);
    s.append(" ");
    s.append(server_ip);
    s.append(" ");
    push_dec_u16(&mut s, server_port);
    s.append(" typ host\"}}");
    proof {
        assert(s@ =~= spec_sdp_answer(
            rand1,
            rand2,
            cert_fingerprint@,
            server_ip@,
            server_is_ipv6,
            server_port,
            ufrag@,
            pass@,
            remote_mid@,
        ));
    }
    s
}

} // verus!

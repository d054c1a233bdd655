use webrtc_unreliable_core::{gen_sdp_response, parse_sdp_fields, SdpError};

fn offer(ufrag: &str, pwd: &str, mid: &str) -> String {
    format!(
        "v=0\r\no=- 1 1 IN IP4 0.0.0.0\r\ns=-\r\nt=0 0\r\na=ice-ufrag:{}\r\na=ice-pwd:{}\r\na=mid:{}\r\n",
        ufrag, pwd, mid
    )
}

#[test]
fn parse_offer_extracts_all_three_fields() {
    let body = offer("abc", "xyz", "0");
    let f = parse_sdp_fields(&body).unwrap();
    assert_eq!(f.ice_ufrag, "abc");
    assert_eq!(f.ice_passwd, "xyz");
    assert_eq!(f.mid, "0");
}

#[test]
fn parse_offer_accepts_lf_only_lines() {
    let body = "a=ice-ufrag:u\na=ice-pwd:p\na=mid:5\n";
    let f = parse_sdp_fields(body).unwrap();
    assert_eq!(f.ice_ufrag, "u");
    assert_eq!(f.ice_passwd, "p");
    assert_eq!(f.mid, "5");
}

#[test]
fn parse_offer_missing_ufrag_is_rejected() {
    let body = "v=0\r\na=ice-pwd:xyz\r\na=mid:0\r\n";
    assert!(matches!(parse_sdp_fields(body), Err(SdpError::MissingAttribute)));
}

#[test]
fn parse_offer_missing_pwd_is_rejected() {
    let body = "v=0\r\na=ice-ufrag:abc\r\na=mid:0\r\n";
    assert!(matches!(parse_sdp_fields(body), Err(SdpError::MissingAttribute)));
}

#[test]
fn parse_offer_missing_mid_is_rejected() {
    let body = "v=0\r\na=ice-ufrag:abc\r\na=ice-pwd:xyz\r\n";
    assert!(matches!(parse_sdp_fields(body), Err(SdpError::MissingAttribute)));
}

#[test]
fn parse_offer_empty_value_counts_as_missing() {
    let body = "a=ice-ufrag:\r\na=ice-pwd:xyz\r\na=mid:0\r\n";
    assert!(matches!(parse_sdp_fields(body), Err(SdpError::MissingAttribute)));
}

#[test]
fn parse_offer_last_occurrence_wins() {
    let body = "a=ice-ufrag:first\r\na=ice-pwd:p\r\na=mid:0\r\na=ice-ufrag:second\r\n";
    let f = parse_sdp_fields(body).unwrap();
    assert_eq!(f.ice_ufrag, "second");
}

#[test]
fn parse_offer_long_line_is_truncated_without_failing() {
    let long_value: String = std::iter::repeat('a').take(600).collect();
    let body = format!(
        "a=ice-ufrag:{}\r\na=ice-pwd:xyz\r\na=mid:0\r\n",
        long_value
    );
    let f = parse_sdp_fields(&body).unwrap();
    // The line is clipped to 512 characters; 12 of them are the prefix.
    assert_eq!(f.ice_ufrag.len(), 500);
    assert!(f.ice_ufrag.chars().all(|c| c == 'a'));
    assert_eq!(f.ice_passwd, "xyz");
    assert_eq!(f.mid, "0");
}

#[test]
fn parse_offer_is_pure_and_idempotent() {
    let body = offer("abc", "xyz", "0");
    let a = parse_sdp_fields(&body).unwrap();
    let b = parse_sdp_fields(&body).unwrap();
    assert_eq!(a.ice_ufrag, b.ice_ufrag);
    assert_eq!(a.ice_passwd, b.ice_passwd);
    assert_eq!(a.mid, b.mid);
    let bad = "a=ice-pwd:x\r\n";
    assert!(parse_sdp_fields(bad).is_err());
    assert!(parse_sdp_fields(bad).is_err());
}

#[test]
fn answer_matches_template_exactly() {
    let r = gen_sdp_response(7, 9, "AA:BB", "1.2.3.4", false, 5000, "user", "pass", "0");
    let expected = format!(
        "{{\"answer\":{{\"sdp\":\"v=0\\r\\n\
         o=FTL {rand1} 1 IN {ipv} {ip}\\r\\n\
         s=-\\r\\n\
         c=IN {ipv} {ip}\\r\\n\
         t=0 0\\r\\n\
         a=ice-lite\\r\\n\
         a=ice-ufrag:{ufrag}\\r\\n\
         a=ice-pwd:{pass}\\r\\n\
         m=application {port} UDP/DTLS/SCTP webrtc-datachannel\\r\\n\
         a=max-message-size:1160\\r\\n\
         a=fingerprint:sha-256 {fp}\\r\\n\
         a=ice-options:trickle\\r\\n\
         a=setup:passive\\r\\n\
         a=mid:{mid}\\r\\n\
         a=sctpmap:{port} webrtc-datachannel 8000\\r\\n\
         a=max-message-size:1160\\r\\n\
         a=sendrecv\\r\\n\
         a=sctp-port:{port}\\r\\n\",\
         \"type\":\"answer\"}},\"candidate\":{{\"sdpMLineIndex\":0,\
         \"sdpMid\":\"{mid}\",\"candidate\":\"candidate:1 1 UDP {rand2} {ip} {port} \
         typ host\"}}}}",
        rand1 = 7u32,
        rand2 = 9u32,
        fp = "AA:BB",
        ip = "1.2.3.4",
        port = 5000u16,
        ufrag = "user",
        pass = "pass",
        mid = "0",
        ipv = "IP4",
    );
    assert_eq!(r, expected);
}

#[test]
fn answer_declares_passive_ice_lite_role() {
    let r = gen_sdp_response(1, 2, "AA:BB", "10.0.0.9", false, 9000, "u", "p", "3");
    assert!(r.contains("a=setup:passive"));
    assert!(r.contains("a=ice-lite"));
    assert!(r.contains("a=mid:3"));
    assert!(r.contains("a=fingerprint:sha-256 AA:BB"));
    assert!(r.contains("candidate:1 1 UDP 2 10.0.0.9 9000 typ host"));
}

#[test]
fn answer_uses_ip6_family_for_ipv6() {
    let r = gen_sdp_response(1, 2, "AA", "::1", true, 9000, "u", "p", "0");
    assert!(r.contains("o=FTL 1 1 IN IP6 ::1"));
    assert!(r.contains("c=IN IP6 ::1"));
}

#[test]
fn answer_is_valid_json_with_expected_schema() {
    let r = gen_sdp_response(3, 4, "AA:BB", "1.2.3.4", false, 5000, "user", "pass", "0");
    let v: serde_json::Value = serde_json::from_str(&r).unwrap();
    assert_eq!(v["answer"]["type"].as_str().unwrap(), "answer");
    let sdp = v["answer"]["sdp"].as_str().unwrap();
    assert!(sdp.contains("a=ice-ufrag:user"));
    assert!(sdp.contains("a=ice-pwd:pass"));
    assert!(sdp.contains("a=max-message-size:1160"));
    assert_eq!(v["candidate"]["sdpMLineIndex"].as_i64().unwrap(), 0);
    assert_eq!(v["candidate"]["sdpMid"].as_str().unwrap(), "0");
    let cand = v["candidate"]["candidate"].as_str().unwrap();
    assert!(cand.contains("1.2.3.4 5000 typ host"));
}

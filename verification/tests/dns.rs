use bsdkrun::dns::{dns_log_path, ensure_running, handle_query, probe_answered, probe_query, AA, CLASS_IN, QR, RCODE_REFUSED, RD, TYPE_A, TYPE_AAAA};

/// Build a query for `name` with the given qtype.
fn query(name: &str, qtype: u16) -> Vec<u8> {
    let mut q = Vec::new();
    q.extend_from_slice(&0x1234u16.to_be_bytes());
    q.extend_from_slice(&RD.to_be_bytes());
    q.extend_from_slice(&[0, 1, 0, 0, 0, 0, 0, 0]);
    for label in name.split('.') {
        q.push(label.len() as u8);
        q.extend_from_slice(label.as_bytes());
    }
    q.push(0);
    q.extend_from_slice(&qtype.to_be_bytes());
    q.extend_from_slice(&CLASS_IN.to_be_bytes());
    q
}

fn rcode(reply: &[u8]) -> u16 {
    u16::from_be_bytes([reply[2], reply[3]]) & 0xF
}

fn ancount(reply: &[u8]) -> u16 {
    u16::from_be_bytes([reply[6], reply[7]])
}

#[test]
fn a_query_in_zone_answers_loopback() {
    let reply = handle_query(&query("tidy-turing.bsdk", TYPE_A), "bsdk").unwrap();
    assert_eq!(rcode(&reply), 0);
    assert_eq!(ancount(&reply), 1);
    assert!(reply.ends_with(&[127, 0, 0, 1]));
    let flags = u16::from_be_bytes([reply[2], reply[3]]);
    assert_ne!(flags & QR, 0);
    assert_ne!(flags & AA, 0);
    assert_ne!(flags & RD, 0);
}

#[test]
fn aaaa_query_in_zone_answers_v6_loopback() {
    let reply = handle_query(&query("x.bsdk", TYPE_AAAA), "bsdk").unwrap();
    assert_eq!(ancount(&reply), 1);
    let mut v6 = [0u8; 16];
    v6[15] = 1;
    assert!(reply.ends_with(&v6));
}

#[test]
fn other_qtype_in_zone_is_nodata_not_nxdomain() {
    for qtype in [15u16, 16, 65] {
        let reply = handle_query(&query("x.bsdk", qtype), "bsdk").unwrap();
        assert_eq!(rcode(&reply), 0, "qtype {qtype}");
        assert_eq!(ancount(&reply), 0, "qtype {qtype}");
    }
}

#[test]
fn out_of_zone_is_refused() {
    let reply = handle_query(&query("example.com", TYPE_A), "bsdk").unwrap();
    assert_eq!(rcode(&reply), RCODE_REFUSED);
    assert_eq!(ancount(&reply), 0);
}

#[test]
fn zone_matching_is_case_insensitive_and_dot_tolerant() {
    assert_eq!(ancount(&handle_query(&query("A.BSDK", TYPE_A), "bsdk.").unwrap()), 1);
    assert_eq!(ancount(&handle_query(&query("bsdk", TYPE_A), "bsdk").unwrap()), 1);
}

#[test]
fn malformed_and_non_queries_are_dropped() {
    assert!(handle_query(&[0, 1, 2], "bsdk").is_none());
    let mut q = query("x.bsdk", TYPE_A);
    q[2] |= 0x80;
    assert!(handle_query(&q, "bsdk").is_none());
    let mut q = query("x.bsdk", TYPE_A);
    q[12] = 0xC0;
    assert!(handle_query(&q, "bsdk").is_none());
}

#[test]
fn a_reply_echoes_the_id_and_the_question() {
    let q = query("web.bsdk", TYPE_A);
    let reply = handle_query(&q, "bsdk").unwrap();
    assert_eq!(&reply[0..2], &q[0..2]);
    assert_eq!(&reply[12..q.len()], &q[12..]);
    assert_eq!(reply.len(), q.len() + 16);
}

#[test]
fn a_truncated_question_is_dropped() {
    let q = query("web.bsdk", TYPE_A);
    assert!(handle_query(&q[..q.len() - 1], "bsdk").is_none());
    let mut multi = query("web.bsdk", TYPE_A);
    multi[5] = 2;
    assert!(handle_query(&multi, "bsdk").is_none());
}

#[test]
fn the_probe_query_asks_for_probe_under_the_tld() {
    let q = probe_query("bsdk.");
    let mut want = vec![0x42, 0x42, 0x01, 0x00, 0, 1, 0, 0, 0, 0, 0, 0, 5];
    want.extend_from_slice(b"probe");
    want.push(4);
    want.extend_from_slice(b"bsdk");
    want.extend_from_slice(&[0, 0, 1, 0, 1]);
    assert_eq!(q, want);
    let reply = handle_query(&q, "bsdk").unwrap();
    assert!(probe_answered(&reply));
    assert!(!probe_answered(&[1, 2, 3]));
}

#[test]
fn the_responder_is_respawned_unless_its_pid_lives() {
    assert!(!ensure_running(Some("1234"), true));
    assert!(ensure_running(Some("1234"), false));
    assert!(ensure_running(Some("x"), true));
    assert!(ensure_running(None, true));
    assert_eq!(dns_log_path("/s"), "/s/dns.log");
}

use lodestar::config::Config;
use lodestar::dns::resolver::{parse_record, Resolver};
use lodestar::dns::server::{frame, frame_len, handle_query};
use lodestar::dns::{
    encode_name, parse_query, RCODE_NOERROR, RCODE_NXDOMAIN, RCODE_REFUSED, TYPE_A, TYPE_AAAA,
    TYPE_ANY, TYPE_CAA, TYPE_CNAME, TYPE_MX, TYPE_NS, TYPE_SOA, TYPE_SRV, TYPE_TXT,
};
use lodestar::store::{InMemoryStore, Record, Store, Zone};

fn rec(zone_id: &str, name: &str, rtype: &str, value: &str) -> Record {
    Record {
        id: format!("r_{name}_{rtype}"),
        zone_id: zone_id.to_string(),
        name: name.to_string(),
        rtype: rtype.to_string(),
        value: value.to_string(),
        ttl: 300,
        created_at: 0,
    }
}

fn zone(id: &str, name: &str, serial: i64) -> Zone {
    Zone { id: id.to_string(), name: name.to_string(), serial, created_at: 0 }
}

fn resolver_of(zones: &[Zone], records: &[Record]) -> Resolver {
    let mut store = InMemoryStore::new();
    for z in zones {
        store.create_zone(z).unwrap();
    }
    for r in records {
        store.create_record(r).unwrap();
    }
    let mut resolver = Resolver::new();
    resolver.reload(&store, &Config::dev());
    resolver
}

fn loaded() -> Resolver {
    resolver_of(
        &[zone("z1", "w33d.xyz", 5)],
        &[
            rec("z1", "w33d.xyz", "A", "159.195.136.226"),
            rec("z1", "*.w33d.xyz", "A", "159.195.136.226"),
            rec("z1", "w33d.xyz", "MX", "10 mail.w33d.xyz"),
            rec("z1", "w33d.xyz", "TXT", "v=spf1 mx -all"),
            rec("z1", "w33d.xyz", "NS", "ns1.w33d.xyz"),
            rec("z1", "_sip._tcp.w33d.xyz", "SRV", "10 20 5060 sip.w33d.xyz"),
            rec("z1", "w33d.xyz", "CAA", "0 issue letsencrypt.org"),
            rec("z1", "mail.w33d.xyz", "A", "159.195.136.226"),
        ],
    )
}

fn query(id: u16, flags: u16, name: &str, qtype: u16, qclass: u16) -> Vec<u8> {
    let mut out = Vec::new();
    out.extend_from_slice(&id.to_be_bytes());
    out.extend_from_slice(&flags.to_be_bytes());
    out.extend_from_slice(&[0, 1, 0, 0, 0, 0, 0, 0]);
    encode_name(name, &mut out);
    out.extend_from_slice(&qtype.to_be_bytes());
    out.extend_from_slice(&qclass.to_be_bytes());
    out
}

#[test]
fn apex_a_answers() {
    let r = loaded();
    let lk = r.lookup("w33d.xyz", TYPE_A);
    assert_eq!(lk.rcode, RCODE_NOERROR);
    assert!(lk.aa);
    assert_eq!(lk.answers.len(), 1);
}

#[test]
fn wildcard_matches_unknown_subdomain() {
    let r = loaded();
    let lk = r.lookup("anything.w33d.xyz", TYPE_A);
    assert_eq!(lk.rcode, RCODE_NOERROR);
    assert_eq!(lk.answers.len(), 1);
    assert_eq!(lk.answers[0].name, "anything.w33d.xyz");
}

#[test]
fn mx_and_txt_resolve() {
    let r = loaded();
    assert_eq!(r.lookup("w33d.xyz", TYPE_MX).answers.len(), 1);
    assert_eq!(r.lookup("w33d.xyz", TYPE_TXT).answers.len(), 1);
}

#[test]
fn srv_and_caa_resolve() {
    let r = loaded();
    let srv = r.lookup("_sip._tcp.w33d.xyz", TYPE_SRV);
    assert_eq!(srv.answers.len(), 1);
    assert_eq!(srv.answers[0].data.to_text(), "10 20 5060 sip.w33d.xyz.");

    let caa = r.lookup("w33d.xyz", TYPE_CAA);
    assert_eq!(caa.answers.len(), 1);
    assert_eq!(caa.answers[0].data.to_text(), "0 issue \"letsencrypt.org\"");
}

#[test]
fn nodata_vs_nxdomain() {
    let r = loaded();
    // mail.w33d.xyz exists (A) but has no MX -> NODATA (NOERROR, no answers, SOA authority).
    let nodata = r.lookup("mail.w33d.xyz", TYPE_MX);
    assert_eq!(nodata.rcode, RCODE_NOERROR);
    assert!(nodata.answers.is_empty());
    assert_eq!(nodata.authority.len(), 1);
    // A non-authoritative name -> REFUSED.
    assert_eq!(r.lookup("example.com", TYPE_A).rcode, RCODE_REFUSED);
}

#[test]
fn unknown_apex_type_is_nodata_not_nxdomain() {
    let r = loaded();
    // The apex exists; AAAA is absent -> NODATA, never NXDOMAIN.
    let lk = r.lookup("w33d.xyz", TYPE_AAAA);
    assert_eq!(lk.rcode, RCODE_NOERROR);
    assert!(lk.answers.is_empty());
}

#[test]
fn truly_absent_name_is_nxdomain_when_no_wildcard() {
    // A zone with no wildcard: an absent name is NXDOMAIN.
    let r = resolver_of(&[zone("z", "bare.test", 1)], &[rec("z", "bare.test", "A", "10.0.0.1")]);
    assert_eq!(r.lookup("ghost.bare.test", TYPE_A).rcode, RCODE_NXDOMAIN);
}

#[test]
fn an_empty_resolver_refuses() {
    let r = Resolver::new();
    let lk = r.lookup("w33d.xyz", TYPE_A);
    assert_eq!(lk.rcode, RCODE_REFUSED);
    assert!(!lk.aa);
    assert!(lk.answers.is_empty() && lk.authority.is_empty());
    assert_eq!(r.zone_count(), 0);
}

#[test]
fn the_most_specific_zone_answers() {
    let r = resolver_of(
        &[zone("a", "test", 1), zone("b", "sub.test", 2)],
        &[rec("a", "www.sub.test", "A", "10.0.0.1"), rec("b", "www.sub.test", "A", "10.0.0.2")],
    );
    assert_eq!(r.zone_count(), 2);
    assert_eq!(r.lookup("www.sub.test", TYPE_A).answers[0].data.to_text(), "10.0.0.2");
    // "notsub.test" lies below "test" only.
    assert_eq!(r.lookup("notsub.test", TYPE_A).authority[0].name, "test");
}

#[test]
fn negative_answers_carry_the_soa() {
    let r = loaded();
    let lk = r.lookup("mail.w33d.xyz", TYPE_MX);
    assert_eq!(lk.authority[0].name, "w33d.xyz");
    assert_eq!(lk.authority[0].ttl, 300);
    assert_eq!(
        lk.authority[0].data.to_text(),
        "ns1.w33d.xyz. hostmaster.w33d.xyz. 5 7200 3600 1209600 300"
    );
}

#[test]
fn soa_is_answered_at_the_apex_only() {
    let r = loaded();
    let lk = r.lookup("w33d.xyz", TYPE_SOA);
    assert_eq!(lk.answers.len(), 1);
    assert!(lk.authority.is_empty());
    assert!(r.lookup("mail.w33d.xyz", TYPE_SOA).answers.is_empty());
    // ANY at the apex: the SOA and the five stored records.
    assert_eq!(r.lookup("w33d.xyz", TYPE_ANY).answers.len(), 6);
}

#[test]
fn cname_is_followed_in_the_zone() {
    let r = resolver_of(
        &[zone("z", "c.test", 1)],
        &[
            rec("z", "www.c.test", "CNAME", "Host.c.test."),
            rec("z", "host.c.test", "A", "10.0.0.7"),
            rec("z", "*.w.c.test", "CNAME", "host.c.test"),
        ],
    );
    let lk = r.lookup("www.c.test", TYPE_A);
    assert_eq!(lk.answers.len(), 2);
    assert_eq!(lk.answers[0].data.to_text(), "host.c.test.");
    assert_eq!(lk.answers[1].name, "host.c.test");
    assert_eq!(lk.answers[1].data.to_text(), "10.0.0.7");
    // The question for the CNAME itself, and for a type that the target lacks.
    assert_eq!(r.lookup("www.c.test", TYPE_CNAME).answers.len(), 1);
    assert_eq!(r.lookup("www.c.test", TYPE_NS).answers.len(), 1);
    // A wildcard CNAME is answered for the name asked for, and not followed.
    let wild = r.lookup("x.w.c.test", TYPE_A);
    assert_eq!(wild.answers.len(), 1);
    assert_eq!(wild.answers[0].name, "x.w.c.test");
}

#[test]
fn wildcard_of_another_type_is_nodata() {
    let r = loaded();
    let lk = r.lookup("nobody.w33d.xyz", TYPE_MX);
    assert_eq!(lk.rcode, RCODE_NOERROR);
    assert!(lk.answers.is_empty());
    // The wildcard covers names several labels below it.
    assert_eq!(r.lookup("a.b.c.w33d.xyz", TYPE_A).answers.len(), 1);
}

#[test]
fn unparseable_records_are_left_out() {
    let r = resolver_of(
        &[zone("z", "u.test", -4)],
        &[
            rec("z", "u.test", "A", "not an address"),
            rec("z", "u.test", "A", " 10.0.0.9 "),
            rec("z", "u.test", "WKS", "whatever"),
            rec("z", "u.test", "SOA", "never stored"),
        ],
    );
    let lk = r.lookup("u.test", TYPE_A);
    assert_eq!(lk.answers.len(), 1);
    assert_eq!(lk.answers[0].data.to_text(), "10.0.0.9");
    // A negative serial is served as zero.
    assert!(r.lookup("u.test", TYPE_MX).authority[0].data.to_text().contains(" 0 7200 "));
}

#[test]
fn record_parsing_edges() {
    let text = |rtype: &str, value: &str| {
        parse_record(&rec("z", "Name.", rtype, value)).map(|v| v.data.to_text())
    };
    assert_eq!(text("mx", "10 Mail.X."), Some("10 mail.x.".to_string()));
    assert_eq!(text("MX", "10"), None);
    assert_eq!(text("MX", "70000 m"), None);
    assert_eq!(text("MX", ""), None);
    assert_eq!(text("TXT", " \"quoted\" "), Some("\"quoted\"".to_string()));
    assert_eq!(text("TXT", "\""), Some("\"\"\"".to_string()));
    assert_eq!(text("SRV", "1 2 3"), None);
    assert_eq!(text("SRV", "1 2 x t"), None);
    assert_eq!(text("CAA", "0 ISSUE \"a b\""), Some("0 issue \"a b\"".to_string()));
    assert_eq!(text("CAA", "256 issue a"), None);
    assert_eq!(text("CAA", "0 issue"), None);
    assert_eq!(text("AAAA", "::ffff:1.2.3.4"), Some("::ffff:1.2.3.4".to_string()));
    assert_eq!(text("AAAA", "1::2::3"), None);
    assert_eq!(text("A", "1.2.3"), None);
    assert_eq!(text("A", "01.2.3.4"), None);

    let mut long = rec("z", "Name.", "A", "1.2.3.4");
    long.ttl = i64::MAX;
    let v = parse_record(&long).unwrap();
    assert_eq!((v.name.as_str(), v.ttl, v.rtype), ("name", u32::MAX, TYPE_A));
    long.ttl = -1;
    assert_eq!(parse_record(&long).unwrap().ttl, 0);
}

#[test]
fn requests_are_answered_with_their_id() {
    let r = loaded();
    let resp = handle_query(&r, &query(0x1234, 0x0100, "w33d.xyz", TYPE_A, 1), true);
    assert_eq!(&resp[..8], &[0x12, 0x34, 0x85, 0, 0, 1, 0, 1]);
    assert_eq!(parse_query(&resp).unwrap().qname, "w33d.xyz");
}

#[test]
fn bad_requests_get_an_error_header() {
    let r = loaded();
    // Malformed: best-effort id, FORMERR.
    assert_eq!(handle_query(&r, &[0xab, 0xcd, 1], true), [&[0xab, 0xcd, 0x80, 1][..], &[0; 8]].concat());
    assert_eq!(handle_query(&r, &[0xab], true), [&[0, 0, 0x80, 1][..], &[0; 8]].concat());
    // Another opcode: NOTIMP.
    let resp = handle_query(&r, &query(7, 0x1000, "w33d.xyz", TYPE_A, 1), true);
    assert_eq!(resp, [&[0, 7, 0x90, 4][..], &[0; 8]].concat());
    // No question: FORMERR.
    let resp = handle_query(&r, &[0, 7, 1, 0, 0, 0, 0, 0, 0, 0, 0, 0], true);
    assert_eq!(resp, [&[0, 7, 0x81, 1][..], &[0; 8]].concat());
    // Another class: NOTIMP.
    let resp = handle_query(&r, &query(7, 0, "w33d.xyz", TYPE_A, 3), true);
    assert_eq!(resp, [&[0, 7, 0x80, 4][..], &[0; 8]].concat());
}

#[test]
fn long_udp_answers_are_truncated() {
    let long = "x".repeat(600);
    let r = resolver_of(&[zone("z", "t.test", 1)], &[rec("z", "t.test", "TXT", &long)]);
    let request = query(9, 0, "t.test", TYPE_TXT, 1);
    let udp = handle_query(&r, &request, true);
    // Header and question only, with TC and AA set.
    assert_eq!(udp.len(), 12 + 8 + 4);
    assert_eq!(&udp[..8], &[0, 9, 0x86, 0, 0, 1, 0, 0]);
    let tcp = handle_query(&r, &request, false);
    assert!(tcp.len() > 600);
    assert_eq!(&tcp[..8], &[0, 9, 0x84, 0, 0, 1, 0, 1]);
}

#[test]
fn frames_carry_their_length() {
    let framed = frame(&[7; 300]);
    assert_eq!(framed.len(), 302);
    assert_eq!(frame_len([framed[0], framed[1]]), 300);
    assert_eq!(&framed[2..], &[7; 300]);
    // Of a longer message the two low bytes of the length are kept.
    assert_eq!(&frame(&vec![0; 65537])[..2], &[0, 1]);
}

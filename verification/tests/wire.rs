use lodestar::addr::{Ipv4Addr, Ipv6Addr};
use lodestar::dns::wire::decode_name;
use lodestar::dns::{
    build_response, encode_name, encode_txt, header_only_response, parse_query, type_from_str,
    type_to_str, Lookup, Query, RData, Rr, Soa, CLASS_IN, RCODE_FORMERR, RCODE_NOERROR, TYPE_A,
    TYPE_AAAA, TYPE_ANY, TYPE_CAA, TYPE_CNAME, TYPE_MX, TYPE_NS, TYPE_SOA, TYPE_SRV, TYPE_TXT,
};

fn encode_query(id: u16, name: &str, qtype: u16) -> Vec<u8> {
    let mut out = Vec::new();
    out.extend_from_slice(&id.to_be_bytes());
    out.extend_from_slice(&0x0100u16.to_be_bytes()); // RD
    out.extend_from_slice(&1u16.to_be_bytes()); // QDCOUNT
    out.extend_from_slice(&0u16.to_be_bytes());
    out.extend_from_slice(&0u16.to_be_bytes());
    out.extend_from_slice(&0u16.to_be_bytes());
    encode_name(name, &mut out);
    out.extend_from_slice(&qtype.to_be_bytes());
    out.extend_from_slice(&CLASS_IN.to_be_bytes());
    out
}

fn rdata_bytes(data: RData) -> Vec<u8> {
    let mut out = Vec::new();
    data.encode_rdata(&mut out);
    out
}

#[test]
fn roundtrip_question() {
    let buf = encode_query(0x1234, "Foo.W33d.XYZ", TYPE_A);
    let q = parse_query(&buf).unwrap();
    assert_eq!(q.id, 0x1234);
    assert!(q.rd);
    assert_eq!(q.qtype, TYPE_A);
    assert_eq!(q.qclass, CLASS_IN);
    // Normalized: lowercased, no trailing dot.
    assert_eq!(q.qname, "foo.w33d.xyz");
}

#[test]
fn response_header_bits() {
    let q = parse_query(&encode_query(7, "w33d.xyz", TYPE_A)).unwrap();
    let lk = Lookup {
        rcode: RCODE_NOERROR,
        aa: true,
        answers: vec![Rr {
            name: "w33d.xyz".to_string(),
            ttl: 300,
            data: RData::A(Ipv4Addr::new(159, 195, 136, 226)),
        }],
        authority: Vec::new(),
    };
    let resp = build_response(&q, &lk);
    assert_eq!(u16::from_be_bytes([resp[0], resp[1]]), 7);
    let flags = u16::from_be_bytes([resp[2], resp[3]]);
    assert_eq!(flags & 0x8000, 0x8000, "QR set");
    assert_eq!(flags & 0x0400, 0x0400, "AA set");
    assert_eq!(flags & 0x000F, 0, "NOERROR");
    assert_eq!(u16::from_be_bytes([resp[4], resp[5]]), 1, "QDCOUNT");
    assert_eq!(u16::from_be_bytes([resp[6], resp[7]]), 1, "ANCOUNT");
    assert_eq!(u16::from_be_bytes([resp[8], resp[9]]), 0, "NSCOUNT");
}

#[test]
fn txt_splits_long_strings() {
    let mut out = Vec::new();
    encode_txt(&"a".repeat(300), &mut out);
    // 255-byte chunk (1 + 255) then 45-byte chunk (1 + 45).
    assert_eq!(out.len(), 256 + 46);
    assert_eq!(out[0], 255);
    assert_eq!(out[256], 45);
}

#[test]
fn response_bytes_are_exact() {
    let q = parse_query(&encode_query(7, "w33d.xyz", TYPE_A)).unwrap();
    let lk = Lookup {
        rcode: RCODE_NOERROR,
        aa: true,
        answers: vec![Rr {
            name: "w33d.xyz".to_string(),
            ttl: 300,
            data: RData::A(Ipv4Addr::new(159, 195, 136, 226)),
        }],
        authority: Vec::new(),
    };
    let mut expected: Vec<u8> = vec![0, 7, 0x85, 0x00, 0, 1, 0, 1, 0, 0, 0, 0];
    let name: Vec<u8> = vec![4, b'w', b'3', b'3', b'd', 3, b'x', b'y', b'z', 0];
    expected.extend_from_slice(&name);
    expected.extend_from_slice(&[0, 1, 0, 1]);
    expected.extend_from_slice(&name);
    expected.extend_from_slice(&[0, 1, 0, 1, 0, 0, 1, 44, 0, 4, 159, 195, 136, 226]);
    assert_eq!(build_response(&q, &lk), expected);
}

#[test]
fn header_only_echoes_id_opcode_and_rd() {
    assert_eq!(
        header_only_response(0xabcd, 2, true, RCODE_FORMERR),
        vec![0xab, 0xcd, 0x91, 0x01, 0, 0, 0, 0, 0, 0, 0, 0]
    );
}

#[test]
fn names_encode_label_by_label() {
    let mut out = Vec::new();
    encode_name("", &mut out);
    assert_eq!(out, vec![0]);
    let mut out = Vec::new();
    encode_name("a..bc.", &mut out);
    assert_eq!(out, vec![1, b'a', 2, b'b', b'c', 0]);
    let mut out = Vec::new();
    encode_name(&"x".repeat(70), &mut out);
    assert_eq!(out.len(), 65);
    assert_eq!(out[0], 63);
}

#[test]
fn decoding_gives_back_an_encoded_name() {
    let mut out = vec![9, 9, 9];
    encode_name("Mail.Example.test", &mut out);
    out.push(77);
    assert_eq!(decode_name(&out, 3), Some(("Mail.Example.test".to_string(), out.len() - 1)));
}

#[test]
fn decoding_follows_pointers() {
    // "xyz" at 0, then "w33d" and a pointer to 0.
    let buf = vec![3, b'x', b'y', b'z', 0, 4, b'w', b'3', b'3', b'd', 0xC0, 0, 1];
    assert_eq!(decode_name(&buf, 5), Some(("w33d.xyz".to_string(), 12)));
}

#[test]
fn malformed_names_are_refused() {
    assert_eq!(decode_name(&[0xC0, 0], 0), None); // a pointer to itself
    assert_eq!(decode_name(&[0xC0], 0), None); // half a pointer
    assert_eq!(decode_name(&[5, b'a'], 0), None); // a label beyond the end
    assert_eq!(decode_name(&[1, b'a'], 0), None); // no terminator
    assert_eq!(decode_name(&[2, 0xff, 0xfe, 0], 0), None); // no UTF-8
    assert_eq!(decode_name(&[], 0), None);
}

#[test]
fn short_and_empty_queries() {
    assert!(parse_query(&[0; 11]).is_none());
    let q: Query = parse_query(&[0, 9, 0x78, 0, 0, 0, 0, 0, 0, 0, 0, 0]).unwrap();
    assert_eq!((q.id, q.opcode, q.rd), (9, 15, false));
    assert_eq!((q.qname.as_str(), q.qtype, q.qclass), ("", 0, 0));
    let mut cut = encode_query(1, "a.b", TYPE_A);
    cut.pop();
    assert!(parse_query(&cut).is_none());
}

#[test]
fn type_labels_roundtrip() {
    for (t, label) in [
        (TYPE_A, "A"),
        (TYPE_NS, "NS"),
        (TYPE_CNAME, "CNAME"),
        (TYPE_SOA, "SOA"),
        (TYPE_MX, "MX"),
        (TYPE_TXT, "TXT"),
        (TYPE_AAAA, "AAAA"),
        (TYPE_SRV, "SRV"),
        (TYPE_CAA, "CAA"),
        (TYPE_ANY, "ANY"),
    ] {
        assert_eq!(type_to_str(t), label);
        assert_eq!(type_from_str(&format!(" {} ", label.to_lowercase())), Some(t));
    }
    assert_eq!(type_from_str("*"), Some(TYPE_ANY));
    assert_eq!(type_from_str("HINFO"), None);
    assert_eq!(type_to_str(13), "TYPE13");
}

#[test]
fn record_data_bytes() {
    assert_eq!(rdata_bytes(RData::A(Ipv4Addr::new(1, 2, 3, 4))), vec![1, 2, 3, 4]);
    let v6 = Ipv6Addr::parse("2001:db8::1").unwrap();
    assert_eq!(
        rdata_bytes(RData::Aaaa(v6)),
        vec![0x20, 1, 0x0d, 0xb8, 0, 0, 0, 0, 0, 0, 0, 0, 0, 0, 0, 1]
    );
    assert_eq!(
        rdata_bytes(RData::Mx { pref: 266, host: "m".to_string() }),
        vec![1, 10, 1, b'm', 0]
    );
    assert_eq!(
        rdata_bytes(RData::Srv { priority: 1, weight: 2, port: 5060, target: "s".to_string() }),
        vec![0, 1, 0, 2, 0x13, 0xc4, 1, b's', 0]
    );
    assert_eq!(
        rdata_bytes(RData::Caa {
            flags: 128,
            tag: "issue".to_string(),
            value: "ca".to_string()
        }),
        vec![128, 5, b'i', b's', b's', b'u', b'e', b'c', b'a']
    );
    assert_eq!(
        rdata_bytes(RData::Soa(Soa::new("a", "b", 0x01020304))),
        vec![
            1, b'a', 0, 1, b'b', 0, 1, 2, 3, 4, 0, 0, 0x1c, 0x20, 0, 0, 0x0e, 0x10, 0, 0x12, 0x75,
            0, 0, 0, 1, 0x2c
        ]
    );
    assert_eq!(rdata_bytes(RData::Txt(String::new())), vec![0]);
}

#[test]
fn record_data_texts() {
    assert_eq!(RData::Name(TYPE_NS, "ns1.a".to_string()).to_text(), "ns1.a.");
    assert_eq!(RData::Mx { pref: 10, host: "m.a".to_string() }.to_text(), "10 m.a.");
    assert_eq!(RData::Txt("v=spf1".to_string()).to_text(), "\"v=spf1\"");
    assert_eq!(
        RData::Soa(Soa::new("ns1.a", "host.a", 5)).to_text(),
        "ns1.a. host.a. 5 7200 3600 1209600 300"
    );
    assert_eq!(RData::Name(TYPE_CNAME, "x".to_string()).type_code(), TYPE_CNAME);
    assert_eq!(RData::Txt(String::new()).type_code(), TYPE_TXT);
}

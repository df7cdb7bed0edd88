use lodestar::store::{Record, Zone};
use lodestar::zonefile::lexer::{logical_lines, strip_comment, tokenize};
use lodestar::zonefile::{
    normalize_record_value, owner_name, parse_ttl, parse_zone_file, render_zone_file,
    validate_new_record, validate_record_set,
};

fn zone() -> Zone {
    Zone {
        id: "z1".to_string(),
        name: "example.com".to_string(),
        serial: 42,
        created_at: 0,
    }
}

#[test]
fn parses_bind_zone_records() {
    let parsed = parse_zone_file(
        &zone(),
        r#"
$ORIGIN example.com.
$TTL 600
@ IN SOA ns1.example.com. hostmaster.example.com. ( 42 7200 3600 1209600 300 )
@ IN A 192.0.2.10
www 120 IN CNAME @
_sip._tcp IN SRV 10 20 5060 sip
@ IN CAA 0 issue "letsencrypt.org"
"spf value" TXT "v=spf1 mx -all"
"#,
    )
    .unwrap();

    assert_eq!(parsed.len(), 5);
    assert!(parsed.iter().any(|r| {
        r.name == "_sip._tcp.example.com"
            && r.rtype == "SRV"
            && r.value == "10 20 5060 sip.example.com"
    }));
    assert!(parsed
        .iter()
        .any(|r| r.rtype == "CAA" && r.value == "0 issue letsencrypt.org"));
}

#[test]
fn rejects_cname_conflicts_and_duplicates() {
    let records = vec![
        Record {
            id: "r1".to_string(),
            zone_id: "z".to_string(),
            name: "www.example.com".to_string(),
            rtype: "A".to_string(),
            value: "192.0.2.1".to_string(),
            ttl: 300,
            created_at: 0,
        },
        Record {
            id: "r2".to_string(),
            zone_id: "z".to_string(),
            name: "www.example.com".to_string(),
            rtype: "CNAME".to_string(),
            value: "example.com".to_string(),
            ttl: 300,
            created_at: 0,
        },
    ];
    assert!(validate_record_set(&records).is_err());
}

fn record(name: &str, rtype: &str, value: &str, ttl: i64) -> Record {
    Record {
        id: format!("{name}-{rtype}-{value}"),
        zone_id: "z1".to_string(),
        name: name.to_string(),
        rtype: rtype.to_string(),
        value: value.to_string(),
        ttl,
        created_at: 0,
    }
}

fn parse_error(input: &str) -> String {
    parse_zone_file(&zone(), input).unwrap_err()
}

#[test]
fn owner_names_are_relative_to_the_origin() {
    assert_eq!(owner_name("", "a.test"), "a.test");
    assert_eq!(owner_name(" @ ", "a.test"), "a.test");
    assert_eq!(owner_name("WWW", "a.test"), "www.a.test");
    assert_eq!(owner_name("www.a.test.", "a.test"), "www.a.test");
    assert_eq!(owner_name("a.test", "a.test"), "a.test");
    assert_eq!(owner_name("xa.test", "a.test"), "xa.test.a.test");
    assert_eq!(owner_name("*", "a.test"), "*.a.test");
}

#[test]
fn ttls_are_clamped() {
    assert_eq!(parse_ttl(" 120 "), 120);
    assert_eq!(parse_ttl("+7"), 7);
    assert_eq!(parse_ttl("0"), 0);
    assert_eq!(parse_ttl("-1"), 300);
    assert_eq!(parse_ttl(""), 300);
    assert_eq!(parse_ttl("12x"), 300);
    assert_eq!(parse_ttl("2147483648"), 2147483647);
    assert_eq!(parse_ttl("9223372036854775807"), 2147483647);
    assert_eq!(parse_ttl("9223372036854775808"), 300);
}

#[test]
fn values_are_normalized() {
    let ok = |t: &str, v: &str| normalize_record_value(t, v, "a.test").unwrap();
    assert_eq!(ok(" a ", " 10.0.0.1 "), "10.0.0.1");
    assert_eq!(ok("AAAA", "2001:DB8:0:0:0:0:0:1"), "2001:db8::1");
    assert_eq!(ok("NS", "ns1"), "ns1.a.test");
    assert_eq!(ok("cname", "Other.Test."), "other.test");
    assert_eq!(ok("MX", "010 mail"), "10 mail.a.test");
    assert_eq!(ok("MX", "5 \"mail\""), "5 mail.a.test");
    assert_eq!(ok("TXT", "\"v=spf1 -all\""), "v=spf1 -all");
    assert_eq!(ok("SRV", "1 2 3 @"), "1 2 3 a.test");
    assert_eq!(ok("CAA", "0 Issue \"ca.test; x\""), "0 issue ca.test; x");
}

#[test]
fn bad_values_are_refused() {
    let err = |t: &str, v: &str| normalize_record_value(t, v, "a.test").unwrap_err();
    assert_eq!(err("A", "  "), "value is required");
    assert_eq!(err("A", "300.1.1.1"), "invalid IPv4 address for A record");
    assert_eq!(err("AAAA", "10.0.0.1"), "invalid IPv6 address for AAAA record");
    assert_eq!(err("NS", "."), "target name is required");
    assert_eq!(err("MX", "10"), "MX needs: <preference> <host>");
    assert_eq!(err("MX", "x mail"), "MX preference must be 0-65535");
    assert_eq!(err("MX", "10 ."), "MX needs a mail host after the preference");
    assert_eq!(err("SRV", "1 2 3"), "SRV needs: <priority> <weight> <port> <target>");
    assert_eq!(err("SRV", "x 2 3 t"), "SRV priority must be 0-65535");
    assert_eq!(err("SRV", "1 x 3 t"), "SRV weight must be 0-65535");
    assert_eq!(err("SRV", "1 2 65536 t"), "SRV port must be 0-65535");
    assert_eq!(err("SRV", "1 2 3 ."), "SRV target is required");
    assert_eq!(err("CAA", "0 issue"), "CAA needs: <flags> <tag> <value>");
    assert_eq!(err("CAA", "256 issue x"), "CAA flags must be 0-255");
    assert_eq!(err("CAA", "0 is$ue x"), "CAA tag must contain only letters, numbers, '-' or '_'");
    assert_eq!(err("CAA", "0 issue \"\\\"\\\"\""), "CAA value is required");
    assert_eq!(err("SOA", "x"), "unsupported record type: SOA");
}

#[test]
fn record_sets_are_checked() {
    let a = record("www.example.com", "A", "192.0.2.1", 300);
    let same = record("www.example.com", "a", " 192.0.2.1 ", 60);
    let other = record("www.example.com", "A", "192.0.2.2", 300);
    let cname = record("www.example.com", "cname", "example.com", 300);
    let elsewhere = record("example.com", "CNAME", "www.example.com", 300);
    assert_eq!(validate_record_set(&[]), Ok(()));
    assert_eq!(validate_record_set(&[a.clone(), other.clone(), elsewhere.clone()]), Ok(()));
    assert_eq!(
        validate_record_set(&[a.clone(), same]),
        Err("duplicate A record for www.example.com.".to_string())
    );
    assert_eq!(
        validate_new_record(&[a.clone(), other.clone()], &cname),
        Err("CNAME record for www.example.com. cannot coexist with other records at the same name"
            .to_string())
    );
    assert_eq!(validate_new_record(&[a, other], &elsewhere), Ok(()));
}

#[test]
fn comments_quotes_and_tokens() {
    assert_eq!(strip_comment("a ; b"), "a ");
    assert_eq!(strip_comment("a \"x;y\\\";z\" ; b"), "a \"x;y\\\";z\" ");
    let tokens = |s: &str| tokenize(s);
    assert_eq!(
        tokens(" a  \"b c\"d \"e\\\"f\" "),
        Some(vec!["a".to_string(), "b cd".to_string(), "e\"f".to_string()])
    );
    assert_eq!(tokens("\"\""), Some(vec![]));
    assert_eq!(tokens("\"open"), None);
}

#[test]
fn lines_go_on_in_parentheses() {
    let lines = logical_lines("; c\n@ SOA a b ( 1\r\n  2 ) ; x\n\n  A 1.2.3.4\n").unwrap();
    let seen: Vec<(String, bool, usize)> =
        lines.into_iter().map(|l| (l.text, l.leading_space, l.line_no)).collect();
    assert_eq!(
        seen,
        vec![
            ("@ SOA a b   1 2".to_string(), false, 2),
            ("A 1.2.3.4".to_string(), true, 5),
        ]
    );
    assert_eq!(logical_lines("a ( b").unwrap_err(), "line 1: unterminated parenthesized record");
    assert_eq!(logical_lines("x\na ) b").unwrap_err(), "line 2: unmatched ')'");
}

#[test]
fn zone_file_lines_inherit_owner_and_ttl() {
    let parsed = parse_zone_file(
        &zone(),
        "$TTL 60\nwww 120 IN A 192.0.2.1\n  A 192.0.2.2\nIN AAAA ::1\n$ORIGIN sub.example.com.\n\
         m1 IN 30 MX 5 mail\n",
    )
    .unwrap();
    let seen: Vec<String> = parsed
        .iter()
        .map(|r| format!("{} {} {} {}", r.name, r.ttl, r.rtype, r.value))
        .collect();
    assert_eq!(
        seen,
        vec![
            "www.example.com 120 A 192.0.2.1",
            "www.example.com 60 A 192.0.2.2",
            "www.example.com 60 AAAA ::1",
            "m1.sub.example.com 30 MX 5 mail.sub.example.com",
        ]
    );
}

#[test]
fn bad_zone_files_are_refused() {
    assert_eq!(parse_error("@ A \"x"), "line 1: unterminated quote");
    assert_eq!(parse_error("\n$ORIGIN"), "line 2: $ORIGIN needs one value");
    assert_eq!(
        parse_error("$ORIGIN other.test."),
        "line 1: other.test is outside selected zone example.com"
    );
    assert_eq!(parse_error("$ttl 1 2"), "line 1: $TTL needs one value");
    assert_eq!(parse_error("$INCLUDE x"), "line 1: unsupported directive $INCLUDE");
    assert_eq!(parse_error("www 300 IN"), "line 1: missing record type");
    assert_eq!(parse_error("www HINFO x"), "line 1: unsupported record type HINFO");
    assert_eq!(parse_error("www A"), "line 1: missing value for A");
    assert_eq!(parse_error("www A x"), "line 1: invalid IPv4 address for A record");
}

#[test]
fn zone_files_are_rendered_in_order() {
    let records = vec![
        record("www.example.com", "CNAME", "Example.com", 120),
        record("example.com", "txt", "say \"hi\" \\o/", 300),
        record("example.com", "MX", "10 mail.example.com", 300),
        record("example.com", "CAA", "0 issue letsencrypt.org; a b", 300),
        record("_sip._tcp.example.com", "SRV", "10 20 5060 sip.example.com", 60),
        record("other.test", "A", "192.0.2.9", -5),
        record("example.com", "A", "192.0.2.10", 300),
    ];
    assert_eq!(
        render_zone_file(&zone(), &records, "NS1.example.com.", "host.example.com"),
        "$ORIGIN example.com.\n$TTL 300\n\
         @ 300 IN SOA ns1.example.com. host.example.com. 42 7200 3600 1209600 300\n\
         _sip._tcp 60 IN SRV 10 20 5060 sip.example.com.\n\
         @ 300 IN A 192.0.2.10\n\
         @ 300 IN CAA 0 issue \"letsencrypt.org; a b\"\n\
         @ 300 IN MX 10 mail.example.com.\n\
         @ 300 IN TXT \"say \\\"hi\\\" \\\\o/\"\n\
         other.test -5 IN A 192.0.2.9\n\
         www 120 IN CNAME example.com.\n"
    );
}

#[test]
fn a_rendered_zone_file_reads_back() {
    let records = vec![
        record("example.com", "A", "192.0.2.10", 300),
        record("example.com", "TXT", "v=spf1 mx -all", 60),
        record("www.example.com", "CNAME", "example.com", 120),
    ];
    let text = render_zone_file(&zone(), &records, "ns1.example.com", "host.example.com");
    let parsed = parse_zone_file(&zone(), &text).unwrap();
    let seen: Vec<(&str, &str, &str, i64)> = parsed
        .iter()
        .map(|r| (r.name.as_str(), r.rtype.as_str(), r.value.as_str(), r.ttl))
        .collect();
    assert_eq!(
        seen,
        vec![
            ("example.com", "A", "192.0.2.10", 300),
            ("example.com", "TXT", "v=spf1 mx -all", 60),
            ("www.example.com", "CNAME", "example.com", 120),
        ]
    );
}

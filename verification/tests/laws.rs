use lodestar::auth::Session;
use lodestar::config::{audit_settings, normalize_name, Config};
use lodestar::dns::resolver::Resolver;
use lodestar::dns::server::{frame, frame_len, handle_query};
use lodestar::dns::{encode_name, TYPE_A, TYPE_TXT};
use lodestar::handlers::esc;
use lodestar::handlers::zones::{
    add_record, delete_record, export_zone, import_zone, AddForm, DeleteForm, ImportForm, ZoneQuery,
};
use lodestar::store::{InMemoryStore, Record, Store, Zone};
use lodestar::zonefile::{
    owner_name, parse_zone_file, render_zone_file, validate_new_record, validate_record_set,
};

const CSRF: &str = "tok_csrf_for_tests";

fn alice() -> Session {
    Session {
        subject: Some("u_alice".to_string()),
        email: Some("alice@hf".to_string()),
        cookies: Some(format!("__Host-csrf={CSRF}")),
    }
}

fn zone(id: &str, name: &str) -> Zone {
    Zone { id: id.to_string(), name: name.to_string(), serial: 7, created_at: 0 }
}

fn record(id: &str, name: &str, rtype: &str, value: &str) -> Record {
    Record {
        id: id.to_string(),
        zone_id: "z".to_string(),
        name: name.to_string(),
        rtype: rtype.to_string(),
        value: value.to_string(),
        ttl: 300,
        created_at: 0,
    }
}

fn store_of(zones: &[Zone], records: &[Record]) -> InMemoryStore {
    let mut store = InMemoryStore::new();
    for z in zones {
        store.create_zone(z).unwrap();
    }
    for r in records {
        store.create_record(r).unwrap();
    }
    store
}

fn contents(store: &InMemoryStore) -> Vec<(String, String, String, i64)> {
    store.all_records().into_iter().map(|r| (r.name, r.rtype, r.value, r.ttl)).collect()
}

fn query(id: u16, name: &str, qtype: u16) -> Vec<u8> {
    let mut out = id.to_be_bytes().to_vec();
    out.extend_from_slice(&[1, 0, 0, 1, 0, 0, 0, 0, 0, 0]);
    encode_name(name, &mut out);
    out.extend_from_slice(&qtype.to_be_bytes());
    out.extend_from_slice(&[0, 1]);
    out
}

#[test]
fn an_exported_zone_of_every_type_reads_back() {
    let z = zone("z", "example.com");
    let records = vec![
        record("1", "example.com", "A", "192.0.2.10"),
        record("2", "example.com", "AAAA", "2001:db8::1"),
        record("3", "example.com", "CAA", "0 issue letsencrypt.org; policy=ev"),
        record("4", "example.com", "MX", "10 mail.example.com"),
        record("5", "example.com", "NS", "ns1.other.test"),
        record("6", "example.com", "TXT", "say \"hi\" \\o/ ; not a comment"),
        record("7", "_sip._tcp.example.com", "SRV", "10 20 5060 sip.example.com"),
        record("8", "www.example.com", "CNAME", "example.com"),
        record("9", "*.dev.example.com", "A", "192.0.2.11"),
    ];
    let text = render_zone_file(&z, &records, "ns1.example.com", "host.example.com");
    let mut read: Vec<(String, String, String, i64)> = parse_zone_file(&z, &text)
        .unwrap()
        .into_iter()
        .map(|r| (r.name, r.rtype, r.value, r.ttl))
        .collect();
    let mut written: Vec<(String, String, String, i64)> =
        records.into_iter().map(|r| (r.name, r.rtype, r.value, r.ttl)).collect();
    read.sort();
    written.sort();
    assert_eq!(read, written);
}

#[test]
fn some_owners_do_not_read_back() {
    // The owner `mx` is taken for a type, and `10` for a TTL.
    let z = zone("z", "example.com");
    let records = vec![record("1", "mx.example.com", "A", "192.0.2.1")];
    let text = render_zone_file(&z, &records, "ns1.example.com", "host.example.com");
    let parsed = parse_zone_file(&z, &text).unwrap();
    assert_eq!((parsed[0].name.as_str(), parsed[0].rtype.as_str()), ("example.com", "MX"));
    let records = vec![record("1", "10.example.com", "A", "192.0.2.1")];
    let text = render_zone_file(&z, &records, "ns1.example.com", "host.example.com");
    assert_eq!(parse_zone_file(&z, &text).unwrap()[0].name, "example.com");
}

#[test]
fn importing_an_export_changes_no_record() {
    let mut store = store_of(
        &[zone("z", "example.com")],
        &[
            record("1", "example.com", "A", "192.0.2.10"),
            record("2", "www.example.com", "CNAME", "example.com"),
        ],
    );
    let before = contents(&store);
    let export =
        export_zone(&store, &ZoneQuery { zone_id: "z".to_string() }, &Config::dev()).unwrap();
    let form = ImportForm {
        zone_id: "z".to_string(),
        zone_file: export.body,
        csrf_token: CSRF.to_string(),
    };
    assert!(import_zone(&mut store, &alice(), &form).is_ok());
    assert_eq!(contents(&store), before);
    assert!(store.get_zone("z").unwrap().serial > 7);
}

#[test]
fn deleting_undoes_adding() {
    let mut store = store_of(
        &[zone("z", "example.com")],
        &[record("1", "example.com", "A", "192.0.2.10")],
    );
    let before = contents(&store);
    let cfg = Config::dev();
    let mut resolver = Resolver::new();
    resolver.reload(&store, &cfg);
    assert!(resolver.lookup("www.example.com", TYPE_A).answers.is_empty());

    let form = AddForm {
        zone_id: "z".to_string(),
        name: "www".to_string(),
        rtype: "A".to_string(),
        value: "192.0.2.11".to_string(),
        ttl: String::new(),
        csrf_token: CSRF.to_string(),
    };
    assert!(add_record(&mut store, &alice(), &form).is_ok());
    resolver.reload(&store, &cfg);
    assert_eq!(resolver.lookup("www.example.com", TYPE_A).answers.len(), 1);

    let id = store.all_records().into_iter().find(|r| r.name == "www.example.com").unwrap().id;
    let form = DeleteForm { id, csrf_token: CSRF.to_string() };
    assert!(delete_record(&mut store, &alice(), &form).is_ok());
    assert_eq!(contents(&store), before);
    resolver.reload(&store, &cfg);
    assert!(resolver.lookup("www.example.com", TYPE_A).answers.is_empty());
}

#[test]
fn replacing_keeps_the_records_of_other_zones() {
    let mut other = record("2", "other.test", "A", "192.0.2.2");
    other.zone_id = "y".to_string();
    let mut store = store_of(
        &[zone("y", "other.test"), zone("z", "example.com")],
        &[record("1", "example.com", "A", "192.0.2.1"), other],
    );
    store.replace_records("z", &[record("3", "www.example.com", "A", "192.0.2.3")]).unwrap();
    let ids: Vec<String> = store.list_records("y").into_iter().map(|r| r.id).collect();
    assert_eq!(ids, vec!["2"]);
    let ids: Vec<String> = store.list_records("z").into_iter().map(|r| r.id).collect();
    assert_eq!(ids, vec!["3"]);
}

#[test]
fn a_set_is_accepted_where_no_two_records_conflict() {
    let a = record("1", "example.com", "A", "192.0.2.1");
    let b = record("2", "example.com", "TXT", "x");
    let c = record("3", "example.com", "CNAME", "other.test");
    assert!(validate_record_set(&[a.clone(), b.clone()]).is_ok());
    assert!(validate_record_set(&[b.clone(), a.clone()]).is_ok());
    assert!(validate_record_set(&[a.clone(), c.clone()]).is_err());
    assert!(validate_record_set(&[c.clone(), a.clone()]).is_err());
    assert!(validate_new_record(&[a.clone(), b.clone()], &c).is_err());
    assert!(validate_new_record(&[a.clone()], &b).is_ok());
}

#[test]
fn a_record_that_cannot_be_read_does_no_harm() {
    let zones = [zone("z", "example.com")];
    let good = record("1", "example.com", "A", "192.0.2.1");
    let bad = record("2", "www.example.com", "A", "nonsense");
    let cfg = Config::dev();
    let mut with = Resolver::new();
    with.reload(&store_of(&zones, &[good.clone(), bad]), &cfg);
    let mut without = Resolver::new();
    without.reload(&store_of(&zones, &[good]), &cfg);
    for name in ["example.com", "www.example.com", "x.test"] {
        assert_eq!(with.lookup(name, TYPE_A).rcode, without.lookup(name, TYPE_A).rcode);
    }
}

#[test]
fn udp_answers_fit_and_tcp_answers_are_whole() {
    let long = "x".repeat(200);
    let records: Vec<Record> = (0..5)
        .map(|i| record(&i.to_string(), "example.com", "TXT", &format!("{i}{long}")))
        .collect();
    let mut resolver = Resolver::new();
    resolver.reload(&store_of(&[zone("z", "example.com")], &records), &Config::dev());
    let q = query(0xabcd, "example.com", TYPE_TXT);
    let udp = handle_query(&resolver, &q, true);
    let tcp = handle_query(&resolver, &q, false);
    assert!(udp.len() <= 512);
    assert!(tcp.len() > 512);
    for r in [&udp, &tcp] {
        assert_eq!(&r[..2], &[0xab, 0xcd]);
    }
    assert_eq!(udp[2] & 2, 2);
    assert_eq!(tcp[2] & 2, 0);
    let framed = frame(&tcp);
    assert_eq!(frame_len([framed[0], framed[1]]) as usize, tcp.len());
    assert_eq!(&framed[2..], &tcp[..]);
}

#[test]
fn normal_names_stay_normal() {
    for name in ["W33d.XYZ.", "  a.b.. ", "", "."] {
        let n = normalize_name(name);
        assert_eq!(normalize_name(&n), n);
    }
    // A space before the dots at the end is uncovered only by the first pass.
    assert_eq!(normalize_name("a ."), "a ");
    assert_eq!(normalize_name("a "), "a");
    for name in ["www", "@", "", "example.com", "x.Example.com."] {
        let owner = owner_name(name, "example.com");
        assert!(owner == "example.com" || owner.ends_with(".example.com"));
    }
}

#[test]
fn escaped_text_holds_no_markup() {
    let s = esc("<a href=\"x\" title='y'>&amp;</a>");
    assert!(!s.contains(['<', '>', '"', '\'']));
    assert_eq!(esc("<b>") + &esc("&"), esc("<b>&"));
}

#[test]
fn audit_is_off_unless_it_is_switched_on() {
    let off = audit_settings(&[]);
    assert!(!off.enabled);
    assert_eq!(off.url, "http://watchtower:8500");
    assert_eq!(off.token, None);
    let vars: Vec<(String, String)> = [
        ("AUDIT_ENABLED", "Yes"),
        ("WATCHTOWER_URL", "http://audit.test"),
        ("AUDIT_INGEST_TOKEN", "t"),
    ]
    .iter()
    .map(|(k, v)| (k.to_string(), v.to_string()))
    .collect();
    let on = audit_settings(&vars);
    assert!(on.enabled);
    assert_eq!(on.url, "http://audit.test");
    assert_eq!(on.token, Some("t".to_string()));
}

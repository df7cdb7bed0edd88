use lodestar::auth::{authorize, cookie, display_email, ensure_csrf, AuthError, Session};
use lodestar::config::{choose_store, env_nonempty, env_truthy, normalize_name, Config, StoreChoice};
use lodestar::dns::resolver::Resolver;
use lodestar::dns::TYPE_A;
use lodestar::handlers::zones::{
    add_record, api_records, apply_add, apply_delete, apply_import, check_add, check_import,
    delete_record, export_zone, import_zone, index, next_serial, parse_import, render_test,
    stamp_record, stamp_records, AddForm, Chrome, DeleteForm, EditError, ImportForm, IndexQuery,
    ZoneQuery,
};
use lodestar::handlers::healthz;
use lodestar::ids::{epoch_secs, id_from_bytes, SystemError};
use lodestar::seed::{apply_seed, seed_if_empty};
use lodestar::store::{InMemoryStore, Record, Store, StoreError, Zone, ZoneHistory};
use lodestar::zonefile::validate_record_set;
use lodestar::{new_id, now_secs};

const CSRF: &str = "tok_csrf_for_tests";

/// A session with the CSRF cookie and, where one is given, the identity that the gateway injects.
fn session(ident: Option<(&str, &str)>) -> Session {
    Session {
        subject: ident.map(|(sub, _)| sub.to_string()),
        email: ident.map(|(_, email)| email.to_string()),
        cookies: Some(format!("__Host-csrf={CSRF}")),
    }
}

fn alice() -> Session {
    session(Some(("u_alice", "alice@hf")))
}

fn seeded() -> (InMemoryStore, Resolver, Config) {
    let cfg = Config::dev();
    let mut store = InMemoryStore::new();
    assert_eq!(seed_if_empty(&mut store, &cfg), Ok(true));
    let mut resolver = Resolver::new();
    resolver.reload(&store, &cfg);
    (store, resolver, cfg)
}

fn add_form(zone_id: &str, name: &str, rtype: &str, value: &str, ttl: &str) -> AddForm {
    AddForm {
        zone_id: zone_id.to_string(),
        name: name.to_string(),
        rtype: rtype.to_string(),
        value: value.to_string(),
        ttl: ttl.to_string(),
        csrf_token: CSRF.to_string(),
    }
}

fn test_query(q: &str, qtype: &str) -> IndexQuery {
    IndexQuery { q: Some(q.to_string()), qtype: Some(qtype.to_string()) }
}

fn chrome() -> Chrome {
    Chrome {
        template: "<html{{THEME_ATTR}}>{{APPBAR}}<p>{{STATUS}}</p>{{TEST}}{{ZONES}}{{FOOTER}}"
            .to_string(),
        theme_attr: String::new(),
        color_scheme: "light dark".to_string(),
        email: "alice@hf".to_string(),
        csrf: "tok".to_string(),
    }
}

fn status(r: Result<lodestar::handlers::zones::Edit, EditError>) -> u16 {
    r.unwrap_err().status()
}

fn zone(id: &str, name: &str) -> Zone {
    Zone { id: id.to_string(), name: name.to_string(), serial: 1, created_at: 0 }
}

fn record(id: &str, zone_id: &str, name: &str, rtype: &str) -> Record {
    Record {
        id: id.to_string(),
        zone_id: zone_id.to_string(),
        name: name.to_string(),
        rtype: rtype.to_string(),
        value: "v".to_string(),
        ttl: 300,
        created_at: 0,
    }
}

fn env(pairs: &[(&str, &str)]) -> Vec<(String, String)> {
    pairs.iter().map(|(k, v)| (k.to_string(), v.to_string())).collect()
}

#[test]
fn full_zone_flow_in_memory() {
    let (mut store, mut resolver, cfg) = seeded();

    assert_eq!(healthz(), "ok");

    // The seeded zone shows up.
    let none = IndexQuery { q: None, qtype: None };
    let body = index(&store, &resolver, &none, &chrome(), &cfg);
    assert!(body.contains("w33d.xyz"), "seeded zone listed");
    assert!(body.contains("159.195.136.226"), "seeded apex A shown");
    assert!(body.contains("<option value=\"SRV\">SRV</option>"), "SRV form option");
    assert!(body.contains("<option value=\"CAA\">CAA</option>"), "CAA form option");
    assert!(body.contains("Import zone file"), "BIND import form shown");

    // The page mints a CSRF cookie.
    let nobody = Session { subject: None, email: None, cookies: None };
    let minted = ensure_csrf(&nobody, &new_id("csrf").unwrap());
    assert!(minted.set_cookie.unwrap().contains("__Host-csrf="), "mints CSRF cookie");

    // The list of all records.
    let rows = api_records(&store);
    assert!(rows.iter().any(|r| r.value == "v=spf1 mx -all"), "TXT SPF in the list");

    let zone_id = store.list_zones()[0].id.clone();

    // Without identity.
    let form = add_form(&zone_id, "www", "A", "10.1.2.3", "300");
    assert_eq!(status(add_record(&mut store, &session(None), &form)), 401, "no X-Auth -> 401");

    // With a bad CSRF token.
    let mut form = add_form(&zone_id, "www", "A", "10.1.2.3", "");
    form.csrf_token = "WRONG".to_string();
    assert_eq!(status(add_record(&mut store, &alice(), &form)), 401, "CSRF mismatch -> 401");

    // Add a real record (relative name -> www.w33d.xyz).
    let form = add_form(&zone_id, "www", "A", "10.1.2.3", "120");
    assert!(add_record(&mut store, &alice(), &form).is_ok(), "add");
    resolver.reload(&store, &cfg);
    assert!(store.list_zones()[0].serial > 1, "serial bumped");
    let history = store.list_history(&zone_id);
    assert!(
        history.iter().any(|h| h.detail.contains("add A www.w33d.xyz")),
        "add history row stored"
    );

    // The test-query box resolves the new record exactly.
    let body = index(&store, &resolver, &test_query("www.w33d.xyz", "A"), &chrome(), &cfg);
    assert!(body.contains("10.1.2.3"), "exact resolve hits the new record");
    assert!(body.contains("NOERROR"), "status line shown");

    // Duplicate and CNAME conflicts are rejected.
    let form = add_form(&zone_id, "www", "A", "10.1.2.3", "");
    assert_eq!(status(add_record(&mut store, &alice(), &form)), 409, "duplicate record rejected");
    let form = add_form(&zone_id, "www", "CNAME", "@", "");
    assert_eq!(status(add_record(&mut store, &alice(), &form)), 409, "CNAME coexistence rejected");

    // SRV and CAA values validate, normalize and resolve.
    let form = add_form(&zone_id, "_sip._tcp", "SRV", "10 20 5060 sip", "300");
    assert!(add_record(&mut store, &alice(), &form).is_ok(), "SRV add");
    let form = add_form(&zone_id, "@", "CAA", "0 issue \"letsencrypt.org\"", "300");
    assert!(add_record(&mut store, &alice(), &form).is_ok(), "CAA add");
    resolver.reload(&store, &cfg);
    let body = render_test(&resolver, &test_query("_sip._tcp.w33d.xyz", "SRV"));
    assert!(body.contains("5060 sip.w33d.xyz."), "SRV resolves");
    let body = render_test(&resolver, &test_query("w33d.xyz", "CAA"));
    assert!(body.contains("letsencrypt.org"), "CAA resolves");

    // The wildcard answers an unknown subdomain.
    let body = render_test(&resolver, &test_query("whatever.w33d.xyz", "A"));
    assert!(body.contains("159.195.136.226"), "wildcard *.w33d.xyz resolves unknown names");

    // A bad value is rejected at the form.
    let form = add_form(&zone_id, "broken", "A", "not-an-ip", "");
    assert_eq!(status(add_record(&mut store, &alice(), &form)), 400, "invalid A value rejected");

    // Delete the www record.
    let rec = store
        .list_records(&zone_id)
        .into_iter()
        .find(|r| r.name == "www.w33d.xyz")
        .expect("www record exists");
    let form = DeleteForm { id: rec.id, csrf_token: CSRF.to_string() };
    assert!(delete_record(&mut store, &alice(), &form).is_ok(), "delete");
    resolver.reload(&store, &cfg);

    // Gone from the resolver: www now falls through to the wildcard (seed IP, not 10.1.2.3).
    let lk = resolver.lookup("www.w33d.xyz", TYPE_A);
    assert_eq!(lk.answers.len(), 1, "wildcard answer remains");
    assert_eq!(lk.answers[0].data.to_text(), "159.195.136.226");
    let body = render_test(&resolver, &test_query("www.w33d.xyz", "A"));
    assert!(body.contains("159.195.136.226"), "falls through to wildcard");
}

#[test]
fn bind_zone_import_export_in_memory() {
    let (mut store, _resolver, cfg) = seeded();
    let zone_id = store.list_zones()[0].id.clone();

    let zone_text = r#"$ORIGIN w33d.xyz.
$TTL 600
@ IN SOA ns1.w33d.xyz. hostmaster.w33d.xyz. ( 42 7200 3600 1209600 300 )
@ 600 IN A 203.0.113.10
www 120 IN CNAME @
_sip._tcp IN SRV 10 20 5060 sip
@ IN CAA 0 issue "letsencrypt.org"
"#;
    let form = ImportForm {
        zone_id: zone_id.clone(),
        zone_file: zone_text.to_string(),
        csrf_token: CSRF.to_string(),
    };
    assert!(import_zone(&mut store, &alice(), &form).is_ok(), "import");

    let records = store.list_records(&zone_id);
    assert_eq!(records.len(), 4, "SOA skipped, four supported records imported");
    assert!(
        records.iter().any(|r| r.rtype == "SRV" && r.value == "10 20 5060 sip.w33d.xyz"),
        "SRV target normalized"
    );
    assert!(
        store.list_history(&zone_id).iter().any(|h| h.action == "import"),
        "import history row stored"
    );

    let export = export_zone(&store, &ZoneQuery { zone_id: zone_id.clone() }, &cfg).unwrap();
    let body = export.body;
    assert!(body.contains("$ORIGIN w33d.xyz."), "origin exported");
    assert!(body.contains("@ 600 IN A 203.0.113.10"), "A exported");
    assert!(body.contains("www 120 IN CNAME w33d.xyz."), "CNAME exported");
    assert!(body.contains("_sip._tcp 600 IN SRV 10 20 5060 sip.w33d.xyz."), "SRV exported");
    assert!(body.contains("@ 600 IN CAA 0 issue \"letsencrypt.org\""), "CAA exported");
    assert_eq!(export.disposition, "attachment; filename=\"w33d.xyz.zone\"");
}

#[test]
fn the_seed_mirrors_the_live_records() {
    let cfg = Config::dev();
    let mut store = InMemoryStore::new();
    let ids: Vec<String> = (0..11).map(|i| format!("rec_{i}")).collect();
    assert!(apply_seed(&mut store, &cfg, "zone_1", &ids, 77));
    let z = store.get_zone_by_name("w33d.xyz").unwrap();
    assert_eq!((z.id.as_str(), z.serial, z.created_at), ("zone_1", 1, 77));
    let rows: Vec<String> = store
        .all_records()
        .iter()
        .map(|r| format!("{} {} {} {} {}", r.id, r.name, r.rtype, r.value, r.ttl))
        .collect();
    assert_eq!(
        rows,
        vec![
            "rec_0 w33d.xyz A 159.195.136.226 300",
            "rec_1 *.w33d.xyz A 159.195.136.226 300",
            "rec_2 w33d.xyz MX 10 mail.w33d.xyz 300",
            "rec_3 w33d.xyz TXT v=spf1 mx -all 300",
            "rec_4 w33d.xyz NS ns1.w33d.xyz 300",
            "rec_5 w33d.xyz NS ns2.w33d.xyz 300",
            "rec_6 ns1.w33d.xyz A 159.195.136.226 300",
            "rec_7 ns2.w33d.xyz A 159.195.136.226 300",
            "rec_8 id.w33d.xyz A 159.195.136.226 300",
            "rec_9 status.w33d.xyz A 159.195.136.226 300",
            "rec_10 mail.w33d.xyz A 159.195.136.226 300",
        ]
    );
}

#[test]
fn the_seed_has_no_conflicts() {
    let (store, resolver, cfg) = seeded();
    assert!(validate_record_set(&store.all_records()).is_ok());
    let lk = resolver.lookup(&cfg.zone_name, TYPE_A);
    assert_eq!(lk.answers[0].data.to_text(), cfg.seed_ip);
}

#[test]
fn seeding_leaves_a_populated_store_alone() {
    let cfg = Config::dev();
    let mut store = InMemoryStore::new();
    store.create_zone(&zone("z", "own.test")).unwrap();
    assert_eq!(seed_if_empty(&mut store, &cfg), Ok(false));
    assert_eq!(store.list_zones().len(), 1);
    assert!(store.all_records().is_empty());
}

#[test]
fn edits_write_record_serial_and_history() {
    let mut store = InMemoryStore::new();
    store.create_zone(&zone("z", "own.test")).unwrap();
    let form = add_form("z", "www", " a ", "10.0.0.1", "60");
    let z = store.get_zone("z").unwrap();
    let draft = check_add(Some(&z), &[], &form).unwrap();
    let edit =
        apply_add(&mut store, z, &draft, "bob", "rec_1", "hist_1".to_string(), 50).unwrap();
    assert_eq!(edit.zone_name, "own.test");
    assert_eq!(edit.detail, "add A www.own.test -> 10.0.0.1");
    let r = store.get_record("rec_1").unwrap();
    assert_eq!((r.name.as_str(), r.rtype.as_str(), r.ttl, r.created_at), ("www.own.test", "A", 60, 50));
    assert_eq!(store.get_zone("z").unwrap().serial, 50);
    let h: ZoneHistory = store.list_history("z").remove(0);
    assert_eq!(
        (h.id.as_str(), h.actor.as_str(), h.action.as_str(), h.detail.as_str(), h.created_at),
        ("hist_1", "bob", "add", "add A www.own.test -> 10.0.0.1", 50)
    );

    let form = DeleteForm { id: "rec_1".to_string(), csrf_token: CSRF.to_string() };
    let z = store.get_zone("z");
    let edit =
        apply_delete(&mut store, &form, &r, z, "bob", "hist_2".to_string(), 20).unwrap();
    assert_eq!(edit.detail, "delete A www.own.test -> 10.0.0.1");
    assert!(store.all_records().is_empty());
    // The clock stands behind the serial: the serial still grows.
    assert_eq!(store.get_zone("z").unwrap().serial, 51);
}

#[test]
fn deleting_a_record_without_a_zone() {
    let mut store = InMemoryStore::new();
    store.create_record(&record("r", "gone", "a.test", "A")).unwrap();
    let form = DeleteForm { id: "r".to_string(), csrf_token: CSRF.to_string() };
    let edit = delete_record(&mut store, &alice(), &form).unwrap();
    assert_eq!(edit.zone_name, "");
    assert!(store.all_records().is_empty());
    assert!(store.list_history("gone").is_empty());
}

#[test]
fn refused_edits_change_nothing() {
    let mut store = InMemoryStore::new();
    store.create_zone(&zone("z", "own.test")).unwrap();
    let missing = add_form("nope", "www", "A", "10.0.0.1", "");
    let e = add_record(&mut store, &alice(), &missing).unwrap_err();
    assert_eq!((e.status(), e.message()), (404, "no such zone".to_string()));
    let soa = add_form("z", "www", "soa", "x", "");
    let e = add_record(&mut store, &alice(), &soa).unwrap_err();
    assert_eq!((e.status(), e.message()), (400, "unsupported record type: SOA".to_string()));
    let form = DeleteForm { id: "nope".to_string(), csrf_token: CSRF.to_string() };
    let e = delete_record(&mut store, &alice(), &form).unwrap_err();
    assert_eq!((e.status(), e.message()), (404, "no such record".to_string()));
    let import = |file: &str| ImportForm {
        zone_id: "z".to_string(),
        zone_file: file.to_string(),
        csrf_token: CSRF.to_string(),
    };
    let e = import_zone(&mut store, &alice(), &import("; nothing")).unwrap_err();
    assert_eq!(
        (e.status(), e.message()),
        (400, "zone file contains no supported records".to_string())
    );
    let e = import_zone(&mut store, &alice(), &import("www A x")).unwrap_err();
    assert_eq!(e.message(), "line 1: invalid IPv4 address for A record");
    let e = import_zone(&mut store, &alice(), &import("www A 1.2.3.4\nwww CNAME @")).unwrap_err();
    assert_eq!(e.status(), 409);
    let e = export_zone(&store, &ZoneQuery { zone_id: "nope".to_string() }, &Config::dev());
    assert_eq!(e.unwrap_err().status(), 404);
    assert!(store.all_records().is_empty());
    assert_eq!(store.get_zone("z").unwrap().serial, 1);
    assert!(store.list_history("z").is_empty());
}

#[test]
fn strangers_and_forged_forms_are_refused() {
    let mut store = InMemoryStore::new();
    store.create_zone(&zone("z", "own.test")).unwrap();
    store.create_record(&record("r", "z", "own.test", "A")).unwrap();
    let delete = DeleteForm { id: "r".to_string(), csrf_token: CSRF.to_string() };
    let e = delete_record(&mut store, &session(None), &delete).unwrap_err();
    assert_eq!((e.status(), e.message()), (401, "sign in through the gateway".to_string()));
    let import = ImportForm {
        zone_id: "z".to_string(),
        zone_file: "www A 10.0.0.1".to_string(),
        csrf_token: "forged".to_string(),
    };
    let e = import_zone(&mut store, &alice(), &import).unwrap_err();
    assert_eq!((e.status(), e.message()), (401, "CSRF token mismatch".to_string()));
    assert_eq!(store.all_records().len(), 1);
    assert_eq!(store.get_zone("z").unwrap().serial, 1);

    assert_eq!(authorize(&alice(), CSRF), Ok("alice@hf".to_string()));
    assert_eq!(authorize(&alice(), "x"), Err(AuthError::TokenMismatch));
    assert_eq!(authorize(&session(Some((" ", "a@hf"))), CSRF), Err(AuthError::NoIdentity));
    assert_eq!(authorize(&session(Some(("u_bob", ""))), CSRF), Ok("u_bob".to_string()));
    let empty = Session {
        subject: Some("u".to_string()),
        email: None,
        cookies: Some("__Host-csrf=".to_string()),
    };
    assert_eq!(authorize(&empty, ""), Err(AuthError::TokenMismatch));
}

#[test]
fn cookies_and_addresses_are_read_from_the_headers() {
    assert_eq!(cookie("a=1; b=2;a=3", "b"), Some("2".to_string()));
    assert_eq!(cookie("a=1; b=2;a=3", "a"), Some("1".to_string()));
    assert_eq!(cookie("a=1=2", "a"), Some("1=2".to_string()));
    assert_eq!(cookie("a; ab=1", "a"), None);
    assert_eq!(display_email(&alice()), "alice@hf");
    assert_eq!(display_email(&session(None)), "—");
    let kept = ensure_csrf(&alice(), "fresh");
    assert_eq!((kept.token.as_str(), kept.set_cookie), (CSRF, None));
    let nobody = Session { subject: None, email: None, cookies: None };
    let minted = ensure_csrf(&nobody, "fresh");
    assert_eq!(minted.token, "fresh");
    assert_eq!(
        minted.set_cookie.unwrap(),
        "__Host-csrf=fresh; Path=/; Secure; HttpOnly; SameSite=Strict"
    );
}

#[test]
fn an_import_keeps_other_zones() {
    let mut store = InMemoryStore::new();
    store.create_zone(&zone("z", "own.test")).unwrap();
    store.create_record(&record("r1", "z", "own.test", "A")).unwrap();
    store.create_record(&record("r2", "other", "other.test", "A")).unwrap();
    let z = store.get_zone("z").unwrap();
    let parsed = parse_import(Some(&z), "www A 10.0.0.1\n").unwrap();
    assert!(check_import("z", &parsed).is_ok());
    let ids = vec!["n1".to_string()];
    let edit = apply_import(&mut store, z, &parsed, "bob", &ids, "h".to_string(), 9).unwrap();
    assert_eq!(edit.detail, "import BIND zone file (1 records)");
    let left: Vec<String> = store.all_records().into_iter().map(|r| r.id).collect();
    assert_eq!(left, vec!["r2", "n1"]);
}

#[test]
fn checks_decide_without_a_store() {
    let z = zone("z", "own.test");
    let form = add_form("z", "@", "TXT", "\"x y\"", "junk");
    let p = check_add(Some(&z), &[], &form).unwrap();
    assert_eq!((p.name.as_str(), p.value.as_str(), p.ttl), ("own.test", "x y", 300));
    let r = stamp_record("z", &p, "id", 3);
    assert_eq!((r.id.as_str(), r.zone_id.as_str(), r.created_at), ("id", "z", 3));
    assert!(matches!(check_add(None, &[], &form), Err(EditError::NotFound(_))));
    assert!(matches!(check_add(Some(&z), &[r], &form), Err(EditError::Conflict(_))));
    let twice = parse_import(Some(&z), "www A 10.0.0.1\nwww A 10.0.0.1\n").unwrap();
    assert!(matches!(check_import("z", &twice), Err(EditError::Conflict(_))));
    let ids = vec!["a".to_string(), "b".to_string()];
    let stamped: Vec<String> =
        stamp_records("z", &twice, &ids, 3).into_iter().map(|r| r.id).collect();
    assert_eq!(stamped, ids);
}

#[test]
fn error_statuses() {
    let text = || "m".to_string();
    assert_eq!(EditError::Store(StoreError::Conflict(text())).status(), 409);
    assert_eq!(
        EditError::Store(StoreError::Conflict(text())).message(),
        "zone already exists: m"
    );
    assert_eq!(EditError::Store(StoreError::Backend(text())).status(), 500);
    assert_eq!(EditError::Store(StoreError::Backend(text())).message(), "store error: m");
    assert_eq!(EditError::System(SystemError::Clock).status(), 500);
    assert_eq!(EditError::System(SystemError::Randomness).message(), "OS CSPRNG unavailable");
}

#[test]
fn serials_keep_climbing() {
    assert_eq!(next_serial(1, 100), 100);
    assert_eq!(next_serial(100, 100), 101);
    assert_eq!(next_serial(500, 100), 501);
    assert_eq!(next_serial(-7, -9), -6);
}

#[test]
fn the_store_lists_in_order() {
    let mut store = InMemoryStore::new();
    for name in ["b.test", "a.test", "B.test"] {
        store.create_zone(&zone(name, name)).unwrap();
    }
    let names: Vec<String> = store.list_zones().into_iter().map(|z| z.name).collect();
    assert_eq!(names, vec!["B.test", "a.test", "b.test"]);
    assert!(matches!(store.create_zone(&zone("x", "a.test")), Err(StoreError::Conflict(n)) if n == "a.test"));
    assert!(matches!(store.set_serial("nope", 3), Err(StoreError::Backend(m)) if m == "no zone with id nope"));
    assert!(store.set_serial("a.test", 3).is_ok());
    assert_eq!(store.get_zone("a.test").unwrap().serial, 3);

    for (id, name, rtype) in [("1", "b", "MX"), ("2", "b", "A"), ("3", "a", "NS"), ("4", "b", "A")] {
        store.create_record(&record(id, "z", name, rtype)).unwrap();
    }
    let ids: Vec<String> = store.list_records("z").into_iter().map(|r| r.id).collect();
    assert_eq!(ids, vec!["3", "2", "4", "1"]);
    assert!(store.list_records("other").is_empty());
    store.delete_record("2").unwrap();
    store.delete_record("unknown").unwrap();
    assert_eq!(store.all_records().len(), 3);

    for t in 0..30 {
        let entry = ZoneHistory {
            id: format!("h{t}"),
            zone_id: "z".to_string(),
            actor: String::new(),
            action: String::new(),
            detail: String::new(),
            created_at: t / 2,
        };
        store.create_history(&entry).unwrap();
    }
    let seen = store.list_history("z");
    assert_eq!(seen.len(), 25);
    assert_eq!(seen[0].id, "h28");
    assert_eq!(seen[1].id, "h29");
}

#[test]
fn listed_records_name_their_zones() {
    let mut store = InMemoryStore::new();
    store.create_zone(&zone("z", "own.test")).unwrap();
    store.create_record(&record("1", "z", "b", "A")).unwrap();
    store.create_record(&record("2", "gone", "a", "A")).unwrap();
    let rows = api_records(&store);
    let seen: Vec<(&str, &str)> = rows.iter().map(|r| (r.id.as_str(), r.zone.as_str())).collect();
    assert_eq!(seen, vec![("2", ""), ("1", "own.test")]);
}

#[test]
fn an_empty_store_says_so() {
    let store = InMemoryStore::new();
    let none = IndexQuery { q: None, qtype: None };
    let body = index(&store, &Resolver::new(), &none, &chrome(), &Config::dev());
    assert!(body.contains("No zones yet"));
    assert!(body.contains(
        "<p>0 zone(s), 0 record(s) loaded · serving authoritative DNS on 0.0.0.0:5353</p>"
    ));
    assert!(render_test(&Resolver::new(), &test_query(" x ", "zzz"))
        .contains("Unknown query type: ZZZ"));
}

#[test]
fn ids_have_a_prefix_and_sixteen_digits() {
    assert_eq!(id_from_bytes("rec", &[0, 1, 0x0f, 0x10, 0xab, 0xff]), "rec_00010f10abff");
    let a = new_id("zone").unwrap();
    let b = new_id("zone").unwrap();
    assert_eq!(a.len(), 5 + 16);
    assert!(a.starts_with("zone_"));
    assert!(a[5..].chars().all(|c| c.is_ascii_digit() || ('a'..='f').contains(&c)));
    assert_ne!(a, b);
}

#[test]
fn the_clock_is_read_in_seconds() {
    assert!(now_secs().unwrap() > 1_500_000_000);
    assert_eq!(epoch_secs(Some(7)), Ok(7));
    assert_eq!(epoch_secs(Some(i64::MAX as u64)), Ok(i64::MAX));
    assert_eq!(epoch_secs(Some(u64::MAX)), Err(SystemError::Clock));
    assert_eq!(epoch_secs(None), Err(SystemError::Clock));
}

#[test]
fn the_environment_overrides_the_defaults() {
    let cfg = Config::from_env(&env(&[
        ("BIND_ADDR", "127.0.0.1:1"),
        ("LODESTAR_DNS_ADDR", ""),
        ("LODESTAR_ZONE", " Own.Test. "),
        ("LODESTAR_RELOAD_SECS", "0"),
    ]));
    assert_eq!(cfg.bind_addr, "127.0.0.1:1");
    assert_eq!(cfg.dns_addr, "0.0.0.0:5353");
    assert_eq!(cfg.zone_name, "own.test");
    assert_eq!(cfg.reload_secs, 1);
    assert_eq!(cfg.primary_ns, "ns1.w33d.xyz");
    assert_eq!(Config::from_env(&env(&[("LODESTAR_RELOAD_SECS", "x")])).reload_secs, 15);
    assert_eq!(env_nonempty(&env(&[("A", ""), ("B", "c")]), "A"), None);
    assert_eq!(env_nonempty(&env(&[("A", ""), ("B", "c")]), "B"), Some("c".to_string()));
    for (value, on) in [(" ON ", true), ("true", true), ("1", true), ("Yes", true), ("2", false)] {
        assert_eq!(env_truthy(&env(&[("K", value)]), "K"), on);
    }
    assert!(!env_truthy(&[], "K"));
    assert_eq!(normalize_name(" Foo.W33d.XYZ.. "), "foo.w33d.xyz");
}

#[test]
fn the_store_is_chosen_by_the_environment() {
    assert!(matches!(choose_store(&[]), Ok(StoreChoice::Memory)));
    let pg = [("LODESTAR_STORE", "postgres"), ("DATABASE_URL", "u")];
    assert!(matches!(choose_store(&env(&pg)), Ok(StoreChoice::Postgres(u)) if u == "u"));
    assert_eq!(
        choose_store(&env(&[("LODESTAR_STORE", "postgres")])).unwrap_err(),
        "LODESTAR_STORE=postgres requires LODESTAR_DATABASE_URL"
    );
    assert_eq!(
        choose_store(&env(&[("LODESTAR_STORE", "disk")])).unwrap_err(),
        "unknown LODESTAR_STORE=disk (use memory|postgres)"
    );
}

use lodestar::addr::Ipv4Addr;
use lodestar::dns::{Lookup, RData, Rr, TYPE_A};
use lodestar::handlers::calendar::month_abbr;
use lodestar::handlers::zones::EDITABLE_TYPES;
use lodestar::handlers::zones_view::{
    rcode_str, render_history, render_lookup, render_test_card, render_zone, TestOutcome,
};
use lodestar::handlers::{
    app_bar, app_bar_with, error_page, error_page_with, esc, fmt_date, render_user_chip, shell,
    APP_CSS_PATH, FOOTER, LOGOUT_URL,
};
use lodestar::store::{Record, Zone, ZoneHistory};

fn fingerprint(value: &str) -> u64 {
    value
        .as_bytes()
        .iter()
        .fold(0xcbf29ce484222325, |hash, byte| {
            (hash ^ u64::from(*byte)).wrapping_mul(0x100000001b3)
        })
}

fn assert_golden(value: &str, expected_len: usize, expected_hash: u64) {
    assert_eq!(value.len(), expected_len, "whole-output length changed");
    assert_eq!(
        fingerprint(value),
        expected_hash,
        "whole-output fingerprint changed"
    );
}

fn zone() -> Zone {
    Zone {
        id: "zone-1".to_string(),
        name: "example.test".to_string(),
        serial: 42,
        created_at: 0,
    }
}

fn records() -> Vec<Record> {
    vec![
        Record {
            id: "rec-a".to_string(),
            zone_id: "zone-1".to_string(),
            name: "example.test".to_string(),
            rtype: "A".to_string(),
            value: "203.0.113.10".to_string(),
            ttl: 300,
            created_at: 0,
        },
        Record {
            id: "rec-mx".to_string(),
            zone_id: "zone-1".to_string(),
            name: "example.test".to_string(),
            rtype: "MX".to_string(),
            value: "10 mail.example.test".to_string(),
            ttl: 600,
            created_at: 0,
        },
    ]
}

fn history() -> Vec<ZoneHistory> {
    vec![ZoneHistory {
        id: "hist-1".to_string(),
        zone_id: "zone-1".to_string(),
        actor: "alice@example.test".to_string(),
        action: "add".to_string(),
        detail: "add A example.test -> 203.0.113.10".to_string(),
        created_at: 0,
    }]
}

fn answer_lookup() -> Lookup {
    Lookup {
        rcode: 0,
        aa: true,
        answers: vec![Rr {
            name: "example.test".to_string(),
            ttl: 300,
            data: RData::A(Ipv4Addr::new(203, 0, 113, 10)),
        }],
        authority: Vec::new(),
    }
}

#[test]
fn render_zone_representative_golden() {
    let output = render_zone(&zone(), &records(), &history(), "csrf-1", &EDITABLE_TYPES);
    assert_golden(&output, 3315, 0x718ce706884edef5);
    assert_eq!(output.matches("<tr>").count(), 5);
    assert!(output.contains("serial 42"));
}

#[test]
fn render_zone_empty_records_golden() {
    let output = render_zone(&zone(), &[], &[], "csrf-empty", &EDITABLE_TYPES);
    assert_golden(&output, 2263, 0x12f7c83d9c1d4ded);
    assert!(output.contains(r#"<td colspan="5" class="muted">No records.</td>"#));
}

#[test]
fn render_zone_escaping_golden() {
    let hostile_zone = Zone {
        id: "zone<&\"'".to_string(),
        name: "name<&\"'".to_string(),
        serial: 7,
        created_at: 0,
    };
    let hostile_record = Record {
        id: "rec<&\"'".to_string(),
        zone_id: hostile_zone.id.clone(),
        name: "owner<&\"'".to_string(),
        rtype: "TXT<&\"'".to_string(),
        value: "value<&\"'".to_string(),
        ttl: 30,
        created_at: 0,
    };
    let hostile_history = ZoneHistory {
        id: "hist".to_string(),
        zone_id: hostile_zone.id.clone(),
        actor: "actor<&\"'".to_string(),
        action: "action<&\"'".to_string(),
        detail: "detail<&\"'".to_string(),
        created_at: 0,
    };
    let output = render_zone(
        &hostile_zone,
        &[hostile_record],
        &[hostile_history],
        "csrf<&\"'",
        &EDITABLE_TYPES,
    );
    assert_golden(&output, 3020, 0xe6b76af3843e0a82);
    assert!(output.contains("name&lt;&amp;&quot;&#x27;"));
    assert!(!output.contains("owner<&"));
}

#[test]
fn render_zone_editable_types_golden() {
    let output = render_zone(&zone(), &[], &[], "options", &EDITABLE_TYPES);
    assert_golden(&output, 2257, 0x78b2515d7ccfa02f);
    let expected = r#"<select name="rtype"><option value="A">A</option><option value="AAAA">AAAA</option><option value="CNAME">CNAME</option><option value="MX">MX</option><option value="NS">NS</option><option value="TXT">TXT</option><option value="SRV">SRV</option><option value="CAA">CAA</option></select>"#;
    assert!(output.contains(expected));
}

#[test]
fn render_zone_csrf_forms_golden() {
    let records = records();
    let output = render_zone(
        &zone(),
        std::slice::from_ref(&records[0]),
        &[],
        "csrf<&\"'",
        &EDITABLE_TYPES,
    );
    assert_golden(&output, 2772, 0x0e2473f782bc374b);
    assert_eq!(output.matches(r#"name="csrf_token""#).count(), 3);
    assert_eq!(output.matches("csrf&lt;&amp;&quot;&#x27;").count(), 3);
    assert!(output.contains("return confirm('Delete this record?');"));
}

#[test]
fn render_history_representative_golden() {
    let output = render_history(&history());
    assert_golden(&output, 395, 0x2c8ad5f7fc941de3);
    assert!(output.contains("Jan 1, 1970"));
}

#[test]
fn render_history_empty_golden() {
    let output = render_history(&[]);
    assert_golden(&output, 320, 0xdea79e02c1e410d8);
    assert!(output.contains("No local changes yet."));
}

#[test]
fn render_history_escaping_golden() {
    let hostile = ZoneHistory {
        id: "hist".to_string(),
        zone_id: "zone".to_string(),
        actor: "actor<&\"'".to_string(),
        action: "action<&\"'".to_string(),
        detail: "detail<&\"'".to_string(),
        created_at: 0,
    };
    let output = render_history(&[hostile]);
    assert_golden(&output, 417, 0x006e4ff347a78fe1);
    assert!(output.contains("actor&lt;&amp;&quot;&#x27;"));
}

#[test]
fn render_lookup_answer_golden() {
    let output = render_lookup("example.test", TYPE_A, &answer_lookup());
    assert_golden(&output, 145, 0x5755270d03fc5853);
    assert!(output.contains("status: NOERROR aa, 1 answer(s)"));
}

#[test]
fn render_lookup_negative_responses_golden() {
    let nodata = Lookup {
        rcode: 0,
        aa: true,
        ..Default::default()
    };
    let nxdomain = Lookup {
        rcode: 3,
        aa: true,
        ..Default::default()
    };
    let output = format!(
        "{}\n---\n{}",
        render_lookup("nodata.example.test", TYPE_A, &nodata),
        render_lookup("missing.example.test", TYPE_A, &nxdomain)
    );
    assert_golden(&output, 241, 0x8faa2a6f6eff8718);
    assert_eq!(rcode_str(0), "NOERROR");
    assert_eq!(rcode_str(3), "NXDOMAIN");
    assert_eq!(rcode_str(5), "REFUSED");
}

#[test]
fn render_test_card_empty_golden() {
    let output = render_test_card("", "A", &TestOutcome::Empty);
    assert_golden(&output, 857, 0x67be56518852ce89);
    assert!(output.contains(r#"<option value="A" selected>A</option>"#));
}

#[test]
fn render_test_card_unknown_type_golden() {
    let output = render_test_card("bad<&\"'", "ZZZ<&\"'", &TestOutcome::UnknownType);
    assert_golden(&output, 954, 0x397177cc13d4ee38);
    assert!(output.contains("Unknown query type: ZZZ&lt;&amp;&quot;&#x27;"));
}

#[test]
fn render_test_card_resolved_golden() {
    let lookup = Lookup {
        rcode: 0,
        aa: true,
        answers: vec![Rr {
            name: "w33d.xyz".to_string(),
            ttl: 300,
            data: RData::A(Ipv4Addr::new(159, 195, 136, 226)),
        }],
        authority: Vec::new(),
    };
    let output = render_test_card(
        "w33d.xyz",
        "A",
        &TestOutcome::Resolved {
            qname: "w33d.xyz".to_string(),
            qtype: TYPE_A,
            lookup,
        },
    );
    assert_golden(&output, 1009, 0xf25d6d9653f9bd04);
    let start = output.find(r#"<pre class="answer">"#).unwrap();
    let end = output[start..].find("</pre>").unwrap() + start + 6;
    assert_golden(&output[start..end], 144, 0xa217768838ef080c);
    assert!(output.contains("159.195.136.226"));
}

#[test]
fn escaping_replaces_the_five_specials() {
    assert_eq!(esc("a&b<c>d\"e'f"), "a&amp;b&lt;c&gt;d&quot;e&#x27;f");
    assert_eq!(esc("&amp;"), "&amp;amp;");
    assert_eq!(esc("·—"), "·—");
}

#[test]
fn dates_are_utc_days() {
    assert_eq!(fmt_date(0), "Jan 1, 1970");
    assert_eq!(fmt_date(-1), "Dec 31, 1969");
    assert_eq!(fmt_date(951_782_400), "Feb 29, 2000");
    assert_eq!(fmt_date(951_868_799), "Feb 29, 2000");
    assert_eq!(fmt_date(951_868_800), "Mar 1, 2000");
    assert_eq!(fmt_date(1_782_691_200), "Jun 29, 2026");
    assert_eq!(fmt_date(4_107_542_400), "Mar 1, 2100");
    assert_eq!(fmt_date(-377_705_116_800), "Jan 1, -9999");
    assert_eq!(fmt_date(253_402_300_799), "Dec 31, 9999");
    assert_eq!(fmt_date(-377_705_116_801), "-377705116801");
    assert_eq!(fmt_date(253_402_300_800), "253402300800");
    assert_eq!(fmt_date(i64::MIN), "-9223372036854775808");
}

#[test]
fn months_are_abbreviated() {
    let names: Vec<&str> = (1..=12).map(month_abbr).collect();
    assert_eq!(names.join(" "), "Jan Feb Mar Apr May Jun Jul Aug Sep Oct Nov Dec");
}

#[test]
fn the_app_bar_shows_the_user() {
    let bar = app_bar("/", Some("über@x"));
    assert!(bar.contains(r#"<span class="userchip__avatar" aria-hidden="true">Ü</span>"#));
    assert!(bar.contains(r#"<span class="user-email">über@x</span>"#));
    assert!(bar.contains(r#"<a class="surf is-active" href="/" aria-current="page">Zones</a>"#));
    assert!(bar.contains(LOGOUT_URL));
    // One character may have an upper-case form of two.
    assert!(app_bar("/", Some("ßx")).contains(">SS</span>"));
    assert_eq!(bar, app_bar_with("/", &render_user_chip("Ü", "über@x")));
}

#[test]
fn the_app_bar_without_a_session() {
    for email in [None, Some(""), Some("—")] {
        let bar = app_bar("/elsewhere", email);
        assert!(bar.contains("— (no gateway session)"));
        assert!(bar.contains(r#"<a class="surf" href="/">Zones</a>"#));
    }
}

#[test]
fn the_shell_fills_its_placeholders() {
    let page = shell(
        "<html{{THEME_ATTR}}>{{COLOR_SCHEME}}|{{CSS_PATH}}|{{CSS_PATH}}|{{APPBAR}}|{{FOOTER}}",
        "/",
        " data-theme=dark",
        "dark",
        None,
    );
    let expected = format!(
        "<html data-theme=dark>dark|{APP_CSS_PATH}|{APP_CSS_PATH}|{}|{FOOTER}",
        app_bar("/", None)
    );
    assert_eq!(page, expected);
}

#[test]
fn error_pages_name_the_status() {
    let template = "{{THEME_ATTR}}[{{COLOR_SCHEME}}] {{STATUS}} {{HEADING}}: {{MESSAGE}}";
    assert_eq!(error_page(template, 404, "no <zone>"), "[light dark] 404 Not Found: no &lt;zone&gt;");
    assert_eq!(error_page(template, 799, "x"), "[light dark] 799 Error: x");
    assert_eq!(error_page_with(template, 409, "A&B", "x"), "[light dark] 409 A&amp;B: x");
}

#[test]
fn response_codes_have_names() {
    let names: Vec<&str> = (0..=6).map(rcode_str).collect();
    assert_eq!(names.join(" "), "NOERROR FORMERR SERVFAIL NXDOMAIN NOTIMP REFUSED OTHER");
}

#[test]
fn lookups_are_set_in_columns() {
    let lk = Lookup {
        rcode: 5,
        aa: false,
        answers: Vec::new(),
        authority: vec![Rr {
            name: "a".to_string(),
            ttl: 1_000_000,
            data: RData::Txt("x".to_string()),
        }],
    };
    assert_eq!(
        render_lookup("q", 65000, &lk),
        "<pre class=\"answer\">; QUESTION  q. TYPE65000\n; status: REFUSED, 0 answer(s)\n; (no \
         answer records)\n; AUTHORITY  a.                       1000000  TXT    &quot;x&quot;\n</pre>"
    );
}

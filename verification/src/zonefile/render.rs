//! Writing zone files.
use crate::config;
use crate::config::{SOA_EXPIRE, SOA_MINIMUM, SOA_REFRESH, SOA_RETRY};
use crate::digits;
use crate::order;
use crate::order::Order;
use crate::store;
use crate::store::{Record, RecordModel, Zone, ZoneModel};
use crate::text;
use vstd::prelude::*;

verus! {

// ---------------------------------------------------------------------------
// Record data
// ---------------------------------------------------------------------------

/// The canonical form of a name with a dot behind it; the root is a single dot.
pub open spec fn dotted_name(name: Seq<char>) -> Seq<char> {
    if name.len() == 0 {
        "."@
    } else {
        config::canonical(name) + "."@
    }
}

/// `value` in quotes, with a backslash before each backslash and each quote.
pub open spec fn quoted_text(value: Seq<char>) -> Seq<char> {
    "\""@ + text::replaced(text::replaced(value, "\\"@, "\\\\"@), "\""@, "\\\""@) + "\""@
}

/// The word at position `i`, or `default` where there is none.
pub open spec fn word_or(words: Seq<Seq<char>>, i: int, default: Seq<char>) -> Seq<char> {
    if i < words.len() {
        words[i]
    } else {
        default
    }
}

/// How record data is written to a zone file.
pub open spec fn rendered_value(rtype: Seq<char>, value: Seq<char>) -> Seq<char> {
    let t = text::uppered(rtype);
    let words = text::words_of(value);
    if t == "NS"@ || t == "CNAME"@ {
        dotted_name(value)
    } else if t == "MX"@ {
        word_or(words, 0, "10"@) + " "@ + dotted_name(word_or(words, 1, ""@))
    } else if t == "TXT"@ {
        quoted_text(value)
    } else if t == "SRV"@ {
        word_or(words, 0, "0"@) + " "@ + word_or(words, 1, "0"@) + " "@ + word_or(words, 2, "0"@)
            + " "@ + dotted_name(word_or(words, 3, ""@))
    } else if t == "CAA"@ {
        let flags = text::before_first(value, ' ');
        match text::after_first(value, ' ') {
            None => flags + " "@ + "issue"@ + " "@ + quoted_text(""@),
            Some(rest) => flags + " "@ + text::before_first(rest, ' ') + " "@ + quoted_text(
                match text::after_first(rest, ' ') {
                    Some(v) => v,
                    None => ""@,
                },
            ),
        }
    } else {
        value
    }
}

/// The canonical form of a name with a dot behind it.
fn dotted(name: &str) -> (r: String)
    ensures
        r@ == dotted_name(name@),
{
    if name.is_empty() {
        ".".to_string()
    } else {
        text::concat(&config::normalize_name(name), ".")
    }
}

/// Puts `value` in quotes.
fn quote_text(value: &str) -> (r: String)
    ensures
        r@ == quoted_text(value@),
{
    proof {
        reveal_strlit("\\");
        reveal_strlit("\"");
    }
    let escaped = text::replace(&text::replace(value, "\\", "\\\\"), "\"", "\\\"");
    let mut s = "\"".to_string();
    s.push_str(&escaped);
    s.push_str("\"");
    s
}

/// The word at position `i`, or `default`.
fn nth_or(words: &Vec<String>, i: usize, default: &str) -> (r: String)
    ensures
        r@ == word_or(text::views(words@), i as int, default@),
{
    if i < words.len() {
        words[i].clone()
    } else {
        default.to_string()
    }
}

/// Writes record data.
fn render_rdata(rtype: &str, value: &str) -> (r: String)
    ensures
        r@ == rendered_value(rtype@, value@),
{
    let t = text::to_ascii_uppercase(rtype);
    if text::same(&t, "NS") || text::same(&t, "CNAME") {
        dotted(value)
    } else if text::same(&t, "MX") {
        let words = text::split_whitespace(value);
        let mut s = nth_or(&words, 0, "10");
        s.push_str(" ");
        s.push_str(&dotted(&nth_or(&words, 1, "")));
        s
    } else if text::same(&t, "TXT") {
        quote_text(value)
    } else if text::same(&t, "SRV") {
        let words = text::split_whitespace(value);
        let mut s = nth_or(&words, 0, "0");
        s.push_str(" ");
        s.push_str(&nth_or(&words, 1, "0"));
        s.push_str(" ");
        s.push_str(&nth_or(&words, 2, "0"));
        s.push_str(" ");
        s.push_str(&dotted(&nth_or(&words, 3, "")));
        s
    } else if text::same(&t, "CAA") {
        let mut s = text::before(value, ' ');
        s.push_str(" ");
        match text::after(value, ' ') {
            None => {
                s.push_str("issue");
                s.push_str(" ");
                s.push_str(&quote_text(""));
            },
            Some(rest) => {
                s.push_str(&text::before(&rest, ' '));
                s.push_str(" ");
                match text::after(&rest, ' ') {
                    Some(v) => s.push_str(&quote_text(&v)),
                    None => s.push_str(&quote_text("")),
                }
            },
        }
        s
    } else {
        value.to_string()
    }
}

// ---------------------------------------------------------------------------
// Zone files
// ---------------------------------------------------------------------------

/// The owner name `name` relative to the zone: `@` for the apex.
pub open spec fn relative_name(name: Seq<char>, zone: Seq<char>) -> Seq<char> {
    let below = "."@ + zone;
    if name == zone {
        "@"@
    } else if below.is_suffix_of(name) {
        name.take(name.len() - below.len())
    } else {
        name
    }
}

/// Writes an owner name relative to the zone.
fn relative_owner(name: &str, zone: &str) -> (r: String)
    ensures
        r@ == relative_name(name@, zone@),
{
    if text::same(name, zone) {
        return "@".to_string();
    }
    let below = text::concat(".", zone);
    if text::ends_with(name, &below) {
        let v = text::to_chars(name);
        let b = text::to_chars(&below);
        let k: usize = v.len() - b.len();
        assert(v@.subrange(0, k as int) == v@.take(k as int));
        text::from_chars(&v.as_slice()[0..k])
    } else {
        name.to_string()
    }
}

/// The order of records by name, then by type, then by value.
pub struct ByNameTypeValue;

impl Order for ByNameTypeValue {
    type Item = Record;

    open spec fn le(a: RecordModel, b: RecordModel) -> bool {
        if a.name != b.name {
            order::lex_le(a.name, b.name)
        } else if a.rtype != b.rtype {
            order::lex_le(a.rtype, b.rtype)
        } else {
            order::lex_le(a.value, b.value)
        }
    }

    fn not_after(a: &Record, b: &Record) -> (r: bool) {
        if !text::same(&a.name, &b.name) {
            order::str_le(&a.name, &b.name)
        } else if !text::same(&a.rtype, &b.rtype) {
            order::str_le(&a.rtype, &b.rtype)
        } else {
            order::str_le(&a.value, &b.value)
        }
    }
}

/// The line of a record.
pub open spec fn record_line(r: RecordModel, zone: Seq<char>) -> Seq<char> {
    relative_name(r.name, zone) + " "@ + digits::signed_decimal(r.ttl as int) + " IN "@
        + text::uppered(r.rtype) + " "@ + rendered_value(r.rtype, r.value) + "\n"@
}

/// The lines of `records`, one after the other.
pub open spec fn record_lines(records: Seq<RecordModel>, zone: Seq<char>) -> Seq<char>
    decreases records.len(),
{
    if records.len() == 0 {
        Seq::<char>::empty()
    } else {
        record_lines(records.drop_last(), zone) + record_line(records.last(), zone)
    }
}

/// The line of the SOA, which reading skips.
pub open spec fn soa_entry(primary_ns: Seq<char>, hostmaster: Seq<char>, serial: int) -> Seq<char> {
    "@ 300 IN SOA "@ + config::canonical(primary_ns) + ". "@ + config::canonical(hostmaster) + ". "@
        + digits::signed_decimal(serial) + " "@ + digits::decimal(SOA_REFRESH as nat) + " "@
        + digits::decimal(SOA_RETRY as nat) + " "@ + digits::decimal(SOA_EXPIRE as nat) + " "@
        + digits::decimal(SOA_MINIMUM as nat) + "\n"@
}

/// The serial that a zone file shows: never negative.
pub open spec fn shown_serial(serial: i64) -> int {
    if serial < 0 {
        0
    } else {
        serial as int
    }
}

/// The lines before the records: origin, default TTL and SOA.
pub open spec fn zone_header(
    zone: ZoneModel,
    primary_ns: Seq<char>,
    hostmaster: Seq<char>,
) -> Seq<char> {
    "$ORIGIN "@ + zone.name + ".\n"@ + "$TTL 300\n"@ + soa_entry(
        primary_ns,
        hostmaster,
        shown_serial(zone.serial),
    )
}

/// The zone file of `zone`: the header, and the records by name, type and value.
pub open spec fn zone_file(
    zone: ZoneModel,
    records: Seq<RecordModel>,
    primary_ns: Seq<char>,
    hostmaster: Seq<char>,
) -> Seq<char> {
    zone_header(zone, primary_ns, hostmaster) + record_lines(
        order::sorted::<ByNameTypeValue>(records),
        zone.name,
    )
}

/// Writes the line of a record.
fn render_record(r: &Record, zone: &str) -> (line: String)
    ensures
        line@ == record_line(r@, zone@),
{
    let mut s = relative_owner(&r.name, zone);
    s.push_str(" ");
    s.push_str(&digits::signed_decimal_text(r.ttl));
    s.push_str(" IN ");
    s.push_str(&text::to_ascii_uppercase(&r.rtype));
    s.push_str(" ");
    s.push_str(&render_rdata(&r.rtype, &r.value));
    s.push_str("\n");
    s
}

/// Writes the line of the SOA.
fn render_soa(primary_ns: &str, hostmaster: &str, serial: i64) -> (r: String)
    ensures
        r@ == soa_entry(primary_ns@, hostmaster@, serial as int),
{
    let mut s = "@ 300 IN SOA ".to_string();
    s.push_str(&config::normalize_name(primary_ns));
    s.push_str(". ");
    s.push_str(&config::normalize_name(hostmaster));
    s.push_str(". ");
    s.push_str(&digits::signed_decimal_text(serial));
    s.push_str(" ");
    s.push_str(&digits::decimal_text(SOA_REFRESH as u64));
    s.push_str(" ");
    s.push_str(&digits::decimal_text(SOA_RETRY as u64));
    s.push_str(" ");
    s.push_str(&digits::decimal_text(SOA_EXPIRE as u64));
    s.push_str(" ");
    s.push_str(&digits::decimal_text(SOA_MINIMUM as u64));
    s.push_str("\n");
    s
}

/// Writes the lines before the records.
fn render_header(zone: &Zone, primary_ns: &str, hostmaster: &str) -> (r: String)
    ensures
        r@ == zone_header(zone@, primary_ns@, hostmaster@),
{
    let serial: i64 = if zone.serial < 0 {
        0
    } else {
        zone.serial
    };
    let mut s = "$ORIGIN ".to_string();
    s.push_str(&zone.name);
    s.push_str(".\n");
    s.push_str("$TTL 300\n");
    s.push_str(&render_soa(primary_ns, hostmaster, serial));
    s
}

/// Renders a BIND-compatible zone file from stored records.
pub fn render_zone_file(
    zone: &Zone,
    records: &[Record],
    primary_ns: &str,
    hostmaster: &str,
) -> (r: String)
    ensures
        r@ == zone_file(zone@, order::models(records@), primary_ns@, hostmaster@),
{
    let mut out = render_header(zone, primary_ns, hostmaster);
    let ghost header = out@;
    let mut rows = store::clone_records(records);
    order::sort::<ByNameTypeValue>(&mut rows);
    let ghost all = order::models(rows@);
    let mut i: usize = 0;
    assert(header + record_lines(all.take(0), zone@.name) == header);
    while i < rows.len()
        invariant
            i <= rows@.len(),
            all == order::models(rows@),
            out@ == header + record_lines(all.take(i as int), zone@.name),
        decreases rows@.len() - i,
    {
        assert(all.take(i + 1).drop_last() == all.take(i as int));
        assert(all.take(i + 1).last() == rows@[i as int]@);
        let line = render_record(&rows[i], &zone.name);
        out.push_str(&line);
        assert(out@ == header + record_lines(all.take(i + 1), zone@.name));
        i += 1;
    }
    assert(all.take(all.len() as int) == all);
    out
}

} // verus!

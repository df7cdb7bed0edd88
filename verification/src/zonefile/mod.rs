//! BIND-style zone files, and the validation of records.
//!
//! This module stays with the presentation format: it brings names and record data into the form in
//! which records are stored. [`lexer`] cuts a zone file into logical lines and tokens, and [`render`]
//! writes one.
pub mod lexer;
pub mod render;

pub use crate::zonefile::render::render_zone_file;

use crate::addr;
use crate::addr::{Ipv4Addr, Ipv6Addr};
use crate::config;
use crate::digits;
use crate::order;
use crate::store;
use crate::store::{Record, RecordModel, Zone};
use crate::text;
use crate::zonefile::lexer::{LogicalLine, LogicalLineModel};
use vstd::prelude::*;

verus! {

/// A parsed record, ready to be stored.
#[derive(Clone, Debug, PartialEq, Eq)]
pub struct ParsedRecord {
    pub name: String,
    pub rtype: String,
    pub value: String,
    pub ttl: i64,
}

/// The model of [`ParsedRecord`].
pub struct ParsedModel {
    pub name: Seq<char>,
    pub rtype: Seq<char>,
    pub value: Seq<char>,
    pub ttl: i64,
}

impl View for ParsedRecord {
    type V = ParsedModel;

    open spec fn view(&self) -> ParsedModel {
        ParsedModel {
            name: self.name@,
            rtype: self.rtype@,
            value: self.value@,
            ttl: self.ttl,
        }
    }
}

// ---------------------------------------------------------------------------
// Names and numbers
// ---------------------------------------------------------------------------

/// The owner name that `input` writes, relative to `origin`: the origin for a blank or `@`, the name
/// itself where it lies within the origin, and otherwise the name below the origin.
pub open spec fn owner_of(input: Seq<char>, origin: Seq<char>) -> Seq<char> {
    let n = config::canonical(input);
    if n.len() == 0 || n == "@"@ {
        origin
    } else if config::is_within(n, origin) {
        n
    } else {
        n + "."@ + origin
    }
}

/// Computes the canonical owner name from operator or zone-file input and a current origin.
pub fn owner_name(input: &str, origin: &str) -> (r: String)
    ensures
        r@ == owner_of(input@, origin@),
{
    let n = config::normalize_name(input);
    if n.as_str().is_empty() || text::same(&n, "@") {
        return origin.to_string();
    }
    if config::within(&n, origin) {
        return n;
    }
    let mut s = n;
    s.push_str(".");
    s.push_str(origin);
    s
}

/// The TTL that `s` writes: at most 2147483647, and 300 for a blank, a negative number or anything
/// else.
pub open spec fn ttl_of(s: Seq<char>) -> i64 {
    match digits::signed(text::trimmed(s)) {
        Some(n) => if n < 0 {
            300
        } else if n > 2_147_483_647 {
            2_147_483_647
        } else {
            n as i64
        },
        None => 300,
    }
}

/// Parses a TTL, clamping to a sane non-negative range with a default of 300 seconds.
pub fn parse_ttl(s: &str) -> (r: i64)
    ensures
        r == ttl_of(s@),
{
    match digits::parse_signed(&text::trim(s)) {
        Some(n) => {
            if n < 0 {
                300
            } else if n > 2_147_483_647 {
                2_147_483_647
            } else {
                n
            }
        },
        None => 300,
    }
}

/// The name that record data writes: a name that ends in a dot stands for itself, any other is
/// relative to `origin`. A single dot is the root.
pub open spec fn target_of(value: Seq<char>, origin: Seq<char>) -> Seq<char> {
    let v = text::trimmed(value);
    if v == "."@ {
        Seq::<char>::empty()
    } else if v.len() > 0 && v.last() == '.' {
        config::canonical(v)
    } else {
        owner_of(v, origin)
    }
}

/// Computes the name that record data writes.
fn name_rdata(value: &str, origin: &str) -> (r: String)
    ensures
        r@ == target_of(value@, origin@),
{
    let v = text::trim(value);
    if text::same(&v, ".") {
        let s = String::new();
        assert(s@ == Seq::<char>::empty());
        s
    } else if text::ends_with_char(&v, '.') {
        config::normalize_name(&v)
    } else {
        owner_name(&v, origin)
    }
}

// ---------------------------------------------------------------------------
// Record data
// ---------------------------------------------------------------------------

/// The stored form of an MX value.
pub open spec fn stored_mx(words: Seq<Seq<char>>, origin: Seq<char>) -> Result<
    Seq<char>,
    Seq<char>,
> {
    let host = target_of(text::joined(words.skip(1), " "@), origin);
    if words.len() < 2 {
        Err("MX needs: <preference> <host>"@)
    } else {
        match digits::unsigned(words[0], 65535) {
            Some(pref) => if host.len() == 0 {
                Err("MX needs a mail host after the preference"@)
            } else {
                Ok(digits::decimal(pref) + " "@ + host)
            },
            None => Err("MX preference must be 0-65535"@),
        }
    }
}

/// The stored form of an SRV value.
pub open spec fn stored_srv(words: Seq<Seq<char>>, origin: Seq<char>) -> Result<
    Seq<char>,
    Seq<char>,
> {
    if words.len() != 4 {
        Err("SRV needs: <priority> <weight> <port> <target>"@)
    } else {
        let target = target_of(words[3], origin);
        match digits::unsigned(words[0], 65535) {
            None => Err("SRV priority must be 0-65535"@),
            Some(priority) => match digits::unsigned(words[1], 65535) {
                None => Err("SRV weight must be 0-65535"@),
                Some(weight) => match digits::unsigned(words[2], 65535) {
                    None => Err("SRV port must be 0-65535"@),
                    Some(port) => if target.len() == 0 {
                        Err("SRV target is required"@)
                    } else {
                        Ok(
                            digits::decimal(priority) + " "@ + digits::decimal(weight) + " "@
                                + digits::decimal(port) + " "@ + target,
                        )
                    },
                },
            },
        }
    }
}

/// Whether `c` may stand in a CAA tag.
pub open spec fn is_tag_char(c: char) -> bool {
    ('a' <= c <= 'z') || ('A' <= c <= 'Z') || ('0' <= c <= '9') || c == '-' || c == '_'
}

/// Whether `s` is a CAA tag.
pub open spec fn is_tag(s: Seq<char>) -> bool {
    s.len() > 0 && forall|i: int| 0 <= i < s.len() ==> #[trigger] is_tag_char(s[i])
}

/// The stored form of a CAA value.
pub open spec fn stored_caa(words: Seq<Seq<char>>) -> Result<Seq<char>, Seq<char>> {
    if words.len() < 3 {
        Err("CAA needs: <flags> <tag> <value>"@)
    } else {
        let tag = text::lowered(text::trimmed(words[1]));
        let value = text::unquoted(text::joined(words.skip(2), " "@));
        match digits::unsigned(words[0], 255) {
            None => Err("CAA flags must be 0-255"@),
            Some(flags) => if !is_tag(tag) {
                Err("CAA tag must contain only letters, numbers, '-' or '_'"@)
            } else if value.len() == 0 {
                Err("CAA value is required"@)
            } else {
                Ok(digits::decimal(flags) + " "@ + tag + " "@ + value)
            },
        }
    }
}

/// The form in which record data is stored, or what is wrong with it.
pub open spec fn stored_value(rtype: Seq<char>, value: Seq<char>, origin: Seq<char>) -> Result<
    Seq<char>,
    Seq<char>,
> {
    let t = text::uppered(text::trimmed(rtype));
    let v = text::trimmed(value);
    if v.len() == 0 {
        Err("value is required"@)
    } else if t == "A"@ {
        match addr::ipv4_of(v) {
            Some(ip) => Ok(addr::ipv4_text(ip)),
            None => Err("invalid IPv4 address for A record"@),
        }
    } else if t == "AAAA"@ {
        match addr::ipv6_of(v) {
            Some(ip) => Ok(addr::ipv6_text(ip)),
            None => Err("invalid IPv6 address for AAAA record"@),
        }
    } else if t == "NS"@ || t == "CNAME"@ {
        if target_of(v, origin).len() == 0 {
            Err("target name is required"@)
        } else {
            Ok(target_of(v, origin))
        }
    } else if t == "MX"@ {
        stored_mx(lexer::tokens_or_words(v), origin)
    } else if t == "TXT"@ {
        Ok(text::unquoted(v))
    } else if t == "SRV"@ {
        stored_srv(lexer::tokens_or_words(v), origin)
    } else if t == "CAA"@ {
        stored_caa(lexer::tokens_or_words(v))
    } else {
        Err("unsupported record type: "@ + t)
    }
}

/// The decimal digits of `n` and a space.
fn number_field(n: u64) -> (r: String)
    ensures
        r@ == digits::decimal(n as nat) + " "@,
{
    let mut s = digits::decimal_text(n);
    s.push_str(" ");
    s
}

/// Normalizes an MX value.
fn normalize_mx(words: &Vec<String>, origin: &str) -> (r: Result<String, String>)
    ensures
        text::outcome(r) == stored_mx(text::views(words@), origin@),
{
    if words.len() < 2 {
        return Err("MX needs: <preference> <host>".to_string());
    }
    match digits::parse_unsigned(&words[0], 65535) {
        Some(pref) => {
            let host = name_rdata(&text::join_from(words, 1, " "), origin);
            if host.as_str().is_empty() {
                return Err("MX needs a mail host after the preference".to_string());
            }
            let mut s = number_field(pref);
            s.push_str(&host);
            Ok(s)
        },
        None => Err("MX preference must be 0-65535".to_string()),
    }
}

/// Normalizes an SRV value.
fn normalize_srv(words: &Vec<String>, origin: &str) -> (r: Result<String, String>)
    ensures
        text::outcome(r) == stored_srv(text::views(words@), origin@),
{
    if words.len() != 4 {
        return Err("SRV needs: <priority> <weight> <port> <target>".to_string());
    }
    let priority: u64 = match digits::parse_unsigned(&words[0], 65535) {
        Some(n) => n,
        None => {
            return Err("SRV priority must be 0-65535".to_string());
        },
    };
    let weight: u64 = match digits::parse_unsigned(&words[1], 65535) {
        Some(n) => n,
        None => {
            return Err("SRV weight must be 0-65535".to_string());
        },
    };
    let port: u64 = match digits::parse_unsigned(&words[2], 65535) {
        Some(n) => n,
        None => {
            return Err("SRV port must be 0-65535".to_string());
        },
    };
    let target = name_rdata(&words[3], origin);
    if target.as_str().is_empty() {
        return Err("SRV target is required".to_string());
    }
    let mut s = number_field(priority);
    s.push_str(&digits::decimal_text(weight));
    s.push_str(" ");
    s.push_str(&digits::decimal_text(port));
    s.push_str(" ");
    s.push_str(&target);
    Ok(s)
}

/// Whether `s` is a CAA tag.
fn valid_tag(s: &str) -> (r: bool)
    ensures
        r == is_tag(s@),
{
    let v = text::to_chars(s);
    let mut i: usize = 0;
    while i < v.len()
        invariant
            i <= v@.len(),
            v@ == s@,
            forall|j: int| 0 <= j < i ==> #[trigger] is_tag_char(v@[j]),
        decreases v@.len() - i,
    {
        let c: char = v[i];
        if !(('a' <= c && c <= 'z') || ('A' <= c && c <= 'Z') || ('0' <= c && c <= '9') || c == '-'
            || c == '_') {
            assert(!is_tag_char(s@[i as int]));
            return false;
        }
        i += 1;
    }
    v.len() > 0
}

/// Normalizes a CAA value.
fn normalize_caa(words: &Vec<String>) -> (r: Result<String, String>)
    ensures
        text::outcome(r) == stored_caa(text::views(words@)),
{
    if words.len() < 3 {
        return Err("CAA needs: <flags> <tag> <value>".to_string());
    }
    match digits::parse_unsigned(&words[0], 255) {
        Some(flags) => {
            let tag = text::to_ascii_lowercase(&text::trim(&words[1]));
            if !valid_tag(&tag) {
                return Err("CAA tag must contain only letters, numbers, '-' or '_'".to_string());
            }
            let value = text::strip_quotes(&text::join_from(words, 2, " "));
            if value.as_str().is_empty() {
                return Err("CAA value is required".to_string());
            }
            let mut s = number_field(flags);
            s.push_str(&tag);
            s.push_str(" ");
            s.push_str(&value);
            Ok(s)
        },
        None => Err("CAA flags must be 0-255".to_string()),
    }
}

/// Normalizes and validates record data for storage.
pub fn normalize_record_value(rtype: &str, value: &str, origin: &str) -> (r: Result<
    String,
    String,
>)
    ensures
        text::outcome(r) == stored_value(rtype@, value@, origin@),
{
    let t = text::to_ascii_uppercase(&text::trim(rtype));
    let v = text::trim(value);
    if v.as_str().is_empty() {
        return Err("value is required".to_string());
    }
    if text::same(&t, "A") {
        match Ipv4Addr::parse(&v) {
            Some(ip) => Ok(ip.to_text()),
            None => Err("invalid IPv4 address for A record".to_string()),
        }
    } else if text::same(&t, "AAAA") {
        match Ipv6Addr::parse(&v) {
            Some(ip) => Ok(ip.to_text()),
            None => Err("invalid IPv6 address for AAAA record".to_string()),
        }
    } else if text::same(&t, "NS") || text::same(&t, "CNAME") {
        let name = name_rdata(&v, origin);
        if name.as_str().is_empty() {
            Err("target name is required".to_string())
        } else {
            Ok(name)
        }
    } else if text::same(&t, "MX") {
        normalize_mx(&lexer::words(&v), origin)
    } else if text::same(&t, "TXT") {
        Ok(text::strip_quotes(&v))
    } else if text::same(&t, "SRV") {
        normalize_srv(&lexer::words(&v), origin)
    } else if text::same(&t, "CAA") {
        normalize_caa(&lexer::words(&v))
    } else {
        Err(text::concat("unsupported record type: ", &t))
    }
}

// ---------------------------------------------------------------------------
// Record sets
// ---------------------------------------------------------------------------

/// Why the records `a` and `b` cannot stand in one zone; nothing where they can. Two records with
/// one name conflict where they are the same, and where one of them is a CNAME.
pub open spec fn conflict(a: RecordModel, b: RecordModel) -> Option<Seq<char>> {
    let a_type = text::uppered(a.rtype);
    let b_type = text::uppered(b.rtype);
    if a.name != b.name {
        None
    } else if a_type == b_type && text::trimmed(a.value) == text::trimmed(b.value) {
        Some("duplicate "@ + a_type + " record for "@ + a.name + "."@)
    } else if a_type == "CNAME"@ || b_type == "CNAME"@ {
        Some(
            "CNAME record for "@ + a.name
                + ". cannot coexist with other records at the same name"@,
        )
    } else {
        None
    }
}

/// Why `a` cannot stand beside the first of `rest` that it conflicts with.
pub open spec fn conflict_with(a: RecordModel, rest: Seq<RecordModel>) -> Option<Seq<char>>
    decreases rest.len(),
{
    if rest.len() == 0 {
        None
    } else {
        match conflict(a, rest[0]) {
            Some(e) => Some(e),
            None => conflict_with(a, rest.drop_first()),
        }
    }
}

/// Why the first two conflicting ones of `records` cannot stand in one zone.
pub open spec fn set_conflict(records: Seq<RecordModel>) -> Option<Seq<char>>
    decreases records.len(),
{
    if records.len() == 0 {
        None
    } else {
        match conflict_with(records[0], records.drop_first()) {
            Some(e) => Some(e),
            None => set_conflict(records.drop_first()),
        }
    }
}

/// Checks whether two records can stand in one zone.
fn check_pair(a: &Record, b: &Record) -> (r: Option<String>)
    ensures
        match r {
            Some(e) => conflict(a@, b@) == Some(e@),
            None => conflict(a@, b@) is None,
        },
{
    if !text::same(&a.name, &b.name) {
        return None;
    }
    let a_type = text::to_ascii_uppercase(&a.rtype);
    let b_type = text::to_ascii_uppercase(&b.rtype);
    if text::same(&a_type, &b_type) && text::same(&text::trim(&a.value), &text::trim(&b.value)) {
        let mut s = "duplicate ".to_string();
        s.push_str(&a_type);
        s.push_str(" record for ");
        s.push_str(&a.name);
        s.push_str(".");
        return Some(s);
    }
    if text::same(&a_type, "CNAME") || text::same(&b_type, "CNAME") {
        let mut s = "CNAME record for ".to_string();
        s.push_str(&a.name);
        s.push_str(". cannot coexist with other records at the same name");
        return Some(s);
    }
    None
}

/// Validates CNAME exclusivity, and that no two records are the same, inside one zone.
pub fn validate_record_set(records: &[Record]) -> (r: Result<(), String>)
    ensures
        match r {
            Ok(_) => set_conflict(order::models(records@)) is None,
            Err(e) => set_conflict(order::models(records@)) == Some(e@),
        },
{
    let ghost all = order::models(records@);
    let mut i: usize = 0;
    assert(all.skip(0) == all);
    while i < records.len()
        invariant
            i <= records@.len(),
            all == order::models(records@),
            set_conflict(all) == set_conflict(all.skip(i as int)),
        decreases records@.len() - i,
    {
        let ghost a = records@[i as int]@;
        assert(all.skip(i as int)[0] == a);
        assert(all.skip(i as int).drop_first() == all.skip(i + 1));
        let mut j: usize = i + 1;
        while j < records.len()
            invariant
                i < j <= records@.len(),
                all == order::models(records@),
                a == records@[i as int]@,
                conflict_with(a, all.skip(i + 1)) == conflict_with(a, all.skip(j as int)),
                set_conflict(all) == set_conflict(all.skip(i as int)),
                all.skip(i as int)[0] == a,
                all.skip(i as int).drop_first() == all.skip(i + 1),
            decreases records@.len() - j,
        {
            assert(all.skip(j as int)[0] == records@[j as int]@);
            assert(all.skip(j as int).drop_first() == all.skip(j + 1));
            if let Some(e) = check_pair(&records[i], &records[j]) {
                return Err(e);
            }
            j += 1;
        }
        i += 1;
    }
    Ok(())
}

/// Validates a candidate record against the records of its zone.
pub fn validate_new_record(existing: &[Record], candidate: &Record) -> (r: Result<(), String>)
    ensures
        match r {
            Ok(_) => set_conflict(order::models(existing@).push(candidate@)) is None,
            Err(e) => set_conflict(order::models(existing@).push(candidate@)) == Some(e@),
        },
{
    let mut records = store::clone_records(existing);
    records.push(candidate.clone());
    assert(order::models(records@) == order::models(existing@).push(candidate@));
    validate_record_set(&records)
}

// ---------------------------------------------------------------------------
// Reading zone files
// ---------------------------------------------------------------------------

/// Whether a token is a TTL: a number that is not negative.
pub open spec fn is_ttl_token(s: Seq<char>) -> bool {
    match digits::signed(s) {
        Some(n) => n >= 0,
        None => false,
    }
}

/// Whether a token is the class IN.
pub open spec fn is_class_token(s: Seq<char>) -> bool {
    text::uppered(s) == "IN"@
}

/// Whether records of the type `s` can be edited.
pub open spec fn is_editable(s: Seq<char>) -> bool {
    s == "A"@ || s == "AAAA"@ || s == "CNAME"@ || s == "MX"@ || s == "NS"@ || s == "TXT"@ || s
        == "SRV"@ || s == "CAA"@
}

/// Whether a token is a record type.
pub open spec fn is_type_token(s: Seq<char>) -> bool {
    text::uppered(s) == "SOA"@ || is_editable(text::uppered(s))
}

/// Where the reading of a zone file stands.
pub struct ZoneScan {
    pub origin: Seq<char>,
    pub default_ttl: i64,
    pub previous_owner: Seq<char>,
    pub records: Seq<ParsedModel>,
}

/// The message that `name` lies outside the zone `zone`.
pub open spec fn outside(name: Seq<char>, zone: Seq<char>) -> Seq<char> {
    name + " is outside selected zone "@ + zone
}

/// The TTL that the tokens from position `from` on give, starting from `ttl`, and the position of the
/// first token that is neither a TTL nor a class.
pub open spec fn skip_ttl_and_class(tokens: Seq<Seq<char>>, from: int, ttl: i64) -> (i64, int)
    decreases tokens.len() - from,
{
    if from < 0 || from >= tokens.len() {
        (ttl, from)
    } else if is_ttl_token(tokens[from]) {
        skip_ttl_and_class(tokens, from + 1, ttl_of(tokens[from]))
    } else if is_class_token(tokens[from]) {
        skip_ttl_and_class(tokens, from + 1, ttl)
    } else {
        (ttl, from)
    }
}

/// Whether the first token of a record line names its owner.
pub open spec fn names_owner(first: Seq<char>, leading_space: bool) -> bool {
    !(leading_space || is_ttl_token(first) || is_class_token(first) || is_type_token(first))
}

/// Reads a record line. A line without an owner takes that of the line before. SOA records are left
/// out.
pub open spec fn read_record(
    zone: Seq<char>,
    st: ZoneScan,
    tokens: Seq<Seq<char>>,
    leading_space: bool,
    line_no: int,
) -> Result<ZoneScan, Seq<char>> {
    let named = names_owner(tokens[0], leading_space);
    let owner = owner_of(
        if named {
            tokens[0]
        } else {
            st.previous_owner
        },
        st.origin,
    );
    let (ttl, idx) = skip_ttl_and_class(
        tokens,
        if named {
            1
        } else {
            0
        },
        st.default_ttl,
    );
    let rtype = text::uppered(tokens[idx]);
    if !config::is_within(owner, zone) {
        Err(lexer::at_line(line_no, outside(owner, zone)))
    } else if idx >= tokens.len() {
        Err(lexer::at_line(line_no, "missing record type"@))
    } else if rtype == "SOA"@ {
        Ok(ZoneScan { previous_owner: owner, ..st })
    } else if !is_editable(rtype) {
        Err(lexer::at_line(line_no, "unsupported record type "@ + rtype))
    } else if idx + 1 >= tokens.len() {
        Err(lexer::at_line(line_no, "missing value for "@ + rtype))
    } else {
        match stored_value(rtype, text::joined(tokens.skip(idx + 1), " "@), st.origin) {
            Ok(value) => Ok(
                ZoneScan {
                    previous_owner: owner,
                    records: st.records.push(ParsedModel { name: owner, rtype, value, ttl }),
                    ..st
                },
            ),
            Err(e) => Err(lexer::at_line(line_no, e)),
        }
    }
}

/// Reads one logical line: a directive or a record.
pub open spec fn read_zone_line(
    zone: Seq<char>,
    st: ZoneScan,
    line: LogicalLineModel,
) -> Result<ZoneScan, Seq<char>> {
    match lexer::tokens_of(line.text) {
        None => Err(lexer::at_line(line.line_no, "unterminated quote"@)),
        Some(tokens) => if tokens.len() == 0 {
            Ok(st)
        } else {
            let first = text::uppered(tokens[0]);
            if first == "$ORIGIN"@ {
                if tokens.len() != 2 {
                    Err(lexer::at_line(line.line_no, "$ORIGIN needs one value"@))
                } else {
                    let origin = config::canonical(tokens[1]);
                    if config::is_within(origin, zone) {
                        Ok(ZoneScan { origin, ..st })
                    } else {
                        Err(lexer::at_line(line.line_no, outside(origin, zone)))
                    }
                }
            } else if first == "$TTL"@ {
                if tokens.len() != 2 {
                    Err(lexer::at_line(line.line_no, "$TTL needs one value"@))
                } else {
                    Ok(ZoneScan { default_ttl: ttl_of(tokens[1]), ..st })
                }
            } else if first.len() > 0 && first[0] == '$' {
                Err(lexer::at_line(line.line_no, "unsupported directive "@ + first))
            } else {
                read_record(zone, st, tokens, line.leading_space, line.line_no)
            }
        },
    }
}

/// Reads `lines`, one after the other.
pub open spec fn read_zone_lines(
    zone: Seq<char>,
    st: ZoneScan,
    lines: Seq<LogicalLineModel>,
) -> Result<ZoneScan, Seq<char>>
    decreases lines.len(),
{
    if lines.len() == 0 {
        Ok(st)
    } else {
        match read_zone_line(zone, st, lines[0]) {
            Ok(next) => read_zone_lines(zone, next, lines.drop_first()),
            Err(e) => Err(e),
        }
    }
}

/// Where the reading of a zone file starts.
pub open spec fn first_zone_scan(zone: Seq<char>) -> ZoneScan {
    ZoneScan {
        origin: zone,
        default_ttl: 300,
        previous_owner: "@"@,
        records: Seq::<ParsedModel>::empty(),
    }
}

/// The records of a zone file, or what is wrong with it.
pub open spec fn zone_file_records(zone: Seq<char>, input: Seq<char>) -> Result<
    Seq<ParsedModel>,
    Seq<char>,
> {
    match lexer::logical_lines_of(input) {
        Ok(lines) => match read_zone_lines(zone, first_zone_scan(zone), lines) {
            Ok(st) => Ok(st.records),
            Err(e) => Err(e),
        },
        Err(e) => Err(e),
    }
}

/// Whether a token is a TTL.
fn is_ttl(s: &str) -> (r: bool)
    ensures
        r == is_ttl_token(s@),
{
    match digits::parse_signed(s) {
        Some(n) => n >= 0,
        None => false,
    }
}

/// Whether a token is the class IN.
fn is_class(s: &str) -> (r: bool)
    ensures
        r == is_class_token(s@),
{
    text::same(&text::to_ascii_uppercase(s), "IN")
}

/// Whether records of the type `s` can be edited.
pub fn is_editable_type(s: &str) -> (r: bool)
    ensures
        r == is_editable(s@),
{
    text::same(s, "A") || text::same(s, "AAAA") || text::same(s, "CNAME") || text::same(s, "MX")
        || text::same(s, "NS") || text::same(s, "TXT") || text::same(s, "SRV") || text::same(
        s,
        "CAA",
    )
}

/// Whether a token is a record type.
fn is_rr_type(s: &str) -> (r: bool)
    ensures
        r == is_type_token(s@),
{
    let t = text::to_ascii_uppercase(s);
    text::same(&t, "SOA") || is_editable_type(&t)
}

/// The message that `name` lies outside the zone.
fn outside_message(name: &str, zone: &str) -> (r: String)
    ensures
        r@ == outside(name@, zone@),
{
    let mut s = name.to_string();
    s.push_str(" is outside selected zone ");
    s.push_str(zone);
    s
}

/// Where the reading of a zone file stands.
struct Scan {
    origin: String,
    default_ttl: i64,
    previous_owner: String,
    records: Vec<ParsedRecord>,
}

impl View for Scan {
    type V = ZoneScan;

    closed spec fn view(&self) -> ZoneScan {
        ZoneScan {
            origin: self.origin@,
            default_ttl: self.default_ttl,
            previous_owner: self.previous_owner@,
            records: order::models(self.records@),
        }
    }
}

/// Reads a record line.
fn scan_record(
    zone: &str,
    st: &mut Scan,
    tokens: &Vec<String>,
    leading_space: bool,
    line_no: usize,
) -> (r: Result<(), String>)
    requires
        tokens@.len() > 0,
    ensures
        match r {
            Ok(_) => read_record(
                zone@,
                old(st)@,
                text::views(tokens@),
                leading_space,
                line_no as int,
            ) == Ok::<ZoneScan, Seq<char>>(final(st)@),
            Err(e) => read_record(
                zone@,
                old(st)@,
                text::views(tokens@),
                leading_space,
                line_no as int,
            ) == Err::<ZoneScan, Seq<char>>(e@),
        },
{
    let ghost all = text::views(tokens@);
    assert(all[0] == tokens@[0]@);
    let named = !(leading_space || is_ttl(&tokens[0]) || is_class(&tokens[0]) || is_rr_type(
        &tokens[0],
    ));
    let owner = if named {
        owner_name(&tokens[0], &st.origin)
    } else {
        owner_name(&st.previous_owner, &st.origin)
    };
    if !config::within(&owner, zone) {
        return Err(lexer::line_message(line_no, &outside_message(&owner, zone)));
    }
    let mut idx: usize = if named {
        1
    } else {
        0
    };
    let mut ttl: i64 = st.default_ttl;
    let ghost skipped = skip_ttl_and_class(all, idx as int, ttl);
    while idx < tokens.len()
        invariant_except_break
            skipped == skip_ttl_and_class(all, idx as int, ttl),
        invariant
            idx <= tokens@.len(),
            all == text::views(tokens@),
        ensures
            skipped == (ttl, idx as int),
        decreases tokens@.len() - idx,
    {
        assert(all[idx as int] == tokens@[idx as int]@);
        if is_ttl(&tokens[idx]) {
            ttl = parse_ttl(&tokens[idx]);
        } else if !is_class(&tokens[idx]) {
            break;
        }
        idx += 1;
    }
    if idx >= tokens.len() {
        return Err(lexer::line_message(line_no, "missing record type"));
    }
    assert(all[idx as int] == tokens@[idx as int]@);
    let rtype = text::to_ascii_uppercase(&tokens[idx]);
    if text::same(&rtype, "SOA") {
        st.previous_owner = owner;
        return Ok(());
    }
    if !is_editable_type(&rtype) {
        return Err(
            lexer::line_message(line_no, &text::concat("unsupported record type ", &rtype)),
        );
    }
    idx += 1;
    if idx >= tokens.len() {
        return Err(lexer::line_message(line_no, &text::concat("missing value for ", &rtype)));
    }
    let raw = text::join_from(tokens, idx, " ");
    match normalize_record_value(&rtype, &raw, &st.origin) {
        Ok(value) => {
            let ghost before = order::models(st.records@);
            let rec = ParsedRecord { name: owner.clone(), rtype, value, ttl };
            st.records.push(rec);
            assert(order::models(st.records@) == before.push(rec@));
            st.previous_owner = owner;
            Ok(())
        },
        Err(e) => Err(lexer::line_message(line_no, &e)),
    }
}

/// Reads one logical line.
fn scan_line(zone: &str, st: &mut Scan, line: &LogicalLine) -> (r: Result<(), String>)
    ensures
        match r {
            Ok(_) => read_zone_line(zone@, old(st)@, line@) == Ok::<ZoneScan, Seq<char>>(
                final(st)@,
            ),
            Err(e) => read_zone_line(zone@, old(st)@, line@) == Err::<ZoneScan, Seq<char>>(e@),
        },
{
    let tokens = match lexer::tokenize(&line.text) {
        Some(t) => t,
        None => {
            return Err(lexer::line_message(line.line_no, "unterminated quote"));
        },
    };
    if tokens.len() == 0 {
        return Ok(());
    }
    assert(text::views(tokens@)[0] == tokens@[0]@);
    let first = text::to_ascii_uppercase(&tokens[0]);
    if text::same(&first, "$ORIGIN") {
        if tokens.len() != 2 {
            return Err(lexer::line_message(line.line_no, "$ORIGIN needs one value"));
        }
        assert(text::views(tokens@)[1] == tokens@[1]@);
        let origin = config::normalize_name(&tokens[1]);
        if !config::within(&origin, zone) {
            return Err(lexer::line_message(line.line_no, &outside_message(&origin, zone)));
        }
        st.origin = origin;
        return Ok(());
    }
    if text::same(&first, "$TTL") {
        if tokens.len() != 2 {
            return Err(lexer::line_message(line.line_no, "$TTL needs one value"));
        }
        assert(text::views(tokens@)[1] == tokens@[1]@);
        st.default_ttl = parse_ttl(&tokens[1]);
        return Ok(());
    }
    let letters = text::to_chars(&first);
    if letters.len() > 0 && letters[0] == '$' {
        return Err(
            lexer::line_message(line.line_no, &text::concat("unsupported directive ", &first)),
        );
    }
    scan_record(zone, st, &tokens, line.leading_space, line.line_no)
}

/// Parses a common BIND zone file into normalized records of `zone`.
pub fn parse_zone_file(zone: &Zone, input: &str) -> (r: Result<Vec<ParsedRecord>, String>)
    ensures
        match r {
            Ok(v) => zone_file_records(zone@.name, input@) == Ok::<Seq<ParsedModel>, Seq<char>>(
                order::models(v@),
            ),
            Err(e) => zone_file_records(zone@.name, input@) == Err::<Seq<ParsedModel>, Seq<char>>(
                e@,
            ),
        },
{
    let lines = match lexer::logical_lines(input) {
        Ok(l) => l,
        Err(e) => {
            return Err(e);
        },
    };
    let ghost all = order::models(lines@);
    let ghost first = first_zone_scan(zone@.name);
    let mut st = Scan {
        origin: zone.name.clone(),
        default_ttl: 300,
        previous_owner: "@".to_string(),
        records: Vec::new(),
    };
    assert(st@.records == first.records);
    let mut i: usize = 0;
    assert(all.skip(0) == all);
    while i < lines.len()
        invariant
            i <= lines@.len(),
            all == order::models(lines@),
            first == first_zone_scan(zone@.name),
            lexer::logical_lines_of(input@) == Ok::<Seq<LogicalLineModel>, Seq<char>>(all),
            read_zone_lines(zone@.name, first, all) == read_zone_lines(
                zone@.name,
                st@,
                all.skip(i as int),
            ),
        decreases lines@.len() - i,
    {
        assert(all.skip(i as int)[0] == lines@[i as int]@);
        assert(all.skip(i as int).drop_first() == all.skip(i + 1));
        if let Err(e) = scan_line(&zone.name, &mut st, &lines[i]) {
            return Err(e);
        }
        i += 1;
    }
    Ok(st.records)
}

} // verus!

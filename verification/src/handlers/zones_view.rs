//! Markup of zones, history and test queries.
//!
//! The functions here receive data that is already loaded and return escaped HTML.
use crate::digits;
use crate::dns;
use crate::dns::{type_to_str, Lookup, LookupModel, Rr, RrModel};
use crate::handlers;
use crate::handlers::calendar;
use crate::handlers::{esc, fmt_date};
use crate::order;
use crate::store::{HistoryModel, Record, RecordModel, Zone, ZoneHistory, ZoneModel};
use crate::text;
use vstd::prelude::*;

verus! {

// ---------------------------------------------------------------------------
// Markup
// ---------------------------------------------------------------------------

/// The row of a zone without records.
pub const NO_RECORDS: &'static str = r#"<tr><td colspan="5" class="muted">No records.</td></tr>"#;

/// The row of a zone without history.
pub const NO_HISTORY: &'static str =
    r#"<tr><td colspan="4" class="muted">No local changes yet.</td></tr>"#;

/// A record row up to the name.
pub const ROW_NAME: &'static str = r#"<tr>
  <td class="mono">"#;

/// A record row between name and type.
pub const ROW_TYPE: &'static str = r#"</td>
  <td><span class="rtype">"#;

/// A record row between type and TTL.
pub const ROW_TTL: &'static str = r#"</span></td>
  <td class="mono">"#;

/// A record row between TTL and value.
pub const ROW_VALUE: &'static str = r#"</td>
  <td class="mono value">"#;

/// A record row between value and id.
pub const ROW_ID: &'static str = r#"</td>
  <td class="row-action">
    <form class="inline-form" method="post" action="/api/records/delete" onsubmit="return confirm('Delete this record?');">
      <input type="hidden" name="id" value=""#;

/// A record row between id and CSRF token.
pub const ROW_CSRF: &'static str = r#"">
      <input type="hidden" name="csrf_token" value=""#;

/// The end of a record row.
pub const ROW_END: &'static str = r#"">
      <button class="btn btn-danger btn-sm" type="submit">Delete</button>
    </form>
  </td>
</tr>"#;

/// A zone card up to the name.
pub const CARD_NAME: &'static str = r#"<section class="card zone">
  <div class="card__body">
    <div class="zone__head">
      <h2 class="zone__name mono">"#;

/// A zone card between name and serial.
pub const CARD_SERIAL: &'static str = r#"</h2>
      <div class="zone-tools">
        <span class="zone__serial">serial "#;

/// A zone card between serial and export link.
pub const CARD_EXPORT: &'static str = r#"</span>
        <a class="btn btn-secondary btn-sm" href="/api/zones/export?zone_id="#;

/// A zone card between export link and rows.
pub const CARD_ROWS: &'static str = r#"">Export</a>
      </div>
    </div>
    <div class="rec-wrap">
      <table class="rec-table">
        <thead><tr><th>Name</th><th>Type</th><th>TTL</th><th>Value</th><th></th></tr></thead>
        <tbody>"#;

/// A zone card between rows and the add form.
pub const ADD_ZONE: &'static str = r#"</tbody>
      </table>
    </div>
    <form class="add-form" method="post" action="/api/records">
      <input type="hidden" name="zone_id" value=""#;

/// The add form between zone and CSRF token.
pub const ADD_CSRF: &'static str = r#"">
      <input type="hidden" name="csrf_token" value=""#;

/// The add form between CSRF token and types.
pub const ADD_TYPES: &'static str = r#"">
      <input class="mono" type="text" name="name" placeholder="name (@ for apex, * for wildcard)" maxlength="255">
      <select name="rtype">"#;

/// A zone card between add form and import form.
pub const IMPORT_ZONE: &'static str = r#"</select>
      <input class="mono" type="text" name="value" placeholder="value (e.g. 159.195.136.226)" maxlength="2048" required>
      <input class="mono ttl" type="text" name="ttl" placeholder="TTL" value="300">
      <button class="btn btn-primary" type="submit">Add record</button>
    </form>
    <form class="import-form" method="post" action="/api/zones/import">
      <input type="hidden" name="zone_id" value=""#;

/// The import form between zone and CSRF token.
pub const IMPORT_CSRF: &'static str = r#"">
      <input type="hidden" name="csrf_token" value=""#;

/// The import form between CSRF token and origin.
pub const IMPORT_ORIGIN: &'static str = r#"">
      <textarea class="mono" name="zone_file" rows="8" placeholder="$ORIGIN "#;

/// A zone card between import form and history.
pub const CARD_HISTORY: &'static str = r#".&#10;@ 300 IN A 203.0.113.10&#10;www 300 IN CNAME @"></textarea>
      <button class="btn btn-secondary" type="submit">Import zone file</button>
    </form>
    "#;

/// The end of a zone card.
pub const CARD_END: &'static str = r#"
  </div>
</section>"#;

/// A history row up to the date.
pub const HIST_WHEN: &'static str = r#"<tr>
  <td>"#;

/// A history row between date and actor.
pub const HIST_ACTOR: &'static str = r#"</td>
  <td class="mono">"#;

/// A history row between actor and action.
pub const HIST_ACTION: &'static str = r#"</td>
  <td>"#;

/// A history row between action and detail.
pub const HIST_DETAIL: &'static str = r#"</td>
  <td>"#;

/// The end of a history row.
pub const HIST_END: &'static str = r#"</td>
</tr>"#;

/// The history block up to the rows.
pub const HISTORY_ROWS: &'static str = r#"<div class="history">
  <h3>Change history</h3>
  <div class="rec-wrap">
    <table class="rec-table history-table">
      <thead><tr><th>When</th><th>Actor</th><th>Action</th><th>Detail</th></tr></thead>
      <tbody>"#;

/// The end of the history block.
pub const HISTORY_END: &'static str = r#"</tbody>
    </table>
  </div>
</div>"#;

/// The test card up to the name.
pub const TEST_NAME: &'static str = r#"<section class="card test">
  <div class="card__body">
    <h2 class="test__title">Test query</h2>
    <p class="sub">Resolve a name against the in-process authoritative resolver (the same answers served on the wire).</p>
    <form class="test-form" method="get" action="/">
      <input class="mono" type="text" name="q" placeholder="name (e.g. id.w33d.xyz)" value=""#;

/// The test card between name and types.
pub const TEST_TYPES: &'static str = r#"" maxlength="255">
      <select name="qtype">"#;

/// The test card between types and result.
pub const TEST_RESULT: &'static str = r#"</select>
      <button class="btn btn-secondary" type="submit">Resolve</button>
    </form>
    "#;

/// The end of the test card.
pub const TEST_END: &'static str = r#"
  </div>
</section>"#;

// ---------------------------------------------------------------------------
// Zones and history
// ---------------------------------------------------------------------------

/// The row of a record.
pub open spec fn record_row(r: RecordModel, csrf: Seq<char>) -> Seq<char> {
    ROW_NAME@ + handlers::escaped(r.name) + ROW_TYPE@ + handlers::escaped(r.rtype) + ROW_TTL@
        + digits::signed_decimal(r.ttl as int) + ROW_VALUE@
        + handlers::escaped(r.value) + ROW_ID@ + handlers::escaped(r.id) + ROW_CSRF@
        + handlers::escaped(csrf) + ROW_END@
}

/// The rows of `records`, one after the other.
pub open spec fn record_rows(records: Seq<RecordModel>, csrf: Seq<char>) -> Seq<char>
    decreases records.len(),
{
    if records.len() == 0 {
        Seq::<char>::empty()
    } else {
        record_rows(records.drop_last(), csrf) + record_row(records.last(), csrf)
    }
}

/// The option of a record type.
pub open spec fn type_option(t: Seq<char>, extra: Seq<char>) -> Seq<char> {
    r#"<option value=""#@ + t + r#"""#@ + extra + ">"@ + t + "</option>"@
}

/// The options of record types, one after the other.
pub open spec fn type_options(types: Seq<&str>) -> Seq<char>
    decreases types.len(),
{
    if types.len() == 0 {
        Seq::<char>::empty()
    } else {
        type_options(types.drop_last()) + type_option(types.last()@, ""@)
    }
}

/// The row of a history entry.
pub open spec fn history_row(h: HistoryModel) -> Seq<char> {
    HIST_WHEN@ + handlers::escaped(calendar::shown_date(h.created_at)) + HIST_ACTOR@
        + handlers::escaped(h.actor) + HIST_ACTION@ + handlers::escaped(h.action) + HIST_DETAIL@
        + handlers::escaped(h.detail) + HIST_END@
}

/// The rows of `history`, one after the other.
pub open spec fn history_rows(history: Seq<HistoryModel>) -> Seq<char>
    decreases history.len(),
{
    if history.len() == 0 {
        Seq::<char>::empty()
    } else {
        history_rows(history.drop_last()) + history_row(history.last())
    }
}

/// The history block of a zone.
pub open spec fn history_block(history: Seq<HistoryModel>) -> Seq<char> {
    let rows = if history.len() == 0 {
        NO_HISTORY@
    } else {
        history_rows(history)
    };
    HISTORY_ROWS@ + rows + HISTORY_END@
}

/// The card of a zone.
pub open spec fn zone_card(
    zone: ZoneModel,
    records: Seq<RecordModel>,
    history: Seq<HistoryModel>,
    csrf: Seq<char>,
    types: Seq<&str>,
) -> Seq<char> {
    let rows = if records.len() == 0 {
        NO_RECORDS@
    } else {
        record_rows(records, csrf)
    };
    CARD_NAME@ + handlers::escaped(zone.name) + CARD_SERIAL@ + digits::signed_decimal(
        zone.serial as int,
    ) + CARD_EXPORT@ + handlers::escaped(zone.id) + CARD_ROWS@ + rows + ADD_ZONE@
        + handlers::escaped(zone.id) + ADD_CSRF@ + handlers::escaped(csrf) + ADD_TYPES@
        + type_options(types) + IMPORT_ZONE@ + handlers::escaped(zone.id) + IMPORT_CSRF@
        + handlers::escaped(csrf) + IMPORT_ORIGIN@ + handlers::escaped(zone.name) + CARD_HISTORY@
        + history_block(history) + CARD_END@
}

/// Renders the row of a record.
fn render_row(r: &Record, csrf: &str) -> (s: String)
    ensures
        s@ == record_row(r@, csrf@),
{
    let mut s = ROW_NAME.to_string();
    s.push_str(&esc(&r.name));
    s.push_str(ROW_TYPE);
    s.push_str(&esc(&r.rtype));
    s.push_str(ROW_TTL);
    s.push_str(&digits::signed_decimal_text(r.ttl));
    s.push_str(ROW_VALUE);
    s.push_str(&esc(&r.value));
    s.push_str(ROW_ID);
    s.push_str(&esc(&r.id));
    s.push_str(ROW_CSRF);
    s.push_str(&esc(csrf));
    s.push_str(ROW_END);
    s
}

/// Renders the rows of `records`.
fn render_rows(records: &[Record], csrf: &str) -> (s: String)
    ensures
        s@ == record_rows(order::models(records@), csrf@),
{
    let ghost all = order::models(records@);
    let mut s = String::new();
    let mut i: usize = 0;
    assert(all.take(0) == Seq::<RecordModel>::empty());
    assert(s@ == Seq::<char>::empty());
    while i < records.len()
        invariant
            i <= records@.len(),
            all == order::models(records@),
            s@ == record_rows(all.take(i as int), csrf@),
        decreases records@.len() - i,
    {
        assert(all.take(i + 1).drop_last() == all.take(i as int));
        assert(all.take(i + 1).last() == records@[i as int]@);
        s.push_str(&render_row(&records[i], csrf));
        i += 1;
    }
    assert(all.take(all.len() as int) == all);
    s
}

/// Renders the option of a record type.
fn render_option(t: &str, extra: &str) -> (s: String)
    ensures
        s@ == type_option(t@, extra@),
{
    let mut s = r#"<option value=""#.to_string();
    s.push_str(t);
    s.push_str(r#"""#);
    s.push_str(extra);
    s.push_str(">");
    s.push_str(t);
    s.push_str("</option>");
    s
}

/// Renders the options of record types.
fn render_options(types: &[&str]) -> (s: String)
    ensures
        s@ == type_options(types@),
{
    let mut s = String::new();
    let mut i: usize = 0;
    assert(types@.take(0) == Seq::<&str>::empty());
    assert(s@ == Seq::<char>::empty());
    while i < types.len()
        invariant
            i <= types@.len(),
            s@ == type_options(types@.take(i as int)),
        decreases types@.len() - i,
    {
        assert(types@.take(i + 1).drop_last() == types@.take(i as int));
        s.push_str(&render_option(types[i], ""));
        i += 1;
    }
    assert(types@.take(types@.len() as int) == types@);
    s
}

/// Renders the row of a history entry.
fn render_history_row(h: &ZoneHistory) -> (s: String)
    ensures
        s@ == history_row(h@),
{
    let mut s = HIST_WHEN.to_string();
    s.push_str(&esc(&fmt_date(h.created_at)));
    s.push_str(HIST_ACTOR);
    s.push_str(&esc(&h.actor));
    s.push_str(HIST_ACTION);
    s.push_str(&esc(&h.action));
    s.push_str(HIST_DETAIL);
    s.push_str(&esc(&h.detail));
    s.push_str(HIST_END);
    s
}

/// Renders the history block of a zone.
pub fn render_history(history: &[ZoneHistory]) -> (s: String)
    ensures
        s@ == history_block(order::models(history@)),
{
    let ghost all = order::models(history@);
    let mut rows = String::new();
    if history.len() == 0 {
        rows = NO_HISTORY.to_string();
    } else {
        let mut i: usize = 0;
        assert(all.take(0) == Seq::<HistoryModel>::empty());
        assert(rows@ == Seq::<char>::empty());
        while i < history.len()
            invariant
                i <= history@.len(),
                all == order::models(history@),
                rows@ == history_rows(all.take(i as int)),
            decreases history@.len() - i,
        {
            assert(all.take(i + 1).drop_last() == all.take(i as int));
            assert(all.take(i + 1).last() == history@[i as int]@);
            rows.push_str(&render_history_row(&history[i]));
            i += 1;
        }
        assert(all.take(all.len() as int) == all);
    }
    let mut s = HISTORY_ROWS.to_string();
    s.push_str(&rows);
    s.push_str(HISTORY_END);
    s
}

/// Renders one zone card: header, records table, add and import forms, and recent history.
pub fn render_zone(
    zone: &Zone,
    records: &[Record],
    history: &[ZoneHistory],
    csrf: &str,
    editable_types: &[&str],
) -> (s: String)
    ensures
        s@ == zone_card(
            zone@,
            order::models(records@),
            order::models(history@),
            csrf@,
            editable_types@,
        ),
{
    let rows = if records.len() == 0 {
        NO_RECORDS.to_string()
    } else {
        render_rows(records, csrf)
    };
    let mut s = CARD_NAME.to_string();
    s.push_str(&esc(&zone.name));
    s.push_str(CARD_SERIAL);
    s.push_str(&digits::signed_decimal_text(zone.serial));
    s.push_str(CARD_EXPORT);
    s.push_str(&esc(&zone.id));
    s.push_str(CARD_ROWS);
    s.push_str(&rows);
    s.push_str(ADD_ZONE);
    s.push_str(&esc(&zone.id));
    s.push_str(ADD_CSRF);
    s.push_str(&esc(csrf));
    s.push_str(ADD_TYPES);
    s.push_str(&render_options(editable_types));
    s.push_str(IMPORT_ZONE);
    s.push_str(&esc(&zone.id));
    s.push_str(IMPORT_CSRF);
    s.push_str(&esc(csrf));
    s.push_str(IMPORT_ORIGIN);
    s.push_str(&esc(&zone.name));
    s.push_str(CARD_HISTORY);
    s.push_str(&render_history(history));
    s.push_str(CARD_END);
    s
}

// ---------------------------------------------------------------------------
// Test queries
// ---------------------------------------------------------------------------

/// What a test query gave.
#[derive(Debug)]
pub enum TestOutcome {
    /// No name was entered.
    Empty,
    /// The question was resolved.
    Resolved { qname: String, qtype: u16, lookup: Lookup },
    /// The query type is unknown.
    UnknownType,
}

/// The model of [`TestOutcome`].
pub enum TestOutcomeModel {
    Empty,
    Resolved { qname: Seq<char>, qtype: u16, lookup: LookupModel },
    UnknownType,
}

impl View for TestOutcome {
    type V = TestOutcomeModel;

    open spec fn view(&self) -> TestOutcomeModel {
        match self {
            TestOutcome::Empty => TestOutcomeModel::Empty,
            TestOutcome::Resolved { qname, qtype, lookup } => TestOutcomeModel::Resolved {
                qname: qname@,
                qtype: *qtype,
                lookup: lookup@,
            },
            TestOutcome::UnknownType => TestOutcomeModel::UnknownType,
        }
    }
}

/// The name of a response code.
pub open spec fn rcode_name(rcode: u8) -> Seq<char> {
    if rcode == 0 {
        "NOERROR"@
    } else if rcode == 1 {
        "FORMERR"@
    } else if rcode == 2 {
        "SERVFAIL"@
    } else if rcode == 3 {
        "NXDOMAIN"@
    } else if rcode == 4 {
        "NOTIMP"@
    } else if rcode == 5 {
        "REFUSED"@
    } else {
        "OTHER"@
    }
}

/// `n` spaces.
pub open spec fn spaces(n: nat) -> Seq<char> {
    Seq::new(n, |i: int| ' ')
}

/// `s` with spaces behind it, up to a width of `width`.
pub open spec fn padded_right(s: Seq<char>, width: nat) -> Seq<char> {
    if s.len() < width {
        s + spaces((width - s.len()) as nat)
    } else {
        s
    }
}

/// `s` with spaces before it, up to a width of `width`.
pub open spec fn padded_left(s: Seq<char>, width: nat) -> Seq<char> {
    if s.len() < width {
        spaces((width - s.len()) as nat) + s
    } else {
        s
    }
}

/// The line of a record, with its owner name padded to `width`.
pub open spec fn rr_line(lead: Seq<char>, rr: RrModel, width: nat) -> Seq<char> {
    lead + padded_right(rr.name + "."@, width) + " "@ + padded_left(
        digits::decimal(rr.ttl as nat),
        6,
    ) + "  "@ + padded_right(dns::type_label(dns::code_of(rr.data)), 6) + " "@ + dns::rdata_text(
        rr.data,
    ) + "\n"@
}

/// The lines of records, one after the other.
pub open spec fn rr_lines(lead: Seq<char>, rrs: Seq<RrModel>, width: nat) -> Seq<char>
    decreases rrs.len(),
{
    if rrs.len() == 0 {
        Seq::<char>::empty()
    } else {
        rr_lines(lead, rrs.drop_last(), width) + rr_line(lead, rrs.last(), width)
    }
}

/// The dig-style block of an answer.
pub open spec fn lookup_block(qname: Seq<char>, qtype: u16, lk: LookupModel) -> Seq<char> {
    let answers = if lk.answers.len() == 0 {
        "; (no answer records)\n"@
    } else {
        rr_lines(""@, lk.answers, 28)
    };
    let aa = if lk.aa {
        " aa"@
    } else {
        ""@
    };
    r#"<pre class="answer">; QUESTION  "#@ + handlers::escaped(qname) + ". "@ + handlers::escaped(
        dns::type_label(qtype),
    ) + "\n; status: "@ + rcode_name(lk.rcode) + aa + ", "@ + digits::decimal(lk.answers.len())
        + " answer(s)\n"@ + handlers::escaped(answers) + handlers::escaped(
        rr_lines("; AUTHORITY  "@, lk.authority, 24),
    ) + "</pre>"@
}

/// The option of a query type, marked where it is the selected one.
pub open spec fn query_option(t: Seq<char>, selected: Seq<char>) -> Seq<char> {
    type_option(
        t,
        if t == selected {
            " selected"@
        } else {
            ""@
        },
    )
}

/// The options of the query types.
pub open spec fn query_options(selected: Seq<char>) -> Seq<char> {
    query_option("A"@, selected) + query_option("AAAA"@, selected) + query_option(
        "CNAME"@,
        selected,
    ) + query_option("MX"@, selected) + query_option("NS"@, selected) + query_option(
        "TXT"@,
        selected,
    ) + query_option("SRV"@, selected) + query_option("CAA"@, selected) + query_option(
        "SOA"@,
        selected,
    ) + query_option("ANY"@, selected)
}

/// The result in the test card.
pub open spec fn test_result(qtype_text: Seq<char>, outcome: TestOutcomeModel) -> Seq<char> {
    match outcome {
        TestOutcomeModel::Empty => ""@,
        TestOutcomeModel::Resolved { qname, qtype, lookup } => lookup_block(qname, qtype, lookup),
        TestOutcomeModel::UnknownType => r#"<div class="answer answer--err">Unknown query type: "#@
            + handlers::escaped(qtype_text) + "</div>"@,
    }
}

/// The test card.
pub open spec fn test_card(
    name: Seq<char>,
    qtype_text: Seq<char>,
    outcome: TestOutcomeModel,
) -> Seq<char> {
    TEST_NAME@ + handlers::escaped(name) + TEST_TYPES@ + query_options(qtype_text) + TEST_RESULT@
        + test_result(qtype_text, outcome) + TEST_END@
}

/// Renders a response code.
pub fn rcode_str(rcode: u8) -> (r: &'static str)
    ensures
        r@ == rcode_name(rcode),
{
    if rcode == 0 {
        "NOERROR"
    } else if rcode == 1 {
        "FORMERR"
    } else if rcode == 2 {
        "SERVFAIL"
    } else if rcode == 3 {
        "NXDOMAIN"
    } else if rcode == 4 {
        "NOTIMP"
    } else if rcode == 5 {
        "REFUSED"
    } else {
        "OTHER"
    }
}

/// The spaces that `s` lacks to a width of `width`.
fn padding(s: &str, width: usize) -> (r: String)
    ensures
        r@ == if s@.len() < width {
            spaces((width - s@.len()) as nat)
        } else {
            spaces(0)
        },
{
    let v = text::to_chars(s);
    let mut out = String::new();
    let mut i: usize = v.len();
    while i < width
        invariant
            v@.len() <= i,
            i <= width || i == v@.len(),
            out@ == spaces((i - v@.len()) as nat),
        decreases width - i,
    {
        out.push(' ');
        i += 1;
        assert(out@ == spaces((i - v@.len()) as nat));
    }
    out
}

/// Pads `s` with spaces behind it.
fn pad_right(s: &str, width: usize) -> (r: String)
    ensures
        r@ == padded_right(s@, width as nat),
{
    let r = text::concat(s, &padding(s, width));
    assert(r@ == padded_right(s@, width as nat));
    r
}

/// Pads `s` with spaces before it.
fn pad_left(s: &str, width: usize) -> (r: String)
    ensures
        r@ == padded_left(s@, width as nat),
{
    let r = text::concat(&padding(s, width), s);
    assert(r@ == padded_left(s@, width as nat));
    r
}

/// Renders the lines of records.
fn render_rrs(lead: &str, rrs: &Vec<Rr>, width: usize) -> (s: String)
    ensures
        s@ == rr_lines(lead@, order::models(rrs@), width as nat),
{
    let ghost all = order::models(rrs@);
    let mut s = String::new();
    let mut i: usize = 0;
    assert(all.take(0) == Seq::<RrModel>::empty());
    assert(s@ == Seq::<char>::empty());
    while i < rrs.len()
        invariant
            i <= rrs@.len(),
            all == order::models(rrs@),
            s@ == rr_lines(lead@, all.take(i as int), width as nat),
        decreases rrs@.len() - i,
    {
        assert(all.take(i + 1).drop_last() == all.take(i as int));
        assert(all.take(i + 1).last() == rrs@[i as int]@);
        let rr = &rrs[i];
        let mut line = lead.to_string();
        line.push_str(&pad_right(&text::concat(&rr.name, "."), width));
        line.push_str(" ");
        line.push_str(&pad_left(&digits::decimal_text(rr.ttl as u64), 6));
        line.push_str("  ");
        line.push_str(&pad_right(&type_to_str(rr.data.type_code()), 6));
        line.push_str(" ");
        line.push_str(&rr.data.to_text());
        line.push_str("\n");
        s.push_str(&line);
        i += 1;
    }
    assert(all.take(all.len() as int) == all);
    s
}

/// Formats a lookup as a dig-style answer block.
pub fn render_lookup(qname: &str, qtype: u16, lk: &Lookup) -> (s: String)
    ensures
        s@ == lookup_block(qname@, qtype, lk@),
{
    let answers = if lk.answers.len() == 0 {
        "; (no answer records)\n".to_string()
    } else {
        render_rrs("", &lk.answers, 28)
    };
    let mut s = r#"<pre class="answer">; QUESTION  "#.to_string();
    s.push_str(&esc(qname));
    s.push_str(". ");
    s.push_str(&esc(&type_to_str(qtype)));
    s.push_str("\n; status: ");
    s.push_str(rcode_str(lk.rcode));
    s.push_str(
        if lk.aa {
            " aa"
        } else {
            ""
        },
    );
    s.push_str(", ");
    s.push_str(&digits::decimal_text(lk.answers.len() as u64));
    s.push_str(" answer(s)\n");
    s.push_str(&esc(&answers));
    s.push_str(&esc(&render_rrs("; AUTHORITY  ", &lk.authority, 24)));
    s.push_str("</pre>");
    s
}

/// Renders the option of a query type.
fn render_query_option(t: &str, selected: &str) -> (s: String)
    ensures
        s@ == query_option(t@, selected@),
{
    if text::same(t, selected) {
        render_option(t, " selected")
    } else {
        render_option(t, "")
    }
}

/// Renders the options of the query types.
fn render_query_options(selected: &str) -> (s: String)
    ensures
        s@ == query_options(selected@),
{
    let mut s = render_query_option("A", selected);
    s.push_str(&render_query_option("AAAA", selected));
    s.push_str(&render_query_option("CNAME", selected));
    s.push_str(&render_query_option("MX", selected));
    s.push_str(&render_query_option("NS", selected));
    s.push_str(&render_query_option("TXT", selected));
    s.push_str(&render_query_option("SRV", selected));
    s.push_str(&render_query_option("CAA", selected));
    s.push_str(&render_query_option("SOA", selected));
    s.push_str(&render_query_option("ANY", selected));
    s
}

/// Renders the test-query card and, when a name was submitted, the resolved answer.
pub fn render_test_card(name: &str, qtype_str: &str, outcome: &TestOutcome) -> (s: String)
    ensures
        s@ == test_card(name@, qtype_str@, outcome@),
{
    let result = match outcome {
        TestOutcome::Empty => "".to_string(),
        TestOutcome::Resolved { qname, qtype, lookup } => render_lookup(qname, *qtype, lookup),
        TestOutcome::UnknownType => {
            let mut e = r#"<div class="answer answer--err">Unknown query type: "#.to_string();
            e.push_str(&esc(qtype_str));
            e.push_str("</div>");
            e
        },
    };
    let mut s = TEST_NAME.to_string();
    s.push_str(&esc(name));
    s.push_str(TEST_TYPES);
    s.push_str(&render_query_options(qtype_str));
    s.push_str(TEST_RESULT);
    s.push_str(&result);
    s.push_str(TEST_END);
    s
}

} // verus!

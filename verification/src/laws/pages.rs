//! What the pages show.
use crate::config;
use crate::digits;
use crate::dns;
use crate::dns::resolver;
use crate::dns::resolver::SnapshotModel;
use crate::dns::{LookupModel, RrModel};
use crate::handlers;
use crate::handlers::calendar;
use crate::handlers::zones;
use crate::handlers::zones::{Chrome, IndexQuery, ZonePageModel};
use crate::handlers::zones_view;
use crate::handlers::zones_view::{
    TestOutcomeModel, ADD_CSRF, ADD_TYPES, ADD_ZONE, CARD_END, CARD_EXPORT, CARD_HISTORY, CARD_NAME,
    CARD_ROWS, CARD_SERIAL, HIST_ACTION, HIST_ACTOR, HIST_DETAIL, HIST_END, HIST_WHEN, IMPORT_CSRF,
    IMPORT_ORIGIN, IMPORT_ZONE, ROW_CSRF, ROW_END, ROW_ID, ROW_NAME, ROW_TTL, ROW_TYPE, ROW_VALUE,
    TEST_END, TEST_NAME, TEST_RESULT, TEST_TYPES,
};
use crate::laws::addr as addr_laws;
use crate::laws::loading;
use crate::laws::names;
use crate::laws::pieces;
use crate::store::{HistoryModel, RecordModel, StoreModel, ZoneModel};
use crate::text;
use vstd::prelude::*;

verus! {

// ---------------------------------------------------------------------------
// Escaping
// ---------------------------------------------------------------------------

/// The five characters with a meaning in HTML are written as entities, and every other character as
/// itself.
pub proof fn lemma_escaped_char(c: char)
    ensures
        handlers::escaped(Seq::<char>::empty()).len() == 0,
        handlers::escaped(seq![c]) == if c == '&' {
            seq!['&', 'a', 'm', 'p', ';']
        } else if c == '<' {
            seq!['&', 'l', 't', ';']
        } else if c == '>' {
            seq!['&', 'g', 't', ';']
        } else if c == '"' {
            seq!['&', 'q', 'u', 'o', 't', ';']
        } else if c == '\'' {
            seq!['&', '#', 'x', '2', '7', ';']
        } else {
            seq![c]
        },
{
    reveal_strlit("&amp;");
    reveal_strlit("&lt;");
    reveal_strlit("&gt;");
    reveal_strlit("&quot;");
    reveal_strlit("&#x27;");
    let one = seq![c];
    assert(one.drop_last() =~= Seq::<char>::empty());
    assert(handlers::escaped(Seq::<char>::empty()) == Seq::<char>::empty());
    assert(handlers::escaped(one) =~= handlers::entity(c));
    assert("&amp;"@ =~= seq!['&', 'a', 'm', 'p', ';']);
    assert("&lt;"@ =~= seq!['&', 'l', 't', ';']);
    assert("&gt;"@ =~= seq!['&', 'g', 't', ';']);
    assert("&quot;"@ =~= seq!['&', 'q', 'u', 'o', 't', ';']);
    assert("&#x27;"@ =~= seq!['&', '#', 'x', '2', '7', ';']);
}

// ---------------------------------------------------------------------------
// Parts
// ---------------------------------------------------------------------------

/// Whether `part` stands in `page`.
pub open spec fn shows(page: Seq<char>, part: Seq<char>) -> bool {
    exists|a: Seq<char>, b: Seq<char>| page == #[trigger] (a + part + b)
}

/// The parts one after the other.
pub open spec fn together(parts: Seq<Seq<char>>) -> Seq<char>
    decreases parts.len(),
{
    if parts.len() == 0 {
        Seq::<char>::empty()
    } else {
        together(parts.drop_last()) + parts.last()
    }
}

/// What is put together shows its parts.
proof fn lemma_together(parts: Seq<Seq<char>>)
    ensures
        forall|i: int| 0 <= i < parts.len() ==> shows(together(parts), #[trigger] parts[i]),
    decreases parts.len(),
{
    if parts.len() > 0 {
        let init = parts.drop_last();
        lemma_together(init);
        let none = Seq::<char>::empty();
        let page = together(parts);
        assert forall|i: int| 0 <= i < parts.len() implies shows(page, #[trigger] parts[i]) by {
            if i < init.len() {
                assert(init[i] == parts[i]);
                let (a, b) = choose|a: Seq<char>, b: Seq<char>|
                    together(init) == #[trigger] (a + parts[i] + b);
                assert(page =~= a + parts[i] + (b + parts.last()));
            } else {
                assert(page =~= together(init) + parts[i] + none);
            }
        }
    }
}

/// What a part shows, the whole shows.
pub proof fn lemma_shows_through(page: Seq<char>, part: Seq<char>, small: Seq<char>)
    requires
        shows(page, part),
        shows(part, small),
    ensures
        shows(page, small),
{
    let (a, b) = choose|a: Seq<char>, b: Seq<char>| page == #[trigger] (a + part + b);
    let (c, d) = choose|c: Seq<char>, d: Seq<char>| part == #[trigger] (c + small + d);
    assert(page =~= (a + c) + small + (d + b));
}

/// Nothing in front of a text.
proof fn lemma_nothing(s: Seq<char>)
    ensures
        Seq::<char>::empty() + s == s,
        s + Seq::<char>::empty() == s,
{
    assert(Seq::<char>::empty() + s =~= s);
    assert(s + Seq::<char>::empty() =~= s);
}

/// Texts are put together from either end.
proof fn lemma_assoc(a: Seq<char>, b: Seq<char>, c: Seq<char>)
    ensures
        a + b + c == a + (b + c),
{
    assert(a + b + c =~= a + (b + c));
}

// ---------------------------------------------------------------------------
// Rows
// ---------------------------------------------------------------------------

/// The row of a record shows its name, type, TTL and value, and carries its id and the token.
pub proof fn lemma_record_row_shows(r: RecordModel, csrf: Seq<char>)
    ensures
        ({
            let row = zones_view::record_row(r, csrf);
            &&& shows(row, handlers::escaped(r.name))
            &&& shows(row, handlers::escaped(r.rtype))
            &&& shows(row, digits::signed_decimal(r.ttl as int))
            &&& shows(row, handlers::escaped(r.value))
            &&& shows(row, handlers::escaped(r.id))
            &&& shows(row, handlers::escaped(csrf))
        }),
{
    let parts = seq![
        ROW_NAME@,
        handlers::escaped(r.name),
        ROW_TYPE@,
        handlers::escaped(r.rtype),
        ROW_TTL@,
        digits::signed_decimal(r.ttl as int),
        ROW_VALUE@,
        handlers::escaped(r.value),
        ROW_ID@,
        handlers::escaped(r.id),
        ROW_CSRF@,
        handlers::escaped(csrf),
        ROW_END@,
    ];
    lemma_thirteen(parts);
    lemma_together(parts);
    assert(zones_view::record_row(r, csrf) == together(parts));
    assert(shows(together(parts), parts[1]));
    assert(shows(together(parts), parts[3]));
    assert(shows(together(parts), parts[5]));
    assert(shows(together(parts), parts[7]));
    assert(shows(together(parts), parts[9]));
    assert(shows(together(parts), parts[11]));
}

/// Nine parts.
proof fn lemma_nine(p: Seq<Seq<char>>)
    requires
        p.len() == 9,
    ensures
        together(p) == p[0] + p[1] + p[2] + p[3] + p[4] + p[5] + p[6] + p[7] + p[8],
{
    let p3 = p.take(3);
    let p6 = p.take(6);
    lemma_three(p, 3);
    lemma_three(p, 6);
    lemma_three(p, 9);
    assert(p.take(0) =~= Seq::<Seq<char>>::empty());
    assert(p.take(9) =~= p);
    assert(together(p.take(0)) + p[0] =~= p[0]);
}

/// Three parts more.
proof fn lemma_three(p: Seq<Seq<char>>, k: int)
    requires
        3 <= k <= p.len(),
    ensures
        together(p.take(k)) == together(p.take(k - 3)) + p[k - 3] + p[k - 2] + p[k - 1],
{
    assert(p.take(k).drop_last() =~= p.take(k - 1));
    assert(p.take(k - 1).drop_last() =~= p.take(k - 2));
    assert(p.take(k - 2).drop_last() =~= p.take(k - 3));
    assert(together(p.take(k - 2)) == together(p.take(k - 3)) + p[k - 3]);
    assert(together(p.take(k - 1)) == together(p.take(k - 2)) + p[k - 2]);
    assert(together(p.take(k)) == together(p.take(k - 1)) + p[k - 1]);
}

/// Thirteen parts.
proof fn lemma_thirteen(p: Seq<Seq<char>>)
    requires
        p.len() == 13,
    ensures
        together(p) == p[0] + p[1] + p[2] + p[3] + p[4] + p[5] + p[6] + p[7] + p[8] + p[9] + p[10]
            + p[11] + p[12],
{
    lemma_nine(p.take(9));
    lemma_three(p, 12);
    assert(p.take(13).drop_last() =~= p.take(12));
    assert(p.take(13) =~= p);
}

/// The rows of records stand in the order of the records, one for each.
pub proof fn lemma_rows_in_order(a: Seq<RecordModel>, b: Seq<RecordModel>, csrf: Seq<char>)
    ensures
        zones_view::record_rows(a + b, csrf) == zones_view::record_rows(a, csrf)
            + zones_view::record_rows(b, csrf),
        a.len() == 1 ==> zones_view::record_rows(a, csrf) == zones_view::record_row(a[0], csrf),
    decreases b.len(),
{
    if a.len() == 1 {
        let none = Seq::<RecordModel>::empty();
        assert(a.drop_last() =~= none);
        assert(zones_view::record_rows(none, csrf) == Seq::<char>::empty());
        lemma_nothing(zones_view::record_row(a[0], csrf));
    }
    if b.len() == 0 {
        assert(a + b =~= a);
        lemma_nothing(zones_view::record_rows(a, csrf));
    } else {
        lemma_rows_in_order(a, b.drop_last(), csrf);
        assert((a + b).drop_last() =~= a + b.drop_last());
        lemma_assoc(
            zones_view::record_rows(a, csrf),
            zones_view::record_rows(b.drop_last(), csrf),
            zones_view::record_row(b.last(), csrf),
        );
    }
}

/// Each record of a list has its row among the rows.
pub proof fn lemma_rows_show(records: Seq<RecordModel>, csrf: Seq<char>, i: int)
    requires
        0 <= i < records.len(),
    ensures
        shows(zones_view::record_rows(records, csrf), zones_view::record_row(records[i], csrf)),
{
    let a = records.take(i);
    let one = seq![records[i]];
    let b = records.skip(i + 1);
    assert(records =~= a + (one + b));
    lemma_rows_in_order(a, one + b, csrf);
    lemma_rows_in_order(one, b, csrf);
    assert(zones_view::record_rows(records, csrf) =~= zones_view::record_rows(a, csrf)
        + zones_view::record_row(records[i], csrf) + zones_view::record_rows(b, csrf));
}

/// The row of a history entry shows when it happened, who did it, what was done, and to what.
pub proof fn lemma_history_row_shows(h: HistoryModel)
    ensures
        ({
            let row = zones_view::history_row(h);
            &&& shows(row, handlers::escaped(calendar::shown_date(h.created_at)))
            &&& shows(row, handlers::escaped(h.actor))
            &&& shows(row, handlers::escaped(h.action))
            &&& shows(row, handlers::escaped(h.detail))
        }),
{
    let parts = seq![
        HIST_WHEN@,
        handlers::escaped(calendar::shown_date(h.created_at)),
        HIST_ACTOR@,
        handlers::escaped(h.actor),
        HIST_ACTION@,
        handlers::escaped(h.action),
        HIST_DETAIL@,
        handlers::escaped(h.detail),
        HIST_END@,
    ];
    lemma_nine(parts);
    lemma_together(parts);
    assert(zones_view::history_row(h) == together(parts));
    assert(shows(together(parts), parts[1]));
    assert(shows(together(parts), parts[3]));
    assert(shows(together(parts), parts[5]));
    assert(shows(together(parts), parts[7]));
}

/// The rows of the history stand in its order, one for each entry.
pub proof fn lemma_history_in_order(a: Seq<HistoryModel>, b: Seq<HistoryModel>)
    ensures
        zones_view::history_rows(a + b) == zones_view::history_rows(a) + zones_view::history_rows(
            b,
        ),
        a.len() == 1 ==> zones_view::history_rows(a) == zones_view::history_row(a[0]),
    decreases b.len(),
{
    if a.len() == 1 {
        let none = Seq::<HistoryModel>::empty();
        assert(a.drop_last() =~= none);
        assert(zones_view::history_rows(none) == Seq::<char>::empty());
        lemma_nothing(zones_view::history_row(a[0]));
    }
    if b.len() == 0 {
        assert(a + b =~= a);
        lemma_nothing(zones_view::history_rows(a));
    } else {
        lemma_history_in_order(a, b.drop_last());
        assert((a + b).drop_last() =~= a + b.drop_last());
        lemma_assoc(
            zones_view::history_rows(a),
            zones_view::history_rows(b.drop_last()),
            zones_view::history_row(b.last()),
        );
    }
}

// ---------------------------------------------------------------------------
// Cards
// ---------------------------------------------------------------------------

/// The card of a zone shows its name and its serial, the row of each of its records, and the row of each
/// entry of its history.
pub proof fn lemma_card_shows(
    zone: ZoneModel,
    records: Seq<RecordModel>,
    history: Seq<HistoryModel>,
    csrf: Seq<char>,
    types: Seq<&str>,
)
    ensures
        ({
            let card = zones_view::zone_card(zone, records, history, csrf, types);
            &&& shows(card, handlers::escaped(zone.name))
            &&& shows(card, digits::signed_decimal(zone.serial as int))
            &&& shows(card, handlers::escaped(zone.id))
            &&& shows(card, zones_view::type_options(types))
            &&& records.len() > 0 ==> shows(card, zones_view::record_rows(records, csrf))
            &&& history.len() > 0 ==> shows(card, zones_view::history_rows(history))
        }),
{
    let rows = if records.len() == 0 {
        zones_view::NO_RECORDS@
    } else {
        zones_view::record_rows(records, csrf)
    };
    let block = zones_view::history_block(history);
    let parts = seq![
        CARD_NAME@,
        handlers::escaped(zone.name),
        CARD_SERIAL@,
        digits::signed_decimal(zone.serial as int),
        CARD_EXPORT@,
        handlers::escaped(zone.id),
        CARD_ROWS@,
        rows,
        ADD_ZONE@,
        handlers::escaped(zone.id),
        ADD_CSRF@,
        handlers::escaped(csrf),
        ADD_TYPES@,
        zones_view::type_options(types),
        IMPORT_ZONE@,
        handlers::escaped(zone.id),
        IMPORT_CSRF@,
        handlers::escaped(csrf),
        IMPORT_ORIGIN@,
        handlers::escaped(zone.name),
        CARD_HISTORY@,
        block,
        CARD_END@,
    ];
    lemma_many(parts);
    lemma_together(parts);
    assert(zones_view::zone_card(zone, records, history, csrf, types) == together(parts));
    assert(shows(together(parts), parts[1]));
    assert(shows(together(parts), parts[3]));
    assert(shows(together(parts), parts[5]));
    assert(shows(together(parts), parts[7]));
    assert(shows(together(parts), parts[13]));
    assert(shows(together(parts), parts[21]));
    if history.len() > 0 {
        let inner = zones_view::history_rows(history);
        assert(block =~= zones_view::HISTORY_ROWS@ + inner + zones_view::HISTORY_END@);
        assert(shows(block, inner));
        lemma_shows_through(together(parts), block, inner);
    }
}

/// Twenty-three parts.
proof fn lemma_many(p: Seq<Seq<char>>)
    requires
        p.len() == 23,
    ensures
        together(p) == p[0] + p[1] + p[2] + p[3] + p[4] + p[5] + p[6] + p[7] + p[8] + p[9] + p[10]
            + p[11] + p[12] + p[13] + p[14] + p[15] + p[16] + p[17] + p[18] + p[19] + p[20] + p[21]
            + p[22],
{
    lemma_thirteen(p.take(13));
    lemma_three(p, 16);
    lemma_three(p, 19);
    lemma_three(p, 22);
    assert(p.take(13) =~= p.take(16 - 3));
    assert(p.take(23).drop_last() =~= p.take(22));
    assert(p.take(23) =~= p);
}

/// The card of a zone with what it shows.
pub open spec fn card_of(page: ZonePageModel, csrf: Seq<char>) -> Seq<char> {
    zones_view::zone_card(page.zone, page.records, page.history, csrf, zones::EDITABLE_TYPES@)
}

/// The cards of no zone, and those of zones and one more.
proof fn lemma_one_card_more(pages: Seq<ZonePageModel>, csrf: Seq<char>)
    ensures
        pages.len() == 0 ==> zones::zone_cards(pages, csrf).len() == 0,
        pages.len() > 0 ==> zones::zone_cards(pages, csrf) == zones::zone_cards(
            pages.drop_last(),
            csrf,
        ) + card_of(pages.last(), csrf),
{
}

/// The cards stand in the order of the zones, one for each.
pub proof fn lemma_cards_in_order(pages: Seq<ZonePageModel>, csrf: Seq<char>, cards: Seq<Seq<char>>)
    requires
        cards.len() == pages.len(),
        forall|i: int| 0 <= i < pages.len() ==> cards[i] == card_of(#[trigger] pages[i], csrf),
    ensures
        zones::zone_cards(pages, csrf) == together(cards),
    decreases pages.len(),
{
    lemma_one_card_more(pages, csrf);
    if pages.len() > 0 {
        let init = pages.drop_last();
        assert forall|i: int| 0 <= i < init.len() implies cards.drop_last()[i] == card_of(
            #[trigger] init[i],
            csrf,
        ) by {
            assert(init[i] == pages[i]);
        }
        lemma_cards_in_order(init, csrf, cards.drop_last());
        assert(pages[pages.len() - 1] == pages.last());
        assert(cards.last() == card_of(pages.last(), csrf));
    } else {
        assert(zones::zone_cards(pages, csrf) =~= Seq::<char>::empty());
    }
}

/// The number of records is counted over all zones.
pub proof fn lemma_total_records(a: Seq<ZonePageModel>, b: Seq<ZonePageModel>)
    ensures
        zones::total_records(a + b) == zones::total_records(a) + zones::total_records(b),
        a.len() == 1 ==> zones::total_records(a) == a[0].records.len(),
    decreases b.len(),
{
    if a.len() == 1 {
        assert(a.drop_last() =~= Seq::<ZonePageModel>::empty());
        assert(zones::total_records(Seq::<ZonePageModel>::empty()) == 0);
    }
    if b.len() == 0 {
        assert(a + b =~= a);
    } else {
        lemma_total_records(a, b.drop_last());
        assert((a + b).drop_last() =~= a + b.drop_last());
    }
}

// ---------------------------------------------------------------------------
// Answers
// ---------------------------------------------------------------------------

/// A padded text is the text and spaces, of the given width at least.
pub proof fn lemma_padding(s: Seq<char>, width: nat)
    ensures
        ({
            let right = zones_view::padded_right(s, width);
            let left = zones_view::padded_left(s, width);
            &&& right.len() == left.len() && left.len() == if s.len() < width {
                width
            } else {
                s.len()
            }
            &&& right.take(s.len() as int) == s
            &&& forall|i: int| s.len() <= i < right.len() ==> #[trigger] right[i] == ' '
            &&& left.skip(left.len() - s.len()) == s
            &&& forall|i: int| 0 <= i < left.len() - s.len() ==> #[trigger] left[i] == ' '
        }),
{
    let right = zones_view::padded_right(s, width);
    let left = zones_view::padded_left(s, width);
    assert(right.take(s.len() as int) =~= s);
    assert(left.skip(left.len() - s.len()) =~= s);
}

/// The line of a record shows its owner with a dot, its TTL, its type and its data.
pub proof fn lemma_rr_line_shows(lead: Seq<char>, rr: RrModel, width: nat)
    ensures
        ({
            let line = zones_view::rr_line(lead, rr, width);
            &&& shows(line, lead)
            &&& shows(line, zones_view::padded_right(rr.name + "."@, width))
            &&& shows(line, zones_view::padded_left(digits::decimal(rr.ttl as nat), 6))
            &&& shows(line, zones_view::padded_right(dns::type_label(dns::code_of(rr.data)), 6))
            &&& shows(line, dns::rdata_text(rr.data))
        }),
{
    let parts = seq![
        lead,
        zones_view::padded_right(rr.name + "."@, width),
        " "@,
        zones_view::padded_left(digits::decimal(rr.ttl as nat), 6),
        "  "@,
        zones_view::padded_right(dns::type_label(dns::code_of(rr.data)), 6),
        " "@,
        dns::rdata_text(rr.data),
        "\n"@,
    ];
    lemma_nine(parts);
    lemma_together(parts);
    assert(zones_view::rr_line(lead, rr, width) == together(parts));
    assert(shows(together(parts), parts[0]));
    assert(shows(together(parts), parts[1]));
    assert(shows(together(parts), parts[3]));
    assert(shows(together(parts), parts[5]));
    assert(shows(together(parts), parts[7]));
}

/// The lines of records stand in their order, one for each.
pub proof fn lemma_rr_lines_in_order(
    lead: Seq<char>,
    a: Seq<RrModel>,
    b: Seq<RrModel>,
    width: nat,
)
    ensures
        zones_view::rr_lines(lead, a + b, width) == zones_view::rr_lines(lead, a, width)
            + zones_view::rr_lines(lead, b, width),
        a.len() == 1 ==> zones_view::rr_lines(lead, a, width) == zones_view::rr_line(
            lead,
            a[0],
            width,
        ),
    decreases b.len(),
{
    if a.len() == 1 {
        let none = Seq::<RrModel>::empty();
        assert(a.drop_last() =~= none);
        assert(zones_view::rr_lines(lead, none, width) == Seq::<char>::empty());
        lemma_nothing(zones_view::rr_line(lead, a[0], width));
    }
    if b.len() == 0 {
        assert(a + b =~= a);
        lemma_nothing(zones_view::rr_lines(lead, a, width));
    } else {
        lemma_rr_lines_in_order(lead, a, b.drop_last(), width);
        assert((a + b).drop_last() =~= a + b.drop_last());
        lemma_assoc(
            zones_view::rr_lines(lead, a, width),
            zones_view::rr_lines(lead, b.drop_last(), width),
            zones_view::rr_line(lead, b.last(), width),
        );
    }
}

/// The block of an answer shows the question, the name of the response code, how many answers there are,
/// the lines of the answers and those of the authority section.
pub proof fn lemma_answer_shows(qname: Seq<char>, qtype: u16, lk: LookupModel)
    ensures
        ({
            let block = zones_view::lookup_block(qname, qtype, lk);
            &&& shows(block, handlers::escaped(qname))
            &&& shows(block, handlers::escaped(dns::type_label(qtype)))
            &&& shows(block, zones_view::rcode_name(lk.rcode))
            &&& shows(block, digits::decimal(lk.answers.len()))
            &&& lk.answers.len() > 0 ==> shows(
                block,
                handlers::escaped(zones_view::rr_lines(""@, lk.answers, 28)),
            )
            &&& shows(
                block,
                handlers::escaped(zones_view::rr_lines("; AUTHORITY  "@, lk.authority, 24)),
            )
        }),
{
    let answers = if lk.answers.len() == 0 {
        "; (no answer records)\n"@
    } else {
        zones_view::rr_lines(""@, lk.answers, 28)
    };
    let aa = if lk.aa {
        " aa"@
    } else {
        ""@
    };
    let parts = seq![
        r#"<pre class="answer">; QUESTION  "#@,
        handlers::escaped(qname),
        ". "@,
        handlers::escaped(dns::type_label(qtype)),
        "\n; status: "@,
        zones_view::rcode_name(lk.rcode),
        aa,
        ", "@,
        digits::decimal(lk.answers.len()),
        " answer(s)\n"@,
        handlers::escaped(answers),
        handlers::escaped(zones_view::rr_lines("; AUTHORITY  "@, lk.authority, 24)),
        "</pre>"@,
    ];
    lemma_thirteen(parts);
    lemma_together(parts);
    assert(zones_view::lookup_block(qname, qtype, lk) == together(parts));
    assert(shows(together(parts), parts[1]));
    assert(shows(together(parts), parts[3]));
    assert(shows(together(parts), parts[5]));
    assert(shows(together(parts), parts[8]));
    assert(shows(together(parts), parts[10]));
    assert(shows(together(parts), parts[11]));
}

/// Each response code is shown under its own name.
pub proof fn lemma_rcode_names(a: u8, b: u8)
    ensures
        zones_view::rcode_name(0) == "NOERROR"@,
        zones_view::rcode_name(1) == "FORMERR"@,
        zones_view::rcode_name(3) == "NXDOMAIN"@,
        zones_view::rcode_name(4) == "NOTIMP"@,
        zones_view::rcode_name(5) == "REFUSED"@,
        a < 6 && b < 6 && a != b ==> zones_view::rcode_name(a) != zones_view::rcode_name(b),
{
    reveal_strlit("NOERROR");
    reveal_strlit("FORMERR");
    reveal_strlit("SERVFAIL");
    reveal_strlit("NXDOMAIN");
    reveal_strlit("NOTIMP");
    reveal_strlit("REFUSED");
    assert("NOERROR"@[0] == 'N' && "FORMERR"@[0] == 'F' && "SERVFAIL"@[0] == 'S' && "NXDOMAIN"@[1]
        == 'X' && "NOTIMP"@[2] == 'T' && "REFUSED"@[0] == 'R' && "NOERROR"@[1] == 'O'
        && "NOERROR"@[2] == 'E' && "NXDOMAIN"@[0] == 'N' && "NOTIMP"@[0] == 'N' && "NOTIMP"@[1]
        == 'O');
}

/// The test card shows what the query gave.
pub proof fn lemma_test_card_shows(
    name: Seq<char>,
    qtype_text: Seq<char>,
    outcome: TestOutcomeModel,
)
    ensures
        ({
            let card = zones_view::test_card(name, qtype_text, outcome);
            &&& shows(card, handlers::escaped(name))
            &&& shows(card, zones_view::query_options(qtype_text))
            &&& outcome matches TestOutcomeModel::Resolved { qname, qtype, lookup } ==> shows(
                card,
                zones_view::lookup_block(qname, qtype, lookup),
            )
            &&& outcome is UnknownType ==> shows(card, handlers::escaped(qtype_text))
        }),
{
    let result = zones_view::test_result(qtype_text, outcome);
    let card = zones_view::test_card(name, qtype_text, outcome);
    let options = zones_view::query_options(qtype_text);
    let shown = handlers::escaped(name);
    assert(card =~= TEST_NAME@ + shown + (TEST_TYPES@ + options + TEST_RESULT@ + result
        + TEST_END@));
    assert(card =~= (TEST_NAME@ + shown + TEST_TYPES@) + options + (TEST_RESULT@ + result
        + TEST_END@));
    assert(card =~= (TEST_NAME@ + shown + TEST_TYPES@ + options + TEST_RESULT@) + result
        + TEST_END@);
    if outcome is UnknownType {
        let part = handlers::escaped(qtype_text);
        assert(shows(result, part)) by {
            assert(result =~= r#"<div class="answer answer--err">Unknown query type: "#@ + part
                + "</div>"@);
        }
        lemma_shows_through(card, result, part);
    }
}

/// A test query is made with the parameters without white space around them; without a type it asks for
/// A records.
pub proof fn lemma_test_section_means(snap: SnapshotModel, query: IndexQuery)
    ensures
        ({
            let name = match query.q {
                Some(q) => text::trimmed(q@),
                None => Seq::<char>::empty(),
            };
            let kind = match query.qtype {
                Some(t) => text::uppered(text::trimmed(t@)),
                None => seq!['A'],
            };
            zones::test_section(snap, query) == zones_view::test_card(
                name,
                kind,
                zones::test_outcome(snap, name, kind),
            )
        }),
{
    reveal_strlit("");
    reveal_strlit("A");
    assert(""@ =~= Seq::<char>::empty());
    assert("A"@ =~= seq!['A']);
    assert(text::trimmed(""@) =~= Seq::<char>::empty());
    names::lemma_trim_trimmed("A"@);
    assert(text::uppered("A"@) =~= seq!['A']);
}

/// The page shows the listed zones, each with its listed records and its listed history.
pub proof fn lemma_store_pages_mean(model: StoreModel, i: int)
    requires
        0 <= i < model.listed_zones().len(),
    ensures
        zones::store_pages(model).len() == model.listed_zones().len(),
        ({
            let page = zones::store_pages(model)[i];
            let zone = model.listed_zones()[i];
            page.zone == zone && page.records == model.listed_records(zone.id) && page.history
                == model.listed_history(zone.id)
        }),
{
}

/// The chip of a user shows the address; without an address there is the chip of nobody.
pub proof fn lemma_chip_shows(email: Seq<char>)
    ensures
        email.len() > 0 && email != "—"@ ==> shows(
            handlers::chip_for(Some(email)),
            handlers::escaped(email),
        ),
        handlers::chip_for(None) == handlers::no_chip(),
        handlers::chip_for(Some(Seq::<char>::empty())) == handlers::no_chip(),
        handlers::chip_for(Some("—"@)) == handlers::no_chip(),
{
    if email.len() > 0 && email != "—"@ {
        let initial = handlers::uppercase_of(email[0]);
        let a = r#"<span class="userchip"><span class="userchip__avatar" aria-hidden="true">"#@
            + handlers::escaped(initial) + r#"</span><span class="user-email">"#@;
        assert(handlers::chip_for(Some(email)) =~= a + handlers::escaped(email)
            + "</span></span>"@);
    }
}

// ---------------------------------------------------------------------------
// Templates
// ---------------------------------------------------------------------------

/// Whether `m` is a marker: two opening braces, a text without braces, and two closing ones.
pub open spec fn is_marker(m: Seq<char>) -> bool {
    &&& m.len() > 4
    &&& m[0] == '{' && m[1] == '{'
    &&& forall|i: int| 2 <= i < m.len() - 2 ==> #[trigger] m[i] != '{' && m[i] != '}'
    &&& m[m.len() - 2] == '}' && m[m.len() - 1] == '}'
}

/// A marker in a text without opening braces is replaced where it is the one that is filled in, and
/// stays where it is another.
pub proof fn lemma_marker(
    a: Seq<char>,
    m: Seq<char>,
    b: Seq<char>,
    pat: Seq<char>,
    with: Seq<char>,
)
    requires
        is_marker(m),
        is_marker(pat),
        names::free_of(a, '{'),
        names::free_of(b, '{'),
    ensures
        text::replaced(a + m + b, pat, with) == if pat == m {
            a + with + b
        } else {
            a + m + b
        },
        text::replaced(a + b, pat, with) == a + b,
{
    let s = a + m + b;
    let none = Seq::<char>::empty();
    assert forall|i: int| 0 <= i < s.len() && i != a.len() implies !#[trigger] pieces::stands_at(
        s,
        pat,
        i,
    ) by {
        if pieces::stands_at(s, pat, i) {
            assert(s[i + 0] == pat[0]);
            assert(s[i + 1] == pat[1]);
            if i < a.len() {
                assert(s[i] == a[i]);
            } else if i < a.len() + m.len() {
                let k = i - a.len();
                assert(s[i] == m[k]);
                if k >= 2 {
                    assert(m[k] != '{');
                } else if k == 1 {
                    assert(s[i + 1] == m[2]);
                    assert(m[2] != '{');
                }
            } else {
                assert(s[i] == b[i - a.len() - m.len()]);
            }
        }
    }
    assert forall|i: int| 0 <= i < b.len() implies !#[trigger] pieces::stands_at(b, pat, i) by {
        if pieces::stands_at(b, pat, i) {
            assert(b[i + 0] == pat[0]);
        }
    }
    pieces::lemma_replaced_means(a, b, pat, with);
    if pat != m {
        assert(!pieces::stands_at(s, pat, a.len() as int)) by {
            if pieces::stands_at(s, pat, a.len() as int) {
                lemma_same_marker(a, m, b, pat);
            }
        }
        pieces::lemma_replaced_means(none, s, pat, with);
    }
    let plain = a + b;
    assert forall|i: int| 0 <= i < plain.len() implies !#[trigger] pieces::stands_at(
        plain,
        pat,
        i,
    ) by {
        if pieces::stands_at(plain, pat, i) {
            assert(plain[i + 0] == pat[0]);
            if i < a.len() {
                assert(plain[i] == a[i]);
            } else {
                assert(plain[i] == b[i - a.len()]);
            }
        }
    }
    pieces::lemma_replaced_means(none, plain, pat, with);
}

/// Two markers at one place are one.
proof fn lemma_same_marker(a: Seq<char>, m: Seq<char>, b: Seq<char>, pat: Seq<char>)
    requires
        is_marker(m),
        is_marker(pat),
        names::free_of(b, '{'),
        pieces::stands_at(a + m + b, pat, a.len() as int),
    ensures
        pat == m,
{
    let s = a + m + b;
    let n = a.len() as int;
    assert forall|j: int| 0 <= j < pat.len() && j < m.len() implies pat[j] == m[j] by {
        assert(s[n + j] == pat[j]);
        assert(s[n + j] == m[j]);
    }
    if pat.len() < m.len() {
        let k = pat.len() - 2;
        assert(pat[k] == '}');
        assert(m[k] == pat[k]);
        if k < m.len() - 2 {
            assert(m[k] != '}');
        }
    }
    if m.len() < pat.len() {
        let k = m.len() - 2;
        assert(m[k] == '}');
        assert(m[k] == pat[k]);
        if k < pat.len() - 2 {
            assert(pat[k] != '}');
        }
    }
    assert(pat =~= m);
}

/// The markers of a page template.
proof fn lemma_page_markers()
    ensures
        is_marker("{{THEME_ATTR}}"@),
        is_marker("{{COLOR_SCHEME}}"@),
        is_marker("{{CSS_PATH}}"@),
        is_marker("{{APPBAR}}"@),
        is_marker("{{FOOTER}}"@),
        "{{THEME_ATTR}}"@.len() == 14,
        "{{COLOR_SCHEME}}"@.len() == 16,
        "{{CSS_PATH}}"@.len() == 12,
        "{{APPBAR}}"@.len() == 10,
        "{{FOOTER}}"@.len() == 10,
        "{{APPBAR}}"@ != "{{FOOTER}}"@,
{
    reveal_strlit("{{THEME_ATTR}}");
    reveal_strlit("{{COLOR_SCHEME}}");
    reveal_strlit("{{CSS_PATH}}");
    reveal_strlit("{{APPBAR}}");
    reveal_strlit("{{FOOTER}}");
    assert("{{APPBAR}}"@[2] == 'A' && "{{FOOTER}}"@[2] == 'F');
}

/// A page is its template with the theme, the color scheme and the app bar at their markers, where the
/// texts hold no opening braces.
pub proof fn lemma_filled_means(
    a: Seq<char>,
    b: Seq<char>,
    theme: Seq<char>,
    scheme: Seq<char>,
    bar: Seq<char>,
)
    requires
        names::free_of(a, '{'),
        names::free_of(b, '{'),
        names::free_of(theme, '{'),
        names::free_of(scheme, '{'),
        names::free_of(bar, '{'),
    ensures
        handlers::filled(a + b, theme, scheme, bar) == a + b,
        handlers::filled(a + "{{THEME_ATTR}}"@ + b, theme, scheme, bar) == a + theme + b,
        handlers::filled(a + "{{COLOR_SCHEME}}"@ + b, theme, scheme, bar) == a + scheme + b,
        handlers::filled(a + "{{APPBAR}}"@ + b, theme, scheme, bar) == a + bar + b,
        handlers::filled(a + "{{FOOTER}}"@ + b, theme, scheme, bar) == a + handlers::FOOTER@ + b,
{
    lemma_page_markers();
    lemma_fill(a, "{{THEME_ATTR}}"@, b, theme, scheme, bar);
    lemma_fill(a, "{{COLOR_SCHEME}}"@, b, theme, scheme, bar);
    lemma_fill(a, "{{APPBAR}}"@, b, theme, scheme, bar);
    lemma_fill(a, "{{FOOTER}}"@, b, theme, scheme, bar);
}

/// One marker is filled in.
proof fn lemma_fill(
    a: Seq<char>,
    m: Seq<char>,
    b: Seq<char>,
    theme: Seq<char>,
    scheme: Seq<char>,
    bar: Seq<char>,
)
    requires
        names::free_of(a, '{'),
        names::free_of(b, '{'),
        names::free_of(theme, '{'),
        names::free_of(scheme, '{'),
        names::free_of(bar, '{'),
        m == "{{THEME_ATTR}}"@ || m == "{{COLOR_SCHEME}}"@ || m == "{{APPBAR}}"@ || m
            == "{{FOOTER}}"@,
    ensures
        handlers::filled(a + b, theme, scheme, bar) == a + b,
        handlers::filled(a + m + b, theme, scheme, bar) == a + (if m == "{{THEME_ATTR}}"@ {
            theme
        } else if m == "{{COLOR_SCHEME}}"@ {
            scheme
        } else if m == "{{APPBAR}}"@ {
            bar
        } else {
            handlers::FOOTER@
        }) + b,
{
    lemma_page_markers();
    let css = handlers::APP_CSS_PATH@;
    let footer = handlers::FOOTER@;
    lemma_marker(a, m, b, "{{THEME_ATTR}}"@, theme);
    lemma_marker(a, m, b, "{{COLOR_SCHEME}}"@, scheme);
    lemma_marker(a, m, b, "{{CSS_PATH}}"@, css);
    lemma_marker(a, m, b, "{{APPBAR}}"@, bar);
    lemma_marker(a, m, b, "{{FOOTER}}"@, footer);
    lemma_plain(a, theme);
    lemma_plain(a, scheme);
    lemma_plain(a, bar);
    if m == "{{THEME_ATTR}}"@ {
        lemma_marker(a + theme, m, b, "{{COLOR_SCHEME}}"@, scheme);
        lemma_marker(a + theme, m, b, "{{CSS_PATH}}"@, css);
        lemma_marker(a + theme, m, b, "{{APPBAR}}"@, bar);
        lemma_marker(a + theme, m, b, "{{FOOTER}}"@, footer);
    } else if m == "{{COLOR_SCHEME}}"@ {
        lemma_marker(a + scheme, m, b, "{{CSS_PATH}}"@, css);
        lemma_marker(a + scheme, m, b, "{{APPBAR}}"@, bar);
        lemma_marker(a + scheme, m, b, "{{FOOTER}}"@, footer);
    } else if m == "{{APPBAR}}"@ {
        lemma_marker(a + bar, m, b, "{{FOOTER}}"@, footer);
    }
}

/// Texts without opening braces make a text without them.
proof fn lemma_plain(a: Seq<char>, t: Seq<char>)
    requires
        names::free_of(a, '{'),
        names::free_of(t, '{'),
    ensures
        names::free_of(a + t, '{'),
{
    let s = a + t;
    assert forall|i: int| 0 <= i < s.len() implies #[trigger] s[i] != '{' by {
        if i < a.len() {
            assert(s[i] == a[i]);
        } else {
            assert(s[i] == t[i - a.len()]);
        }
    }
}

/// A marker that is none of those of a page stays for the handler.
proof fn lemma_fill_leaves(
    a: Seq<char>,
    m: Seq<char>,
    b: Seq<char>,
    theme: Seq<char>,
    scheme: Seq<char>,
    bar: Seq<char>,
)
    requires
        names::free_of(a, '{'),
        names::free_of(b, '{'),
        is_marker(m),
        m != "{{THEME_ATTR}}"@,
        m != "{{COLOR_SCHEME}}"@,
        m != "{{CSS_PATH}}"@,
        m != "{{APPBAR}}"@,
        m != "{{FOOTER}}"@,
    ensures
        handlers::filled(a + m + b, theme, scheme, bar) == a + m + b,
{
    lemma_page_markers();
    lemma_marker(a, m, b, "{{THEME_ATTR}}"@, theme);
    lemma_marker(a, m, b, "{{COLOR_SCHEME}}"@, scheme);
    lemma_marker(a, m, b, "{{CSS_PATH}}"@, handlers::APP_CSS_PATH@);
    lemma_marker(a, m, b, "{{APPBAR}}"@, bar);
    lemma_marker(a, m, b, "{{FOOTER}}"@, handlers::FOOTER@);
}

/// The markers that the handlers fill in.
proof fn lemma_handler_markers()
    ensures
        is_marker("{{STATUS}}"@) && "{{STATUS}}"@[2] == 'S' && "{{STATUS}}"@[3] == 'T',
        is_marker("{{TEST}}"@) && "{{TEST}}"@[2] == 'T' && "{{TEST}}"@[3] == 'E',
        is_marker("{{ZONES}}"@) && "{{ZONES}}"@[2] == 'Z',
        is_marker("{{HEADING}}"@) && "{{HEADING}}"@[2] == 'H',
        is_marker("{{MESSAGE}}"@) && "{{MESSAGE}}"@[2] == 'M',
        "{{THEME_ATTR}}"@[2] == 'T' && "{{THEME_ATTR}}"@[3] == 'H',
        "{{COLOR_SCHEME}}"@[2] == 'C',
        "{{CSS_PATH}}"@[2] == 'C',
        "{{APPBAR}}"@[2] == 'A',
        "{{FOOTER}}"@[2] == 'F',
{
    reveal_strlit("{{STATUS}}");
    reveal_strlit("{{TEST}}");
    reveal_strlit("{{ZONES}}");
    reveal_strlit("{{HEADING}}");
    reveal_strlit("{{MESSAGE}}");
    reveal_strlit("{{THEME_ATTR}}");
    reveal_strlit("{{COLOR_SCHEME}}");
    reveal_strlit("{{CSS_PATH}}");
    reveal_strlit("{{APPBAR}}");
    reveal_strlit("{{FOOTER}}");
}

/// The zones page shows the status line, the test card and the cards of the zones at their markers, each
/// of them where the texts before it hold no opening braces; without zones it says so.
pub proof fn lemma_zones_page_means(
    chrome: Chrome,
    a: Seq<char>,
    b: Seq<char>,
    pages: Seq<ZonePageModel>,
    dns_addr: Seq<char>,
    test: Seq<char>,
)
    requires
        names::free_of(a, '{'),
        names::free_of(b, '{'),
    ensures
        ({
            let page = zones::zones_page(chrome, pages, dns_addr, test);
            let status = handlers::escaped(
                zones::status_line(pages.len(), zones::total_records(pages), dns_addr),
            );
            &&& chrome.template@ == a + "{{STATUS}}"@ + b && names::free_of(status, '{') ==> page
                == a + status + b
            &&& chrome.template@ == a + "{{TEST}}"@ + b && names::free_of(test, '{') ==> page == a
                + test + b
            &&& chrome.template@ == a + "{{ZONES}}"@ + b ==> page == a + (if pages.len() == 0 {
                zones::NO_ZONES@
            } else {
                zones::zone_cards(pages, chrome.csrf@)
            }) + b
        }),
{
    lemma_handler_markers();
    let theme = chrome.theme_attr@;
    let scheme = chrome.color_scheme@;
    let bar = handlers::bar_with("/"@, handlers::chip_for(Some(chrome.email@)));
    let status = handlers::escaped(
        zones::status_line(pages.len(), zones::total_records(pages), dns_addr),
    );
    let cards = if pages.len() == 0 {
        zones::NO_ZONES@
    } else {
        zones::zone_cards(pages, chrome.csrf@)
    };
    lemma_three_markers(
        a,
        b,
        theme,
        scheme,
        bar,
        "{{STATUS}}"@,
        status,
        "{{TEST}}"@,
        test,
        "{{ZONES}}"@,
        cards,
    );
}

/// Three markers that are filled in one after the other behind those of the page.
proof fn lemma_three_markers(
    a: Seq<char>,
    b: Seq<char>,
    theme: Seq<char>,
    scheme: Seq<char>,
    bar: Seq<char>,
    m1: Seq<char>,
    t1: Seq<char>,
    m2: Seq<char>,
    t2: Seq<char>,
    m3: Seq<char>,
    t3: Seq<char>,
)
    requires
        names::free_of(a, '{'),
        names::free_of(b, '{'),
        is_marker(m1) && is_marker(m2) && is_marker(m3),
        m1 != m2 && m1 != m3 && m2 != m3,
        forall|m: Seq<char>| #[trigger]
            is_marker(m) && (m == m1 || m == m2 || m == m3) ==> m != "{{THEME_ATTR}}"@ && m
                != "{{COLOR_SCHEME}}"@ && m != "{{CSS_PATH}}"@ && m != "{{APPBAR}}"@ && m
                != "{{FOOTER}}"@,
    ensures
        ({
            let f1 = handlers::filled(a + m1 + b, theme, scheme, bar);
            let f2 = handlers::filled(a + m2 + b, theme, scheme, bar);
            let f3 = handlers::filled(a + m3 + b, theme, scheme, bar);
            &&& names::free_of(t1, '{') ==> text::replaced(
                text::replaced(text::replaced(f1, m1, t1), m2, t2),
                m3,
                t3,
            ) == a + t1 + b
            &&& names::free_of(t2, '{') ==> text::replaced(
                text::replaced(text::replaced(f2, m1, t1), m2, t2),
                m3,
                t3,
            ) == a + t2 + b
            &&& text::replaced(text::replaced(text::replaced(f3, m1, t1), m2, t2), m3, t3) == a + t3
                + b
        }),
{
    lemma_fill_leaves(a, m1, b, theme, scheme, bar);
    lemma_fill_leaves(a, m2, b, theme, scheme, bar);
    lemma_fill_leaves(a, m3, b, theme, scheme, bar);
    lemma_marker(a, m1, b, m1, t1);
    lemma_marker(a, m2, b, m1, t1);
    lemma_marker(a, m2, b, m2, t2);
    lemma_marker(a, m3, b, m1, t1);
    lemma_marker(a, m3, b, m2, t2);
    lemma_marker(a, m3, b, m3, t3);
    if names::free_of(t1, '{') {
        lemma_plain(a, t1);
        lemma_marker(a + t1, m1, b, m2, t2);
        lemma_marker(a + t1, m1, b, m3, t3);
    }
    if names::free_of(t2, '{') {
        lemma_plain(a, t2);
        lemma_marker(a + t2, m1, b, m3, t3);
    }
}

/// The error page shows the code, the heading and the message at their markers, where the texts before
/// them hold no opening braces.
pub proof fn lemma_error_page_means(
    a: Seq<char>,
    b: Seq<char>,
    code: u16,
    heading: Seq<char>,
    message: Seq<char>,
)
    requires
        names::free_of(a, '{'),
        names::free_of(b, '{'),
    ensures
        handlers::error_document(a + "{{STATUS}}"@ + b, code, heading, message) == a
            + digits::decimal(code as nat) + b,
        names::free_of(handlers::escaped(heading), '{') ==> handlers::error_document(
            a + "{{HEADING}}"@ + b,
            code,
            heading,
            message,
        ) == a + handlers::escaped(heading) + b,
        handlers::error_document(a + "{{MESSAGE}}"@ + b, code, heading, message) == a
            + handlers::escaped(message) + b,
{
    lemma_handler_markers();
    let shown = digits::decimal(code as nat);
    addr_laws::lemma_decimal_roundtrip(code as nat);
    assert forall|i: int| 0 <= i < shown.len() implies #[trigger] shown[i] != '{' by {
        assert(digits::is_digit(shown[i]));
    }
    lemma_three_markers(
        a,
        b,
        ""@,
        "light dark"@,
        handlers::bar_with("/"@, handlers::no_chip()),
        "{{STATUS}}"@,
        shown,
        "{{HEADING}}"@,
        handlers::escaped(heading),
        "{{MESSAGE}}"@,
        handlers::escaped(message),
    );
}

/// The status line counts the zones and their records, and names the address that is served.
pub proof fn lemma_status_line_shows(zone_count: nat, record_count: nat, dns_addr: Seq<char>)
    ensures
        ({
            let line = zones::status_line(zone_count, record_count, dns_addr);
            &&& exists|rest: Seq<char>|
                line == #[trigger] (digits::decimal(zone_count) + " zone(s), "@ + digits::decimal(
                    record_count,
                ) + rest)
            &&& shows(line, dns_addr)
        }),
{
    let line = zones::status_line(zone_count, record_count, dns_addr);
    let front = digits::decimal(zone_count) + " zone(s), "@ + digits::decimal(record_count);
    let middle = " record(s) loaded · serving authoritative DNS on "@;
    assert(line =~= front + (middle + dns_addr));
    assert(line =~= (front + middle) + dns_addr + Seq::<char>::empty());
}

// ---------------------------------------------------------------------------
// Navigation
// ---------------------------------------------------------------------------

/// The pill of a page links to it under its label, and is marked if and only if the page is the active
/// one.
pub proof fn lemma_pill_means(href: Seq<char>, label: Seq<char>, active: Seq<char>)
    ensures
        handlers::pill(href, label, active) == if href == active {
            r#"<a class="surf is-active" href=""#@ + href + r#"" aria-current="page">"#@ + label
                + "</a>"@
        } else {
            r#"<a class="surf" href=""#@ + href + r#"">"#@ + label + "</a>"@
        },
{
    reveal_strlit(r#"<a class="surf is-active" href=""#);
    reveal_strlit(r#"" aria-current="page">"#);
    reveal_strlit(r#"<a class="surf" href=""#);
    reveal_strlit(r#"">"#);
    reveal_strlit(r#"<a class="surf"#);
    reveal_strlit(" is-active");
    reveal_strlit(r#" aria-current="page""#);
    reveal_strlit("");
    reveal_strlit(r#"" href=""#);
    reveal_strlit(r#"""#);
    reveal_strlit(">");
    assert(r#"<a class="surf is-active" href=""#@ =~= r#"<a class="surf"#@ + " is-active"@
        + r#"" href=""#@);
    assert(r#"" aria-current="page">"#@ =~= r#"""#@ + r#" aria-current="page""#@ + ">"@);
    assert(r#"<a class="surf" href=""#@ =~= r#"<a class="surf"#@ + ""@ + r#"" href=""#@);
    assert(r#"">"#@ =~= r#"""#@ + ""@ + ">"@);
    if href == active {
        assert(handlers::pill(href, label, active)
            =~= r#"<a class="surf is-active" href=""#@ + href + r#"" aria-current="page">"#@ + label
            + "</a>"@);
    } else {
        assert(handlers::pill(href, label, active) =~= r#"<a class="surf" href=""#@ + href
            + r#"">"#@ + label + "</a>"@);
    }
}

/// The app bar shows the pill of the zones page and the chip of the user.
pub proof fn lemma_bar_shows(active: Seq<char>, chip: Seq<char>)
    ensures
        shows(handlers::bar_with(active, chip), chip),
        shows(handlers::bar_with(active, chip), handlers::pill("/"@, "Zones"@, active)),
        shows(handlers::bar_with(active, chip), handlers::LOGOUT_URL@),
{
    let pill = handlers::pill("/"@, "Zones"@, active);
    let parts = seq![
        handlers::BAR_OPEN@ + handlers::ICON_MARK@,
        handlers::BAR_NAV@,
        pill,
        handlers::BAR_APPS@ + handlers::ICON_GRID@,
        handlers::BAR_USER@,
        chip,
        handlers::BAR_LOGOUT@,
        handlers::LOGOUT_URL@,
        handlers::BAR_CLOSE@,
    ];
    lemma_nine(parts);
    lemma_together(parts);
    lemma_assoc(
        handlers::BAR_OPEN@ + handlers::ICON_MARK@ + handlers::BAR_NAV@ + pill,
        handlers::BAR_APPS@,
        handlers::ICON_GRID@,
    );
    assert(handlers::bar_with(active, chip) == together(parts));
    assert(shows(together(parts), parts[2]));
    assert(shows(together(parts), parts[5]));
    assert(shows(together(parts), parts[7]));
}

/// The option of a query type is marked if and only if it is the selected one.
pub proof fn lemma_query_option_means(t: Seq<char>, selected: Seq<char>)
    ensures
        t == selected ==> zones_view::query_option(t, selected) == r#"<option value=""#@ + t
            + r#"" selected>"#@ + t + "</option>"@,
        t != selected ==> zones_view::query_option(t, selected) == r#"<option value=""#@ + t
            + r#"">"#@ + t + "</option>"@,
{
    reveal_strlit(r#"" selected>"#);
    reveal_strlit(r#"">"#);
    reveal_strlit(r#"""#);
    reveal_strlit(" selected");
    reveal_strlit("");
    reveal_strlit(">");
    assert(r#"" selected>"#@ =~= r#"""#@ + " selected"@ + ">"@);
    assert(r#"">"#@ =~= r#"""#@ + ""@ + ">"@);
    if t == selected {
        assert(zones_view::query_option(t, selected) =~= r#"<option value=""#@ + t
            + r#"" selected>"#@ + t + "</option>"@);
    } else {
        assert(zones_view::query_option(t, selected) =~= r#"<option value=""#@ + t + r#"">"#@ + t
            + "</option>"@);
    }
}

/// The options of record types stand in their order, one for each.
pub proof fn lemma_type_options_in_order(a: Seq<&str>, b: Seq<&str>)
    ensures
        zones_view::type_options(a + b) == zones_view::type_options(a) + zones_view::type_options(
            b,
        ),
        a.len() == 1 ==> zones_view::type_options(a) == zones_view::type_option(a[0]@, ""@),
    decreases b.len(),
{
    if a.len() == 1 {
        let none = Seq::<&str>::empty();
        assert(a.drop_last() =~= none);
        assert(zones_view::type_options(none) == Seq::<char>::empty());
        lemma_nothing(zones_view::type_option(a[0]@, ""@));
    }
    if b.len() == 0 {
        assert(a + b =~= a);
        lemma_nothing(zones_view::type_options(a));
    } else {
        lemma_type_options_in_order(a, b.drop_last());
        assert((a + b).drop_last() =~= a + b.drop_last());
        lemma_assoc(
            zones_view::type_options(a),
            zones_view::type_options(b.drop_last()),
            zones_view::type_option(b.last()@, ""@),
        );
    }
}

/// A query can ask for each type that is served, and for all of them.
pub proof fn lemma_query_options_show(selected: Seq<char>)
    ensures
        ({
            let options = zones_view::query_options(selected);
            &&& shows(options, zones_view::query_option("A"@, selected))
            &&& shows(options, zones_view::query_option("AAAA"@, selected))
            &&& shows(options, zones_view::query_option("CNAME"@, selected))
            &&& shows(options, zones_view::query_option("MX"@, selected))
            &&& shows(options, zones_view::query_option("NS"@, selected))
            &&& shows(options, zones_view::query_option("TXT"@, selected))
            &&& shows(options, zones_view::query_option("SRV"@, selected))
            &&& shows(options, zones_view::query_option("CAA"@, selected))
            &&& shows(options, zones_view::query_option("SOA"@, selected))
            &&& shows(options, zones_view::query_option("ANY"@, selected))
        }),
{
    let parts = seq![
        zones_view::query_option("A"@, selected) + zones_view::query_option("AAAA"@, selected),
        zones_view::query_option("CNAME"@, selected),
        zones_view::query_option("MX"@, selected),
        zones_view::query_option("NS"@, selected),
        zones_view::query_option("TXT"@, selected),
        zones_view::query_option("SRV"@, selected),
        zones_view::query_option("CAA"@, selected),
        zones_view::query_option("SOA"@, selected),
        zones_view::query_option("ANY"@, selected),
    ];
    lemma_nine(parts);
    lemma_together(parts);
    let options = together(parts);
    assert(zones_view::query_options(selected) == options);
    assert(shows(options, parts[0]));
    assert(shows(options, parts[1]));
    assert(shows(options, parts[2]));
    assert(shows(options, parts[3]));
    assert(shows(options, parts[4]));
    assert(shows(options, parts[5]));
    assert(shows(options, parts[6]));
    assert(shows(options, parts[7]));
    assert(shows(options, parts[8]));
    lemma_two_parts(
        zones_view::query_option("A"@, selected),
        zones_view::query_option("AAAA"@, selected),
    );
    lemma_shows_through(options, parts[0], zones_view::query_option("A"@, selected));
    lemma_shows_through(options, parts[0], zones_view::query_option("AAAA"@, selected));
}

/// Two texts together show each of them.
proof fn lemma_two_parts(a: Seq<char>, b: Seq<char>)
    ensures
        shows(a + b, a),
        shows(a + b, b),
{
    let none = Seq::<char>::empty();
    assert(a + b =~= none + a + b);
    assert(a + b =~= a + b + none);
}

// ---------------------------------------------------------------------------
// Test queries
// ---------------------------------------------------------------------------

/// A test query without a name asks nothing. One with a name is answered as the server answers for the
/// canonical name and the code of the type; a type without a code is reported.
pub proof fn lemma_test_means(snap: SnapshotModel, name: Seq<char>, qtype_text: Seq<char>)
    ensures
        match zones::test_outcome(snap, name, qtype_text) {
            TestOutcomeModel::Empty => name.len() == 0,
            TestOutcomeModel::Resolved { qname, qtype, lookup } => {
                &&& name.len() > 0
                &&& qname == config::canonical(name)
                &&& loading::is_coded(qtype_text, qtype)
                &&& lookup == resolver::answer(snap, qname, qtype)
            },
            TestOutcomeModel::UnknownType => name.len() > 0 && forall|code: u16|
                !loading::is_coded(qtype_text, code),
        },
{
    assert forall|code: u16| #[trigger] loading::is_coded(qtype_text, code) <==> dns::type_of(
        qtype_text,
    ) == Some(code) by {
        loading::lemma_type_code_means(qtype_text, code);
    }
}

} // verus!

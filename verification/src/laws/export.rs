//! An exported zone reads back: importing the zone file of a zone gives its records.
use crate::config;
use crate::config::{SOA_EXPIRE, SOA_MINIMUM, SOA_REFRESH, SOA_RETRY};
use crate::digits;
use crate::handlers::zones;
use crate::handlers::zones::EditErrorModel;
use crate::laws::addr as addr_laws;
use crate::laws::edits;
use crate::laws::lexical;
use crate::laws::names;
use crate::laws::records;
use crate::order;
use crate::store::{RecordModel, ZoneModel};
use crate::text;
use crate::zonefile;
use crate::zonefile::lexer;
use crate::zonefile::lexer::LogicalLineModel;
use crate::zonefile::render;
use crate::zonefile::render::ByNameTypeValue;
use crate::zonefile::{ParsedModel, ZoneScan};
use vstd::prelude::*;

verus! {

// ---------------------------------------------------------------------------
// Pieces of a line
// ---------------------------------------------------------------------------

/// Whether `s` can stand in a line beside other pieces: it is read as it stands, and its quotes are
/// closed.
pub open spec fn is_piece(s: Seq<char>) -> bool {
    lexical::is_closed(s) && lexical::is_clean_line(s)
}

/// Two pieces with a space between them are a piece, and their tokens are those of both.
pub proof fn lemma_join_pieces(a: Seq<char>, b: Seq<char>)
    requires
        is_piece(a),
        is_piece(b),
    ensures
        is_piece(a + " "@ + b),
        lexer::tokens_of(a + " "@ + b) == Some(
            lexer::tokens_of(a).unwrap() + lexer::tokens_of(b).unwrap(),
        ),
{
    reveal_strlit(" ");
    let s = a + " "@ + b;
    let mid = a + " "@;
    lexical::lemma_tokens_append(a, b);
    assert(lexical::is_closed(mid));
    lexical::lemma_quoting_append(mid, b);
    assert(lexer::uncommented(" "@) == " "@) by {
        assert(" "@.drop_last() == Seq::<char>::empty());
    }
    lexical::lemma_uncommented_append(a, " "@);
    lexical::lemma_uncommented_append(mid, b);
    assert(s[0] == a[0]);
    assert(s.last() == b.last());
    assert forall|i: int| 0 <= i < s.len() implies #[trigger] s[i] != '(' && s[i] != ')' && s[i]
        != '\n' by {
        if i < a.len() {
            assert(s[i] == a[i]);
        } else if i == a.len() {
            assert(s[i] == ' ');
        } else {
            assert(s[i] == b[i - a.len() - 1]);
        }
    }
}

/// Whether `s` is a plain word without parentheses.
pub open spec fn is_token_word(s: Seq<char>) -> bool {
    lexical::is_plain_word(s) && lexical::no_parens(s)
}

/// A plain word without parentheses is a piece and its only token.
pub proof fn lemma_token_word(s: Seq<char>)
    requires
        is_token_word(s),
    ensures
        is_piece(s),
        lexer::tokens_of(s) == Some(seq![s]),
{
    lexical::lemma_plain_word(s);
    assert(!text::is_space(s[0]));
    assert(!text::is_space(s[s.len() - 1]));
    assert(text::is_space('\n'));
    assert forall|i: int| 0 <= i < s.len() implies #[trigger] s[i] != '\n' by {
        assert(!text::is_space(s[i]));
    }
}

/// A text of letters, digits and a few signs is a plain word without parentheses.
pub open spec fn is_simple_char(c: char) -> bool {
    ('a' <= c <= 'z') || ('A' <= c <= 'Z') || ('0' <= c <= '9') || c == '.' || c == '-' || c == '_'
        || c == '@' || c == '$' || c == ':' || c == '*'
}

/// Simple characters make plain words.
pub proof fn lemma_simple_word(s: Seq<char>)
    requires
        s.len() > 0,
        forall|i: int| 0 <= i < s.len() ==> is_simple_char(#[trigger] s[i]),
    ensures
        is_token_word(s),
{
    assert forall|i: int| 0 <= i < s.len() implies !text::is_space(#[trigger] s[i]) && s[i] != '"'
        && s[i] != ';' && s[i] != '(' && s[i] != ')' by {
        assert(is_simple_char(s[i]));
    }
}

/// A decimal text is a plain word.
pub proof fn lemma_decimal_word(n: nat)
    ensures
        is_token_word(digits::decimal(n)),
{
    let s = digits::decimal(n);
    addr_laws::lemma_decimal_roundtrip(n);
    assert forall|i: int| 0 <= i < s.len() implies is_simple_char(#[trigger] s[i]) by {
        assert(digits::is_digit(s[i]));
    }
    lemma_simple_word(s);
}

/// A text that starts with a letter or a sign is no number.
proof fn lemma_not_ttl(s: Seq<char>)
    requires
        s.len() > 0,
        !digits::is_digit(s[0]),
        s[0] != '+',
        s[0] != '-',
    ensures
        !zonefile::is_ttl_token(s),
{
}

/// The TTL of a record reads back from its text.
proof fn lemma_ttl_token(ttl: i64)
    requires
        0 <= ttl <= 2_147_483_647,
    ensures
        zonefile::is_ttl_token(digits::signed_decimal(ttl as int)),
        zonefile::ttl_of(digits::signed_decimal(ttl as int)) == ttl,
        is_token_word(digits::signed_decimal(ttl as int)),
{
    lemma_decimal_word(ttl as nat);
    addr_laws::lemma_signed_roundtrip(ttl);
    let s = digits::decimal(ttl as nat);
    lemma_token_word(s);
    names::lemma_trim_trimmed(s);
}

// ---------------------------------------------------------------------------
// Record lines
// ---------------------------------------------------------------------------

/// Whether a value reads back from the form in which it is written to a zone file.
pub open spec fn value_reads_back(rtype: Seq<char>, value: Seq<char>, zone: Seq<char>) -> bool {
    let shown = render::rendered_value(rtype, value);
    &&& is_piece(shown)
    &&& lexer::tokens_of(shown).unwrap().len() > 0
    &&& zonefile::stored_value(
        rtype,
        text::joined(lexer::tokens_of(shown).unwrap(), " "@),
        zone,
    ) == Ok::<Seq<char>, Seq<char>>(value)
}

/// Whether an owner name reads back from the form in which it is written to a zone file: a word that
/// names an owner, and that is not taken for a TTL, a class, a type or a directive.
pub open spec fn name_reads_back(name: Seq<char>, zone: Seq<char>) -> bool {
    let shown = render::relative_name(name, zone);
    &&& is_token_word(shown)
    &&& shown[0] != '$'
    &&& zonefile::names_owner(shown, false)
    &&& zonefile::owner_of(shown, zone) == name
}

/// Whether a record reads back from its line in a zone file.
#[verifier::opaque]
pub open spec fn reads_back(r: RecordModel, zone: Seq<char>) -> bool {
    &&& name_reads_back(r.name, zone)
    &&& 0 <= r.ttl <= 2_147_483_647
    &&& zonefile::is_editable(r.rtype)
    &&& value_reads_back(r.rtype, r.value, zone)
}

/// A stored record as a zone file gives it.
pub open spec fn as_parsed(r: RecordModel) -> ParsedModel {
    ParsedModel { name: r.name, rtype: r.rtype, value: r.value, ttl: r.ttl }
}

/// The line of a record without its line feed.
#[verifier::opaque]
pub open spec fn record_body(r: RecordModel, zone: Seq<char>) -> Seq<char> {
    render::relative_name(r.name, zone) + " "@ + digits::signed_decimal(r.ttl as int) + " IN "@
        + text::uppered(r.rtype) + " "@ + render::rendered_value(r.rtype, r.value)
}

/// An editable type is a word in upper case that is neither a TTL nor a class.
proof fn lemma_type_token(rtype: Seq<char>)
    requires
        zonefile::is_editable(rtype) || rtype == "SOA"@,
    ensures
        is_token_word(rtype),
        text::uppered(rtype) == rtype,
        !zonefile::is_ttl_token(rtype),
        !zonefile::is_class_token(rtype),
{
    reveal_strlit("A");
    reveal_strlit("AAAA");
    reveal_strlit("NS");
    reveal_strlit("CNAME");
    reveal_strlit("MX");
    reveal_strlit("TXT");
    reveal_strlit("SRV");
    reveal_strlit("CAA");
    reveal_strlit("SOA");
    reveal_strlit("IN");
    assert(rtype.len() > 0);
    assert forall|i: int| 0 <= i < rtype.len() implies 'A' <= #[trigger] rtype[i] <= 'Z' by {}
    assert forall|i: int| 0 <= i < rtype.len() implies is_simple_char(#[trigger] rtype[i]) by {
        assert('A' <= rtype[i] <= 'Z');
    }
    lemma_simple_word(rtype);
    assert(text::uppered(rtype) =~= rtype);
    assert('A' <= rtype[0] <= 'Z');
    lemma_not_ttl(rtype);
    assert(rtype[0] != 'I');
}

/// The word `IN` is a class.
proof fn lemma_class_token()
    ensures
        is_token_word("IN"@),
        zonefile::is_class_token("IN"@),
        !zonefile::is_ttl_token("IN"@),
{
    reveal_strlit("IN");
    lemma_simple_word("IN"@);
    assert(text::uppered("IN"@) =~= "IN"@);
    lemma_not_ttl("IN"@);
}

/// A TTL, a class and a type behind an owner are read as such.
proof fn lemma_skip_to_type(tokens: Seq<Seq<char>>, default: i64)
    requires
        tokens.len() >= 4,
        zonefile::is_ttl_token(tokens[1]),
        !zonefile::is_ttl_token(tokens[2]),
        zonefile::is_class_token(tokens[2]),
        !zonefile::is_ttl_token(tokens[3]),
        !zonefile::is_class_token(tokens[3]),
    ensures
        zonefile::skip_ttl_and_class(tokens, 1, default) == (zonefile::ttl_of(tokens[1]), 3int),
{
    let ttl = zonefile::ttl_of(tokens[1]);
    assert(zonefile::skip_ttl_and_class(tokens, 3, ttl) == (ttl, 3int));
    assert(zonefile::skip_ttl_and_class(tokens, 2, ttl) == (ttl, 3int));
}

/// The line of a record is a piece, with the tokens of its parts.
proof fn lemma_record_tokens(r: RecordModel, zone: Seq<char>)
    requires
        reads_back(r, zone),
    ensures
        is_piece(record_body(r, zone)),
        lexer::tokens_of(record_body(r, zone)) == Some(
            seq![
                render::relative_name(r.name, zone),
                digits::signed_decimal(r.ttl as int),
                "IN"@,
                r.rtype,
            ] + lexer::tokens_of(render::rendered_value(r.rtype, r.value)).unwrap(),
        ),
{
    reveal(reads_back);
    reveal(record_body);
    let name = render::relative_name(r.name, zone);
    let ttl = digits::signed_decimal(r.ttl as int);
    let shown = render::rendered_value(r.rtype, r.value);
    lemma_token_word(name);
    lemma_ttl_token(r.ttl);
    lemma_token_word(ttl);
    lemma_class_token();
    lemma_token_word("IN"@);
    lemma_type_token(r.rtype);
    lemma_token_word(r.rtype);
    let two = name + " "@ + ttl;
    let three = two + " "@ + "IN"@;
    let four = three + " "@ + r.rtype;
    lemma_join_pieces(name, ttl);
    lemma_join_pieces(two, "IN"@);
    lemma_join_pieces(three, r.rtype);
    lemma_join_pieces(four, shown);
    assert(" IN "@ =~= " "@ + "IN"@ + " "@) by {
        reveal_strlit(" IN ");
        reveal_strlit(" ");
        reveal_strlit("IN");
    }
    assert(two + " IN "@ + r.rtype =~= four);
    assert(record_body(r, zone) == four + " "@ + shown);
    assert(seq![name] + seq![ttl] + seq!["IN"@] + seq![r.rtype] =~= seq![
        name,
        ttl,
        "IN"@,
        r.rtype,
    ]);
}

/// A record reads back from its line.
proof fn lemma_record_line_reads_back(
    r: RecordModel,
    zone: Seq<char>,
    st: ZoneScan,
    line_no: int,
)
    requires
        reads_back(r, zone),
        st.origin == zone,
    ensures
        zonefile::read_zone_line(
            zone,
            st,
            LogicalLineModel { text: record_body(r, zone), leading_space: false, line_no },
        ) == Ok::<ZoneScan, Seq<char>>(
            ZoneScan {
                previous_owner: r.name,
                records: st.records.push(as_parsed(r)),
                ..st
            },
        ),
{
    reveal(reads_back);
    let name = render::relative_name(r.name, zone);
    let ttl = digits::signed_decimal(r.ttl as int);
    let values = lexer::tokens_of(render::rendered_value(r.rtype, r.value)).unwrap();
    let tokens = seq![name, ttl, "IN"@, r.rtype] + values;
    lemma_record_tokens(r, zone);
    lemma_ttl_token(r.ttl);
    lemma_class_token();
    lemma_type_token(r.rtype);
    lemma_skip_to_type(tokens, st.default_ttl);
    records::lemma_owner_within_origin(name, zone);
    assert(tokens.skip(4) =~= values);
    let first = text::uppered(name);
    assert(first[0] == text::upper_char(name[0]));
    assert(first[0] != '$');
    reveal_strlit("$ORIGIN");
    reveal_strlit("$TTL");
    assert(first != "$ORIGIN"@ && first != "$TTL"@);
    assert(r.rtype != "SOA"@) by {
        reveal_strlit("A");
        reveal_strlit("AAAA");
        reveal_strlit("NS");
        reveal_strlit("CNAME");
        reveal_strlit("MX");
        reveal_strlit("TXT");
        reveal_strlit("SRV");
        reveal_strlit("CAA");
        reveal_strlit("SOA");
        assert("SOA"@.len() == 3 && "SOA"@[0] == 'S' && "SOA"@[1] == 'O');
    }
}

/// The lines of records without their line feeds.
pub open spec fn record_bodies(recs: Seq<RecordModel>, zone: Seq<char>) -> Seq<Seq<char>> {
    recs.map_values(|r: RecordModel| record_body(r, zone))
}

/// One line is read after the other.
proof fn lemma_read_step(
    zone: Seq<char>,
    st: ZoneScan,
    lines: Seq<LogicalLineModel>,
    next: ZoneScan,
)
    requires
        lines.len() > 0,
        zonefile::read_zone_line(zone, st, lines[0]) == Ok::<ZoneScan, Seq<char>>(next),
    ensures
        zonefile::read_zone_lines(zone, st, lines) == zonefile::read_zone_lines(
            zone,
            next,
            lines.drop_first(),
        ),
{
}

/// Records read back from their lines.
proof fn lemma_record_lines_read_back(
    recs: Seq<RecordModel>,
    zone: Seq<char>,
    st: ZoneScan,
    line_no: int,
)
    requires
        forall|i: int| 0 <= i < recs.len() ==> reads_back(#[trigger] recs[i], zone),
        st.origin == zone,
    ensures
        zonefile::read_zone_lines(
            zone,
            st,
            lexical::as_logical(record_bodies(recs, zone), line_no),
        ) matches Ok(last) && last.records == st.records + recs.map_values(
            |r: RecordModel| as_parsed(r),
        ),
    decreases recs.len(),
{
    let lines = lexical::as_logical(record_bodies(recs, zone), line_no);
    let made = recs.map_values(|r: RecordModel| as_parsed(r));
    if recs.len() == 0 {
        assert(st.records + made =~= st.records);
    } else {
        let r = recs[0];
        let rest = recs.drop_first();
        assert(reads_back(recs[0], zone));
        lemma_record_line_reads_back(r, zone, st, line_no);
        let next = ZoneScan {
            previous_owner: r.name,
            records: st.records.push(as_parsed(r)),
            ..st
        };
        assert forall|i: int| 0 <= i < rest.len() implies reads_back(#[trigger] rest[i], zone) by {
            assert(rest[i] == recs[i + 1]);
        }
        assert(lines[0] == (LogicalLineModel {
            text: record_body(r, zone),
            leading_space: false,
            line_no,
        }));
        lemma_read_step(zone, st, lines, next);
        lemma_record_lines_read_back(rest, zone, next, line_no + 1);
        assert(lines.drop_first() =~= lexical::as_logical(
            record_bodies(rest, zone),
            line_no + 1,
        ));
        let tail = rest.map_values(|r: RecordModel| as_parsed(r));
        assert(next.records + tail =~= st.records + made);
    }
}

// ---------------------------------------------------------------------------
// The header
// ---------------------------------------------------------------------------

/// Whether the name of a zone reads back from the header of its zone file.
pub open spec fn zone_reads_back(name: Seq<char>) -> bool {
    is_token_word(name + "."@) && config::canonical(name + "."@) == name
}

/// The first line of a zone file.
pub open spec fn origin_line(name: Seq<char>) -> Seq<char> {
    "$ORIGIN"@ + " "@ + (name + "."@)
}

/// The second line of a zone file.
pub open spec fn ttl_line() -> Seq<char> {
    "$TTL"@ + " "@ + "300"@
}

/// The third line of a zone file.
pub open spec fn soa_line(ns: Seq<char>, hm: Seq<char>, serial: int) -> Seq<char> {
    "@"@ + " "@ + "300"@ + " "@ + "IN"@ + " "@ + "SOA"@ + " "@ + (ns + "."@) + " "@ + (hm + "."@)
        + " "@ + digits::signed_decimal(serial) + " "@ + digits::decimal(SOA_REFRESH as nat) + " "@
        + digits::decimal(SOA_RETRY as nat) + " "@ + digits::decimal(SOA_EXPIRE as nat) + " "@
        + digits::decimal(SOA_MINIMUM as nat)
}

/// The origin line sets the origin.
proof fn lemma_origin_line(name: Seq<char>, st: ZoneScan, line_no: int)
    requires
        zone_reads_back(name),
    ensures
        is_piece(origin_line(name)),
        zonefile::read_zone_line(
            name,
            st,
            LogicalLineModel { text: origin_line(name), leading_space: false, line_no },
        ) == Ok::<ZoneScan, Seq<char>>(ZoneScan { origin: name, ..st }),
{
    reveal_strlit("$ORIGIN");
    let word = "$ORIGIN"@;
    assert forall|i: int| 0 <= i < word.len() implies is_simple_char(#[trigger] word[i]) by {}
    lemma_simple_word(word);
    lemma_token_word(word);
    lemma_token_word(name + "."@);
    lemma_join_pieces(word, name + "."@);
    assert(text::uppered(word) =~= word);
    assert(seq![word] + seq![name + "."@] =~= seq![word, name + "."@]);
    names::lemma_within_reflexive(name);
}

/// The number 300 as a token.
proof fn lemma_default_ttl_token()
    ensures
        is_token_word("300"@),
        zonefile::is_ttl_token("300"@),
        zonefile::ttl_of("300"@) == 300,
        "300"@ == digits::signed_decimal(300),
{
    reveal_strlit("300");
    reveal_with_fuel(digits::decimal, 4);
    assert(digits::signed_decimal(300) =~= "300"@);
    lemma_ttl_token(300);
}

/// The TTL line sets the default TTL.
proof fn lemma_ttl_line(zone: Seq<char>, st: ZoneScan, line_no: int)
    ensures
        is_piece(ttl_line()),
        zonefile::read_zone_line(
            zone,
            st,
            LogicalLineModel { text: ttl_line(), leading_space: false, line_no },
        ) == Ok::<ZoneScan, Seq<char>>(ZoneScan { default_ttl: 300, ..st }),
{
    reveal_strlit("$TTL");
    reveal_strlit("$ORIGIN");
    let word = "$TTL"@;
    assert forall|i: int| 0 <= i < word.len() implies is_simple_char(#[trigger] word[i]) by {}
    lemma_simple_word(word);
    lemma_token_word(word);
    lemma_default_ttl_token();
    lemma_token_word("300"@);
    lemma_join_pieces(word, "300"@);
    assert(text::uppered(word) =~= word);
    assert(word != "$ORIGIN"@);
    assert(seq![word] + seq!["300"@] =~= seq![word, "300"@]);
}

/// The sign `@` names the owner of a record.
pub proof fn lemma_at_token(zone: Seq<char>)
    ensures
        is_token_word("@"@),
        zonefile::names_owner("@"@, false),
        zonefile::owner_of("@"@, zone) == zone,
        text::uppered("@"@) == "@"@,
{
    reveal_strlit("@");
    reveal_strlit("IN");
    reveal_strlit("SOA");
    reveal_strlit("A");
    reveal_strlit("AAAA");
    reveal_strlit("NS");
    reveal_strlit("CNAME");
    reveal_strlit("MX");
    reveal_strlit("TXT");
    reveal_strlit("SRV");
    reveal_strlit("CAA");
    let at = "@"@;
    lemma_simple_word(at);
    assert(text::uppered(at) =~= at);
    assert(text::lowered(at) =~= at);
    lemma_not_ttl(at);
    names::lemma_canonical_fixed(at);
    assert(at.len() == 1 && at[0] == '@');
    assert("A"@[0] == 'A');
}

/// The SOA line is read and gives no record.
proof fn lemma_soa_line(
    zone: Seq<char>,
    ns: Seq<char>,
    hm: Seq<char>,
    serial: int,
    st: ZoneScan,
    line_no: int,
)
    requires
        is_piece(ns + "."@),
        is_piece(hm + "."@),
        st.origin == zone,
        serial >= 0,
    ensures
        is_piece(soa_line(ns, hm, serial)),
        zonefile::read_zone_line(
            zone,
            st,
            LogicalLineModel { text: soa_line(ns, hm, serial), leading_space: false, line_no },
        ) == Ok::<ZoneScan, Seq<char>>(ZoneScan { previous_owner: zone, ..st }),
{
    lemma_at_token(zone);
    lemma_default_ttl_token();
    lemma_class_token();
    lemma_type_token("SOA"@);
    lemma_token_word("@"@);
    lemma_token_word("300"@);
    lemma_token_word("IN"@);
    lemma_token_word("SOA"@);
    lemma_decimal_word(serial as nat);
    lemma_token_word(digits::decimal(serial as nat));
    let two = "@"@ + " "@ + "300"@;
    let three = two + " "@ + "IN"@;
    let four = three + " "@ + "SOA"@;
    lemma_join_pieces("@"@, "300"@);
    lemma_join_pieces(two, "IN"@);
    lemma_join_pieces(three, "SOA"@);
    let head = seq!["@"@, "300"@, "IN"@, "SOA"@];
    assert(lexer::tokens_of(four).unwrap() =~= head);
    let five = four + " "@ + (ns + "."@);
    let six = five + " "@ + (hm + "."@);
    let seven = six + " "@ + digits::signed_decimal(serial);
    lemma_join_pieces(four, ns + "."@);
    lemma_join_pieces(five, hm + "."@);
    lemma_join_pieces(six, digits::signed_decimal(serial));
    let t5 = lexer::tokens_of(five).unwrap();
    let t6 = lexer::tokens_of(six).unwrap();
    let t7 = lexer::tokens_of(seven).unwrap();
    assert(t5 == head + lexer::tokens_of(ns + "."@).unwrap());
    assert(t6 == t5 + lexer::tokens_of(hm + "."@).unwrap());
    assert(t7 == t6 + lexer::tokens_of(digits::signed_decimal(serial)).unwrap());
    assert forall|i: int| 0 <= i < 4 implies #[trigger] t7[i] == head[i] by {
        assert(t5[i] == head[i]);
        assert(t6[i] == t5[i]);
    }
    lemma_timers_follow(seven);
    let line = soa_line(ns, hm, serial);
    let tokens = lexer::tokens_of(line).unwrap();
    assert(tokens[0] == t7[0] && tokens[1] == t7[1] && tokens[2] == t7[2] && tokens[3] == t7[3]);
    assert(tokens[0] == head[0] && tokens[1] == head[1] && tokens[2] == head[2] && tokens[3]
        == head[3]);
    lemma_skip_to_type(tokens, st.default_ttl);
    reveal_strlit("@");
    reveal_strlit("$ORIGIN");
    reveal_strlit("$TTL");
    assert("@"@ != "$ORIGIN"@ && "@"@ != "$TTL"@);
    names::lemma_within_reflexive(zone);
}

/// The timers behind a piece make a piece that starts with its tokens.
proof fn lemma_timers_follow(s: Seq<char>)
    requires
        is_piece(s),
    ensures
        ({
            let t = s + " "@ + digits::decimal(SOA_REFRESH as nat) + " "@ + digits::decimal(
                SOA_RETRY as nat,
            ) + " "@ + digits::decimal(SOA_EXPIRE as nat) + " "@ + digits::decimal(
                SOA_MINIMUM as nat,
            );
            let head = lexer::tokens_of(s).unwrap();
            &&& is_piece(t)
            &&& lexer::tokens_of(t) is Some
            &&& lexer::tokens_of(t).unwrap().len() >= head.len()
            &&& forall|i: int|
                0 <= i < head.len() ==> lexer::tokens_of(t).unwrap()[i] == #[trigger] head[i]
        }),
{
    let (a, b, c, d) = (
        digits::decimal(SOA_REFRESH as nat),
        digits::decimal(SOA_RETRY as nat),
        digits::decimal(SOA_EXPIRE as nat),
        digits::decimal(SOA_MINIMUM as nat),
    );
    lemma_decimal_word(SOA_REFRESH as nat);
    lemma_decimal_word(SOA_RETRY as nat);
    lemma_decimal_word(SOA_EXPIRE as nat);
    lemma_decimal_word(SOA_MINIMUM as nat);
    lemma_token_word(a);
    lemma_token_word(b);
    lemma_token_word(c);
    lemma_token_word(d);
    lemma_join_pieces(s, a);
    lemma_join_pieces(s + " "@ + a, b);
    lemma_join_pieces(s + " "@ + a + " "@ + b, c);
    lemma_join_pieces(s + " "@ + a + " "@ + b + " "@ + c, d);
}

/// The text of three lines.
proof fn lemma_three_lines(a: Seq<char>, b: Seq<char>, c: Seq<char>)
    ensures
        lexical::unlines(seq![a, b, c]) == (a + "\n"@) + (b + "\n"@) + (c + "\n"@),
{
    let none = Seq::<Seq<char>>::empty();
    let empty = Seq::<char>::empty();
    assert(seq![a, b, c].drop_last() =~= seq![a, b]);
    assert(seq![a, b].drop_last() =~= seq![a]);
    assert(seq![a].drop_last() =~= none);
    assert(lexical::unlines(none) == empty);
    assert(lexical::unlines(seq![a]) == empty + a + "\n"@);
    assert(empty + a + "\n"@ =~= a + "\n"@);
    assert(lexical::unlines(seq![a, b]) == (a + "\n"@) + b + "\n"@);
    assert(lexical::unlines(seq![a, b, c]) == (a + "\n"@) + b + "\n"@ + c + "\n"@);
    assert((a + "\n"@) + b + "\n"@ + c + "\n"@ =~= (a + "\n"@) + (b + "\n"@) + (c + "\n"@));
}

/// The first line is written as it is read.
proof fn lemma_origin_text(name: Seq<char>)
    ensures
        "$ORIGIN "@ + name + ".\n"@ == origin_line(name) + "\n"@,
{
    assert("$ORIGIN "@ =~= "$ORIGIN"@ + " "@) by {
        reveal_strlit("$ORIGIN ");
        reveal_strlit("$ORIGIN");
        reveal_strlit(" ");
    }
    assert(".\n"@ =~= "."@ + "\n"@) by {
        reveal_strlit(".");
        reveal_strlit("\n");
        reveal_strlit(".\n");
    }
    assert("$ORIGIN "@ + name + ("."@ + "\n"@) =~= "$ORIGIN"@ + " "@ + (name + "."@) + "\n"@);
}

/// The second line is written as it is read.
proof fn lemma_ttl_text()
    ensures
        "$TTL 300\n"@ == ttl_line() + "\n"@,
{
    reveal_strlit("$TTL 300\n");
    reveal_strlit("$TTL");
    reveal_strlit(" ");
    reveal_strlit("300");
    reveal_strlit("\n");
    assert("$TTL 300\n"@ =~= ttl_line() + "\n"@);
}

/// The third line is written as it is read.
proof fn lemma_soa_text(primary_ns: Seq<char>, hostmaster: Seq<char>, serial: int)
    ensures
        render::soa_entry(primary_ns, hostmaster, serial) == soa_line(
            config::canonical(primary_ns),
            config::canonical(hostmaster),
            serial,
        ) + "\n"@,
{
    let ns = config::canonical(primary_ns);
    let hm = config::canonical(hostmaster);
    let four = "@"@ + " "@ + "300"@ + " "@ + "IN"@ + " "@ + "SOA"@;
    assert("@ 300 IN SOA "@ =~= four + " "@) by {
        reveal_strlit("@ 300 IN SOA ");
        reveal_strlit("@");
        reveal_strlit(" ");
        reveal_strlit("300");
        reveal_strlit("IN");
        reveal_strlit("SOA");
    }
    assert(". "@ =~= "."@ + " "@) by {
        reveal_strlit(". ");
        reveal_strlit(".");
        reveal_strlit(" ");
    }
    let lead = four + " "@;
    lemma_name_and_space(lead, ns);
    lemma_name_and_space(lead + (ns + "."@) + " "@, hm);
}

/// A name, a dot and a space behind a text.
proof fn lemma_name_and_space(lead: Seq<char>, name: Seq<char>)
    ensures
        lead + name + ("."@ + " "@) == lead + (name + "."@) + " "@,
{
    assert(lead + name + ("."@ + " "@) =~= lead + (name + "."@) + " "@);
}

/// The lines of the header of a zone file.
pub open spec fn header_lines(
    zone: ZoneModel,
    primary_ns: Seq<char>,
    hostmaster: Seq<char>,
) -> Seq<Seq<char>> {
    seq![
        origin_line(zone.name),
        ttl_line(),
        soa_line(
            config::canonical(primary_ns),
            config::canonical(hostmaster),
            render::shown_serial(zone.serial),
        ),
    ]
}

/// The header of a zone file is its three lines.
proof fn lemma_header_lines(zone: ZoneModel, primary_ns: Seq<char>, hostmaster: Seq<char>)
    ensures
        render::zone_header(zone, primary_ns, hostmaster) == lexical::unlines(
            header_lines(zone, primary_ns, hostmaster),
        ),
{
    let serial = render::shown_serial(zone.serial);
    lemma_origin_text(zone.name);
    lemma_ttl_text();
    lemma_soa_text(primary_ns, hostmaster, serial);
    lemma_three_lines(
        origin_line(zone.name),
        ttl_line(),
        soa_line(config::canonical(primary_ns), config::canonical(hostmaster), serial),
    );
}

/// The header of a zone file is read and gives no records.
proof fn lemma_header_reads_back(
    zone: ZoneModel,
    primary_ns: Seq<char>,
    hostmaster: Seq<char>,
    lines: Seq<LogicalLineModel>,
)
    requires
        zone_reads_back(zone.name),
        is_piece(config::canonical(primary_ns) + "."@),
        is_piece(config::canonical(hostmaster) + "."@),
        lines.len() >= 3,
        lines.take(3) == lexical::as_logical(header_lines(zone, primary_ns, hostmaster), 1),
    ensures
        forall|i: int|
            0 <= i < 3 ==> lexical::is_clean_line(
                #[trigger] header_lines(zone, primary_ns, hostmaster)[i],
            ),
        zonefile::read_zone_lines(zone.name, zonefile::first_zone_scan(zone.name), lines)
            == zonefile::read_zone_lines(
            zone.name,
            ZoneScan { previous_owner: zone.name, ..zonefile::first_zone_scan(zone.name) },
            lines.skip(3),
        ),
{
    let name = zone.name;
    let ns = config::canonical(primary_ns);
    let hm = config::canonical(hostmaster);
    let serial = render::shown_serial(zone.serial);
    let head = header_lines(zone, primary_ns, hostmaster);
    let logical = lexical::as_logical(head, 1);
    let st0 = zonefile::first_zone_scan(name);
    let st1 = ZoneScan { previous_owner: name, ..st0 };
    let two = lines.drop_first();
    let one = two.drop_first();
    assert(lines.take(3)[0] == lines[0] && lines.take(3)[1] == lines[1] && lines.take(3)[2]
        == lines[2]);
    lemma_origin_line(name, st0, 1);
    assert(lines[0] == logical[0]);
    lemma_read_step(name, st0, lines, st0);
    lemma_ttl_line(name, st0, 2);
    assert(two[0] == logical[1]);
    lemma_read_step(name, st0, two, st0);
    lemma_soa_line(name, ns, hm, serial, st0, 3);
    assert(one[0] == logical[2]);
    lemma_read_step(name, st0, one, st1);
    assert(one.drop_first() =~= lines.skip(3));
}

/// Lines in front of the lines of records.
proof fn lemma_unlines_records(
    head: Seq<Seq<char>>,
    recs: Seq<RecordModel>,
    zone: Seq<char>,
)
    ensures
        lexical::unlines(head + record_bodies(recs, zone)) == lexical::unlines(head)
            + render::record_lines(recs, zone),
    decreases recs.len(),
{
    let all = head + record_bodies(recs, zone);
    if recs.len() == 0 {
        assert(all =~= head);
        assert(lexical::unlines(head) + render::record_lines(recs, zone) =~= lexical::unlines(
            head,
        ));
    } else {
        let init = recs.drop_last();
        let r = recs.last();
        lemma_unlines_records(head, init, zone);
        assert(record_bodies(recs, zone) =~= record_bodies(init, zone).push(record_body(r, zone)));
        assert(all.drop_last() =~= head + record_bodies(init, zone));
        assert(all.last() == record_body(r, zone));
        assert(render::record_line(r, zone) == record_body(r, zone) + "\n"@) by {
            reveal(record_body);
        }
        assert(lexical::unlines(all) =~= lexical::unlines(head) + render::record_lines(init, zone)
            + record_body(r, zone) + "\n"@);
    }
}

// ---------------------------------------------------------------------------
// The zone file
// ---------------------------------------------------------------------------

/// An exported zone reads back: where the name of the zone, the names in its SOA and each of its
/// records read back on their own, the zone file gives the records, sorted by name, type and value.
pub proof fn lemma_zone_file_roundtrip(
    zone: ZoneModel,
    recs: Seq<RecordModel>,
    primary_ns: Seq<char>,
    hostmaster: Seq<char>,
)
    requires
        zone_reads_back(zone.name),
        is_piece(config::canonical(primary_ns) + "."@),
        is_piece(config::canonical(hostmaster) + "."@),
        forall|i: int| 0 <= i < recs.len() ==> reads_back(#[trigger] recs[i], zone.name),
    ensures
        zonefile::zone_file_records(
            zone.name,
            render::zone_file(zone, recs, primary_ns, hostmaster),
        ) == Ok::<Seq<ParsedModel>, Seq<char>>(
            order::sorted::<ByNameTypeValue>(recs).map_values(|r: RecordModel| as_parsed(r)),
        ),
{
    let name = zone.name;
    let s = order::sorted::<ByNameTypeValue>(recs);
    lemma_sorted_reads_back(recs, name);
    let head = header_lines(zone, primary_ns, hostmaster);
    let lines = head + record_bodies(s, name);
    let logical = lexical::as_logical(lines, 1);
    lemma_header_lines(zone, primary_ns, hostmaster);
    lemma_unlines_records(head, s, name);
    assert(logical.take(3) =~= lexical::as_logical(head, 1));
    lemma_header_reads_back(zone, primary_ns, hostmaster, logical);
    assert forall|i: int| 0 <= i < lines.len() implies lexical::is_clean_line(
        #[trigger] lines[i],
    ) by {
        if i < 3 {
            assert(lines[i] == head[i]);
        } else {
            assert(lines[i] == record_body(s[i - 3], name));
            assert(reads_back(s[i - 3], name));
            lemma_record_tokens(s[i - 3], name);
        }
    }
    lexical::lemma_logical_lines_of_clean(lines);
    let st = ZoneScan { previous_owner: name, ..zonefile::first_zone_scan(name) };
    lemma_record_lines_read_back(s, name, st, 4);
    assert(logical.skip(3) =~= lexical::as_logical(record_bodies(s, name), 4));
    let made = s.map_values(|r: RecordModel| as_parsed(r));
    assert(st.records + made =~= made);
}

/// Importing the export of a zone is accepted and stores its records again: where the records read
/// back and do not conflict, the import stores a record for each of them, with its name, type, value
/// and TTL.
pub proof fn lemma_import_of_export(
    zone: ZoneModel,
    recs: Seq<RecordModel>,
    primary_ns: Seq<char>,
    hostmaster: Seq<char>,
    ids: Seq<Seq<char>>,
    now: i64,
)
    requires
        zone_reads_back(zone.name),
        is_piece(config::canonical(primary_ns) + "."@),
        is_piece(config::canonical(hostmaster) + "."@),
        forall|i: int| 0 <= i < recs.len() ==> reads_back(#[trigger] recs[i], zone.name),
        recs.len() > 0,
        records::conflict_free(recs),
    ensures
        ({
            let file = render::zone_file(zone, recs, primary_ns, hostmaster);
            let s = order::sorted::<ByNameTypeValue>(recs);
            let parsed = s.map_values(|r: RecordModel| as_parsed(r));
            let stored = zones::imported(zone.id, parsed, ids, now);
            &&& zones::import_records(Some(zone), file) == Ok::<Seq<ParsedModel>, EditErrorModel>(
                parsed,
            )
            &&& zones::planned_import(zone.id, parsed, ids, now) == Ok::<
                Seq<RecordModel>,
                EditErrorModel,
            >(stored)
            &&& s.to_multiset() == recs.to_multiset()
            &&& stored.len() == s.len()
            &&& forall|i: int|
                0 <= i < s.len() ==> as_parsed(#[trigger] stored[i]) == as_parsed(s[i])
        }),
{
    let s = order::sorted::<ByNameTypeValue>(recs);
    let parsed = s.map_values(|r: RecordModel| as_parsed(r));
    let stored = zones::imported(zone.id, parsed, ids, now);
    lemma_zone_file_roundtrip(zone, recs, primary_ns, hostmaster);
    order::lemma_sorted_permutes::<ByNameTypeValue>(recs);
    assert(s.len() == recs.len()) by {
        broadcast use vstd::seq_lib::group_to_multiset_ensures;

        assert(s.to_multiset().len() == recs.to_multiset().len());
    }
    records::lemma_conflict_free_permutation(recs, s);
    assert(records::conflict_free(stored)) by {
        assert forall|i: int, j: int| 0 <= i < j < stored.len() implies zonefile::conflict(
            #[trigger] stored[i],
            #[trigger] stored[j],
        ) is None by {
            assert(zonefile::conflict(s[i], s[j]) is None);
        }
    }
    edits::lemma_planned_is_conflict_free(zone.id, parsed, ids, now);
}

/// Sorting does not change which records read back.
proof fn lemma_sorted_reads_back(recs: Seq<RecordModel>, zone: Seq<char>)
    requires
        forall|i: int| 0 <= i < recs.len() ==> reads_back(#[trigger] recs[i], zone),
    ensures
        ({
            let s = order::sorted::<ByNameTypeValue>(recs);
            forall|i: int| 0 <= i < s.len() ==> reads_back(#[trigger] s[i], zone)
        }),
{
    broadcast use vstd::seq_lib::group_to_multiset_ensures;

    let s = order::sorted::<ByNameTypeValue>(recs);
    order::lemma_sorted_permutes::<ByNameTypeValue>(recs);
    assert forall|i: int| 0 <= i < s.len() implies reads_back(#[trigger] s[i], zone) by {
        assert(s.contains(s[i]));
        assert(s.to_multiset().count(s[i]) > 0);
        assert(recs.to_multiset().count(s[i]) > 0);
        assert(recs.contains(s[i]));
        let k = choose|k: int| 0 <= k < recs.len() && recs[k] == s[i];
        assert(reads_back(recs[k], zone));
    }
}

} // verus!

//! What the lines of a zone file mean.
use crate::config;
use crate::digits;
use crate::laws::letters;
use crate::laws::lookup;
use crate::text;
use crate::zonefile;
use crate::zonefile::lexer;
use crate::zonefile::lexer::LogicalLineModel;
use crate::zonefile::ZoneScan;
use vstd::prelude::*;

verus! {

// ---------------------------------------------------------------------------
// TTLs
// ---------------------------------------------------------------------------

/// A TTL in digits is its number, or 2147483647 where it is larger; what is no number of 64 bits with a
/// sign, or a negative one, is 300.
pub proof fn lemma_ttl_means(s: Seq<char>)
    ensures
        letters::is_digits(text::trimmed(s)) ==> zonefile::ttl_of(s) == {
            let n = digits::number(text::trimmed(s));
            if n > 0x7fff_ffff_ffff_ffff {
                300
            } else if n > 0x7fff_ffff {
                0x7fff_ffff
            } else {
                n as int
            }
        },
        ({
            let t = text::trimmed(s);
            t.len() == 0 || !(letters::is_digits(t) || ((t[0] == '+' || t[0] == '-')
                && letters::is_digits(t.drop_first())))
        }) ==> zonefile::ttl_of(s) == 300,
        ({
            let t = text::trimmed(s);
            t.len() > 0 && t[0] == '-' && digits::number(t.drop_first()) > 0
        }) ==> zonefile::ttl_of(s) == 300,
        0 <= zonefile::ttl_of(s) <= 0x7fff_ffff,
{
    let t = text::trimmed(s);
    letters::lemma_digits(t);
    if t.len() > 0 {
        let rest = t.drop_first();
        letters::lemma_digits(rest);
        assert(rest =~= t.skip(1));
        if letters::is_digits(t) {
            assert(letters::is_digit_at(t, 0));
        }
    }
}

/// A token is taken for a TTL if it is digits, and the number has at most 63 bits; a word that starts
/// with anything but a digit or a sign is not.
pub proof fn lemma_ttl_token_means(s: Seq<char>)
    ensures
        letters::is_digits(s) ==> (zonefile::is_ttl_token(s) <==> digits::number(s)
            <= 0x7fff_ffff_ffff_ffff),
        s.len() > 0 && !('0' <= s[0] <= '9') && s[0] != '+' && s[0] != '-'
            ==> !zonefile::is_ttl_token(s),
{
    letters::lemma_digits(s);
    if letters::is_digits(s) {
        assert(letters::is_digit_at(s, 0));
    }
    if s.len() > 0 && digits::is_number(s) {
        assert(digits::is_digit(s[0]));
    }
}

// ---------------------------------------------------------------------------
// Directives
// ---------------------------------------------------------------------------

/// Whether the first token of a line is `name`, in any case.
pub open spec fn starts_with(line: LogicalLineModel, name: Seq<char>) -> bool {
    lexer::tokens_of(line.text) matches Some(t) && t.len() > 0 && letters::same_letters(t[0], name)
}

/// Whether a line is a `$TTL` line.
pub open spec fn is_ttl_line(line: LogicalLineModel) -> bool {
    starts_with(line, seq!['$', 'T', 'T', 'L'])
}

/// Whether a line is an `$ORIGIN` line.
pub open spec fn is_origin_line(line: LogicalLineModel) -> bool {
    starts_with(line, seq!['$', 'O', 'R', 'I', 'G', 'I', 'N'])
}

/// A directive is recognised without regard to case.
proof fn lemma_directive_names(s: Seq<char>)
    ensures
        text::uppered(s) == "$TTL"@ <==> letters::same_letters(s, seq!['$', 'T', 'T', 'L']),
        text::uppered(s) == "$ORIGIN"@ <==> letters::same_letters(
            s,
            seq!['$', 'O', 'R', 'I', 'G', 'I', 'N'],
        ),
{
    reveal_strlit("$TTL");
    reveal_strlit("$ORIGIN");
    let ttl = seq!['$', 'T', 'T', 'L'];
    let origin = seq!['$', 'O', 'R', 'I', 'G', 'I', 'N'];
    assert("$TTL"@ =~= ttl);
    assert("$ORIGIN"@ =~= origin);
    assert(text::uppered(ttl) =~= ttl);
    assert(text::uppered(origin) =~= origin);
    letters::lemma_same_upper(s, ttl);
    letters::lemma_same_upper(s, origin);
}

/// A line cannot be both.
proof fn lemma_directives_differ(s: Seq<char>)
    ensures
        !(letters::same_letters(s, seq!['$', 'T', 'T', 'L']) && letters::same_letters(
            s,
            seq!['$', 'O', 'R', 'I', 'G', 'I', 'N'],
        )),
{
}

/// A `$TTL` line sets the default TTL and nothing else; it needs exactly one value.
pub proof fn lemma_ttl_line(zone: Seq<char>, st: ZoneScan, line: LogicalLineModel)
    requires
        is_ttl_line(line),
    ensures
        ({
            let tokens = lexer::tokens_of(line.text).unwrap();
            match zonefile::read_zone_line(zone, st, line) {
                Ok(next) => {
                    &&& tokens.len() == 2
                    &&& next.default_ttl == zonefile::ttl_of(tokens[1])
                    &&& next.origin == st.origin
                    &&& next.previous_owner == st.previous_owner
                    &&& next.records == st.records
                },
                Err(e) => tokens.len() != 2 && e == lexer::at_line(
                    line.line_no,
                    "$TTL needs one value"@,
                ),
            }
        }),
{
    let tokens = lexer::tokens_of(line.text).unwrap();
    lemma_directive_names(tokens[0]);
    lemma_directives_differ(tokens[0]);
}

/// An `$ORIGIN` line sets the origin and nothing else; it needs exactly one value, which lies within the
/// zone.
pub proof fn lemma_origin_line(zone: Seq<char>, st: ZoneScan, line: LogicalLineModel)
    requires
        is_origin_line(line),
    ensures
        ({
            let tokens = lexer::tokens_of(line.text).unwrap();
            let origin = config::canonical(tokens[1]);
            match zonefile::read_zone_line(zone, st, line) {
                Ok(next) => {
                    &&& tokens.len() == 2
                    &&& lookup::is_in(origin, zone)
                    &&& next.origin == origin
                    &&& next.default_ttl == st.default_ttl
                    &&& next.previous_owner == st.previous_owner
                    &&& next.records == st.records
                },
                Err(e) => if tokens.len() != 2 {
                    e == lexer::at_line(line.line_no, "$ORIGIN needs one value"@)
                } else {
                    !lookup::is_in(origin, zone) && e == lexer::at_line(
                        line.line_no,
                        zonefile::outside(origin, zone),
                    )
                },
            }
        }),
{
    let tokens = lexer::tokens_of(line.text).unwrap();
    lemma_directive_names(tokens[0]);
    lookup::lemma_within_means(config::canonical(tokens[1]), zone);
}

/// Any other line that starts with a dollar sign is refused; so is a line with an open quote, and a
/// line without tokens changes nothing.
pub proof fn lemma_other_lines(zone: Seq<char>, st: ZoneScan, line: LogicalLineModel)
    ensures
        lexer::tokens_of(line.text) is None ==> zonefile::read_zone_line(zone, st, line) == Err::<
            ZoneScan,
            Seq<char>,
        >(lexer::at_line(line.line_no, "unterminated quote"@)),
        lexer::tokens_of(line.text) matches Some(t) ==> t.len() == 0 ==> zonefile::read_zone_line(
            zone,
            st,
            line,
        ) == Ok::<ZoneScan, Seq<char>>(st),
        lexer::tokens_of(line.text) matches Some(t) ==> t.len() > 0 && t[0].len() > 0 && t[0][0]
            == '$' && !is_ttl_line(line) && !is_origin_line(line) ==> zonefile::read_zone_line(
            zone,
            st,
            line,
        ) == Err::<ZoneScan, Seq<char>>(
            lexer::at_line(line.line_no, "unsupported directive "@ + text::uppered(t[0])),
        ),
{
    if let Some(t) = lexer::tokens_of(line.text) {
        if t.len() > 0 {
            lemma_directive_names(t[0]);
            if t[0].len() > 0 {
                assert(text::uppered(t[0])[0] == text::upper_char(t[0][0]));
            }
        }
    }
}

// ---------------------------------------------------------------------------
// What a line leaves alone
// ---------------------------------------------------------------------------

/// Only a `$TTL` line changes the default TTL and only an `$ORIGIN` line the origin; a line adds at most
/// one record, behind those that are there.
pub proof fn lemma_line_keeps(zone: Seq<char>, st: ZoneScan, line: LogicalLineModel)
    ensures
        zonefile::read_zone_line(zone, st, line) matches Ok(next) ==> {
            &&& !is_ttl_line(line) ==> next.default_ttl == st.default_ttl
            &&& !is_origin_line(line) ==> next.origin == st.origin
            &&& next.records.len() <= st.records.len() + 1
            &&& st.records.is_prefix_of(next.records)
            &&& is_ttl_line(line) || is_origin_line(line) ==> next.records == st.records
                && next.previous_owner == st.previous_owner
        },
{
    if let Some(t) = lexer::tokens_of(line.text) {
        if t.len() > 0 {
            lemma_directive_names(t[0]);
        }
    }
    if let Ok(next) = zonefile::read_zone_line(zone, st, line) {
        assert(next.records =~= st.records || next.records =~= st.records.push(
            next.records.last(),
        ));
        assert(st.records =~= next.records.subrange(0, st.records.len() as int));
    }
}

/// Lines that hold no `$TTL` line leave the default TTL alone, whatever else they hold; lines that hold
/// no `$ORIGIN` line leave the origin alone. Records are only added behind those that are there.
pub proof fn lemma_lines_keep(zone: Seq<char>, st: ZoneScan, lines: Seq<LogicalLineModel>)
    ensures
        zonefile::read_zone_lines(zone, st, lines) matches Ok(end) ==> {
            &&& (forall|i: int| 0 <= i < lines.len() ==> !is_ttl_line(#[trigger] lines[i]))
                ==> end.default_ttl == st.default_ttl
            &&& (forall|i: int| 0 <= i < lines.len() ==> !is_origin_line(#[trigger] lines[i]))
                ==> end.origin == st.origin
            &&& st.records.is_prefix_of(end.records)
            &&& end.records.len() <= st.records.len() + lines.len()
        },
    decreases lines.len(),
{
    if lines.len() == 0 {
        assert(st.records =~= st.records.subrange(0, st.records.len() as int));
    } else {
        lemma_line_keeps(zone, st, lines[0]);
        if let Ok(next) = zonefile::read_zone_line(zone, st, lines[0]) {
            let rest = lines.drop_first();
            lemma_lines_keep(zone, next, rest);
            if let Ok(end) = zonefile::read_zone_lines(zone, next, rest) {
                assert forall|i: int| 0 <= i < rest.len() implies rest[i] == #[trigger] lines[i
                    + 1] by {}
                assert(st.records =~= end.records.subrange(0, st.records.len() as int)) by {
                    assert forall|i: int| 0 <= i < st.records.len() implies st.records[i]
                        == end.records[i] by {
                        assert(st.records == next.records.subrange(0, st.records.len() as int));
                        assert(next.records == end.records.subrange(
                            0,
                            next.records.len() as int,
                        ));
                        assert(st.records[i] == next.records[i]);
                    }
                }
                assert((forall|i: int| 0 <= i < lines.len() ==> !is_ttl_line(#[trigger] lines[i]))
                    ==> (forall|i: int| 0 <= i < rest.len() ==> !is_ttl_line(#[trigger] rest[i])));
                assert((forall|i: int|
                    0 <= i < lines.len() ==> !is_origin_line(#[trigger] lines[i])) ==> (forall|
                    i: int,
                |
                    0 <= i < rest.len() ==> !is_origin_line(#[trigger] rest[i])));
            }
        }
    }
}

/// Reading lines is reading the first of them, and then the rest from where that left off.
pub proof fn lemma_lines_split(
    zone: Seq<char>,
    st: ZoneScan,
    a: Seq<LogicalLineModel>,
    b: Seq<LogicalLineModel>,
)
    ensures
        zonefile::read_zone_lines(zone, st, a + b) == match zonefile::read_zone_lines(zone, st, a) {
            Ok(mid) => zonefile::read_zone_lines(zone, mid, b),
            Err(e) => Err::<ZoneScan, Seq<char>>(e),
        },
    decreases a.len(),
{
    if a.len() == 0 {
        assert(a + b =~= b);
    } else {
        assert((a + b)[0] == a[0]);
        assert((a + b).drop_first() =~= a.drop_first() + b);
        if let Ok(next) = zonefile::read_zone_line(zone, st, a[0]) {
            lemma_lines_split(zone, next, a.drop_first(), b);
        }
    }
}

/// Whether `ttl` is the default TTL at line `k`: the value of the last `$TTL` line before it, and 300
/// where there is none.
pub open spec fn is_default_ttl(lines: Seq<LogicalLineModel>, k: int, ttl: int) -> bool {
    &&& (forall|j: int| 0 <= j < k ==> !is_ttl_line(#[trigger] lines[j])) ==> ttl == 300
    &&& forall|j: int|
        0 <= j < k && is_ttl_line(#[trigger] lines[j]) && (forall|i: int|
            j < i < k ==> !is_ttl_line(#[trigger] lines[i])) ==> ttl == zonefile::ttl_of(
            lexer::tokens_of(lines[j].text).unwrap()[1],
        )
}

/// Where the reading of a file stands before line `k`, the default TTL is the value of the last `$TTL`
/// line before it, whatever lines stand between, and 300 where there is none.
pub proof fn lemma_default_ttl(zone: Seq<char>, lines: Seq<LogicalLineModel>, k: int)
    requires
        0 <= k <= lines.len(),
    ensures
        zonefile::read_zone_lines(zone, zonefile::first_zone_scan(zone), lines.take(k)) matches Ok(
            st,
        ) ==> is_default_ttl(lines, k, st.default_ttl as int),
    decreases k,
{
    let first = zonefile::first_zone_scan(zone);
    if k > 0 {
        let before = lines.take(k - 1);
        let last = lines[k - 1];
        lemma_default_ttl(zone, lines, k - 1);
        assert(lines.take(k) =~= before + seq![last]);
        lemma_lines_split(zone, first, before, seq![last]);
        if let Ok(mid) = zonefile::read_zone_lines(zone, first, before) {
            lemma_one_line(zone, mid, last);
            lemma_line_keeps(zone, mid, last);
            if is_ttl_line(last) {
                lemma_ttl_line(zone, mid, last);
            }
            if let Ok(st) = zonefile::read_zone_line(zone, mid, last) {
                assert forall|j: int|
                    0 <= j < k && is_ttl_line(#[trigger] lines[j]) && (forall|i: int|
                        j < i < k ==> !is_ttl_line(#[trigger] lines[i])) implies st.default_ttl
                    == zonefile::ttl_of(lexer::tokens_of(lines[j].text).unwrap()[1]) by {
                    if j < k - 1 {
                        assert(!is_ttl_line(lines[k - 1]));
                        assert(forall|i: int|
                            j < i < k - 1 ==> !is_ttl_line(#[trigger] lines[i]));
                    }
                }
                if forall|j: int| 0 <= j < k ==> !is_ttl_line(#[trigger] lines[j]) {
                    assert(!is_ttl_line(lines[k - 1]));
                    assert(forall|j: int| 0 <= j < k - 1 ==> !is_ttl_line(#[trigger] lines[j]));
                }
            }
        }
    }
}

/// A list of one line is read as that line.
proof fn lemma_one_line(zone: Seq<char>, st: ZoneScan, line: LogicalLineModel)
    ensures
        zonefile::read_zone_lines(zone, st, seq![line]) == zonefile::read_zone_line(zone, st, line),
{
    assert(seq![line].drop_first() =~= Seq::<LogicalLineModel>::empty());
    if let Ok(next) = zonefile::read_zone_line(zone, st, line) {
        assert(zonefile::read_zone_lines(zone, next, Seq::<LogicalLineModel>::empty()) == Ok::<
            ZoneScan,
            Seq<char>,
        >(next));
    }
}

// ---------------------------------------------------------------------------
// Record lines
// ---------------------------------------------------------------------------

/// Whether `s` is the class IN, in any case.
pub open spec fn is_class(s: Seq<char>) -> bool {
    letters::same_letters(s, seq!['I', 'N'])
}

/// Whether `s` is the type SOA, in any case.
pub open spec fn is_soa(s: Seq<char>) -> bool {
    letters::same_letters(s, seq!['S', 'O', 'A'])
}

/// Whether `s` is one of the types that can be edited, in any case.
pub open spec fn is_record_type(s: Seq<char>) -> bool {
    letters::same_letters(s, "A"@) || letters::same_letters(s, "AAAA"@) || letters::same_letters(
        s,
        "CNAME"@,
    ) || letters::same_letters(s, "MX"@) || letters::same_letters(s, "NS"@)
        || letters::same_letters(s, "TXT"@) || letters::same_letters(s, "SRV"@)
        || letters::same_letters(s, "CAA"@)
}

/// The classes and types are recognised without regard to case.
pub proof fn lemma_words_of_a_line(s: Seq<char>)
    ensures
        zonefile::is_class_token(s) <==> is_class(s),
        zonefile::is_type_token(s) <==> is_soa(s) || is_record_type(s),
        text::uppered(s) == "SOA"@ <==> is_soa(s),
        zonefile::is_editable(text::uppered(s)) <==> is_record_type(s),
{
    reveal_strlit("IN");
    reveal_strlit("SOA");
    reveal_strlit("A");
    reveal_strlit("AAAA");
    reveal_strlit("NS");
    reveal_strlit("CNAME");
    reveal_strlit("MX");
    reveal_strlit("TXT");
    reveal_strlit("SRV");
    reveal_strlit("CAA");
    assert("IN"@ =~= seq!['I', 'N']);
    assert("SOA"@ =~= seq!['S', 'O', 'A']);
    assert(text::uppered("IN"@) =~= "IN"@);
    assert(text::uppered("SOA"@) =~= "SOA"@);
    assert(text::uppered("A"@) =~= "A"@);
    assert(text::uppered("AAAA"@) =~= "AAAA"@);
    assert(text::uppered("NS"@) =~= "NS"@);
    assert(text::uppered("CNAME"@) =~= "CNAME"@);
    assert(text::uppered("MX"@) =~= "MX"@);
    assert(text::uppered("TXT"@) =~= "TXT"@);
    assert(text::uppered("SRV"@) =~= "SRV"@);
    assert(text::uppered("CAA"@) =~= "CAA"@);
    letters::lemma_same_upper(s, "IN"@);
    letters::lemma_same_upper(s, "SOA"@);
    letters::lemma_same_upper(s, "A"@);
    letters::lemma_same_upper(s, "AAAA"@);
    letters::lemma_same_upper(s, "NS"@);
    letters::lemma_same_upper(s, "CNAME"@);
    letters::lemma_same_upper(s, "MX"@);
    letters::lemma_same_upper(s, "TXT"@);
    letters::lemma_same_upper(s, "SRV"@);
    letters::lemma_same_upper(s, "CAA"@);
}

/// Whether a record line names its owner: it does not start with white space, and its first token is
/// not a TTL, a class or a type.
pub open spec fn has_owner(line: LogicalLineModel) -> bool {
    let first = lexer::tokens_of(line.text).unwrap()[0];
    !line.leading_space && !zonefile::is_ttl_token(first) && !is_class(first) && !is_soa(first)
        && !is_record_type(first)
}

/// Where the TTL and the class of a line start: behind the owner, where it names one.
pub open spec fn body_start(line: LogicalLineModel) -> int {
    if has_owner(line) {
        1
    } else {
        0
    }
}

/// Whether the type of a line stands at `t`: only TTLs and classes stand between the owner and it.
pub open spec fn type_at(line: LogicalLineModel, t: int) -> bool {
    let tokens = lexer::tokens_of(line.text).unwrap();
    &&& body_start(line) <= t <= tokens.len()
    &&& forall|i: int|
        body_start(line) <= i < t ==> zonefile::is_ttl_token(#[trigger] tokens[i]) || is_class(
            tokens[i],
        )
    &&& t < tokens.len() ==> !zonefile::is_ttl_token(tokens[t]) && !is_class(tokens[t])
}

/// Whether `ttl` is the TTL of a line whose type stands at `t`: that of the last TTL token before the
/// type, and `default` where there is none.
pub open spec fn is_line_ttl(line: LogicalLineModel, t: int, default: int, ttl: int) -> bool {
    let tokens = lexer::tokens_of(line.text).unwrap();
    &&& (forall|i: int|
        body_start(line) <= i < t ==> !zonefile::is_ttl_token(#[trigger] tokens[i])) ==> ttl
        == default
    &&& forall|j: int|
        body_start(line) <= j < t && zonefile::is_ttl_token(#[trigger] tokens[j]) && (forall|
            i: int,
        |
            j < i < t ==> !zonefile::is_ttl_token(#[trigger] tokens[i])) ==> ttl
            == zonefile::ttl_of(tokens[j])
}

/// TTLs and classes are passed over up to the type, and the last TTL counts.
proof fn lemma_skip(tokens: Seq<Seq<char>>, from: int, t: int, ttl: i64)
    requires
        0 <= from <= t <= tokens.len(),
        forall|i: int|
            from <= i < t ==> zonefile::is_ttl_token(#[trigger] tokens[i]) || is_class(tokens[i]),
        t < tokens.len() ==> !zonefile::is_ttl_token(tokens[t]) && !is_class(tokens[t]),
    ensures
        ({
            let (r, idx) = zonefile::skip_ttl_and_class(tokens, from, ttl);
            &&& idx == t
            &&& (forall|i: int| from <= i < t ==> !zonefile::is_ttl_token(#[trigger] tokens[i]))
                ==> r == ttl
            &&& forall|j: int|
                from <= j < t && zonefile::is_ttl_token(#[trigger] tokens[j]) && (forall|i: int|
                    j < i < t ==> !zonefile::is_ttl_token(#[trigger] tokens[i])) ==> r
                    == zonefile::ttl_of(tokens[j])
        }),
    decreases t - from,
{
    if from < tokens.len() {
        lemma_words_of_a_line(tokens[from]);
    }
    if from < t {
        let next = if zonefile::is_ttl_token(tokens[from]) {
            zonefile::ttl_of(tokens[from])
        } else {
            ttl
        };
        lemma_skip(tokens, from + 1, t, next);
        let (r, idx) = zonefile::skip_ttl_and_class(tokens, from, ttl);
        assert(zonefile::skip_ttl_and_class(tokens, from + 1, next) == (r, idx));
        assert forall|j: int|
            from <= j < t && zonefile::is_ttl_token(#[trigger] tokens[j]) && (forall|i: int|
                j < i < t ==> !zonefile::is_ttl_token(#[trigger] tokens[i])) implies r
            == zonefile::ttl_of(tokens[j]) by {
            if j == from {
                assert(forall|i: int|
                    from + 1 <= i < t ==> !zonefile::is_ttl_token(#[trigger] tokens[i]));
            }
        }
        if forall|i: int| from <= i < t ==> !zonefile::is_ttl_token(#[trigger] tokens[i]) {
            assert(!zonefile::is_ttl_token(tokens[from]));
            assert(forall|i: int|
                from + 1 <= i < t ==> !zonefile::is_ttl_token(#[trigger] tokens[i]));
        }
    }
}

/// Whether a line is a record line: it has a token, and the first does not start with a dollar sign.
pub open spec fn is_record_line(line: LogicalLineModel) -> bool {
    lexer::tokens_of(line.text) matches Some(t) && t.len() > 0 && !(t[0].len() > 0 && t[0][0]
        == '$')
}

/// The owner of a record line: the name it starts with, or that of the line before it, relative to the
/// origin.
pub open spec fn line_owner(st: ZoneScan, line: LogicalLineModel) -> Seq<char> {
    zonefile::owner_of(
        if has_owner(line) {
            lexer::tokens_of(line.text).unwrap()[0]
        } else {
            st.previous_owner
        },
        st.origin,
    )
}

/// A record line adds one record: the owner, the type in upper case, the value that the tokens behind
/// the type make, and the TTL of the line. A line without a TTL takes the default TTL. An SOA line adds
/// none. Each error is reported with the number of the line.
pub proof fn lemma_record_line(zone: Seq<char>, st: ZoneScan, line: LogicalLineModel, t: int)
    requires
        is_record_line(line),
        type_at(line, t),
    ensures
        ({
            let tokens = lexer::tokens_of(line.text).unwrap();
            let owner = line_owner(st, line);
            let rtype = text::uppered(tokens[t]);
            let stored = zonefile::stored_value(
                rtype,
                text::joined(tokens.skip(t + 1), " "@),
                st.origin,
            );
            match zonefile::read_zone_line(zone, st, line) {
                Ok(next) => {
                    &&& lookup::is_in(owner, zone)
                    &&& t < tokens.len()
                    &&& next.origin == st.origin
                    &&& next.default_ttl == st.default_ttl
                    &&& next.previous_owner == owner
                    &&& if is_soa(tokens[t]) {
                        next.records == st.records
                    } else {
                        &&& is_record_type(tokens[t])
                        &&& t + 1 < tokens.len()
                        &&& stored is Ok
                        &&& next.records.len() == st.records.len() + 1
                        &&& next.records.drop_last() == st.records
                        &&& next.records.last().name == owner
                        &&& next.records.last().rtype == rtype
                        &&& next.records.last().value == stored->Ok_0
                        &&& is_line_ttl(
                            line,
                            t,
                            st.default_ttl as int,
                            next.records.last().ttl as int,
                        )
                    }
                },
                Err(e) => e == lexer::at_line(
                    line.line_no,
                    if !lookup::is_in(owner, zone) {
                        owner + " is outside selected zone "@ + zone
                    } else if t == tokens.len() {
                        "missing record type"@
                    } else if !is_record_type(tokens[t]) {
                        "unsupported record type "@ + rtype
                    } else if t + 1 == tokens.len() {
                        "missing value for "@ + rtype
                    } else {
                        stored->Err_0
                    },
                ) && (lookup::is_in(owner, zone) && t < tokens.len() ==> !is_soa(tokens[t])) && (
                lookup::is_in(owner, zone) && t + 1 < tokens.len() && is_record_type(tokens[t])
                    ==> stored is Err),
            }
        }),
{
    let tokens = lexer::tokens_of(line.text).unwrap();
    let owner = line_owner(st, line);
    reveal_strlit("$TTL");
    reveal_strlit("$ORIGIN");
    let first = text::uppered(tokens[0]);
    if first.len() > 0 {
        assert(first[0] == text::upper_char(tokens[0][0]));
    }
    lemma_words_of_a_line(tokens[0]);
    lookup::lemma_within_means(owner, zone);
    lemma_skip(tokens, body_start(line), t, st.default_ttl);
    if t < tokens.len() {
        lemma_words_of_a_line(tokens[t]);
        lemma_soa_is_no_record(tokens[t]);
    }
    let named = zonefile::names_owner(tokens[0], line.leading_space);
    assert(named == has_owner(line));
    assert(zonefile::read_zone_line(zone, st, line) == zonefile::read_record(
        zone,
        st,
        tokens,
        line.leading_space,
        line.line_no,
    ));
    if let Ok(next) = zonefile::read_zone_line(zone, st, line) {
        if !is_soa(tokens[t]) {
            assert(next.records.drop_last() =~= st.records);
        }
    }
}

/// SOA is none of the types that can be edited.
proof fn lemma_soa_is_no_record(s: Seq<char>)
    ensures
        !(is_soa(s) && is_record_type(s)),
{
    reveal_strlit("A");
    reveal_strlit("AAAA");
    reveal_strlit("NS");
    reveal_strlit("CNAME");
    reveal_strlit("MX");
    reveal_strlit("TXT");
    reveal_strlit("SRV");
    reveal_strlit("CAA");
    if is_soa(s) {
        assert(letters::same_letter(s[0], 'S'));
        assert(letters::same_letter(s[1], 'O'));
        if letters::same_letters(s, "TXT"@) {
            assert(letters::same_letter(s[0], "TXT"@[0]));
        }
        if letters::same_letters(s, "SRV"@) {
            assert(letters::same_letter(s[1], "SRV"@[1]));
        }
        if letters::same_letters(s, "CAA"@) {
            assert(letters::same_letter(s[0], "CAA"@[0]));
        }
    }
}

// ---------------------------------------------------------------------------
// Files
// ---------------------------------------------------------------------------

/// The type of a record line stands somewhere, or is missing at its end.
proof fn lemma_some_type(tokens: Seq<Seq<char>>, from: int, ttl: i64)
    requires
        0 <= from <= tokens.len(),
    ensures
        ({
            let t = zonefile::skip_ttl_and_class(tokens, from, ttl).1;
            &&& from <= t <= tokens.len()
            &&& forall|i: int|
                from <= i < t ==> zonefile::is_ttl_token(#[trigger] tokens[i]) || is_class(tokens[i])
            &&& t < tokens.len() ==> !zonefile::is_ttl_token(tokens[t]) && !is_class(tokens[t])
        }),
    decreases tokens.len() - from,
{
    if from < tokens.len() {
        lemma_words_of_a_line(tokens[from]);
        if zonefile::is_ttl_token(tokens[from]) {
            lemma_some_type(tokens, from + 1, zonefile::ttl_of(tokens[from]));
        } else if zonefile::is_class_token(tokens[from]) {
            lemma_some_type(tokens, from + 1, ttl);
        }
    }
}

/// The type of a line stands at one place.
proof fn lemma_one_type(line: LogicalLineModel, t: int, u: int)
    requires
        type_at(line, t),
        type_at(line, u),
    ensures
        t == u,
{
    let tokens = lexer::tokens_of(line.text).unwrap();
    if t < u {
        assert(zonefile::is_ttl_token(tokens[t]) || is_class(tokens[t]));
    }
    if u < t {
        assert(zonefile::is_ttl_token(tokens[u]) || is_class(tokens[u]));
    }
}

/// Whether a line adds a record: it is a record line, and its type is not SOA.
pub open spec fn adds_record(line: LogicalLineModel) -> bool {
    is_record_line(line) && exists|t: int| #[trigger]
        type_at(line, t) && t < lexer::tokens_of(line.text).unwrap().len() && !is_soa(
            lexer::tokens_of(line.text).unwrap()[t],
        )
}

/// How many of the first `k` lines add a record.
pub open spec fn adding(lines: Seq<LogicalLineModel>, k: int) -> int
    decreases k,
{
    if k <= 0 {
        0
    } else {
        adding(lines, k - 1) + if adds_record(lines[k - 1]) {
            1int
        } else {
            0
        }
    }
}

/// A line that is read adds a record if and only if it is one that does.
proof fn lemma_line_adds(zone: Seq<char>, st: ZoneScan, line: LogicalLineModel)
    ensures
        zonefile::read_zone_line(zone, st, line) matches Ok(next) ==> next.records.len()
            == st.records.len() + if adds_record(line) {
            1int
        } else {
            0
        },
{
    if is_record_line(line) {
        let tokens = lexer::tokens_of(line.text).unwrap();
        lemma_some_type(tokens, body_start(line), st.default_ttl);
        let t = zonefile::skip_ttl_and_class(tokens, body_start(line), st.default_ttl).1;
        assert(type_at(line, t));
        lemma_record_line(zone, st, line, t);
        if adds_record(line) {
            let u = choose|u: int| #[trigger]
                type_at(line, u) && u < tokens.len() && !is_soa(tokens[u]);
            lemma_one_type(line, t, u);
        }
    } else if let Some(tokens) = lexer::tokens_of(line.text) {
        lemma_other_lines(zone, st, line);
        if is_ttl_line(line) {
            lemma_ttl_line(zone, st, line);
        } else if is_origin_line(line) {
            lemma_origin_line(zone, st, line);
        }
    }
}

/// As many records are read as there are lines that add one.
proof fn lemma_lines_add(zone: Seq<char>, lines: Seq<LogicalLineModel>, k: int)
    requires
        0 <= k <= lines.len(),
    ensures
        zonefile::read_zone_lines(zone, zonefile::first_zone_scan(zone), lines.take(k)) matches Ok(
            st,
        ) ==> st.records.len() == adding(lines, k),
    decreases k,
{
    let first = zonefile::first_zone_scan(zone);
    if k > 0 {
        let before = lines.take(k - 1);
        let last = lines[k - 1];
        lemma_lines_add(zone, lines, k - 1);
        assert(lines.take(k) =~= before + seq![last]);
        lemma_lines_split(zone, first, before, seq![last]);
        if let Ok(mid) = zonefile::read_zone_lines(zone, first, before) {
            lemma_one_line(zone, mid, last);
            lemma_line_adds(zone, mid, last);
        }
    }
}

/// In a file that is read, each line that adds a record gives one, in the order of the lines. A line that
/// names no TTL gives it the value of the last `$TTL` line before it, and 300 where there is none:
/// whatever lines stand between, `$ORIGIN` lines among them.
pub proof fn lemma_file_ttl(zone: Seq<char>, input: Seq<char>, k: int, t: int)
    requires
        lexer::logical_lines_of(input) is Ok,
        zonefile::zone_file_records(zone, input) is Ok,
        ({
            let lines = lexer::logical_lines_of(input)->Ok_0;
            &&& 0 <= k < lines.len()
            &&& is_record_line(lines[k])
            &&& type_at(lines[k], t)
            &&& t < lexer::tokens_of(lines[k].text).unwrap().len()
            &&& !is_soa(lexer::tokens_of(lines[k].text).unwrap()[t])
        }),
    ensures
        ({
            let lines = lexer::logical_lines_of(input)->Ok_0;
            let tokens = lexer::tokens_of(lines[k].text).unwrap();
            let records = zonefile::zone_file_records(zone, input)->Ok_0;
            let i = adding(lines, k);
            &&& records.len() == adding(lines, lines.len() as int)
            &&& 0 <= i < records.len()
            &&& records[i].rtype == text::uppered(tokens[t])
            &&& has_owner(lines[k]) && !has_origin_line(lines, k) ==> records[i].name
                == zonefile::owner_of(tokens[0], zone)
            &&& exists|default: int|
                is_default_ttl(lines, k, default) && #[trigger] is_line_ttl(
                    lines[k],
                    t,
                    default,
                    records[i].ttl as int,
                )
        }),
{
    let lines = lexer::logical_lines_of(input)->Ok_0;
    let records = zonefile::zone_file_records(zone, input)->Ok_0;
    let first = zonefile::first_zone_scan(zone);
    let before = lines.take(k);
    let line = lines[k];
    let rest = lines.skip(k + 1);
    assert(lines =~= before + (seq![line] + rest));
    lemma_lines_split(zone, first, before, seq![line] + rest);
    let st = zonefile::read_zone_lines(zone, first, before)->Ok_0;
    lemma_lines_split(zone, st, seq![line], rest);
    lemma_one_line(zone, st, line);
    lemma_default_ttl(zone, lines, k);
    lemma_lines_add(zone, lines, k);
    assert(lines.take(lines.len() as int) =~= lines);
    lemma_lines_add(zone, lines, lines.len() as int);
    lemma_record_line(zone, st, line, t);
    let next = zonefile::read_zone_line(zone, st, line)->Ok_0;
    lemma_lines_keep(zone, next, rest);
    lemma_lines_keep(zone, first, before);
    let end = zonefile::read_zone_lines(zone, next, rest)->Ok_0;
    let i = st.records.len() as int;
    assert(next.records == end.records.subrange(0, next.records.len() as int));
    assert(records[i] == next.records.last());
    assert(is_line_ttl(lines[k], t, st.default_ttl as int, records[i].ttl as int));
    if !has_origin_line(lines, k) {
        assert forall|j: int| 0 <= j < before.len() implies !is_origin_line(
            #[trigger] before[j],
        ) by {
            assert(before[j] == lines[j]);
        }
    }
}

/// Whether one of the first `k` lines is an `$ORIGIN` line.
pub open spec fn has_origin_line(lines: Seq<LogicalLineModel>, k: int) -> bool {
    exists|j: int| 0 <= j < k && is_origin_line(#[trigger] lines[j])
}

} // verus!

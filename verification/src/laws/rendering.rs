//! What a zone file says.
use crate::config;
use crate::digits;
use crate::handlers::zones;
use crate::laws::letters;
use crate::laws::lexical;
use crate::laws::names;
use crate::laws::outcomes;
use crate::laws::pieces;
use crate::laws::stored;
use crate::order;
use crate::store::{RecordModel, StoreModel, ZoneModel};
use crate::text;
use crate::zonefile::render;
use crate::zonefile::render::ByNameTypeValue;
use vstd::prelude::*;

verus! {

// ---------------------------------------------------------------------------
// Exports
// ---------------------------------------------------------------------------

/// A zone file starts with the origin, the default TTL and the SOA, whose serial is that of the zone or
/// zero where it is negative, and whose timers are two hours, one hour, two weeks and five minutes. The
/// records follow.
pub proof fn lemma_zone_file_means(
    zone: ZoneModel,
    records: Seq<RecordModel>,
    primary_ns: Seq<char>,
    hostmaster: Seq<char>,
)
    ensures
        render::zone_file(zone, records, primary_ns, hostmaster) == "$ORIGIN "@ + zone.name
            + ".\n"@ + "$TTL 300\n"@ + ("@ 300 IN SOA "@ + config::canonical(primary_ns) + ". "@
            + config::canonical(hostmaster) + ". "@ + digits::decimal(
            if zone.serial < 0 {
                0
            } else {
                zone.serial as nat
            },
        ) + " "@ + digits::decimal(7200) + " "@ + digits::decimal(3600) + " "@ + digits::decimal(
            1209600,
        ) + " "@ + digits::decimal(300) + "\n"@) + render::record_lines(
            order::sorted::<ByNameTypeValue>(records),
            zone.name,
        ),
{
}

/// The lines of records stand in their order, one for each: the owner, the TTL, the class, the type in
/// upper case and the value.
pub proof fn lemma_record_lines_in_order(
    a: Seq<RecordModel>,
    b: Seq<RecordModel>,
    zone: Seq<char>,
)
    ensures
        render::record_lines(a + b, zone) == render::record_lines(a, zone) + render::record_lines(
            b,
            zone,
        ),
        a.len() == 1 ==> render::record_lines(a, zone) == render::relative_name(a[0].name, zone)
            + " "@ + digits::signed_decimal(a[0].ttl as int) + " IN "@ + text::uppered(a[0].rtype)
            + " "@ + render::rendered_value(a[0].rtype, a[0].value) + "\n"@,
    decreases b.len(),
{
    if a.len() == 1 {
        let none = Seq::<RecordModel>::empty();
        assert(a.drop_last() =~= none);
        assert(render::record_lines(none, zone) == Seq::<char>::empty());
        let line = render::record_line(a[0], zone);
        assert(Seq::<char>::empty() + line =~= line);
    }
    if b.len() == 0 {
        assert(a + b =~= a);
        let all = render::record_lines(a, zone);
        assert(all + Seq::<char>::empty() =~= all);
    } else {
        lemma_record_lines_in_order(a, b.drop_last(), zone);
        assert((a + b).drop_last() =~= a + b.drop_last());
        lemma_assoc(
            render::record_lines(a, zone),
            render::record_lines(b.drop_last(), zone),
            render::record_line(b.last(), zone),
        );
    }
}

/// Texts are put together from either end.
proof fn lemma_assoc(a: Seq<char>, b: Seq<char>, c: Seq<char>)
    ensures
        a + b + c == a + (b + c),
{
    assert(a + b + c =~= a + (b + c));
}

/// The owner of a line is `@` for the apex, the part before the zone for a name below it, and the whole
/// name for any other.
pub proof fn lemma_relative_name_means(name: Seq<char>, part: Seq<char>, zone: Seq<char>)
    ensures
        render::relative_name(zone, zone) == seq!['@'],
        render::relative_name(part + seq!['.'] + zone, zone) == part,
        name != zone && (forall|p: Seq<char>| name != #[trigger] (p + seq!['.'] + zone))
            ==> render::relative_name(name, zone) == name,
{
    reveal_strlit("@");
    reveal_strlit(".");
    let below = "."@ + zone;
    assert("@"@ =~= seq!['@']);
    let whole = part + seq!['.'] + zone;
    assert(whole =~= part + below);
    assert(whole.subrange(whole.len() - below.len(), whole.len() as int) =~= below);
    assert(whole.len() != zone.len());
    assert(whole.take(whole.len() - below.len()) =~= part);
    if below.is_suffix_of(name) {
        let p = name.take(name.len() - below.len());
        assert(name.subrange(name.len() - below.len(), name.len() as int) == below);
        let again = p + seq!['.'] + zone;
        assert forall|i: int| 0 <= i < name.len() implies name[i] == again[i] by {
            if i >= p.len() {
                assert(below[i - p.len()] == name[i]);
            }
        }
        assert(name =~= again);
    }
}

/// The name of a download is that of the zone without quotes, in quotes.
pub proof fn lemma_download_means(name: Seq<char>)
    ensures
        names::free_of(name, '"') ==> zones::download_header(name) == "attachment; filename=\""@
            + name + ".zone\""@,
{
    reveal_strlit("\"");
    if names::free_of(name, '"') {
        let quote = "\""@;
        assert forall|i: int| 0 <= i < name.len() implies !#[trigger] pieces::stands_at(
            name,
            quote,
            i,
        ) by {
            if pieces::stands_at(name, quote, i) {
                assert(name[i + 0] == quote[0]);
            }
        }
        pieces::lemma_replaced_means(Seq::<char>::empty(), name, quote, ""@);
    }
}

// ---------------------------------------------------------------------------
// Values
// ---------------------------------------------------------------------------

/// A name with a dot behind it; the root is a single dot.
pub open spec fn with_dot(name: Seq<char>) -> Seq<char> {
    if name.len() == 0 {
        seq!['.']
    } else {
        config::canonical(name) + seq!['.']
    }
}

/// A name is written in its canonical form with a dot behind it.
proof fn lemma_dotted(name: Seq<char>)
    ensures
        render::dotted_name(name) == with_dot(name),
{
    reveal_strlit(".");
    assert("."@ =~= seq!['.']);
}

/// The item at `i`, or `default` where there is none.
pub open spec fn item_or(parts: Seq<Seq<char>>, i: int, default: Seq<char>) -> Seq<char> {
    if i < parts.len() {
        parts[i]
    } else {
        default
    }
}

/// The types in upper case.
proof fn lemma_upper_types(rtype: Seq<char>)
    ensures
        text::uppered(rtype) == "NS"@ <==> letters::same_letters(rtype, "NS"@),
        text::uppered(rtype) == "CNAME"@ <==> letters::same_letters(rtype, "CNAME"@),
        text::uppered(rtype) == "MX"@ <==> letters::same_letters(rtype, "MX"@),
        text::uppered(rtype) == "TXT"@ <==> letters::same_letters(rtype, "TXT"@),
        text::uppered(rtype) == "SRV"@ <==> letters::same_letters(rtype, "SRV"@),
        text::uppered(rtype) == "CAA"@ <==> letters::same_letters(rtype, "CAA"@),
{
    stored::lemma_types();
    letters::lemma_same_upper(rtype, "NS"@);
    letters::lemma_same_upper(rtype, "CNAME"@);
    letters::lemma_same_upper(rtype, "MX"@);
    letters::lemma_same_upper(rtype, "TXT"@);
    letters::lemma_same_upper(rtype, "SRV"@);
    letters::lemma_same_upper(rtype, "CAA"@);
}

/// A target is written with a dot behind it, and a text in quotes; a value of any type that is not one
/// of the six is written as it is stored.
pub proof fn lemma_simple_value_means(rtype: Seq<char>, value: Seq<char>)
    ensures
        letters::same_letters(rtype, "NS"@) || letters::same_letters(rtype, "CNAME"@)
            ==> render::rendered_value(rtype, value) == with_dot(value),
        letters::same_letters(rtype, "TXT"@) ==> render::rendered_value(rtype, value)
            == render::quoted_text(value),
        !letters::same_letters(rtype, "NS"@) && !letters::same_letters(rtype, "CNAME"@)
            && !letters::same_letters(rtype, "MX"@) && !letters::same_letters(rtype, "TXT"@)
            && !letters::same_letters(rtype, "SRV"@) && !letters::same_letters(rtype, "CAA"@)
            ==> render::rendered_value(rtype, value) == value,
{
    lemma_upper_types(rtype);
    stored::lemma_types();
    lemma_dotted(value);
}

/// A mail exchanger is written as its preference, 10 where it has none, and its host; a service as its
/// three numbers, 0 for each it lacks, and its target.
pub proof fn lemma_listed_value_means(rtype: Seq<char>, parts: Seq<Seq<char>>)
    requires
        parts.len() > 0,
        forall|i: int| 0 <= i < parts.len() ==> stored::is_bare(#[trigger] parts[i]),
    ensures
        letters::same_letters(rtype, "MX"@) ==> render::rendered_value(
            rtype,
            stored::spaced(parts),
        ) == parts[0] + seq![' '] + with_dot(item_or(parts, 1, Seq::<char>::empty())),
        letters::same_letters(rtype, "SRV"@) ==> render::rendered_value(
            rtype,
            stored::spaced(parts),
        ) == parts[0] + seq![' '] + item_or(parts, 1, seq!['0']) + seq![' '] + item_or(
            parts,
            2,
            seq!['0'],
        ) + seq![' '] + with_dot(item_or(parts, 3, Seq::<char>::empty())),
        letters::same_letters(rtype, "MX"@) ==> render::rendered_value(
            rtype,
            Seq::<char>::empty(),
        ) == seq!['1', '0', ' ', '.'],
{
    reveal_strlit(" ");
    reveal_strlit("0");
    reveal_strlit("10");
    reveal_strlit("");
    assert(" "@ =~= seq![' ']);
    assert("0"@ =~= seq!['0']);
    assert("10"@ =~= seq!['1', '0']);
    assert(""@ =~= Seq::<char>::empty());
    lemma_upper_types(rtype);
    stored::lemma_types();
    stored::lemma_bare_words(parts);
    lemma_dotted(item_or(parts, 1, Seq::<char>::empty()));
    lemma_dotted(item_or(parts, 3, Seq::<char>::empty()));
    lemma_dotted(Seq::<char>::empty());
    let none = Seq::<char>::empty();
    pieces::lemma_words_base(none);
    if letters::same_letters(rtype, "MX"@) {
        assert(render::rendered_value(rtype, none) =~= seq!['1', '0', ' ', '.']);
    }
}

/// An authorization is written as its flags, its tag and its text in quotes, where the text is all that
/// follows the second space; what is missing is written as the tag `issue` and an empty text.
pub proof fn lemma_authorization_means(
    rtype: Seq<char>,
    flags: Seq<char>,
    tag: Seq<char>,
    value: Seq<char>,
)
    requires
        letters::same_letters(rtype, "CAA"@),
        names::free_of(flags, ' '),
        names::free_of(tag, ' '),
    ensures
        render::rendered_value(rtype, flags + seq![' '] + (tag + seq![' '] + value)) == flags
            + seq![' '] + tag + seq![' '] + render::quoted_text(value),
        render::rendered_value(rtype, flags) == flags + seq![' '] + "issue"@ + seq![' ']
            + render::quoted_text(Seq::<char>::empty()),
{
    reveal_strlit(" ");
    reveal_strlit("");
    assert(" "@ =~= seq![' ']);
    assert(""@ =~= Seq::<char>::empty());
    lemma_upper_types(rtype);
    stored::lemma_types();
    let rest = tag + seq![' '] + value;
    pieces::lemma_first_of(flags, rest, ' ');
    pieces::lemma_first_of(tag, value, ' ');
}

/// A text is written in quotes, with a backslash before each quote and each backslash.
pub proof fn lemma_quoted_means(value: Seq<char>, c: char)
    ensures
        render::quoted_text(Seq::<char>::empty()) == seq!['"', '"'],
        ({
            let inner = render::quoted_text(value);
            let more = render::quoted_text(value.push(c));
            &&& inner.len() >= 2 && inner[0] == '"' && inner.last() == '"'
            &&& more == inner.drop_last() + (if c == '"' || c == '\\' {
                seq!['\\', c, '"']
            } else {
                seq![c, '"']
            })
        }),
{
    let none = Seq::<char>::empty();
    lexical::lemma_quoted_text(none);
    lexical::lemma_quoted_text(value);
    lexical::lemma_quoted_text(value.push(c));
    assert(value.push(c).drop_last() =~= value);
    assert(render::quoted_text(none) =~= seq!['"', '"']);
    let inner = render::quoted_text(value);
    let more = render::quoted_text(value.push(c));
    assert(inner.drop_last() =~= seq!['"'] + lexical::quoted_chars(value));
    assert(more =~= inner.drop_last() + lexical::quoted_char(c) + seq!['"']);
    if c == '"' || c == '\\' {
        assert(more =~= inner.drop_last() + seq!['\\', c, '"']);
    } else {
        assert(more =~= inner.drop_last() + seq![c, '"']);
    }
}

/// An export is the zone file of the first zone with the id, with its listed records, under a header
/// that names the zone; without such a zone there is none.
pub proof fn lemma_export_means(
    model: StoreModel,
    zone_id: Seq<char>,
    primary_ns: Seq<char>,
    hostmaster: Seq<char>,
)
    ensures
        match zones::exported(model, zone_id, primary_ns, hostmaster) {
            Some((body, disposition)) => exists|i: int|
                {
                    &&& #[trigger] outcomes::is_zone_at(model.zones, zone_id, i)
                    &&& body == render::zone_file(
                        model.zones[i],
                        model.listed_records(zone_id),
                        primary_ns,
                        hostmaster,
                    )
                    &&& disposition == zones::download_header(model.zones[i].name)
                },
            None => outcomes::no_zone(model.zones, zone_id),
        },
{
    outcomes::lemma_zone_by_id(model.zones, zone_id);
}

} // verus!

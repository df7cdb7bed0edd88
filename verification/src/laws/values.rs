//! Which owner names and values read back from a zone file.
use crate::addr;
use crate::config;
use crate::digits;
use crate::laws::addr as addr_laws;
use crate::laws::export;
use crate::laws::lexical;
use crate::laws::names;
use crate::laws::served;
use crate::text;
use crate::zonefile;
use crate::zonefile::lexer;
use crate::zonefile::render;
use vstd::prelude::*;

verus! {

// ---------------------------------------------------------------------------
// Names
// ---------------------------------------------------------------------------

/// Whether `n` is a name in canonical form that stands in a zone file as one word.
pub open spec fn is_plain_name(n: Seq<char>) -> bool {
    export::is_token_word(n) && config::canonical(n) == n
}

/// A plain name with a dot behind it is one word, and stands for the name wherever it is read.
pub proof fn lemma_dotted_name(n: Seq<char>, origin: Seq<char>)
    requires
        is_plain_name(n),
    ensures
        render::dotted_name(n) == n + "."@,
        export::is_token_word(n + "."@),
        config::canonical(n + "."@) == n,
        zonefile::target_of(n + "."@, origin) == n,
{
    reveal_strlit(".");
    let d = n + "."@;
    assert forall|i: int| 0 <= i < d.len() implies !text::is_space(#[trigger] d[i]) && d[i] != '"'
        && d[i] != ';' && d[i] != '(' && d[i] != ')' by {
        if i < n.len() {
            assert(d[i] == n[i]);
        } else {
            assert(d[i] == '.');
        }
    }
    assert(d.last() == '.' && d[0] == n[0]);
    names::lemma_trim_trimmed(d);
    assert(!text::is_space(n[0]) && !text::is_space(n[n.len() - 1]));
    names::lemma_trim_trimmed(n);
    assert(d.drop_last() =~= n);
    names::lemma_canonical_shape(n);
    assert(text::trimmed_end_of(n, '.') == n);
    assert(text::trimmed_end_of(d, '.') == text::trimmed_end_of(n, '.'));
    assert(d.len() != "."@.len());
}

/// The name of a zone reads back where it is a plain name.
pub proof fn lemma_zone_name_reads_back(zone: Seq<char>)
    requires
        is_plain_name(zone),
    ensures
        export::zone_reads_back(zone),
{
    lemma_dotted_name(zone, zone);
}

/// A name in the SOA can stand in the header where it is a plain name.
pub proof fn lemma_soa_name_reads_back(name: Seq<char>)
    requires
        is_plain_name(config::canonical(name)),
    ensures
        export::is_piece(config::canonical(name) + "."@),
{
    let n = config::canonical(name);
    lemma_dotted_name(n, n);
    export::lemma_token_word(n + "."@);
}

/// The apex of a zone reads back.
pub proof fn lemma_apex_reads_back(zone: Seq<char>)
    ensures
        export::name_reads_back(zone, zone),
{
    reveal_strlit("@");
    export::lemma_at_token(zone);
}

/// Whether `part` can stand before a zone as the relative name of an owner: it is a plain name that is
/// not taken for a TTL, a class, a type, a directive or the apex, and it does not itself end in the
/// name of the zone.
pub open spec fn is_relative_part(part: Seq<char>, zone: Seq<char>) -> bool {
    &&& is_plain_name(part)
    &&& part != "@"@
    &&& part[0] != '$'
    &&& zonefile::names_owner(part, false)
    &&& !config::is_within(part, zone)
}

/// An owner below the apex reads back from its relative name.
pub proof fn lemma_owner_reads_back(part: Seq<char>, zone: Seq<char>)
    requires
        is_relative_part(part, zone),
    ensures
        export::name_reads_back(part + "."@ + zone, zone),
{
    reveal_strlit(".");
    let name = part + "."@ + zone;
    let below = "."@ + zone;
    assert(name =~= part + below);
    assert(name.subrange(name.len() - below.len(), name.len() as int) =~= below);
    assert(name.len() != zone.len());
    assert(name.take(name.len() - below.len()) =~= part);
    assert(render::relative_name(name, zone) == part);
}

// ---------------------------------------------------------------------------
// Addresses
// ---------------------------------------------------------------------------

/// An address that is stored for an A record reads back.
pub proof fn lemma_stored_a_reads_back(value: Seq<char>, origin: Seq<char>, stored: Seq<char>)
    requires
        zonefile::stored_value("A"@, value, origin) == Ok::<Seq<char>, Seq<char>>(stored),
    ensures
        export::value_reads_back("A"@, stored, origin),
{
    served::lemma_type_names();
    lemma_plain_types();
    let ip = addr::ipv4_of(text::trimmed(value)).unwrap();
    addr_laws::lemma_ipv4_text_shape(ip);
    addr_laws::lemma_ipv4_roundtrip(ip);
    assert forall|i: int| 0 <= i < stored.len() implies export::is_simple_char(
        #[trigger] stored[i],
    ) by {
        assert(digits::is_digit(stored[i]) || stored[i] == '.');
    }
    export::lemma_simple_word(stored);
    export::lemma_token_word(stored);
    names::lemma_trim_trimmed(stored);
}

/// An address that is stored for an AAAA record reads back.
pub proof fn lemma_stored_aaaa_reads_back(value: Seq<char>, origin: Seq<char>, stored: Seq<char>)
    requires
        zonefile::stored_value("AAAA"@, value, origin) == Ok::<Seq<char>, Seq<char>>(stored),
    ensures
        export::value_reads_back("AAAA"@, stored, origin),
{
    served::lemma_type_names();
    lemma_plain_types();
    let ip = addr::ipv6_of(text::trimmed(value)).unwrap();
    addr_laws::lemma_ipv6_len(text::trimmed(value));
    addr_laws::lemma_ipv6_text_shape(ip);
    addr_laws::lemma_ipv6_roundtrip(ip);
    assert forall|i: int| 0 <= i < stored.len() implies export::is_simple_char(
        #[trigger] stored[i],
    ) by {
        assert(addr::hex_digit(stored[i]) is Some || stored[i] == ':' || stored[i] == '.');
    }
    export::lemma_simple_word(stored);
    export::lemma_token_word(stored);
    names::lemma_trim_trimmed(stored);
}

/// Addresses are written as they are stored.
proof fn lemma_plain_types()
    ensures
        text::uppered("A"@) == "A"@,
        text::uppered("AAAA"@) == "AAAA"@,
        text::uppered("NS"@) == "NS"@,
        text::uppered("CNAME"@) == "CNAME"@,
        text::uppered("MX"@) == "MX"@,
        text::uppered("TXT"@) == "TXT"@,
        text::uppered("SRV"@) == "SRV"@,
        text::uppered("CAA"@) == "CAA"@,
        "A"@ != "NS"@ && "A"@ != "CNAME"@,
        "AAAA"@ != "NS"@ && "AAAA"@ != "CNAME"@,
        "NS"@ != "A"@ && "NS"@ != "AAAA"@,
        "CNAME"@ != "A"@ && "CNAME"@ != "AAAA"@,
{
    reveal_strlit("A");
    reveal_strlit("AAAA");
    reveal_strlit("NS");
    reveal_strlit("CNAME");
    reveal_strlit("MX");
    reveal_strlit("TXT");
    reveal_strlit("SRV");
    reveal_strlit("CAA");
    assert(text::uppered("A"@) =~= "A"@);
    assert(text::uppered("AAAA"@) =~= "AAAA"@);
    assert(text::uppered("NS"@) =~= "NS"@);
    assert(text::uppered("CNAME"@) =~= "CNAME"@);
    assert(text::uppered("MX"@) =~= "MX"@);
    assert(text::uppered("TXT"@) =~= "TXT"@);
    assert(text::uppered("SRV"@) =~= "SRV"@);
    assert(text::uppered("CAA"@) =~= "CAA"@);
    assert("A"@.len() == 1 && "AAAA"@.len() == 4 && "CNAME"@.len() == 5 && "NS"@.len() == 2);
}

// ---------------------------------------------------------------------------
// Names as values
// ---------------------------------------------------------------------------

/// A plain name reads back as the value of an NS or a CNAME record.
pub proof fn lemma_target_reads_back(rtype: Seq<char>, n: Seq<char>, zone: Seq<char>)
    requires
        rtype == "NS"@ || rtype == "CNAME"@,
        is_plain_name(n),
    ensures
        export::value_reads_back(rtype, n, zone),
{
    served::lemma_type_names();
    lemma_plain_types();
    let shown = n + "."@;
    lemma_dotted_name(n, zone);
    export::lemma_token_word(shown);
    names::lemma_trim_trimmed(shown);
    assert(text::joined(seq![shown], " "@) == shown);
}

/// The words of a decimal text, a space and a plain name.
proof fn lemma_plain_name_is_word(n: Seq<char>)
    requires
        is_plain_name(n),
    ensures
        served::is_word(n),
{
}

/// A preference and a plain name read back as the value of an MX record.
pub proof fn lemma_mx_reads_back(pref: nat, host: Seq<char>, zone: Seq<char>)
    requires
        pref <= 65535,
        is_plain_name(host),
    ensures
        export::value_reads_back("MX"@, digits::decimal(pref) + " "@ + host, zone),
{
    served::lemma_type_names();
    lemma_plain_types();
    let d = digits::decimal(pref);
    let value = d + " "@ + host;
    let dotted = host + "."@;
    let shown = d + " "@ + dotted;
    served::lemma_decimal_is_word(pref);
    lemma_plain_name_is_word(host);
    served::lemma_words_behind_word(d, host);
    served::lemma_single_word(host);
    let words = text::words_of(value);
    assert(words =~= seq![d, host]);
    assert(words[0] == d && words[1] == host);
    lemma_dotted_name(host, zone);
    assert(render::rendered_value("MX"@, value) == shown);
    export::lemma_decimal_word(pref);
    export::lemma_token_word(d);
    export::lemma_token_word(dotted);
    export::lemma_join_pieces(d, dotted);
    let tokens = lexer::tokens_of(shown).unwrap();
    assert(tokens =~= seq![d, dotted]);
    assert(tokens.drop_last() =~= seq![d]);
    assert(text::joined(seq![d], " "@) == d);
    assert(text::joined(tokens, " "@) == shown);
    names::lemma_trim_trimmed(shown);
    addr_laws::lemma_unsigned_roundtrip(pref, 65535);
    assert(tokens.skip(1) =~= seq![dotted]);
    assert(text::joined(seq![dotted], " "@) == dotted);
}

/// Three numbers and a plain name read back as the value of an SRV record.
pub proof fn lemma_srv_reads_back(
    priority: nat,
    weight: nat,
    port: nat,
    target: Seq<char>,
    zone: Seq<char>,
)
    requires
        priority <= 65535,
        weight <= 65535,
        port <= 65535,
        is_plain_name(target),
    ensures
        export::value_reads_back(
            "SRV"@,
            digits::decimal(priority) + " "@ + digits::decimal(weight) + " "@ + digits::decimal(
                port,
            ) + " "@ + target,
            zone,
        ),
{
    served::lemma_type_names();
    lemma_plain_types();
    let (p, w, q) = (digits::decimal(priority), digits::decimal(weight), digits::decimal(port));
    let value = p + " "@ + w + " "@ + q + " "@ + target;
    let dotted = target + "."@;
    let shown = p + " "@ + w + " "@ + q + " "@ + dotted;
    served::lemma_decimal_is_word(priority);
    served::lemma_decimal_is_word(weight);
    served::lemma_decimal_is_word(port);
    lemma_plain_name_is_word(target);
    let third = q + " "@ + target;
    let second = w + " "@ + third;
    assert(value =~= p + " "@ + second);
    served::lemma_words_behind_word(p, second);
    served::lemma_words_behind_word(w, third);
    served::lemma_words_behind_word(q, target);
    served::lemma_single_word(target);
    let words = text::words_of(value);
    assert(words =~= seq![p, w, q, target]);
    assert(words[0] == p && words[1] == w && words[2] == q && words[3] == target);
    lemma_dotted_name(target, zone);
    assert(render::rendered_value("SRV"@, value) == shown);
    export::lemma_decimal_word(priority);
    export::lemma_decimal_word(weight);
    export::lemma_decimal_word(port);
    export::lemma_token_word(p);
    export::lemma_token_word(w);
    export::lemma_token_word(q);
    export::lemma_token_word(dotted);
    let two = p + " "@ + w;
    let three = two + " "@ + q;
    export::lemma_join_pieces(p, w);
    export::lemma_join_pieces(two, q);
    export::lemma_join_pieces(three, dotted);
    let tokens = lexer::tokens_of(shown).unwrap();
    assert(tokens =~= seq![p, w, q, dotted]);
    assert(tokens.drop_last() =~= seq![p, w, q]);
    assert(seq![p, w, q].drop_last() =~= seq![p, w]);
    assert(seq![p, w].drop_last() =~= seq![p]);
    assert(text::joined(seq![p], " "@) == p);
    assert(text::joined(seq![p, w], " "@) == two);
    assert(text::joined(seq![p, w, q], " "@) == three);
    assert(text::joined(tokens, " "@) == shown);
    names::lemma_trim_trimmed(shown);
    addr_laws::lemma_unsigned_roundtrip(priority, 65535);
    addr_laws::lemma_unsigned_roundtrip(weight, 65535);
    addr_laws::lemma_unsigned_roundtrip(port, 65535);
}

// ---------------------------------------------------------------------------
// Texts
// ---------------------------------------------------------------------------

/// Whether `s` is a text that reads back from quotes: not empty, without parentheses and line feeds,
/// and without white space or a pair of quotes at its ends.
pub open spec fn is_plain_text(s: Seq<char>) -> bool {
    &&& s.len() > 0
    &&& text::unquoted(s) == s
    &&& lexical::no_parens(s)
    &&& names::free_of(s, '\n')
}

/// A plain text in quotes is a piece and its only token.
proof fn lemma_quoted_piece(s: Seq<char>)
    requires
        is_plain_text(s),
    ensures
        export::is_piece(render::quoted_text(s)),
        lexer::tokens_of(render::quoted_text(s)) == Some(seq![s]),
{
    lexical::lemma_quoted_text_is_token(s);
    lexical::lemma_quoted_text_free(s, '(');
    lexical::lemma_quoted_text_free(s, ')');
    lexical::lemma_quoted_text_free(s, '\n');
    lexical::lemma_quoted_text(s);
    let q = render::quoted_text(s);
    assert(q[0] == '"' && q.last() == '"');
}

/// A plain text has no white space at its ends.
proof fn lemma_plain_text_is_trimmed(s: Seq<char>)
    requires
        is_plain_text(s),
    ensures
        names::is_trimmed(s),
        text::trimmed(s) == s,
{
    names::lemma_trimmed_is_trimmed(s);
    let t = text::trimmed(s);
    names::lemma_trimmed_start(s);
    names::lemma_trimmed_end(text::trimmed_start(s));
    assert(t.len() <= s.len());
    assert(text::unquoted(s).len() <= t.len());
    assert(t == s);
}

/// A plain text reads back as the value of a TXT record.
pub proof fn lemma_txt_reads_back(s: Seq<char>, zone: Seq<char>)
    requires
        is_plain_text(s),
    ensures
        export::value_reads_back("TXT"@, s, zone),
{
    served::lemma_type_names();
    lemma_plain_types();
    lemma_quoted_piece(s);
    lemma_plain_text_is_trimmed(s);
    assert(text::joined(seq![s], " "@) == s);
}

/// The parts of a text around the first space behind a word.
proof fn lemma_first_space(a: Seq<char>, b: Seq<char>)
    requires
        served::is_word(a),
    ensures
        text::before_first(a + " "@ + b, ' ') == a,
        text::after_first(a + " "@ + b, ' ') == Some(b),
    decreases a.len(),
{
    reveal_strlit(" ");
    let s = a + " "@ + b;
    assert(s[0] == a[0]);
    assert(!text::is_space(a[0]));
    let rest = a.drop_first();
    if rest.len() == 0 {
        let t = s.drop_first();
        assert(t =~= " "@ + b);
        assert(t[0] == ' ');
        assert(t.drop_first() =~= b);
        assert(text::before_first(t, ' ') == Seq::<char>::empty());
        assert(seq![a[0]] + Seq::<char>::empty() =~= a);
    } else {
        assert forall|i: int| 0 <= i < rest.len() implies !text::is_space(#[trigger] rest[i]) by {
            assert(rest[i] == a[i + 1]);
        }
        lemma_first_space(rest, b);
        assert(s.drop_first() =~= rest + " "@ + b);
        assert(seq![a[0]] + rest =~= a);
    }
}

/// Flags, a tag and a plain text read back as the value of a CAA record, where the quotes of the text
/// are closed and its tokens with single spaces between them are the text.
pub proof fn lemma_caa_reads_back(flags: nat, tag: Seq<char>, v: Seq<char>, zone: Seq<char>)
    requires
        flags <= 255,
        zonefile::is_tag(tag),
        text::lowered(tag) == tag,
        is_plain_text(v),
        lexical::is_closed(v),
        text::joined(lexer::tokens_of(v).unwrap(), " "@) == v,
    ensures
        export::value_reads_back("CAA"@, digits::decimal(flags) + " "@ + tag + " "@ + v, zone),
{
    served::lemma_type_names();
    lemma_plain_types();
    reveal_strlit(" ");
    let d = digits::decimal(flags);
    let q = render::quoted_text(v);
    let value = d + " "@ + tag + " "@ + v;
    let rest = tag + " "@ + v;
    let head = d + " "@ + tag;
    let shown = head + " "@ + q;
    served::lemma_decimal_is_word(flags);
    served::lemma_tag_is_word(tag);
    assert(value =~= d + " "@ + rest);
    lemma_first_space(d, rest);
    lemma_first_space(tag, v);
    assert(render::rendered_value("CAA"@, value) == shown);
    export::lemma_decimal_word(flags);
    export::lemma_token_word(d);
    assert forall|i: int| 0 <= i < tag.len() implies export::is_simple_char(#[trigger] tag[i]) by {
        assert(zonefile::is_tag_char(tag[i]));
    }
    export::lemma_simple_word(tag);
    export::lemma_token_word(tag);
    lemma_quoted_piece(v);
    export::lemma_join_pieces(d, tag);
    export::lemma_join_pieces(head, q);
    let tokens = lexer::tokens_of(shown).unwrap();
    assert(tokens =~= seq![d, tag, v]);
    assert(tokens.drop_last() =~= seq![d, tag]);
    assert(seq![d, tag].drop_last() =~= seq![d]);
    assert(text::joined(seq![d], " "@) == d);
    assert(text::joined(seq![d, tag], " "@) == head);
    assert(text::joined(tokens, " "@) == value);
    lemma_plain_text_is_trimmed(v);
    assert(value[0] == d[0] && value.last() == v.last());
    names::lemma_trim_trimmed(value);
    lexical::lemma_tokens_append(head, v);
    let vt = lexer::tokens_of(v).unwrap();
    let words = lexer::tokens_of(value).unwrap();
    assert(words =~= seq![d, tag] + vt);
    assert(words.skip(2) =~= vt);
    addr_laws::lemma_unsigned_roundtrip(flags, 255);
    names::lemma_trim_trimmed(tag);
}

} // verus!

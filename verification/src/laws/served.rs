//! What is stored can be served: record data that is accepted for storage is parsed by the resolver.
use crate::addr;
use crate::config;
use crate::digits;
use crate::dns;
use crate::dns::resolver;
use crate::dns::{
    RDataModel, TYPE_A, TYPE_AAAA, TYPE_ANY, TYPE_CAA, TYPE_CNAME, TYPE_MX, TYPE_NS, TYPE_SOA,
    TYPE_SRV, TYPE_TXT,
};
use crate::laws::addr as addr_laws;
use crate::laws::names;
use crate::text;
use crate::zonefile;
use crate::zonefile::lexer;
use vstd::prelude::*;

verus! {

// ---------------------------------------------------------------------------
// Words
// ---------------------------------------------------------------------------

/// Whether `s` holds no white space.
pub open spec fn is_word(s: Seq<char>) -> bool {
    s.len() > 0 && forall|i: int| 0 <= i < s.len() ==> !text::is_space(#[trigger] s[i])
}

/// A scan over a word does not end it.
proof fn lemma_scan_word(s: Seq<char>)
    requires
        forall|i: int| 0 <= i < s.len() ==> !text::is_space(#[trigger] s[i]),
    ensures
        text::word_scan(s) == (Seq::<Seq<char>>::empty(), s),
    decreases s.len(),
{
    if s.len() > 0 {
        let init = s.drop_last();
        assert forall|i: int| 0 <= i < init.len() implies !text::is_space(#[trigger] init[i]) by {
            assert(init[i] == s[i]);
        }
        lemma_scan_word(init);
        assert(!text::is_space(s[s.len() - 1]));
        assert(init.push(s.last()) == s);
    } else {
        assert(s == Seq::<char>::empty());
    }
}

/// A scan over a word, a space and a text ends the word and goes on in the text.
proof fn lemma_scan_behind_word(a: Seq<char>, b: Seq<char>)
    requires
        is_word(a),
    ensures
        text::word_scan(a.push(' ') + b) == (
            seq![a] + text::word_scan(b).0,
            text::word_scan(b).1,
        ),
    decreases b.len(),
{
    let s = a.push(' ') + b;
    if b.len() == 0 {
        lemma_scan_word(a);
        assert(s == a.push(' '));
        assert(s.drop_last() == a);
        assert(seq![a] + Seq::<Seq<char>>::empty() == Seq::<Seq<char>>::empty().push(a));
    } else {
        let init = b.drop_last();
        lemma_scan_behind_word(a, init);
        assert(s.drop_last() == a.push(' ') + init);
        assert(s.last() == b.last());
        let (done, current) = text::word_scan(init);
        assert((seq![a] + done).push(current) == seq![a] + done.push(current));
    }
}

/// The words of a word, a space and a text: the word, and the words of the text.
pub proof fn lemma_words_behind_word(a: Seq<char>, b: Seq<char>)
    requires
        is_word(a),
    ensures
        text::words_of(a + " "@ + b) == seq![a] + text::words_of(b),
{
    reveal_strlit(" ");
    assert(a + " "@ + b == a.push(' ') + b);
    lemma_scan_behind_word(a, b);
    let (done, current) = text::word_scan(b);
    assert((seq![a] + done).push(current) == seq![a] + done.push(current));
}

/// A word is its only word.
pub proof fn lemma_single_word(a: Seq<char>)
    requires
        is_word(a),
    ensures
        text::words_of(a) == seq![a],
{
    lemma_scan_word(a);
    assert(Seq::<Seq<char>>::empty().push(a) == seq![a]);
}

/// The words of a text do not depend on white space at its start.
proof fn lemma_words_drop_first(s: Seq<char>)
    requires
        s.len() > 0,
        text::is_space(s[0]),
    ensures
        text::word_scan(s) == text::word_scan(s.drop_first()),
    decreases s.len(),
{
    if s.len() == 1 {
        assert(s.drop_last() == Seq::<char>::empty());
        assert(s.drop_first() == Seq::<char>::empty());
    } else {
        lemma_words_drop_first(s.drop_last());
        assert(s.drop_last().drop_first() == s.drop_first().drop_last());
        assert(s.drop_first().last() == s.last());
    }
}

/// The words of a text are those of the text without white space at its ends.
pub proof fn lemma_words_trimmed(s: Seq<char>)
    ensures
        text::words_of(text::trimmed(s)) == text::words_of(s),
{
    lemma_words_trimmed_start(s);
    lemma_words_trimmed_end(text::trimmed_start(s));
}

/// White space at the start of a text is no part of a word.
proof fn lemma_words_trimmed_start(s: Seq<char>)
    ensures
        text::words_of(text::trimmed_start(s)) == text::words_of(s),
    decreases s.len(),
{
    if s.len() > 0 && text::is_space(s[0]) {
        lemma_words_drop_first(s);
        lemma_words_trimmed_start(s.drop_first());
    }
}

/// White space at the end of a text is no part of a word.
proof fn lemma_words_trimmed_end(s: Seq<char>)
    ensures
        text::words_of(text::trimmed_end(s)) == text::words_of(s),
    decreases s.len(),
{
    if s.len() > 0 && text::is_space(s.last()) {
        lemma_words_trimmed_end(s.drop_last());
    }
}

/// A decimal text is a word.
pub proof fn lemma_decimal_is_word(n: nat)
    ensures
        is_word(digits::decimal(n)),
{
    let s = digits::decimal(n);
    addr_laws::lemma_decimal_roundtrip(n);
    assert forall|i: int| 0 <= i < s.len() implies !text::is_space(#[trigger] s[i]) by {
        assert(digits::is_digit(s[i]));
    }
}

// ---------------------------------------------------------------------------
// Addresses and names
// ---------------------------------------------------------------------------

/// A stored A record is served with its address.
pub proof fn lemma_stored_a_is_served(value: Seq<char>, origin: Seq<char>, stored: Seq<char>)
    requires
        zonefile::stored_value("A"@, value, origin) == Ok::<Seq<char>, Seq<char>>(stored),
    ensures
        resolver::data_of(TYPE_A, stored) == Some(
            RDataModel::A(addr::ipv4_of(text::trimmed(value)).unwrap()),
        ),
{
    lemma_type_names();
    let ip = addr::ipv4_of(text::trimmed(value)).unwrap();
    assert(stored == addr::ipv4_text(ip));
    addr_laws::lemma_ipv4_text_shape(ip);
    names::lemma_trim_trimmed(stored);
    addr_laws::lemma_ipv4_roundtrip(ip);
}

/// A stored AAAA record is served with its address.
pub proof fn lemma_stored_aaaa_is_served(value: Seq<char>, origin: Seq<char>, stored: Seq<char>)
    requires
        zonefile::stored_value("AAAA"@, value, origin) == Ok::<Seq<char>, Seq<char>>(stored),
    ensures
        resolver::data_of(TYPE_AAAA, stored) == Some(
            RDataModel::Aaaa(addr::ipv6_of(text::trimmed(value)).unwrap()),
        ),
{
    lemma_type_names();
    let ip = addr::ipv6_of(text::trimmed(value)).unwrap();
    assert(stored == addr::ipv6_text(ip));
    addr_laws::lemma_ipv6_len(text::trimmed(value));
    addr_laws::lemma_ipv6_text_shape(ip);
    names::lemma_trim_trimmed(stored);
    addr_laws::lemma_ipv6_roundtrip(ip);
}

/// The names of types are upper case and trimmed.
pub proof fn lemma_type_names()
    ensures
        text::uppered(text::trimmed("A"@)) == "A"@,
        text::uppered(text::trimmed("AAAA"@)) == "AAAA"@,
        text::uppered(text::trimmed("NS"@)) == "NS"@,
        text::uppered(text::trimmed("CNAME"@)) == "CNAME"@,
        text::uppered(text::trimmed("MX"@)) == "MX"@,
        text::uppered(text::trimmed("TXT"@)) == "TXT"@,
        text::uppered(text::trimmed("SRV"@)) == "SRV"@,
        text::uppered(text::trimmed("CAA"@)) == "CAA"@,
        "A"@ != "AAAA"@,
        "MX"@ != "A"@ && "MX"@ != "AAAA"@ && "MX"@ != "NS"@ && "MX"@ != "CNAME"@,
        "SRV"@ != "A"@ && "SRV"@ != "AAAA"@ && "SRV"@ != "NS"@ && "SRV"@ != "CNAME"@ && "SRV"@
            != "MX"@ && "SRV"@ != "TXT"@,
        "CAA"@ != "A"@ && "CAA"@ != "AAAA"@ && "CAA"@ != "NS"@ && "CAA"@ != "CNAME"@ && "CAA"@
            != "MX"@ && "CAA"@ != "TXT"@ && "CAA"@ != "SRV"@,
        "TXT"@ != "A"@ && "TXT"@ != "AAAA"@ && "TXT"@ != "NS"@ && "TXT"@ != "CNAME"@ && "TXT"@
            != "MX"@,
{
    reveal_strlit("A");
    reveal_strlit("AAAA");
    reveal_strlit("NS");
    reveal_strlit("CNAME");
    reveal_strlit("MX");
    reveal_strlit("TXT");
    reveal_strlit("SRV");
    reveal_strlit("CAA");
    names::lemma_trim_trimmed("A"@);
    names::lemma_trim_trimmed("AAAA"@);
    names::lemma_trim_trimmed("NS"@);
    names::lemma_trim_trimmed("CNAME"@);
    names::lemma_trim_trimmed("MX"@);
    names::lemma_trim_trimmed("TXT"@);
    names::lemma_trim_trimmed("SRV"@);
    names::lemma_trim_trimmed("CAA"@);
    assert(text::uppered("A"@) =~= "A"@);
    assert(text::uppered("AAAA"@) =~= "AAAA"@);
    assert(text::uppered("NS"@) =~= "NS"@);
    assert(text::uppered("CNAME"@) =~= "CNAME"@);
    assert(text::uppered("MX"@) =~= "MX"@);
    assert(text::uppered("TXT"@) =~= "TXT"@);
    assert(text::uppered("SRV"@) =~= "SRV"@);
    assert(text::uppered("CAA"@) =~= "CAA"@);
    assert("A"@.len() == 1 && "AAAA"@.len() == 4 && "CNAME"@.len() == 5);
    assert("MX"@[0] == 'M' && "NS"@[0] == 'N');
    assert("TXT"@[0] == 'T' && "SRV"@[0] == 'S' && "CAA"@[0] == 'C');
}

/// Any value of an NS, CNAME or TXT record is served.
pub proof fn lemma_names_and_texts_are_served(stored: Seq<char>)
    ensures
        resolver::data_of(TYPE_NS, stored) == Some(
            RDataModel::Name(TYPE_NS, config::canonical(text::trimmed(stored))),
        ),
        resolver::data_of(TYPE_CNAME, stored) == Some(
            RDataModel::Name(TYPE_CNAME, config::canonical(text::trimmed(stored))),
        ),
        resolver::data_of(TYPE_TXT, stored) == Some(RDataModel::Txt(text::unquoted(stored))),
{
}

// ---------------------------------------------------------------------------
// Composite values
// ---------------------------------------------------------------------------

/// The name that the resolver reads from a stored host or target: white space inside it is closed up.
pub open spec fn served_name(host: Seq<char>) -> Seq<char> {
    config::canonical(text::joined(text::words_of(host), " "@))
}

/// A stored MX record is served with its preference and its host, unless the host is blank once white
/// space and the dots at its end are gone.
pub proof fn lemma_stored_mx_is_served(value: Seq<char>, origin: Seq<char>, stored: Seq<char>)
    requires
        zonefile::stored_value("MX"@, value, origin) == Ok::<Seq<char>, Seq<char>>(stored),
    ensures
        exists|pref: nat, host: Seq<char>|
            {
                &&& pref <= 65535
                &&& stored == #[trigger] (digits::decimal(pref) + " "@ + host)
                &&& served_name(host).len() > 0 ==> resolver::data_of(TYPE_MX, stored) == Some(
                    RDataModel::Mx { pref: pref as u16, host: served_name(host) },
                )
            },
{
    lemma_type_names();
    let words = lexer::tokens_or_words(text::trimmed(value));
    let pref = digits::unsigned(words[0], 65535).unwrap();
    let host = zonefile::target_of(text::joined(words.skip(1), " "@), origin);
    assert(stored == digits::decimal(pref) + " "@ + host);
    lemma_decimal_is_word(pref);
    lemma_words_behind_word(digits::decimal(pref), host);
    lemma_words_trimmed(stored);
    addr_laws::lemma_unsigned_roundtrip(pref, 65535);
    let read = text::words_of(text::trimmed(stored));
    assert(read == seq![digits::decimal(pref)] + text::words_of(host));
    assert(read.skip(1) =~= text::words_of(host));
}

/// A stored SRV record is served with its numbers and its target, unless the target is blank once
/// white space and the dots at its end are gone.
pub proof fn lemma_stored_srv_is_served(value: Seq<char>, origin: Seq<char>, stored: Seq<char>)
    requires
        zonefile::stored_value("SRV"@, value, origin) == Ok::<Seq<char>, Seq<char>>(stored),
    ensures
        exists|priority: nat, weight: nat, port: nat, target: Seq<char>|
            {
                &&& priority <= 65535 && weight <= 65535 && port <= 65535
                &&& stored == #[trigger] (digits::decimal(priority) + " "@ + digits::decimal(weight)
                    + " "@ + digits::decimal(port) + " "@ + target)
                &&& served_name(target).len() > 0 ==> resolver::data_of(TYPE_SRV, stored) == Some(
                    RDataModel::Srv {
                        priority: priority as u16,
                        weight: weight as u16,
                        port: port as u16,
                        target: served_name(target),
                    },
                )
            },
{
    lemma_type_names();
    let words = lexer::tokens_or_words(text::trimmed(value));
    let p = digits::unsigned(words[0], 65535).unwrap();
    let w = digits::unsigned(words[1], 65535).unwrap();
    let q = digits::unsigned(words[2], 65535).unwrap();
    let target = zonefile::target_of(words[3], origin);
    let (dp, dw, dq) = (digits::decimal(p), digits::decimal(w), digits::decimal(q));
    assert(stored == dp + " "@ + dw + " "@ + dq + " "@ + target);
    lemma_decimal_is_word(p);
    lemma_decimal_is_word(w);
    lemma_decimal_is_word(q);
    let third = dq + " "@ + target;
    let second = dw + " "@ + third;
    assert(stored =~= dp + " "@ + second);
    lemma_words_behind_word(dp, second);
    lemma_words_behind_word(dw, third);
    lemma_words_behind_word(dq, target);
    lemma_words_trimmed(stored);
    addr_laws::lemma_unsigned_roundtrip(p, 65535);
    addr_laws::lemma_unsigned_roundtrip(w, 65535);
    addr_laws::lemma_unsigned_roundtrip(q, 65535);
    let read = text::words_of(text::trimmed(stored));
    assert(read =~= seq![dp, dw, dq] + text::words_of(target));
    assert(read.skip(3) =~= text::words_of(target));
}

/// A CAA tag is a word that lower case does not change.
pub proof fn lemma_tag_is_word(tag: Seq<char>)
    requires
        zonefile::is_tag(tag),
    ensures
        is_word(tag),
{
    assert forall|i: int| 0 <= i < tag.len() implies !text::is_space(#[trigger] tag[i]) by {
        assert(zonefile::is_tag_char(tag[i]));
    }
}

/// A stored CAA record is served with its flags, its tag and its value, unless the value is blank once
/// white space and quotes are gone.
pub proof fn lemma_stored_caa_is_served(value: Seq<char>, origin: Seq<char>, stored: Seq<char>)
    requires
        zonefile::stored_value("CAA"@, value, origin) == Ok::<Seq<char>, Seq<char>>(stored),
    ensures
        exists|flags: nat, tag: Seq<char>, v: Seq<char>|
            {
                &&& flags <= 255
                &&& stored == #[trigger] (digits::decimal(flags) + " "@ + tag + " "@ + v)
                &&& text::unquoted(text::joined(text::words_of(v), " "@)).len() > 0
                    ==> resolver::data_of(TYPE_CAA, stored) == Some(
                    RDataModel::Caa {
                        flags: flags as u8,
                        tag,
                        value: text::unquoted(text::joined(text::words_of(v), " "@)),
                    },
                )
            },
{
    lemma_type_names();
    let words = lexer::tokens_or_words(text::trimmed(value));
    let flags = digits::unsigned(words[0], 255).unwrap();
    let tag = text::lowered(text::trimmed(words[1]));
    let v = text::unquoted(text::joined(words.skip(2), " "@));
    let df = digits::decimal(flags);
    assert(stored == df + " "@ + tag + " "@ + v);
    lemma_decimal_is_word(flags);
    lemma_tag_is_word(tag);
    let second = tag + " "@ + v;
    assert(stored =~= df + " "@ + second);
    lemma_words_behind_word(df, second);
    lemma_words_behind_word(tag, v);
    lemma_words_trimmed(stored);
    addr_laws::lemma_unsigned_roundtrip(flags, 255);
    names::lemma_lower_idempotent(text::trimmed(words[1]));
    let read = text::words_of(text::trimmed(stored));
    assert(read =~= seq![df, tag] + text::words_of(v));
    assert(read.skip(2) =~= text::words_of(v));
}

/// The type codes that the stored types stand for.
pub proof fn lemma_editable_types_have_codes(rtype: Seq<char>)
    requires
        zonefile::is_editable(rtype),
    ensures
        dns::type_of(rtype) is Some,
        dns::type_label(dns::type_of(rtype).unwrap()) == rtype,
{
    lemma_type_names();
    reveal_strlit("SOA");
    reveal_strlit("NS");
    reveal_strlit("CNAME");
    reveal_strlit("SRV");
    reveal_strlit("A");
    reveal_strlit("AAAA");
    reveal_strlit("MX");
    reveal_strlit("TXT");
    reveal_strlit("CAA");
    assert("SOA"@[1] == 'O' && "SRV"@[1] == 'R');
}

/// The label of each type that the server knows names that type.
pub proof fn lemma_type_label_roundtrip(t: u16)
    requires
        t == TYPE_A || t == TYPE_NS || t == TYPE_CNAME || t == TYPE_SOA || t == TYPE_MX || t
            == TYPE_TXT || t == TYPE_AAAA || t == TYPE_SRV || t == TYPE_CAA || t == TYPE_ANY,
    ensures
        dns::type_of(dns::type_label(t)) == Some(t),
{
    lemma_type_names();
    reveal_strlit("A");
    reveal_strlit("AAAA");
    reveal_strlit("NS");
    reveal_strlit("CNAME");
    reveal_strlit("MX");
    reveal_strlit("TXT");
    reveal_strlit("SRV");
    reveal_strlit("CAA");
    reveal_strlit("SOA");
    reveal_strlit("ANY");
    names::lemma_trim_trimmed("SOA"@);
    names::lemma_trim_trimmed("ANY"@);
    assert(text::uppered("SOA"@) =~= "SOA"@);
    assert(text::uppered("ANY"@) =~= "ANY"@);
    assert("A"@.len() == 1 && "NS"@.len() == 2 && "MX"@.len() == 2 && "CNAME"@.len() == 5
        && "AAAA"@.len() == 4);
    assert("NS"@[0] == 'N' && "MX"@[0] == 'M');
    assert("SOA"@[0] == 'S' && "SRV"@[0] == 'S' && "SOA"@[1] == 'O' && "SRV"@[1] == 'R');
    assert("TXT"@[0] == 'T' && "CAA"@[0] == 'C' && "ANY"@[0] == 'A');
}

} // verus!

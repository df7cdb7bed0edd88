//! What the names and values of records are stored as.
use crate::addr;
use crate::config;
use crate::digits;
use crate::laws::addr as addr_laws;
use crate::laws::letters;
use crate::laws::lexical;
use crate::laws::lookup;
use crate::laws::names;
use crate::laws::served;
use crate::text;
use crate::zonefile;
use crate::zonefile::lexer;
use vstd::prelude::*;

verus! {

// ---------------------------------------------------------------------------
// Owners
// ---------------------------------------------------------------------------

/// Whether `s` is empty or a single `@`.
pub open spec fn is_apex(s: Seq<char>) -> bool {
    s.len() == 0 || (s.len() == 1 && s[0] == '@')
}

/// Whether `r` is where `n` lies relative to `origin`: the origin for a blank or `@`, `n` itself where
/// it is the origin or ends in a dot and the origin, and otherwise `n`, a dot and the origin.
pub open spec fn is_placed(n: Seq<char>, origin: Seq<char>, r: Seq<char>) -> bool {
    if is_apex(n) {
        r == origin
    } else if lookup::is_in(n, origin) {
        r == n
    } else {
        r == n + seq!['.'] + origin
    }
}

/// An owner name is placed relative to the origin, and lies within it.
pub proof fn lemma_owner_means(input: Seq<char>, origin: Seq<char>)
    ensures
        is_placed(config::canonical(input), origin, zonefile::owner_of(input, origin)),
        lookup::is_in(zonefile::owner_of(input, origin), origin),
{
    reveal_strlit("@");
    reveal_strlit(".");
    let n = config::canonical(input);
    lookup::lemma_within_means(n, origin);
    if n.len() == 1 && n[0] == '@' {
        assert(n =~= "@"@);
    }
    if !is_apex(n) && !lookup::is_in(n, origin) {
        assert(zonefile::owner_of(input, origin) =~= n + seq!['.'] + origin);
    }
}

/// An owner name that was placed once stays where it is.
pub proof fn lemma_owner_again(input: Seq<char>, origin: Seq<char>)
    requires
        config::canonical(origin) == origin,
        config::canonical(zonefile::owner_of(input, origin)) == zonefile::owner_of(input, origin),
    ensures
        zonefile::owner_of(zonefile::owner_of(input, origin), origin) == zonefile::owner_of(
            input,
            origin,
        ),
{
    let r = zonefile::owner_of(input, origin);
    lemma_owner_means(input, origin);
    lemma_owner_means(r, origin);
    if is_apex(r) {
        if lookup::is_in(r, origin) && r != origin {
            let head = choose|head: Seq<char>| r == #[trigger] (head + seq!['.'] + origin);
            assert(r[head.len() as int] == '.');
        }
    }
}

// ---------------------------------------------------------------------------
// Targets
// ---------------------------------------------------------------------------

/// A name in record data that ends in a dot stands for itself, a single dot for the root. Any other
/// name is placed relative to the origin, in lower case: it is kept where it lies within the origin,
/// and otherwise the origin is put behind it.
pub proof fn lemma_target_means(value: Seq<char>, origin: Seq<char>)
    ensures
        ({
            let v = text::trimmed(value);
            let r = zonefile::target_of(value, origin);
            if v.len() == 1 && v[0] == '.' {
                r.len() == 0
            } else if v.len() > 0 && v.last() == '.' {
                r == config::canonical(v)
            } else {
                is_placed(text::lowered(v), origin, r) && lookup::is_in(r, origin)
            }
        }),
{
    reveal_strlit(".");
    let v = text::trimmed(value);
    if v.len() == 1 && v[0] == '.' {
        assert(v =~= "."@);
    }
    if v.len() == 0 || v.last() != '.' {
        lemma_owner_means(v, origin);
        names::lemma_trim_idempotent(value);
        assert(text::trimmed_end_of(v, '.') == v);
        assert(config::canonical(v) == text::lowered(v));
    }
}

/// A target within the origin that is stored is the same when it is read again, and with a dot behind
/// it too.
pub proof fn lemma_target_again(n: Seq<char>, origin: Seq<char>)
    requires
        n.len() > 0,
        config::canonical(n) == n,
        names::is_trimmed(n),
        lookup::is_in(n, origin),
        is_apex(n) ==> n == origin,
    ensures
        zonefile::target_of(n, origin) == n,
        zonefile::target_of(n + seq!['.'], origin) == n,
{
    names::lemma_canonical_shape(n);
    names::lemma_trim_trimmed(n);
    lemma_target_means(n, origin);
    let d = n + seq!['.'];
    assert(d[0] == n[0] && d.last() == '.');
    names::lemma_trim_trimmed(d);
    lemma_target_means(d, origin);
    assert(d.drop_last() =~= n);
    assert(text::trimmed_end_of(n, '.') == n);
    assert(text::trimmed_end_of(d, '.') == n);
}

/// The value of a CNAME or NS record is its target, stored in full.
pub proof fn lemma_stored_target(rtype: Seq<char>, value: Seq<char>, origin: Seq<char>)
    requires
        letters::same_letters(text::trimmed(rtype), "CNAME"@) || letters::same_letters(
            text::trimmed(rtype),
            "NS"@,
        ),
        text::trimmed(value).len() > 0,
    ensures
        ({
            let r = zonefile::target_of(value, origin);
            zonefile::stored_value(rtype, value, origin) == if r.len() == 0 {
                Err::<Seq<char>, Seq<char>>("target name is required"@)
            } else {
                Ok(r)
            }
        }),
{
    lemma_types();
    lemma_type(rtype, "CNAME"@);
    lemma_type(rtype, "NS"@);
    names::lemma_trim_idempotent(value);
}

// ---------------------------------------------------------------------------
// Types
// ---------------------------------------------------------------------------

/// A type is recognised without regard to case and to white space around it.
proof fn lemma_type(rtype: Seq<char>, name: Seq<char>)
    requires
        text::uppered(name) == name,
    ensures
        letters::same_letters(text::trimmed(rtype), name) <==> text::uppered(text::trimmed(rtype))
            == name,
{
    letters::lemma_same_upper(text::trimmed(rtype), name);
}

/// The types are different texts in upper case.
pub proof fn lemma_types()
    ensures
        text::uppered("A"@) == "A"@ && "A"@.len() == 1,
        text::uppered("AAAA"@) == "AAAA"@ && "AAAA"@.len() == 4,
        text::uppered("NS"@) == "NS"@ && "NS"@.len() == 2,
        text::uppered("CNAME"@) == "CNAME"@ && "CNAME"@.len() == 5,
        text::uppered("MX"@) == "MX"@ && "MX"@.len() == 2 && "MX"@ != "NS"@,
        text::uppered("TXT"@) == "TXT"@ && "TXT"@.len() == 3,
        text::uppered("SRV"@) == "SRV"@ && "SRV"@.len() == 3 && "SRV"@ != "TXT"@,
        text::uppered("CAA"@) == "CAA"@ && "CAA"@.len() == 3 && "CAA"@ != "TXT"@ && "CAA"@
            != "SRV"@,
{
    reveal_strlit("A");
    reveal_strlit("AAAA");
    reveal_strlit("NS");
    reveal_strlit("CNAME");
    reveal_strlit("MX");
    reveal_strlit("TXT");
    reveal_strlit("SRV");
    reveal_strlit("CAA");
    assert(text::uppered("A"@) =~= "A"@);
    assert(text::uppered("AAAA"@) =~= "AAAA"@);
    assert(text::uppered("NS"@) =~= "NS"@);
    assert(text::uppered("CNAME"@) =~= "CNAME"@);
    assert(text::uppered("MX"@) =~= "MX"@);
    assert(text::uppered("TXT"@) =~= "TXT"@);
    assert(text::uppered("SRV"@) =~= "SRV"@);
    assert(text::uppered("CAA"@) =~= "CAA"@);
    assert("MX"@[0] == 'M' && "NS"@[0] == 'N');
    assert("SRV"@[0] == 'S' && "TXT"@[0] == 'T' && "CAA"@[0] == 'C');
}

/// Whether `rtype` is one of the types that can be stored, in any case and with white space around it.
pub open spec fn is_known(rtype: Seq<char>) -> bool {
    let t = text::trimmed(rtype);
    letters::same_letters(t, "A"@) || letters::same_letters(t, "AAAA"@) || letters::same_letters(
        t,
        "NS"@,
    ) || letters::same_letters(t, "CNAME"@) || letters::same_letters(t, "MX"@)
        || letters::same_letters(t, "TXT"@) || letters::same_letters(t, "SRV"@)
        || letters::same_letters(t, "CAA"@)
}

/// A blank value is refused, whatever the type; a value of any other type than the eight is refused with
/// the type.
pub proof fn lemma_refused_value(rtype: Seq<char>, value: Seq<char>, origin: Seq<char>)
    ensures
        letters::is_blank(value) ==> zonefile::stored_value(rtype, value, origin) == Err::<
            Seq<char>,
            Seq<char>,
        >("value is required"@),
        !letters::is_blank(value) && !is_known(rtype) ==> zonefile::stored_value(
            rtype,
            value,
            origin,
        ) == Err::<Seq<char>, Seq<char>>(
            "unsupported record type: "@ + text::uppered(text::trimmed(rtype)),
        ),
{
    letters::lemma_trimmed_means(value);
    let v = text::trimmed(value);
    let (a, b) = choose|a: Seq<char>, b: Seq<char>|
        letters::is_blank(a) && letters::is_blank(b) && value == #[trigger] (a + v + b);
    if letters::is_blank(value) && v.len() > 0 {
        assert(value[a.len() as int] == v[0]);
    }
    if v.len() == 0 {
        assert forall|i: int| 0 <= i < value.len() implies text::is_space(#[trigger] value[i]) by {
            if i < a.len() {
                assert(value[i] == a[i]);
            } else {
                assert(value[i] == b[i - a.len()]);
            }
        }
    }
    lemma_types();
    lemma_type(rtype, "A"@);
    lemma_type(rtype, "AAAA"@);
    lemma_type(rtype, "NS"@);
    lemma_type(rtype, "CNAME"@);
    lemma_type(rtype, "MX"@);
    lemma_type(rtype, "TXT"@);
    lemma_type(rtype, "SRV"@);
    lemma_type(rtype, "CAA"@);
}

// ---------------------------------------------------------------------------
// Values of several words
// ---------------------------------------------------------------------------

/// Whether `s` is a word without quotes.
pub open spec fn is_bare(s: Seq<char>) -> bool {
    served::is_word(s) && names::free_of(s, '"')
}

/// The texts of a list with a space between each two of them.
pub open spec fn spaced(parts: Seq<Seq<char>>) -> Seq<char>
    decreases parts.len(),
{
    if parts.len() == 0 {
        Seq::<char>::empty()
    } else if parts.len() == 1 {
        parts[0]
    } else {
        parts[0] + seq![' '] + spaced(parts.drop_first())
    }
}

/// Bare words with spaces between them hold no quotes, and start and end without white space.
proof fn lemma_spaced_shape(parts: Seq<Seq<char>>)
    requires
        parts.len() > 0,
        forall|i: int| 0 <= i < parts.len() ==> is_bare(#[trigger] parts[i]),
    ensures
        names::free_of(spaced(parts), '"'),
        names::is_trimmed(spaced(parts)),
        spaced(parts).len() > 0,
    decreases parts.len(),
{
    let first = parts[0];
    assert(is_bare(first));
    assert(!text::is_space(first[0]) && !text::is_space(first[first.len() - 1]));
    if parts.len() > 1 {
        let rest = parts.drop_first();
        assert forall|i: int| 0 <= i < rest.len() implies is_bare(#[trigger] rest[i]) by {
            assert(rest[i] == parts[i + 1]);
        }
        lemma_spaced_shape(rest);
        lemma_shape_behind(first, spaced(rest));
    }
}

/// A bare word, a space and a text.
proof fn lemma_shape_behind(first: Seq<char>, tail: Seq<char>)
    requires
        is_bare(first),
        tail.len() > 0,
        names::free_of(tail, '"'),
        names::is_trimmed(tail),
    ensures
        ({
            let s = first + seq![' '] + tail;
            names::free_of(s, '"') && names::is_trimmed(s) && s.len() > 0
        }),
{
    let s = first + seq![' '] + tail;
    assert forall|i: int| 0 <= i < s.len() implies #[trigger] s[i] != '"' by {
        if i < first.len() {
            assert(s[i] == first[i]);
        } else if i > first.len() {
            assert(s[i] == tail[i - first.len() - 1]);
        }
    }
    assert(s[0] == first[0]);
    assert(!text::is_space(first[0]));
    assert(s.last() == tail.last());
}

/// Bare words with spaces between them have those words.
proof fn lemma_spaced_words(parts: Seq<Seq<char>>)
    requires
        parts.len() > 0,
        forall|i: int| 0 <= i < parts.len() ==> is_bare(#[trigger] parts[i]),
    ensures
        text::words_of(spaced(parts)) == parts,
    decreases parts.len(),
{
    let first = parts[0];
    assert(is_bare(first));
    if parts.len() == 1 {
        served::lemma_single_word(first);
        assert(parts =~= seq![first]);
    } else {
        reveal_strlit(" ");
        assert(" "@ =~= seq![' ']);
        let rest = parts.drop_first();
        assert forall|i: int| 0 <= i < rest.len() implies is_bare(#[trigger] rest[i]) by {
            assert(rest[i] == parts[i + 1]);
        }
        lemma_spaced_words(rest);
        served::lemma_words_behind_word(first, spaced(rest));
        assert(seq![first] + rest =~= parts);
    }
}

/// Bare words with spaces between them are read as those words.
pub proof fn lemma_bare_words(parts: Seq<Seq<char>>)
    requires
        parts.len() > 0,
        forall|i: int| 0 <= i < parts.len() ==> is_bare(#[trigger] parts[i]),
    ensures
        lexer::tokens_or_words(spaced(parts)) == parts,
        text::words_of(spaced(parts)) == parts,
        names::free_of(spaced(parts), '"'),
        names::is_trimmed(spaced(parts)),
        spaced(parts).len() > 0,
{
    lemma_spaced_shape(parts);
    lemma_spaced_words(parts);
    lexical::lemma_tokens_without_quotes(spaced(parts));
}

/// Texts that are joined by spaces have a space between each two of them.
pub proof fn lemma_spaced_joined(parts: Seq<Seq<char>>)
    requires
        parts.len() > 0,
    ensures
        text::joined(parts, " "@) == spaced(parts),
    decreases parts.len(),
{
    reveal_strlit(" ");
    assert(" "@ =~= seq![' ']);
    if parts.len() > 1 {
        let init = parts.drop_last();
        let last = parts.last();
        lemma_spaced_joined(init);
        lemma_spaced_push(init, last);
        assert(init.push(last) =~= parts);
    }
}

/// A list with one text more.
pub proof fn lemma_spaced_push(parts: Seq<Seq<char>>, more: Seq<char>)
    requires
        parts.len() > 0,
    ensures
        spaced(parts.push(more)) == spaced(parts) + " "@ + more,
    decreases parts.len(),
{
    reveal_strlit(" ");
    assert(" "@ =~= seq![' ']);
    let all = parts.push(more);
    if parts.len() == 1 {
        assert(all.drop_first() =~= seq![more]);
        assert(spaced(seq![more]) == more);
    } else {
        let rest = parts.drop_first();
        lemma_spaced_push(rest, more);
        assert(all.drop_first() =~= rest.push(more));
        assert(spaced(all) =~= spaced(parts) + " "@ + more);
    }
}

/// An MX value is stored as its preference and its host in full, where the host is all that follows the
/// preference; it is refused where the preference is no number up to 65535, or where nothing follows.
pub proof fn lemma_stored_mx_means(rtype: Seq<char>, parts: Seq<Seq<char>>, origin: Seq<char>)
    requires
        letters::same_letters(text::trimmed(rtype), "MX"@),
        parts.len() > 0,
        forall|i: int| 0 <= i < parts.len() ==> is_bare(#[trigger] parts[i]),
    ensures
        zonefile::stored_value(rtype, spaced(parts), origin) == if parts.len() == 1 {
            Err::<Seq<char>, Seq<char>>("MX needs: <preference> <host>"@)
        } else {
            let host = zonefile::target_of(spaced(parts.skip(1)), origin);
            match digits::unsigned(parts[0], 65535) {
                None => Err("MX preference must be 0-65535"@),
                Some(n) => if host.len() == 0 {
                    Err("MX needs a mail host after the preference"@)
                } else {
                    Ok(spaced(seq![digits::decimal(n), host]))
                },
            }
        },
{
    lemma_types();
    lemma_type(rtype, "MX"@);
    lemma_bare_words(parts);
    names::lemma_trim_trimmed(spaced(parts));
    if parts.len() > 1 {
        lemma_spaced_joined(parts.skip(1));
        let host = zonefile::target_of(spaced(parts.skip(1)), origin);
        match digits::unsigned(parts[0], 65535) {
            Some(n) => {
                lemma_spaced_two(digits::decimal(n), host);
            },
            None => {},
        }
    }
}

/// Two texts with a space between them.
pub proof fn lemma_spaced_two(a: Seq<char>, b: Seq<char>)
    ensures
        spaced(seq![a, b]) == a + " "@ + b,
{
    reveal_strlit(" ");
    let parts = seq![a, b];
    assert(parts.drop_first() =~= seq![b]);
    assert(spaced(seq![b]) == b);
    assert(spaced(parts) =~= a + " "@ + b);
}

/// Four texts with spaces between them.
pub proof fn lemma_spaced_four(a: Seq<char>, b: Seq<char>, c: Seq<char>, d: Seq<char>)
    ensures
        spaced(seq![a, b, c, d]) == a + " "@ + b + " "@ + c + " "@ + d,
        spaced(seq![b, c, d]) == b + " "@ + c + " "@ + d,
{
    reveal_strlit(" ");
    lemma_spaced_two(c, d);
    assert(seq![b, c, d].drop_first() =~= seq![c, d]);
    assert(spaced(seq![b, c, d]) =~= b + " "@ + c + " "@ + d);
    assert(seq![a, b, c, d].drop_first() =~= seq![b, c, d]);
    assert(spaced(seq![a, b, c, d]) =~= a + " "@ + b + " "@ + c + " "@ + d);
}

/// An SRV value of four words is stored as its three numbers and its target in full, and refused where
/// one of the numbers is none up to 65535.
pub proof fn lemma_stored_srv_means(
    rtype: Seq<char>,
    priority: Seq<char>,
    weight: Seq<char>,
    port: Seq<char>,
    target: Seq<char>,
    origin: Seq<char>,
)
    requires
        letters::same_letters(text::trimmed(rtype), "SRV"@),
        is_bare(priority),
        is_bare(weight),
        is_bare(port),
        is_bare(target),
    ensures
        ({
            let r = zonefile::stored_value(
                rtype,
                spaced(seq![priority, weight, port, target]),
                origin,
            );
            let t = zonefile::target_of(target, origin);
            match (
                digits::unsigned(priority, 65535),
                digits::unsigned(weight, 65535),
                digits::unsigned(port, 65535),
            ) {
                (Some(p), Some(w), Some(q)) => if t.len() == 0 {
                    r == Err::<Seq<char>, Seq<char>>("SRV target is required"@)
                } else {
                    r == Ok::<Seq<char>, Seq<char>>(
                        spaced(
                            seq![digits::decimal(p), digits::decimal(w), digits::decimal(q), t],
                        ),
                    )
                },
                (None, _, _) => r == Err::<Seq<char>, Seq<char>>("SRV priority must be 0-65535"@),
                (_, None, _) => r == Err::<Seq<char>, Seq<char>>("SRV weight must be 0-65535"@),
                (_, _, None) => r == Err::<Seq<char>, Seq<char>>("SRV port must be 0-65535"@),
            }
        }),
{
    lemma_types();
    lemma_type(rtype, "SRV"@);
    let parts = seq![priority, weight, port, target];
    let v = spaced(parts);
    lemma_bare_words(parts);
    names::lemma_trim_trimmed(v);
    assert(parts[0] == priority && parts[1] == weight && parts[2] == port && parts[3] == target);
    let t = zonefile::target_of(target, origin);
    match (
        digits::unsigned(priority, 65535),
        digits::unsigned(weight, 65535),
        digits::unsigned(port, 65535),
    ) {
        (Some(p), Some(w), Some(q)) => {
            lemma_spaced_four(digits::decimal(p), digits::decimal(w), digits::decimal(q), t);
        },
        _ => {},
    }
}

/// An SRV value of any other number of words than four is refused, and so is a CAA value of fewer than
/// three.
pub proof fn lemma_too_few_words(rtype: Seq<char>, parts: Seq<Seq<char>>, origin: Seq<char>)
    requires
        parts.len() > 0,
        forall|i: int| 0 <= i < parts.len() ==> is_bare(#[trigger] parts[i]),
    ensures
        letters::same_letters(text::trimmed(rtype), "SRV"@) && parts.len() != 4
            ==> zonefile::stored_value(rtype, spaced(parts), origin) == Err::<
            Seq<char>,
            Seq<char>,
        >("SRV needs: <priority> <weight> <port> <target>"@),
        letters::same_letters(text::trimmed(rtype), "CAA"@) && parts.len() < 3
            ==> zonefile::stored_value(rtype, spaced(parts), origin) == Err::<
            Seq<char>,
            Seq<char>,
        >("CAA needs: <flags> <tag> <value>"@),
{
    lemma_types();
    lemma_type(rtype, "SRV"@);
    lemma_type(rtype, "CAA"@);
    lemma_bare_words(parts);
    names::lemma_trim_trimmed(spaced(parts));
}

/// Whether `s` holds nothing but letters, digits, hyphens and underscores.
pub open spec fn is_tag_text(s: Seq<char>) -> bool {
    s.len() > 0 && forall|i: int|
        0 <= i < s.len() ==> {
            let c = #[trigger] s[i];
            ('a' <= c && c <= 'z') || ('A' <= c && c <= 'Z') || ('0' <= c && c <= '9') || c == '-'
                || c == '_'
        }
}

/// A tag is made of letters, digits, hyphens and underscores, whatever its case.
proof fn lemma_tag_text(tag: Seq<char>)
    ensures
        zonefile::is_tag(text::lowered(tag)) <==> is_tag_text(tag),
{
    let low = text::lowered(tag);
    if is_tag_text(tag) {
        assert forall|i: int| 0 <= i < low.len() implies #[trigger] zonefile::is_tag_char(
            low[i],
        ) by {
            assert(low[i] == text::lower_char(tag[i]));
        }
    }
    if zonefile::is_tag(low) {
        assert forall|i: int| 0 <= i < tag.len() implies ({
            let c = #[trigger] tag[i];
            ('a' <= c && c <= 'z') || ('A' <= c && c <= 'Z') || ('0' <= c && c <= '9') || c == '-'
                || c == '_'
        }) by {
            assert(low[i] == text::lower_char(tag[i]));
            assert(zonefile::is_tag_char(low[i]));
        }
    }
}

/// Words without quotes have no quotes to lose.
pub proof fn lemma_nothing_to_unquote(parts: Seq<Seq<char>>)
    requires
        parts.len() > 0,
        forall|i: int| 0 <= i < parts.len() ==> is_bare(#[trigger] parts[i]),
    ensures
        text::unquoted(text::joined(parts, " "@)) == spaced(parts),
{
    lemma_spaced_joined(parts);
    lemma_spaced_shape(parts);
    let v = spaced(parts);
    names::lemma_trim_trimmed(v);
    assert(v[0] != '"');
}

/// A CAA value is stored as its flags, its tag in lower case and its text, which is all that follows the
/// tag; it is refused where the flags are no number up to 255 or the tag holds another character.
pub proof fn lemma_stored_caa_means(rtype: Seq<char>, parts: Seq<Seq<char>>, origin: Seq<char>)
    requires
        letters::same_letters(text::trimmed(rtype), "CAA"@),
        parts.len() > 2,
        forall|i: int| 0 <= i < parts.len() ==> is_bare(#[trigger] parts[i]),
    ensures
        zonefile::stored_value(rtype, spaced(parts), origin) == match digits::unsigned(
            parts[0],
            255,
        ) {
            None => Err::<Seq<char>, Seq<char>>("CAA flags must be 0-255"@),
            Some(n) => if !is_tag_text(parts[1]) {
                Err("CAA tag must contain only letters, numbers, '-' or '_'"@)
            } else {
                Ok(
                    spaced(
                        seq![digits::decimal(n), text::lowered(parts[1]), spaced(parts.skip(2))],
                    ),
                )
            },
        },
{
    lemma_types();
    lemma_type(rtype, "CAA"@);
    let v = spaced(parts);
    lemma_bare_words(parts);
    names::lemma_trim_trimmed(v);
    let tag = parts[1];
    assert(is_bare(parts[1]));
    assert(!text::is_space(tag[0]) && !text::is_space(tag[tag.len() - 1]));
    names::lemma_trim_trimmed(tag);
    lemma_tag_text(tag);
    let rest = parts.skip(2);
    assert forall|i: int| 0 <= i < rest.len() implies is_bare(#[trigger] rest[i]) by {
        assert(rest[i] == parts[i + 2]);
    }
    lemma_nothing_to_unquote(rest);
    lemma_spaced_shape(rest);
    match digits::unsigned(parts[0], 255) {
        Some(n) => {
            lemma_spaced_four(
                digits::decimal(n),
                digits::decimal(n),
                text::lowered(tag),
                spaced(rest),
            );
        },
        None => {},
    }
}

/// Whether `n` is a name within the origin, as it is stored.
pub open spec fn is_stored_name(n: Seq<char>, origin: Seq<char>) -> bool {
    &&& is_bare(n)
    &&& config::canonical(n) == n
    &&& lookup::is_in(n, origin)
    &&& is_apex(n) ==> n == origin
}

/// Values that hold a name within the origin are stored again as they are stored.
pub proof fn lemma_stored_again(a: nat, b: nat, c: nat, n: Seq<char>, origin: Seq<char>)
    requires
        a <= 65535,
        b <= 65535,
        c <= 65535,
        is_stored_name(n, origin),
    ensures
        zonefile::stored_value("CNAME"@, n, origin) == Ok::<Seq<char>, Seq<char>>(n),
        zonefile::stored_value("NS"@, n, origin) == Ok::<Seq<char>, Seq<char>>(n),
        ({
            let v = spaced(seq![digits::decimal(a), n]);
            zonefile::stored_value("MX"@, v, origin) == Ok::<Seq<char>, Seq<char>>(v)
        }),
        ({
            let v = spaced(seq![digits::decimal(a), digits::decimal(b), digits::decimal(c), n]);
            zonefile::stored_value("SRV"@, v, origin) == Ok::<Seq<char>, Seq<char>>(v)
        }),
{
    assert(!text::is_space(n[0]) && !text::is_space(n[n.len() - 1]));
    names::lemma_trim_trimmed(n);
    lemma_target_again(n, origin);
    served::lemma_type_names();
    lemma_types();
    lemma_type("CNAME"@, "CNAME"@);
    lemma_type("NS"@, "NS"@);
    lemma_type("MX"@, "MX"@);
    lemma_type("SRV"@, "SRV"@);
    lemma_stored_target("CNAME"@, n, origin);
    lemma_stored_target("NS"@, n, origin);
    lemma_decimal_is_bare(a);
    lemma_decimal_is_bare(b);
    lemma_decimal_is_bare(c);
    addr_laws::lemma_unsigned_roundtrip(a, 65535);
    addr_laws::lemma_unsigned_roundtrip(b, 65535);
    addr_laws::lemma_unsigned_roundtrip(c, 65535);
    let mx = seq![digits::decimal(a), n];
    lemma_stored_mx_means("MX"@, mx, origin);
    assert(mx.skip(1) =~= seq![n]);
    assert(spaced(seq![n]) == n);
    lemma_stored_srv_means(
        "SRV"@,
        digits::decimal(a),
        digits::decimal(b),
        digits::decimal(c),
        n,
        origin,
    );
}

/// A decimal text is a word without quotes.
pub proof fn lemma_decimal_is_bare(n: nat)
    ensures
        is_bare(digits::decimal(n)),
{
    served::lemma_decimal_is_word(n);
    addr_laws::lemma_decimal_roundtrip(n);
    let s = digits::decimal(n);
    assert forall|i: int| 0 <= i < s.len() implies #[trigger] s[i] != '"' by {
        assert(digits::is_digit(s[i]));
    }
}

// ---------------------------------------------------------------------------
// Texts and addresses
// ---------------------------------------------------------------------------

/// A TXT value is stored without the white space around it and without one pair of quotes around it;
/// anything inside the quotes stays.
pub proof fn lemma_stored_txt(rtype: Seq<char>, value: Seq<char>, origin: Seq<char>)
    requires
        letters::same_letters(text::trimmed(rtype), "TXT"@),
        text::trimmed(value).len() > 0,
    ensures
        ({
            let v = text::trimmed(value);
            exists|t: Seq<char>|
                {
                    &&& #[trigger] zonefile::stored_value(rtype, value, origin) == Ok::<
                        Seq<char>,
                        Seq<char>,
                    >(t)
                    &&& if v.len() > 1 && v[0] == '"' && v[v.len() - 1] == '"' {
                        v == seq!['"'] + t + seq!['"']
                    } else {
                        v == t
                    }
                }
        }),
{
    lemma_types();
    lemma_type(rtype, "TXT"@);
    names::lemma_trim_idempotent(value);
    let v = text::trimmed(value);
    let t = text::unquoted(v);
    if v.len() > 1 && v[0] == '"' && v[v.len() - 1] == '"' {
        assert(v =~= seq!['"'] + t + seq!['"']);
    }
    assert(zonefile::stored_value(rtype, value, origin) == Ok::<Seq<char>, Seq<char>>(t));
}

/// Four octets in decimal, with a dot between each two of them.
pub open spec fn dotted(o: Seq<u8>) -> Seq<char> {
    digits::decimal(o[0] as nat) + seq!['.'] + digits::decimal(o[1] as nat) + seq!['.']
        + digits::decimal(o[2] as nat) + seq!['.'] + digits::decimal(o[3] as nat)
}

/// The text of an address is its four octets in decimal.
proof fn lemma_dotted(o: Seq<u8>)
    requires
        o.len() == 4,
    ensures
        addr::ipv4_text(o) == dotted(o),
{
    let parts = o.map_values(|x: u8| digits::decimal(x as nat));
    assert(parts.drop_last().drop_last().drop_last() =~= seq![parts[0]]);
    reveal_with_fuel(text::joined, 5);
    assert(text::joined(parts, seq!['.']) =~= dotted(o));
}

/// A text is the address of four octets if and only if it is those octets in decimal with dots between
/// them.
pub proof fn lemma_ipv4_means(s: Seq<char>, o: Seq<u8>)
    requires
        o.len() == 4,
    ensures
        addr::ipv4_of(s) == Some(o) <==> s == dotted(o),
{
    lemma_dotted(o);
    addr_laws::lemma_ipv4_roundtrip(o);
    if addr::ipv4_of(s) == Some(o) {
        let parts = text::fields(s, '.');
        let texts = o.map_values(|x: u8| digits::decimal(x as nat));
        assert forall|i: int| 0 <= i < 4 implies parts[i] == texts[i] by {
            assert(addr::is_octet(parts[i]));
            letters::lemma_decimal_of_number(parts[i]);
            assert(o[i] == digits::number(parts[i]) as u8);
        }
        assert(parts =~= texts);
        names::lemma_joined_fields(s, '.');
    }
}

/// The value of an A record is stored as written if it is four octets in decimal with dots between them,
/// and refused otherwise.
pub proof fn lemma_stored_a(rtype: Seq<char>, value: Seq<char>, origin: Seq<char>)
    requires
        letters::same_letters(text::trimmed(rtype), "A"@),
        text::trimmed(value).len() > 0,
    ensures
        match zonefile::stored_value(rtype, value, origin) {
            Ok(s) => s == text::trimmed(value) && exists|o: Seq<u8>|
                o.len() == 4 && s == #[trigger] dotted(o),
            Err(e) => e == "invalid IPv4 address for A record"@ && forall|o: Seq<u8>|
                o.len() == 4 ==> text::trimmed(value) != #[trigger] dotted(o),
        },
{
    lemma_types();
    lemma_type(rtype, "A"@);
    let v = text::trimmed(value);
    match addr::ipv4_of(v) {
        Some(o) => {
            lemma_ipv4_means(v, o);
            lemma_dotted(o);
        },
        None => {
            assert forall|o: Seq<u8>| o.len() == 4 implies v != #[trigger] dotted(o) by {
                lemma_ipv4_means(v, o);
            }
        },
    }
}

/// The value of an AAAA record is stored as the text of its address, which is read as that address
/// again, and refused where it is no address.
pub proof fn lemma_stored_aaaa(rtype: Seq<char>, value: Seq<char>, origin: Seq<char>)
    requires
        letters::same_letters(text::trimmed(rtype), "AAAA"@),
        text::trimmed(value).len() > 0,
    ensures
        match zonefile::stored_value(rtype, value, origin) {
            Ok(s) => addr::ipv6_of(s) == addr::ipv6_of(text::trimmed(value)) && addr::ipv6_of(
                s,
            ) is Some,
            Err(e) => e == "invalid IPv6 address for AAAA record"@ && addr::ipv6_of(
                text::trimmed(value),
            ) is None,
        },
        zonefile::stored_value(rtype, value, origin) matches Ok(s) ==> zonefile::stored_value(
            rtype,
            s,
            origin,
        ) == Ok::<Seq<char>, Seq<char>>(s),
{
    lemma_types();
    lemma_type(rtype, "AAAA"@);
    let v = text::trimmed(value);
    match addr::ipv6_of(v) {
        Some(ip) => {
            addr_laws::lemma_ipv6_len(v);
            addr_laws::lemma_ipv6_roundtrip(ip);
            addr_laws::lemma_ipv6_text_shape(ip);
            names::lemma_trim_trimmed(addr::ipv6_text(ip));
        },
        None => {},
    }
}

} // verus!

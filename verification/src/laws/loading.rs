//! What the server loads of the stored zones and records.
use crate::addr;
use crate::config;
use crate::digits;
use crate::dns;
use crate::dns::resolver;
use crate::dns::resolver::RecViewModel;
use crate::dns::RDataModel;
use crate::laws::addr as addr_laws;
use crate::laws::letters;
use crate::laws::names;
use crate::laws::served;
use crate::laws::store as store_laws;
use crate::laws::stored;
use crate::order;
use crate::store::{RecordModel, StoreModel, ZoneModel};
use crate::text;
use vstd::prelude::*;

verus! {

// ---------------------------------------------------------------------------
// Types
// ---------------------------------------------------------------------------

/// Whether `s`, apart from case and white space around it, is the name of the type `code`.
pub open spec fn is_coded(s: Seq<char>, code: u16) -> bool {
    let t = text::trimmed(s);
    ||| code == 1 && letters::same_letters(t, seq!['A'])
    ||| code == 2 && letters::same_letters(t, seq!['N', 'S'])
    ||| code == 5 && letters::same_letters(t, seq!['C', 'N', 'A', 'M', 'E'])
    ||| code == 6 && letters::same_letters(t, seq!['S', 'O', 'A'])
    ||| code == 15 && letters::same_letters(t, seq!['M', 'X'])
    ||| code == 16 && letters::same_letters(t, seq!['T', 'X', 'T'])
    ||| code == 28 && letters::same_letters(t, seq!['A', 'A', 'A', 'A'])
    ||| code == 33 && letters::same_letters(t, seq!['S', 'R', 'V'])
    ||| code == 255 && (letters::same_letters(t, seq!['A', 'N', 'Y']) || t == seq!['*'])
    ||| code == 257 && letters::same_letters(t, seq!['C', 'A', 'A'])
}

/// One name of a type.
proof fn lemma_name(s: Seq<char>, name: Seq<char>)
    requires
        text::uppered(name) == name,
    ensures
        text::uppered(s) == name <==> letters::same_letters(s, name),
{
    letters::lemma_same_upper(s, name);
}

/// The names of the types, character by character.
proof fn lemma_type_texts()
    ensures
        "A"@ == seq!['A'] && text::uppered("A"@) == "A"@,
        "NS"@ == seq!['N', 'S'] && text::uppered("NS"@) == "NS"@,
        "CNAME"@ == seq!['C', 'N', 'A', 'M', 'E'] && text::uppered("CNAME"@) == "CNAME"@,
        "SOA"@ == seq!['S', 'O', 'A'] && text::uppered("SOA"@) == "SOA"@,
        "MX"@ == seq!['M', 'X'] && text::uppered("MX"@) == "MX"@,
        "TXT"@ == seq!['T', 'X', 'T'] && text::uppered("TXT"@) == "TXT"@,
        "AAAA"@ == seq!['A', 'A', 'A', 'A'] && text::uppered("AAAA"@) == "AAAA"@,
        "SRV"@ == seq!['S', 'R', 'V'] && text::uppered("SRV"@) == "SRV"@,
        "ANY"@ == seq!['A', 'N', 'Y'] && text::uppered("ANY"@) == "ANY"@,
        "CAA"@ == seq!['C', 'A', 'A'] && text::uppered("CAA"@) == "CAA"@,
        "*"@ == seq!['*'] && text::uppered("*"@) == "*"@,
{
    reveal_strlit("A");
    reveal_strlit("NS");
    reveal_strlit("CNAME");
    reveal_strlit("SOA");
    reveal_strlit("MX");
    reveal_strlit("TXT");
    reveal_strlit("AAAA");
    reveal_strlit("SRV");
    reveal_strlit("ANY");
    reveal_strlit("CAA");
    reveal_strlit("*");
    assert("A"@ =~= seq!['A'] && text::uppered("A"@) =~= "A"@);
    assert("NS"@ =~= seq!['N', 'S'] && text::uppered("NS"@) =~= "NS"@);
    assert("CNAME"@ =~= seq!['C', 'N', 'A', 'M', 'E'] && text::uppered("CNAME"@) =~= "CNAME"@);
    assert("SOA"@ =~= seq!['S', 'O', 'A'] && text::uppered("SOA"@) =~= "SOA"@);
    assert("MX"@ =~= seq!['M', 'X'] && text::uppered("MX"@) =~= "MX"@);
    assert("TXT"@ =~= seq!['T', 'X', 'T'] && text::uppered("TXT"@) =~= "TXT"@);
    assert("AAAA"@ =~= seq!['A', 'A', 'A', 'A'] && text::uppered("AAAA"@) =~= "AAAA"@);
    assert("SRV"@ =~= seq!['S', 'R', 'V'] && text::uppered("SRV"@) =~= "SRV"@);
    assert("ANY"@ =~= seq!['A', 'N', 'Y'] && text::uppered("ANY"@) =~= "ANY"@);
    assert("CAA"@ =~= seq!['C', 'A', 'A'] && text::uppered("CAA"@) =~= "CAA"@);
    assert("*"@ =~= seq!['*'] && text::uppered("*"@) =~= "*"@);
}

/// A type has the code of its name and no other.
pub proof fn lemma_type_code_means(s: Seq<char>, code: u16)
    ensures
        dns::type_of(s) == Some(code) <==> is_coded(s, code),
{
    lemma_type_texts();
    let t = text::trimmed(s);
    lemma_name(t, "A"@);
    lemma_name(t, "NS"@);
    lemma_name(t, "CNAME"@);
    lemma_name(t, "SOA"@);
    lemma_name(t, "MX"@);
    lemma_name(t, "TXT"@);
    lemma_name(t, "AAAA"@);
    lemma_name(t, "SRV"@);
    lemma_name(t, "ANY"@);
    lemma_name(t, "CAA"@);
    lemma_name(t, "*"@);
    if letters::same_letters(t, seq!['*']) {
        assert(letters::same_letter(t[0], '*'));
        assert(t =~= seq!['*']);
    }
    if t == seq!['*'] {
        assert(letters::same_letters(t, seq!['*']));
    }
    let u = text::uppered(t);
    if u.len() == 3 {
        assert("SOA"@[0] == 'S' && "SOA"@[1] == 'O');
        assert("TXT"@[0] == 'T');
        assert("SRV"@[0] == 'S' && "SRV"@[1] == 'R');
        assert("ANY"@[0] == 'A');
        assert("CAA"@[0] == 'C');
    }
    if u.len() == 2 {
        assert("NS"@[0] == 'N' && "MX"@[0] == 'M');
    }
    if u.len() == 1 {
        assert("A"@[0] == 'A' && "*"@[0] == '*');
    }
}

// ---------------------------------------------------------------------------
// Values
// ---------------------------------------------------------------------------

/// An address value is loaded as its octets, a name value as the canonical name, and a text value
/// without the quotes around it.
pub proof fn lemma_simple_data(value: Seq<char>, o: Seq<u8>)
    requires
        o.len() == 4,
    ensures
        resolver::data_of(1, value) == Some(RDataModel::A(o)) <==> text::trimmed(value)
            == stored::dotted(o),
        resolver::data_of(2, value) == Some(
            RDataModel::Name(2, config::canonical(text::trimmed(value))),
        ),
        resolver::data_of(5, value) == Some(
            RDataModel::Name(5, config::canonical(text::trimmed(value))),
        ),
        resolver::data_of(16, value) matches Some(RDataModel::Txt(t)) && {
            let v = text::trimmed(value);
            if v.len() > 1 && v[0] == '"' && v[v.len() - 1] == '"' {
                v == seq!['"'] + t + seq!['"']
            } else {
                v == t
            }
        },
        resolver::data_of(28, value) == match addr::ipv6_of(text::trimmed(value)) {
            Some(ip) => Some(RDataModel::Aaaa(ip)),
            None => None,
        },
{
    stored::lemma_ipv4_means(text::trimmed(value), o);
    let v = text::trimmed(value);
    if v.len() > 1 && v[0] == '"' && v[v.len() - 1] == '"' {
        assert(v =~= seq!['"'] + text::unquoted(value) + seq!['"']);
    }
}

/// Types that hold no stored data are not loaded.
pub proof fn lemma_no_data(code: u16, value: Seq<char>)
    requires
        code != 1 && code != 2 && code != 5 && code != 15 && code != 16 && code != 28 && code != 33
            && code != 257,
    ensures
        resolver::data_of(code, value) is None,
{
}

/// An MX value is loaded as its preference and its host, which is all that follows it.
pub proof fn lemma_mx_data(parts: Seq<Seq<char>>)
    requires
        parts.len() > 1,
        forall|i: int| 0 <= i < parts.len() ==> stored::is_bare(#[trigger] parts[i]),
    ensures
        ({
            let host = config::canonical(stored::spaced(parts.skip(1)));
            resolver::data_of(15, stored::spaced(parts)) == match digits::unsigned(
                parts[0],
                65535,
            ) {
                Some(n) => if host.len() == 0 {
                    None
                } else {
                    Some(RDataModel::Mx { pref: n as u16, host })
                },
                None => None,
            }
        }),
{
    stored::lemma_bare_words(parts);
    names::lemma_trim_trimmed(stored::spaced(parts));
    stored::lemma_spaced_joined(parts.skip(1));
}

/// An SRV value is loaded as its three numbers and its target, which is all that follows them.
pub proof fn lemma_srv_data(parts: Seq<Seq<char>>)
    requires
        parts.len() > 3,
        forall|i: int| 0 <= i < parts.len() ==> stored::is_bare(#[trigger] parts[i]),
    ensures
        ({
            let target = config::canonical(stored::spaced(parts.skip(3)));
            resolver::data_of(33, stored::spaced(parts)) == match (
                digits::unsigned(parts[0], 65535),
                digits::unsigned(parts[1], 65535),
                digits::unsigned(parts[2], 65535),
            ) {
                (Some(p), Some(w), Some(q)) => if target.len() == 0 {
                    None
                } else {
                    Some(
                        RDataModel::Srv {
                            priority: p as u16,
                            weight: w as u16,
                            port: q as u16,
                            target,
                        },
                    )
                },
                _ => None,
            }
        }),
{
    stored::lemma_bare_words(parts);
    names::lemma_trim_trimmed(stored::spaced(parts));
    stored::lemma_spaced_joined(parts.skip(3));
}

/// A CAA value is loaded as its flags, its tag in lower case and its text, which is all that follows
/// them.
pub proof fn lemma_caa_data(parts: Seq<Seq<char>>)
    requires
        parts.len() > 2,
        forall|i: int| 0 <= i < parts.len() ==> stored::is_bare(#[trigger] parts[i]),
    ensures
        resolver::data_of(257, stored::spaced(parts)) == match digits::unsigned(parts[0], 255) {
            Some(n) => Some(
                RDataModel::Caa {
                    flags: n as u8,
                    tag: text::lowered(parts[1]),
                    value: stored::spaced(parts.skip(2)),
                },
            ),
            None => None,
        },
{
    stored::lemma_bare_words(parts);
    names::lemma_trim_trimmed(stored::spaced(parts));
    let rest = parts.skip(2);
    assert forall|i: int| 0 <= i < rest.len() implies stored::is_bare(#[trigger] rest[i]) by {
        assert(rest[i] == parts[i + 2]);
    }
    stored::lemma_nothing_to_unquote(rest);
    stored::lemma_bare_words(rest);
    assert(stored::is_bare(parts[1]));
}

/// A value with fewer words than its type needs is not loaded.
pub proof fn lemma_too_short_data(parts: Seq<Seq<char>>)
    requires
        forall|i: int| 0 <= i < parts.len() ==> stored::is_bare(#[trigger] parts[i]),
    ensures
        parts.len() < 2 ==> resolver::data_of(15, stored::spaced(parts)) is None,
        parts.len() < 4 ==> resolver::data_of(33, stored::spaced(parts)) is None,
        parts.len() < 3 ==> resolver::data_of(257, stored::spaced(parts)) is None,
{
    let none = Seq::<Seq<char>>::empty();
    assert(text::joined(none, " "@) =~= Seq::<char>::empty());
    assert(config::canonical(Seq::<char>::empty()).len() == 0);
    assert(text::unquoted(Seq::<char>::empty()).len() == 0);
    if parts.len() > 0 {
        stored::lemma_bare_words(parts);
        names::lemma_trim_trimmed(stored::spaced(parts));
        if parts.len() == 1 {
            assert(parts.skip(1) =~= none);
        }
        if parts.len() == 2 {
            assert(parts.skip(2) =~= none);
        }
        if parts.len() == 3 {
            assert(parts.skip(3) =~= none);
        }
    } else {
        let s = stored::spaced(parts);
        assert(s =~= Seq::<char>::empty());
        assert(text::words_of(text::trimmed(s)).len() == 0);
    }
}

// ---------------------------------------------------------------------------
// Records and zones
// ---------------------------------------------------------------------------

/// Whether `v` is what the server holds of the record `r`: the canonical name, the code of the type, the
/// data of the value, and the TTL, brought into the range of 32 bits.
pub open spec fn is_view_of(v: RecViewModel, r: RecordModel) -> bool {
    &&& v.name == config::canonical(r.name)
    &&& is_coded(r.rtype, v.rtype)
    &&& resolver::data_of(v.rtype, r.value) == Some(v.data)
    &&& v.ttl == if r.ttl < 0 {
        0
    } else if r.ttl > 0xffff_ffff {
        0xffff_ffff
    } else {
        r.ttl as int
    }
}

/// A record is loaded as what it writes, and left out if and only if its type is unknown or its value
/// makes no data of the type.
pub proof fn lemma_loaded_means(r: RecordModel)
    ensures
        match resolver::parsed(r) {
            Some(v) => is_view_of(v, r),
            None => forall|code: u16| #[trigger]
                is_coded(r.rtype, code) ==> resolver::data_of(code, r.value) is None,
        },
{
    match dns::type_of(r.rtype) {
        Some(code) => {
            lemma_type_code_means(r.rtype, code);
        },
        None => {},
    }
    assert forall|code: u16| #[trigger] is_coded(r.rtype, code) implies dns::type_of(r.rtype)
        == Some(code) by {
        lemma_type_code_means(r.rtype, code);
    }
}

/// Whether the server can load a record.
#[verifier::opaque]
pub open spec fn can_load(r: RecordModel) -> bool {
    resolver::parsed(r) is Some
}

/// Whether `views` are what the server holds of the records at the positions `at`, which are all the
/// positions of records of the zone `zone_id` that can be loaded, in order.
pub open spec fn are_loaded(
    views: Seq<RecViewModel>,
    at: Seq<int>,
    records: Seq<RecordModel>,
    zone_id: Seq<char>,
) -> bool {
    &&& views.len() == at.len()
    &&& forall|i: int|
        0 <= i < at.len() ==> 0 <= #[trigger] at[i] < records.len() && records[at[i]].zone_id
            == zone_id && is_view_of(views[i], records[at[i]])
    &&& forall|i: int, j: int| 0 <= i < j < at.len() ==> at[i] < at[j]
    &&& forall|k: int|
        0 <= k < records.len() && (#[trigger] records[k]).zone_id == zone_id && can_load(records[k])
            ==> at.contains(k)
}

/// One record more that is loaded.
proof fn lemma_one_more(
    views: Seq<RecViewModel>,
    at: Seq<int>,
    records: Seq<RecordModel>,
    zone_id: Seq<char>,
    last: RecordModel,
    v: RecViewModel,
)
    requires
        are_loaded(views, at, records, zone_id),
        last.zone_id == zone_id,
        is_view_of(v, last),
    ensures
        are_loaded(views.push(v), at.push(records.len() as int), records.push(last), zone_id),
{
    let all = records.push(last);
    let n = records.len() as int;
    let more = at.push(n);
    let out = views.push(v);
    assert forall|i: int| 0 <= i < more.len() implies 0 <= #[trigger] more[i] < all.len()
        && all[more[i]].zone_id == zone_id && is_view_of(out[i], all[more[i]]) by {
        if i < at.len() {
            assert(more[i] == at[i]);
            assert(all[at[i]] == records[at[i]]);
            assert(out[i] == views[i]);
        }
    }
    assert forall|i: int, j: int| 0 <= i < j < more.len() implies more[i] < more[j] by {
        assert(more[i] == at[i]);
        if j < at.len() {
            assert(more[j] == at[j]);
        }
    }
    assert forall|k: int|
        0 <= k < all.len() && (#[trigger] all[k]).zone_id == zone_id && can_load(
            all[k],
        ) implies more.contains(k) by {
        if k < n {
            assert(records[k] == all[k]);
            assert(at.contains(k));
            let i = choose|i: int| 0 <= i < at.len() && at[i] == k;
            assert(more[i] == k);
        } else {
            assert(more[at.len() as int] == k);
        }
    }
}

/// One record more that is not loaded.
proof fn lemma_none_more(
    views: Seq<RecViewModel>,
    at: Seq<int>,
    records: Seq<RecordModel>,
    zone_id: Seq<char>,
    last: RecordModel,
)
    requires
        are_loaded(views, at, records, zone_id),
        last.zone_id != zone_id || !can_load(last),
    ensures
        are_loaded(views, at, records.push(last), zone_id),
{
    let all = records.push(last);
    assert forall|i: int| 0 <= i < at.len() implies 0 <= #[trigger] at[i] < all.len()
        && all[at[i]].zone_id == zone_id && is_view_of(views[i], all[at[i]]) by {
        assert(all[at[i]] == records[at[i]]);
    }
    assert forall|k: int|
        0 <= k < all.len() && (#[trigger] all[k]).zone_id == zone_id && can_load(
            all[k],
        ) implies at.contains(k) by {
        assert(k < records.len());
        assert(records[k] == all[k]);
    }
}

/// What a zone loads of its records and one more.
proof fn lemma_load_step(zone: ZoneModel, init: Seq<RecordModel>, last: RecordModel)
    ensures
        ({
            let before = resolver::zone_view(zone, init).records;
            let after = resolver::zone_view(zone, init.push(last)).records;
            if last.zone_id == zone.id && can_load(last) {
                after.len() == before.len() + 1 && after == before.push(after.last())
                    && is_view_of(after.last(), last)
            } else {
                after == before
            }
        }),
{
    reveal(can_load);
    reveal(Seq::filter);
    let p = |r: RecordModel| r.zone_id == zone.id;
    assert(init.push(last).drop_last() =~= init);
    if last.zone_id == zone.id {
        assert(init.push(last).filter(p) == init.filter(p).push(last));
        assert(init.filter(p).push(last).drop_last() =~= init.filter(p));
        lemma_loaded_means(last);
        if let Some(v) = resolver::parsed(last) {
            assert(resolver::zone_view(zone, init.push(last)).records == resolver::zone_view(
                zone,
                init,
            ).records.push(v));
        }
    }
}

/// A zone is loaded under its name, with the 32 low bits of its serial, and with the records that have
/// its id, each of them once and in order; records that cannot be loaded are left out.
pub proof fn lemma_zone_loaded(zone: ZoneModel, records: Seq<RecordModel>)
    ensures
        ({
            let v = resolver::zone_view(zone, records);
            &&& v.name == zone.name
            &&& zone.serial < 0 ==> v.serial == 0
            &&& zone.serial >= 0 ==> v.serial == zone.serial % 4294967296
            &&& exists|at: Seq<int>| are_loaded(v.records, at, records, zone.id)
        }),
    decreases records.len(),
{
    let views = resolver::zone_view(zone, records).records;
    if records.len() == 0 {
        reveal(Seq::filter);
        assert(are_loaded(views, Seq::<int>::empty(), records, zone.id));
    } else {
        let init = records.drop_last();
        let last = records.last();
        let before = resolver::zone_view(zone, init).records;
        lemma_zone_loaded(zone, init);
        let at = choose|at: Seq<int>| are_loaded(before, at, init, zone.id);
        assert(records =~= init.push(last));
        lemma_load_step(zone, init, last);
        if last.zone_id == zone.id && can_load(last) {
            lemma_one_more(before, at, init, zone.id, last, views.last());
            assert(are_loaded(views, at.push(init.len() as int), records, zone.id));
        } else {
            lemma_none_more(before, at, init, zone.id, last);
            assert(are_loaded(views, at, records, zone.id));
        }
    }
}

/// A snapshot holds each zone once, as it is loaded, and the names for the SOA.
pub proof fn lemma_snapshot_holds(
    zones: Seq<ZoneModel>,
    records: Seq<RecordModel>,
    primary_ns: Seq<char>,
    hostmaster: Seq<char>,
)
    ensures
        ({
            let snap = resolver::snapshot_of(zones, records, primary_ns, hostmaster);
            let views = zones.map_values(|z: ZoneModel| resolver::zone_view(z, records));
            &&& snap.primary_ns == primary_ns
            &&& snap.hostmaster == hostmaster
            &&& snap.zones.len() == zones.len()
            &&& snap.zones.to_multiset() == views.to_multiset()
        }),
{
    let views = zones.map_values(|z: ZoneModel| resolver::zone_view(z, records));
    order::lemma_sorted_permutes::<resolver::LongestFirst>(views);
}

/// After a reload every zone of the store is there with all its records, whichever record was stored
/// when, as long as the store has no more zones than are listed.
pub proof fn lemma_reload_holds(
    model: StoreModel,
    primary_ns: Seq<char>,
    hostmaster: Seq<char>,
    i: int,
)
    requires
        0 <= i < model.zones.len() <= 2000,
    ensures
        ({
            let snap = resolver::reloaded(model, primary_ns, hostmaster);
            &&& snap.zones.len() == model.zones.len()
            &&& snap.zones.contains(resolver::zone_view(model.zones[i], model.records))
            &&& snap.primary_ns == primary_ns
            &&& snap.hostmaster == hostmaster
        }),
{
    broadcast use vstd::seq_lib::group_to_multiset_ensures;

    let listed = model.listed_zones();
    store_laws::lemma_listed_zones(model);
    lemma_snapshot_holds(listed, model.records, primary_ns, hostmaster);
    let z = model.zones[i];
    assert(model.zones.contains(z));
    assert(listed.to_multiset().count(z) > 0);
    assert(listed.contains(z));
    let k = choose|k: int| 0 <= k < listed.len() && listed[k] == z;
    let views = listed.map_values(|y: ZoneModel| resolver::zone_view(y, model.records));
    let v = resolver::zone_view(z, model.records);
    assert(views[k] == v);
    assert(views.contains(v));
    let snap = resolver::reloaded(model, primary_ns, hostmaster);
    assert(snap.zones.to_multiset().count(v) > 0);
}

// ---------------------------------------------------------------------------
// Presentation
// ---------------------------------------------------------------------------

/// Whether `n` is a name as the server holds it: a word in lower case without a dot at its end.
pub open spec fn is_held_name(n: Seq<char>) -> bool {
    stored::is_bare(n) && config::canonical(n) == n
}

/// A held name with a dot behind it is a word that is read as the name.
proof fn lemma_dotted_word(n: Seq<char>)
    requires
        is_held_name(n),
    ensures
        stored::is_bare(n.push('.')),
        config::canonical(n.push('.')) == n,
        text::trimmed(n.push('.')) == n.push('.'),
{
    let d = n.push('.');
    assert forall|i: int| 0 <= i < d.len() implies !text::is_space(#[trigger] d[i]) && d[i]
        != '"' by {
        if i < n.len() {
            assert(d[i] == n[i]);
            assert(!text::is_space(n[i]) && n[i] != '"');
        }
    }
    assert(names::free_of(d, '"'));
    names::lemma_canonical_shape(n);
    assert(!text::is_space(d[0]));
    names::lemma_trim_trimmed(d);
    assert(d.drop_last() =~= n);
    assert(text::trimmed_end_of(n, '.') == n);
    assert(text::trimmed_end_of(d, '.') == n);
    assert(!text::is_space(n[0]) && !text::is_space(n[n.len() - 1]));
    names::lemma_trim_trimmed(n);
}

/// What is shown of record data is read as that data again.
pub proof fn lemma_shown_data_reads_back(d: RDataModel)
    requires
        match d {
            RDataModel::A(o) => o.len() == 4,
            RDataModel::Aaaa(g) => g.len() == 8,
            RDataModel::Name(t, n) => (t == 2 || t == 5) && is_held_name(n),
            RDataModel::Mx { pref, host } => is_held_name(host),
            RDataModel::Txt(_) => true,
            RDataModel::Soa(_) => false,
            RDataModel::Srv { priority, weight, port, target } => is_held_name(target),
            RDataModel::Caa { flags, tag, value } => stored::is_bare(tag) && text::lowered(tag)
                == tag && stored::is_bare(value),
        },
    ensures
        resolver::data_of(dns::code_of(d), dns::rdata_text(d)) == Some(d),
{
    reveal_strlit(" ");
    match d {
        RDataModel::A(o) => {
            addr_laws::lemma_ipv4_roundtrip(o);
            addr_laws::lemma_ipv4_text_shape(o);
            names::lemma_trim_trimmed(addr::ipv4_text(o));
        },
        RDataModel::Aaaa(g) => {
            addr_laws::lemma_ipv6_roundtrip(g);
            addr_laws::lemma_ipv6_text_shape(g);
            names::lemma_trim_trimmed(addr::ipv6_text(g));
        },
        RDataModel::Name(_, n) => {
            lemma_dotted_word(n);
        },
        RDataModel::Mx { pref, host } => {
            lemma_dotted_word(host);
            let p = digits::decimal(pref as nat);
            stored::lemma_decimal_is_bare(pref as nat);
            addr_laws::lemma_unsigned_roundtrip(pref as nat, 65535);
            let parts = seq![p, host.push('.')];
            lemma_mx_data(parts);
            assert(parts.skip(1) =~= seq![host.push('.')]);
            assert(stored::spaced(seq![host.push('.')]) == host.push('.'));
            stored::lemma_spaced_two(p, host.push('.'));
            assert(dns::rdata_text(d) =~= stored::spaced(seq![p, host.push('.')]));
        },
        RDataModel::Txt(s) => {
            let shown = seq!['"'] + s.push('"');
            assert(shown[0] == '"' && shown.last() == '"');
            names::lemma_trim_trimmed(shown);
            assert(shown.subrange(1, shown.len() - 1) =~= s);
        },
        RDataModel::Soa(_) => {},
        RDataModel::Srv { priority, weight, port, target } => {
            lemma_dotted_word(target);
            let (p, w, q) = (
                digits::decimal(priority as nat),
                digits::decimal(weight as nat),
                digits::decimal(port as nat),
            );
            stored::lemma_decimal_is_bare(priority as nat);
            stored::lemma_decimal_is_bare(weight as nat);
            stored::lemma_decimal_is_bare(port as nat);
            addr_laws::lemma_unsigned_roundtrip(priority as nat, 65535);
            addr_laws::lemma_unsigned_roundtrip(weight as nat, 65535);
            addr_laws::lemma_unsigned_roundtrip(port as nat, 65535);
            let parts = seq![p, w, q, target.push('.')];
            lemma_srv_data(parts);
            assert(parts.skip(3) =~= seq![target.push('.')]);
            assert(stored::spaced(seq![target.push('.')]) == target.push('.'));
            stored::lemma_spaced_four(p, w, q, target.push('.'));
            assert(dns::rdata_text(d) =~= stored::spaced(seq![p, w, q, target.push('.')]));
        },
        RDataModel::Caa { flags, tag, value } => {
            lemma_shown_caa(flags, tag, value);
        },
    }
}

/// A bare word in quotes is a word, and the word again without the quotes.
proof fn lemma_quoted_word(value: Seq<char>)
    requires
        stored::is_bare(value),
    ensures
        ({
            let q = seq!['"'] + value + seq!['"'];
            served::is_word(q) && text::unquoted(q) == value
        }),
{
    let q = seq!['"'] + value + seq!['"'];
    assert forall|i: int| 0 <= i < q.len() implies !text::is_space(#[trigger] q[i]) by {
        if 0 < i < q.len() - 1 {
            assert(q[i] == value[i - 1]);
        }
    }
    assert(!text::is_space(q[0]) && !text::is_space(q[q.len() - 1]));
    names::lemma_trim_trimmed(q);
    assert(q.subrange(1, q.len() - 1) =~= value);
}

/// The words of three words with spaces between them.
proof fn lemma_three_words(a: Seq<char>, b: Seq<char>, c: Seq<char>)
    requires
        served::is_word(a),
        served::is_word(b),
        served::is_word(c),
    ensures
        text::words_of(text::trimmed(a + " "@ + (b + " "@ + c))) == seq![a, b, c],
{
    served::lemma_words_behind_word(a, b + " "@ + c);
    served::lemma_words_behind_word(b, c);
    served::lemma_single_word(c);
    served::lemma_words_trimmed(a + " "@ + (b + " "@ + c));
    assert(seq![a] + (seq![b] + seq![c]) =~= seq![a, b, c]);
}

/// The text that is shown of CAA data.
proof fn lemma_shown_caa_text(f: Seq<char>, tag: Seq<char>, value: Seq<char>)
    ensures
        f.push(' ') + tag + " \""@ + value.push('"') == f + " "@ + (tag + " "@ + (seq!['"'] + value
            + seq!['"'])),
{
    reveal_strlit(" ");
    reveal_strlit(" \"");
    assert(f.push(' ') + tag + " \""@ + value.push('"') =~= f + " "@ + (tag + " "@ + (seq!['"']
        + value + seq!['"'])));
}

/// The case of CAA data: the value stands in quotes.
proof fn lemma_shown_caa(flags: u8, tag: Seq<char>, value: Seq<char>)
    requires
        stored::is_bare(tag),
        text::lowered(tag) == tag,
        stored::is_bare(value),
    ensures
        ({
            let d = RDataModel::Caa { flags, tag, value };
            resolver::data_of(257, dns::rdata_text(d)) == Some(d)
        }),
{
    let f = digits::decimal(flags as nat);
    let q = seq!['"'] + value + seq!['"'];
    stored::lemma_decimal_is_bare(flags as nat);
    addr_laws::lemma_unsigned_roundtrip(flags as nat, 255);
    lemma_quoted_word(value);
    lemma_three_words(f, tag, q);
    lemma_shown_caa_text(f, tag, value);
    let words = seq![f, tag, q];
    assert(words.skip(2) =~= seq![q]);
    assert(text::joined(seq![q], " "@) == q);
    assert(resolver::caa_of(words) == Some(RDataModel::Caa { flags, tag, value }));
}

/// A type is shown under its name, and one without a name as `TYPE` and its number.
pub proof fn lemma_label_means(t: u16)
    ensures
        (t == 1 || t == 2 || t == 5 || t == 6 || t == 15 || t == 16 || t == 28 || t == 33 || t == 255
            || t == 257) ==> is_coded(dns::type_label(t), t),
        !(t == 1 || t == 2 || t == 5 || t == 6 || t == 15 || t == 16 || t == 28 || t == 33 || t
            == 255 || t == 257) ==> dns::type_label(t) == seq!['T', 'Y', 'P', 'E']
            + digits::decimal(t as nat),
{
    reveal_strlit("TYPE");
    assert("TYPE"@ =~= seq!['T', 'Y', 'P', 'E']);
    if t == 1 || t == 2 || t == 5 || t == 6 || t == 15 || t == 16 || t == 28 || t == 33 || t == 255
        || t == 257 {
        served::lemma_type_label_roundtrip(t);
        lemma_type_code_means(dns::type_label(t), t);
    }
}

} // verus!

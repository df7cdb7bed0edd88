//! What the answer to a question is, in terms of the records of the zone.
//!
//! The laws here speak of positions in the list of records and of the characters of names, so that
//! they say which records an answer holds without following how it is found.
use crate::config;
use crate::dns::resolver;
use crate::dns::resolver::{RecViewModel, SnapshotModel, ZoneViewModel};
use crate::dns::{LookupModel, RDataModel, RrModel, SoaModel};
use crate::laws::resolver as resolver_laws;
use crate::text;
use vstd::prelude::*;

verus! {

// ---------------------------------------------------------------------------
// Names
// ---------------------------------------------------------------------------

/// Whether `name` is `zone`, or some text, a dot and `zone`.
pub open spec fn is_in(name: Seq<char>, zone: Seq<char>) -> bool {
    name == zone || exists|head: Seq<char>| name == #[trigger] (head + seq!['.'] + zone)
}

/// A name lies within a zone if and only if it is the zone, or ends in a dot and the zone.
pub proof fn lemma_within_means(name: Seq<char>, zone: Seq<char>)
    ensures
        config::is_within(name, zone) <==> is_in(name, zone),
{
    let below = seq!['.'] + zone;
    if below.is_suffix_of(name) {
        let head = name.take(name.len() - below.len());
        assert(name.subrange(name.len() - below.len(), name.len() as int) == below);
        let whole = head + seq!['.'] + zone;
        assert forall|i: int| 0 <= i < name.len() implies name[i] == whole[i] by {
            if i >= head.len() {
                assert(below[i - head.len()] == name[i]);
            }
        }
        assert(name =~= whole);
    }
    if name != zone && is_in(name, zone) {
        let head = choose|head: Seq<char>| name == #[trigger] (head + seq!['.'] + zone);
        assert(name.subrange(name.len() - below.len(), name.len() as int) =~= below);
    }
}

/// What follows the first `c` of a text starts behind the first position that holds `c`.
pub proof fn lemma_after_first_means(s: Seq<char>, c: char)
    ensures
        match text::after_first(s, c) {
            Some(t) => exists|d: int|
                0 <= d < s.len() && s[d] == c && (forall|j: int| 0 <= j < d ==> s[j] != c) && t
                    == #[trigger] s.skip(d + 1),
            None => forall|j: int| 0 <= j < s.len() ==> s[j] != c,
        },
    decreases s.len(),
{
    if s.len() > 0 {
        let rest = s.drop_first();
        if s[0] == c {
            assert(s.skip(0int + 1) =~= rest);
        } else {
            lemma_after_first_means(rest, c);
            match text::after_first(rest, c) {
                Some(t) => {
                    let d = choose|d: int|
                        0 <= d < rest.len() && rest[d] == c && (forall|j: int|
                            0 <= j < d ==> rest[j] != c) && t == #[trigger] rest.skip(d + 1);
                    assert(s[d + 1] == c);
                    assert forall|j: int| 0 <= j < d + 1 implies s[j] != c by {
                        if j > 0 {
                            assert(rest[j - 1] == s[j]);
                        }
                    }
                    assert(s.skip((d + 1) + 1) =~= rest.skip(d + 1));
                },
                None => {
                    assert forall|j: int| 0 <= j < s.len() implies s[j] != c by {
                        if j > 0 {
                            assert(rest[j - 1] == s[j]);
                        }
                    }
                },
            }
        }
    }
}

// ---------------------------------------------------------------------------
// The nearest wildcard
// ---------------------------------------------------------------------------

/// Whether some record is owned by `*.` and `parent`.
pub open spec fn has_wildcard(records: Seq<RecViewModel>, parent: Seq<char>) -> bool {
    exists|k: int| 0 <= k < records.len() && (#[trigger] records[k]).name == seq!['*', '.'] + parent
}

/// Whether a name of the labels of `name` from some label on starts at the position `at`.
pub open spec fn is_label_start(name: Seq<char>, at: int) -> bool {
    0 <= at <= name.len() && (at == 0 || name[at - 1] == '.')
}

/// Whether the part of `name` from the position `at` on is the nearest parent in `zone`, from the
/// position `from` on, that has a wildcard.
pub open spec fn is_nearest(
    records: Seq<RecViewModel>,
    zone: Seq<char>,
    name: Seq<char>,
    from: int,
    at: int,
) -> bool {
    &&& from <= at
    &&& is_label_start(name, at)
    &&& is_in(name.skip(at), zone)
    &&& has_wildcard(records, name.skip(at))
    &&& forall|j: int|
        from <= j < at && is_label_start(name, j) ==> !has_wildcard(
            records,
            #[trigger] name.skip(j),
        )
}

/// Whether no parent of `name` in `zone`, from the position `from` on, has a wildcard.
pub open spec fn no_wildcard(
    records: Seq<RecViewModel>,
    zone: Seq<char>,
    name: Seq<char>,
    from: int,
) -> bool {
    forall|j: int|
        from <= j <= name.len() && is_label_start(name, j) && is_in(name.skip(j), zone)
            ==> !has_wildcard(records, #[trigger] name.skip(j))
}

/// The wildcard at or above a name of the zone is the nearest one.
proof fn lemma_nearest_at(records: Seq<RecViewModel>, zone: Seq<char>, name: Seq<char>, from: int)
    requires
        is_label_start(name, from),
        is_in(name.skip(from), zone),
    ensures
        match resolver::wildcard_at(records, zone, name.skip(from)) {
            Some(w) => exists|at: int| #[trigger]
                is_nearest(records, zone, name, from, at) && w == seq!['*', '.'] + name.skip(at),
            None => no_wildcard(records, zone, name, from),
        },
    decreases name.len() - from,
{
    reveal_strlit("*.");
    let parent = name.skip(from);
    let candidate = "*."@ + parent;
    assert("*."@ =~= seq!['*', '.']);
    if resolver::is_owner(records, candidate) {
        assert(has_wildcard(records, parent));
        assert(is_nearest(records, zone, name, from, from));
    } else {
        assert(!has_wildcard(records, parent)) by {
            if has_wildcard(records, parent) {
                let k = choose|k: int|
                    0 <= k < records.len() && (#[trigger] records[k]).name == seq!['*', '.']
                        + parent;
                assert(resolver::is_owner(records, candidate));
            }
        }
        if parent == zone {
            assert forall|j: int|
                from <= j <= name.len() && is_label_start(name, j) && is_in(
                    name.skip(j),
                    zone,
                ) implies !has_wildcard(records, #[trigger] name.skip(j)) by {
                lemma_in_len(name.skip(j), zone);
                assert(j == from);
            }
        } else {
            lemma_after_first_means(parent, '.');
            resolver::lemma_after_first_shorter(parent, '.');
            let head = choose|head: Seq<char>| parent == #[trigger] (head + seq!['.'] + zone);
            assert(parent[head.len() as int] == '.');
            let up = text::after_first(parent, '.').unwrap();
            let d = choose|d: int|
                0 <= d < parent.len() && parent[d] == '.' && (forall|j: int|
                    0 <= j < d ==> parent[j] != '.') && up == #[trigger] parent.skip(d + 1);
            let next = from + d + 1;
            assert(d <= head.len());
            assert(name[next - 1] == parent[d]);
            assert(name.skip(next) =~= up);
            assert(is_in(up, zone)) by {
                if d == head.len() {
                    assert(up =~= zone);
                } else {
                    assert(up =~= head.skip(d + 1) + seq!['.'] + zone);
                }
            }
            lemma_nearest_at(records, zone, name, next);
            assert forall|j: int| from < j < next implies !is_label_start(name, j) by {
                assert(name[j - 1] == parent[j - 1 - from]);
            }
            match resolver::wildcard_at(records, zone, up) {
                Some(w) => {
                    let at = choose|at: int| #[trigger]
                        is_nearest(records, zone, name, next, at) && w == seq!['*', '.']
                            + name.skip(at);
                    assert(is_nearest(records, zone, name, from, at));
                },
                None => {},
            }
        }
    }
}

/// A name in a zone is not shorter than the zone.
proof fn lemma_in_len(name: Seq<char>, zone: Seq<char>)
    requires
        is_in(name, zone),
    ensures
        name.len() >= zone.len(),
        name != zone ==> name.len() > zone.len(),
{
}

/// The nearest wildcard covers a name. The wildcard found for a name below the apex is `*.` and the
/// part of the name behind one of its dots; that part lies in the zone, and no record is owned by `*.`
/// and the part behind an earlier dot. None is found if and only if no parent of the name in the zone,
/// up to the apex, has one.
pub proof fn lemma_wildcard_is_nearest(
    records: Seq<RecViewModel>,
    zone: Seq<char>,
    qname: Seq<char>,
)
    requires
        is_in(qname, zone),
        qname != zone,
    ensures
        match resolver::wildcard_for(records, zone, qname) {
            Some(w) => exists|at: int| #[trigger]
                is_nearest(records, zone, qname, 1, at) && w == seq!['*', '.'] + qname.skip(at),
            None => no_wildcard(records, zone, qname, 1),
        },
{
    lemma_after_first_means(qname, '.');
    let head = choose|head: Seq<char>| qname == #[trigger] (head + seq!['.'] + zone);
    assert(qname[head.len() as int] == '.');
    let up = text::after_first(qname, '.').unwrap();
    let d = choose|d: int|
        0 <= d < qname.len() && qname[d] == '.' && (forall|j: int|
            0 <= j < d ==> qname[j] != '.') && up == #[trigger] qname.skip(d + 1);
    assert(is_in(up, zone)) by {
        if d == head.len() {
            assert(up =~= zone);
        } else {
            assert(up =~= head.skip(d + 1) + seq!['.'] + zone);
        }
    }
    lemma_nearest_at(records, zone, qname, d + 1);
    assert forall|j: int| 1 <= j < d + 1 implies !is_label_start(qname, j) by {
        assert(qname[j - 1] != '.');
    }
    match resolver::wildcard_for(records, zone, qname) {
        Some(w) => {
            let at = choose|at: int| #[trigger]
                is_nearest(records, zone, qname, d + 1, at) && w == seq!['*', '.'] + qname.skip(
                    at,
                );
            assert(is_nearest(records, zone, qname, 1, at));
        },
        None => {},
    }
}

// ---------------------------------------------------------------------------
// Which records an answer holds
// ---------------------------------------------------------------------------

/// Whether a record is one of `owner` that a question for `qtype` asks for; 255 asks for all.
pub open spec fn is_wanted(rec: RecViewModel, owner: Seq<char>, qtype: u16) -> bool {
    rec.name == owner && (qtype == 255 || rec.rtype == qtype)
}

/// Whether `found` are the records at the positions `at`, under the name `name`, and these are all the
/// positions of wanted records, in order.
pub open spec fn are_picked(
    found: Seq<RrModel>,
    at: Seq<int>,
    records: Seq<RecViewModel>,
    owner: Seq<char>,
    qtype: u16,
    name: Seq<char>,
) -> bool {
    &&& found.len() == at.len()
    &&& forall|i: int|
        0 <= i < at.len() ==> {
            &&& 0 <= #[trigger] at[i] < records.len()
            &&& is_wanted(records[at[i]], owner, qtype)
            &&& found[i].name == name
            &&& found[i].ttl == records[at[i]].ttl
            &&& found[i].data == records[at[i]].data
        }
    &&& forall|i: int, j: int| 0 <= i < j < at.len() ==> at[i] < at[j]
    &&& forall|k: int|
        0 <= k < records.len() && is_wanted(#[trigger] records[k], owner, qtype) ==> at.contains(k)
}

/// Whether `found` are the wanted records of `owner`, each of them once and in order, under the name
/// `name`.
pub open spec fn are_wanted_of(
    found: Seq<RrModel>,
    records: Seq<RecViewModel>,
    owner: Seq<char>,
    qtype: u16,
    name: Seq<char>,
) -> bool {
    exists|at: Seq<int>| are_picked(found, at, records, owner, qtype, name)
}

/// The records found at an owner are its wanted ones.
pub proof fn lemma_answers_at_are_wanted(
    records: Seq<RecViewModel>,
    owner: Seq<char>,
    qtype: u16,
    name: Seq<char>,
)
    ensures
        are_wanted_of(
            resolver::answers_at(records, owner, qtype, name),
            records,
            owner,
            qtype,
            name,
        ),
    decreases records.len(),
{
    reveal(Seq::filter);
    let found = resolver::answers_at(records, owner, qtype, name);
    if records.len() == 0 {
        assert(are_picked(found, Seq::<int>::empty(), records, owner, qtype, name));
    } else {
        let init = records.drop_last();
        let last = records.last();
        let before = resolver::answers_at(init, owner, qtype, name);
        lemma_answers_at_are_wanted(init, owner, qtype, name);
        let at = choose|at: Seq<int>| are_picked(before, at, init, owner, qtype, name);
        let n = init.len() as int;
        if is_wanted(last, owner, qtype) {
            let p = |r: RecViewModel| r.name == owner && resolver::asks_for(qtype, r.rtype);
            let f = |r: RecViewModel| resolver::answer_from(name, r);
            assert(records.filter(p) == init.filter(p).push(last));
            assert(found =~= before.push(resolver::answer_from(name, last)));
            let more = at.push(n);
            assert forall|i: int| 0 <= i < more.len() implies {
                &&& 0 <= #[trigger] more[i] < records.len()
                &&& is_wanted(records[more[i]], owner, qtype)
                &&& found[i].name == name
                &&& found[i].ttl == records[more[i]].ttl
                &&& found[i].data == records[more[i]].data
            } by {
                if i < n && i < at.len() {
                    assert(more[i] == at[i]);
                    assert(records[at[i]] == init[at[i]]);
                    assert(found[i] == before[i]);
                }
            }
            assert forall|i: int, j: int| 0 <= i < j < more.len() implies more[i] < more[j] by {
                assert(more[i] == at[i]);
                if j < at.len() {
                    assert(more[j] == at[j]);
                }
            }
            assert forall|k: int|
                0 <= k < records.len() && is_wanted(
                    #[trigger] records[k],
                    owner,
                    qtype,
                ) implies more.contains(k) by {
                if k < n {
                    assert(init[k] == records[k]);
                    assert(at.contains(k));
                    let i = choose|i: int| 0 <= i < at.len() && at[i] == k;
                    assert(more[i] == k);
                } else {
                    assert(more[at.len() as int] == k);
                }
            }
            assert(are_picked(found, more, records, owner, qtype, name));
        } else {
            assert(found =~= before);
            assert forall|i: int| 0 <= i < at.len() implies {
                &&& 0 <= #[trigger] at[i] < records.len()
                &&& is_wanted(records[at[i]], owner, qtype)
                &&& found[i].name == name
                &&& found[i].ttl == records[at[i]].ttl
                &&& found[i].data == records[at[i]].data
            } by {
                assert(records[at[i]] == init[at[i]]);
            }
            assert forall|k: int|
                0 <= k < records.len() && is_wanted(
                    #[trigger] records[k],
                    owner,
                    qtype,
                ) implies at.contains(k) by {
                assert(init[k] == records[k]);
            }
            assert(are_picked(found, at, records, owner, qtype, name));
        }
    }
}

/// Whether the record at the position `k` is the first CNAME record of `owner`.
pub open spec fn is_first_cname(records: Seq<RecViewModel>, owner: Seq<char>, k: int) -> bool {
    &&& 0 <= k < records.len()
    &&& records[k].name == owner && records[k].rtype == 5
    &&& forall|j: int|
        0 <= j < k ==> !((#[trigger] records[j]).name == owner && records[j].rtype == 5)
}

/// Whether `owner` has a CNAME record.
pub open spec fn has_cname(records: Seq<RecViewModel>, owner: Seq<char>) -> bool {
    exists|k: int|
        0 <= k < records.len() && (#[trigger] records[k]).name == owner && records[k].rtype == 5
}

/// The CNAME found at an owner is its first one.
proof fn lemma_cname_is_first(records: Seq<RecViewModel>, owner: Seq<char>)
    ensures
        match resolver::cname_at(records, owner) {
            Some(cn) => exists|k: int| #[trigger]
                is_first_cname(records, owner, k) && records[k] == cn,
            None => !has_cname(records, owner),
        },
    decreases records.len(),
{
    if records.len() > 0 {
        let rest = records.drop_first();
        if records[0].name == owner && records[0].rtype == 5 {
            assert(is_first_cname(records, owner, 0));
        } else {
            lemma_cname_is_first(rest, owner);
            match resolver::cname_at(rest, owner) {
                Some(cn) => {
                    let k = choose|k: int| #[trigger]
                        is_first_cname(rest, owner, k) && rest[k] == cn;
                    assert forall|j: int| 0 <= j < k + 1 implies !((#[trigger] records[j]).name
                        == owner && records[j].rtype == 5) by {
                        if j > 0 {
                            assert(rest[j - 1] == records[j]);
                        }
                    }
                    assert(is_first_cname(records, owner, k + 1));
                },
                None => {
                    if has_cname(records, owner) {
                        let k = choose|k: int|
                            0 <= k < records.len() && (#[trigger] records[k]).name == owner
                                && records[k].rtype == 5;
                        assert(rest[k - 1] == records[k]);
                    }
                },
            }
        }
    }
}

/// The first CNAME of an owner is the one found, and there is only one first.
proof fn lemma_first_cname_found(records: Seq<RecViewModel>, owner: Seq<char>, k: int)
    requires
        is_first_cname(records, owner, k),
    ensures
        resolver::cname_at(records, owner) == Some(records[k]),
{
    lemma_cname_is_first(records, owner);
    assert(has_cname(records, owner));
    let cn = resolver::cname_at(records, owner).unwrap();
    let m = choose|m: int| #[trigger] is_first_cname(records, owner, m) && records[m] == cn;
    assert(m == k);
}

// ---------------------------------------------------------------------------
// Answers
// ---------------------------------------------------------------------------

/// Whether the zone at the position `z` of the snapshot is the first that `qname` lies in.
pub open spec fn is_authority(snap: SnapshotModel, qname: Seq<char>, z: int) -> bool {
    &&& 0 <= z < snap.zones.len()
    &&& is_in(qname, snap.zones[z].name)
    &&& forall|j: int| 0 <= j < z ==> !is_in(qname, (#[trigger] snap.zones[j]).name)
}

/// The first zone that a name lies in is the one found.
proof fn lemma_authority_found(snap: SnapshotModel, qname: Seq<char>, z: int)
    requires
        is_authority(snap, qname, z),
    ensures
        resolver::authority_for(snap.zones, qname) == Some(snap.zones[z]),
{
    let zones = snap.zones;
    assert forall|j: int| 0 <= j < zones.len() implies (config::is_within(
        qname,
        (#[trigger] zones[j]).name,
    ) <==> is_in(qname, zones[j].name)) by {
        lemma_within_means(qname, zones[j].name);
    }
    resolver_laws::lemma_authority(zones, qname);
    let found = resolver::authority_for(zones, qname).unwrap();
    let i = choose|i: int|
        0 <= i < zones.len() && #[trigger] zones[i] == found && forall|j: int|
            0 <= j < i ==> !config::is_within(qname, (#[trigger] zones[j]).name);
    assert(i == z) by {
        if i < z {
            assert(!is_in(qname, zones[i].name));
        }
        if z < i {
            assert(!config::is_within(qname, zones[z].name));
        }
    }
}

/// The SOA record of a zone, with its timers.
pub open spec fn zone_soa(snap: SnapshotModel, zone: ZoneViewModel) -> RrModel {
    RrModel {
        name: zone.name,
        ttl: 300,
        data: RDataModel::Soa(
            SoaModel {
                mname: snap.primary_ns,
                rname: snap.hostmaster,
                serial: zone.serial,
                refresh: 7200,
                retry: 3600,
                expire: 1_209_600,
                minimum: 300,
            },
        ),
    }
}

/// A name in no zone is refused: rcode 5, not authoritative, and no records.
pub proof fn lemma_foreign_name_is_refused(snap: SnapshotModel, qname: Seq<char>, qtype: u16)
    requires
        forall|j: int| 0 <= j < snap.zones.len() ==> !is_in(qname, (#[trigger] snap.zones[j]).name),
    ensures
        ({
            let a = resolver::answer(snap, qname, qtype);
            a.rcode == 5 && !a.aa && a.answers.len() == 0 && a.authority.len() == 0
        }),
{
    let zones = snap.zones;
    assert forall|j: int| 0 <= j < zones.len() implies !config::is_within(
        qname,
        (#[trigger] zones[j]).name,
    ) by {
        lemma_within_means(qname, zones[j].name);
    }
    resolver_laws::lemma_authority(zones, qname);
}

/// A CNAME stands for its owner: a question for another type gets the first CNAME record of the name
/// and behind it the records of that type that its target has in the zone, each under the target.
pub proof fn lemma_cname_answer(
    snap: SnapshotModel,
    z: int,
    qname: Seq<char>,
    qtype: u16,
    k: int,
)
    requires
        is_authority(snap, qname, z),
        qtype != 5,
        qtype != 255,
        is_first_cname(snap.zones[z].records, qname, k),
    ensures
        ({
            let a = resolver::answer(snap, qname, qtype);
            let records = snap.zones[z].records;
            &&& a.rcode == 0 && a.aa && a.authority.len() == 0
            &&& a.answers.len() > 0
            &&& a.answers[0] == (RrModel {
                name: qname,
                ttl: records[k].ttl,
                data: records[k].data,
            })
            &&& match records[k].data {
                RDataModel::Name(_, target) => are_wanted_of(
                    a.answers.skip(1),
                    records,
                    target,
                    qtype,
                    target,
                ),
                _ => a.answers.len() == 1,
            }
        }),
{
    lemma_authority_found(snap, qname, z);
    let records = snap.zones[z].records;
    lemma_first_cname_found(records, qname, k);
    let a = resolver::answer(snap, qname, qtype);
    if let RDataModel::Name(_, target) = records[k].data {
        lemma_answers_at_are_wanted(records, target, qtype, target);
        assert(a.answers.skip(1) =~= resolver::answers_at(records, target, qtype, target));
    }
}

/// Whether a question is answered from a CNAME of `owner`.
pub open spec fn takes_cname(records: Seq<RecViewModel>, owner: Seq<char>, qtype: u16) -> bool {
    qtype != 5 && qtype != 255 && has_cname(records, owner)
}

/// Whether `owner` has a record that a question for `qtype` asks for.
pub open spec fn has_wanted(records: Seq<RecViewModel>, owner: Seq<char>, qtype: u16) -> bool {
    exists|k: int| 0 <= k < records.len() && is_wanted(#[trigger] records[k], owner, qtype)
}

/// Wanted records are none if and only if there is none.
proof fn lemma_wanted_of_len(
    found: Seq<RrModel>,
    records: Seq<RecViewModel>,
    owner: Seq<char>,
    qtype: u16,
    name: Seq<char>,
)
    requires
        are_wanted_of(found, records, owner, qtype, name),
    ensures
        found.len() > 0 <==> has_wanted(records, owner, qtype),
{
    let at = choose|at: Seq<int>| are_picked(found, at, records, owner, qtype, name);
    if found.len() > 0 {
        assert(is_wanted(records[at[0]], owner, qtype));
    }
    if has_wanted(records, owner, qtype) {
        let k = choose|k: int|
            0 <= k < records.len() && is_wanted(#[trigger] records[k], owner, qtype);
        assert(at.contains(k));
    }
}

/// A name answers for itself: where no CNAME stands for it and it has a record that is asked for, the
/// answer holds exactly these records. At the apex the SOA comes first where it is asked for.
pub proof fn lemma_direct_answer(snap: SnapshotModel, z: int, qname: Seq<char>, qtype: u16)
    requires
        is_authority(snap, qname, z),
        !takes_cname(snap.zones[z].records, qname, qtype),
        has_wanted(snap.zones[z].records, qname, qtype) || (qname == snap.zones[z].name && (qtype
            == 6 || qtype == 255)),
    ensures
        ({
            let a = resolver::answer(snap, qname, qtype);
            let zone = snap.zones[z];
            let with_soa = qname == zone.name && (qtype == 6 || qtype == 255);
            &&& a.rcode == 0 && a.aa && a.authority.len() == 0
            &&& with_soa ==> a.answers.len() > 0 && a.answers[0] == zone_soa(snap, zone)
                && are_wanted_of(a.answers.skip(1), zone.records, qname, qtype, qname)
            &&& !with_soa ==> are_wanted_of(a.answers, zone.records, qname, qtype, qname)
        }),
{
    lemma_authority_found(snap, qname, z);
    let zone = snap.zones[z];
    lemma_cname_is_first(zone.records, qname);
    if resolver::cname_at(zone.records, qname) is Some {
        let cn = resolver::cname_at(zone.records, qname).unwrap();
        let k = choose|k: int| #[trigger]
            is_first_cname(zone.records, qname, k) && zone.records[k] == cn;
        assert(has_cname(zone.records, qname));
    }
    let found = resolver::answers_at(zone.records, qname, qtype, qname);
    lemma_answers_at_are_wanted(zone.records, qname, qtype, qname);
    lemma_wanted_of_len(found, zone.records, qname, qtype, qname);
    let direct = resolver::direct_answers(snap, zone, qname, qtype);
    if qname == zone.name && (qtype == 6 || qtype == 255) {
        assert(direct.skip(1) =~= found);
    } else {
        assert(direct =~= found);
    }
}

/// Whether a question finds nothing at the name itself.
pub open spec fn has_nothing(snap: SnapshotModel, z: int, qname: Seq<char>, qtype: u16) -> bool {
    &&& !takes_cname(snap.zones[z].records, qname, qtype)
    &&& !has_wanted(snap.zones[z].records, qname, qtype)
    &&& !(qname == snap.zones[z].name && (qtype == 6 || qtype == 255))
}

/// A question that finds nothing at the name has no direct answers.
proof fn lemma_has_nothing(snap: SnapshotModel, z: int, qname: Seq<char>, qtype: u16)
    requires
        is_authority(snap, qname, z),
        has_nothing(snap, z, qname, qtype),
    ensures
        resolver::authority_for(snap.zones, qname) == Some(snap.zones[z]),
        resolver::direct_answers(snap, snap.zones[z], qname, qtype).len() == 0,
        !(resolver::follows_cname(qtype) && resolver::cname_at(
            snap.zones[z].records,
            qname,
        ) is Some),
{
    lemma_authority_found(snap, qname, z);
    let zone = snap.zones[z];
    lemma_cname_is_first(zone.records, qname);
    if resolver::cname_at(zone.records, qname) is Some {
        let cn = resolver::cname_at(zone.records, qname).unwrap();
        let k = choose|k: int| #[trigger]
            is_first_cname(zone.records, qname, k) && zone.records[k] == cn;
        assert(has_cname(zone.records, qname));
    }
    let found = resolver::answers_at(zone.records, qname, qtype, qname);
    lemma_answers_at_are_wanted(zone.records, qname, qtype, qname);
    lemma_wanted_of_len(found, zone.records, qname, qtype, qname);
}

/// Whether `a` is a negative answer: authoritative, without answers, and with the SOA of the zone.
pub open spec fn is_negative(a: LookupModel, snap: SnapshotModel, zone: ZoneViewModel) -> bool {
    a.aa && a.answers.len() == 0 && a.authority == seq![zone_soa(snap, zone)]
}

/// The nearest wildcard answers for a name below the apex that has nothing of its own: with its first
/// CNAME where one stands for the type, otherwise with exactly its records that are asked for, each
/// under the name asked for. Where it has none, the name exists without data.
pub proof fn lemma_wildcard_answer(
    snap: SnapshotModel,
    z: int,
    qname: Seq<char>,
    qtype: u16,
    at: int,
)
    requires
        is_authority(snap, qname, z),
        has_nothing(snap, z, qname, qtype),
        qname != snap.zones[z].name,
        is_nearest(snap.zones[z].records, snap.zones[z].name, qname, 1, at),
    ensures
        ({
            let a = resolver::answer(snap, qname, qtype);
            let zone = snap.zones[z];
            let wild = seq!['*', '.'] + qname.skip(at);
            &&& a.rcode == 0 && a.aa
            &&& takes_cname(zone.records, wild, qtype) ==> a.authority.len() == 0
                && a.answers.len() == 1 && exists|k: int| #[trigger]
                is_first_cname(zone.records, wild, k) && a.answers[0] == (RrModel {
                    name: qname,
                    ttl: zone.records[k].ttl,
                    data: zone.records[k].data,
                })
            &&& !takes_cname(zone.records, wild, qtype) && has_wanted(zone.records, wild, qtype)
                ==> a.authority.len() == 0 && are_wanted_of(
                a.answers,
                zone.records,
                wild,
                qtype,
                qname,
            )
            &&& !takes_cname(zone.records, wild, qtype) && !has_wanted(zone.records, wild, qtype)
                ==> is_negative(a, snap, zone)
        }),
{
    lemma_has_nothing(snap, z, qname, qtype);
    let zone = snap.zones[z];
    let records = zone.records;
    lemma_found_wildcard(records, zone.name, qname, at);
    let wild = seq!['*', '.'] + qname.skip(at);
    lemma_cname_is_first(records, wild);
    if has_cname(records, wild) {
        let cn = resolver::cname_at(records, wild).unwrap();
        let k = choose|k: int| #[trigger] is_first_cname(records, wild, k) && records[k] == cn;
        assert(is_first_cname(records, wild, k));
    }
    if resolver::cname_at(records, wild) is Some {
        let cn = resolver::cname_at(records, wild).unwrap();
        let k = choose|k: int| #[trigger] is_first_cname(records, wild, k) && records[k] == cn;
        assert(has_cname(records, wild));
    }
    let found = resolver::answers_at(records, wild, qtype, qname);
    lemma_answers_at_are_wanted(records, wild, qtype, qname);
    lemma_wanted_of_len(found, records, wild, qtype, qname);
}

/// The nearest wildcard is the one found.
proof fn lemma_found_wildcard(
    records: Seq<RecViewModel>,
    zone: Seq<char>,
    qname: Seq<char>,
    at: int,
)
    requires
        is_in(qname, zone),
        qname != zone,
        is_nearest(records, zone, qname, 1, at),
    ensures
        resolver::wildcard_for(records, zone, qname) == Some(seq!['*', '.'] + qname.skip(at)),
{
    lemma_wildcard_is_nearest(records, zone, qname);
    match resolver::wildcard_for(records, zone, qname) {
        Some(w) => {
            let b = choose|b: int| #[trigger]
                is_nearest(records, zone, qname, 1, b) && w == seq!['*', '.'] + qname.skip(b);
            assert(at == b) by {
                if at < b {
                    assert(!has_wildcard(records, qname.skip(at)));
                }
                if b < at {
                    assert(!has_wildcard(records, qname.skip(b)));
                }
            }
        },
        None => {
            assert(!has_wildcard(records, qname.skip(at)));
        },
    }
}

/// A name that has nothing of what is asked for, and no wildcard over it, gets a negative answer: the
/// name exists (rcode 0) if it is the apex or owns any record, and otherwise it does not (rcode 3).
pub proof fn lemma_negative_answer(snap: SnapshotModel, z: int, qname: Seq<char>, qtype: u16)
    requires
        is_authority(snap, qname, z),
        has_nothing(snap, z, qname, qtype),
        qname == snap.zones[z].name || no_wildcard(
            snap.zones[z].records,
            snap.zones[z].name,
            qname,
            1,
        ),
    ensures
        ({
            let a = resolver::answer(snap, qname, qtype);
            let zone = snap.zones[z];
            let exists_here = qname == zone.name || exists|k: int|
                0 <= k < zone.records.len() && (#[trigger] zone.records[k]).name == qname;
            &&& is_negative(a, snap, zone)
            &&& a.rcode == if exists_here {
                0u8
            } else {
                3
            }
        }),
{
    lemma_has_nothing(snap, z, qname, qtype);
    let zone = snap.zones[z];
    if qname != zone.name {
        lemma_wildcard_is_nearest(zone.records, zone.name, qname);
        if resolver::wildcard_for(zone.records, zone.name, qname) is Some {
            let b = choose|b: int| #[trigger]
                is_nearest(zone.records, zone.name, qname, 1, b) && resolver::wildcard_for(
                    zone.records,
                    zone.name,
                    qname,
                ).unwrap() == seq!['*', '.'] + qname.skip(b);
            assert(!has_wildcard(zone.records, qname.skip(b)));
        }
    }
}

} // verus!

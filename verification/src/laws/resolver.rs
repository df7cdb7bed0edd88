//! Laws of the resolver.
use crate::addr;
use crate::config;
use crate::dns;
use crate::dns::resolver;
use crate::dns::resolver::{LongestFirst, RecViewModel, SnapshotModel, ZoneViewModel};
use crate::dns::{
    LookupModel, RDataModel, RrModel, RCODE_NOERROR, RCODE_NXDOMAIN, RCODE_REFUSED, TYPE_ANY,
    TYPE_CNAME, TYPE_SOA,
};
use crate::order;
use crate::order::Order;
use crate::store;
use crate::store::{RecordModel, ZoneModel};
use crate::text;
use vstd::prelude::*;

verus! {

// ---------------------------------------------------------------------------
// The authoritative zone
// ---------------------------------------------------------------------------

/// A zone is authoritative for a name if and only if the name lies within some zone; it is the first
/// such zone.
pub proof fn lemma_authority(zones: Seq<ZoneViewModel>, qname: Seq<char>)
    ensures
        resolver::authority_for(zones, qname) is None <==> forall|i: int|
            0 <= i < zones.len() ==> !config::is_within(qname, (#[trigger] zones[i]).name),
        resolver::authority_for(zones, qname) matches Some(z) ==> config::is_within(qname, z.name)
            && exists|i: int|
            0 <= i < zones.len() && #[trigger] zones[i] == z && forall|j: int|
                0 <= j < i ==> !config::is_within(qname, (#[trigger] zones[j]).name),
    decreases zones.len(),
{
    if zones.len() > 0 {
        let rest = zones.drop_first();
        if config::is_within(qname, zones[0].name) {
            assert(zones[0] == zones[0]);
        } else {
            lemma_authority(rest, qname);
            match resolver::authority_for(rest, qname) {
                None => {
                    assert forall|i: int| 0 <= i < zones.len() implies !config::is_within(
                        qname,
                        (#[trigger] zones[i]).name,
                    ) by {
                        if i > 0 {
                            assert(rest[i - 1] == zones[i]);
                        }
                    }
                },
                Some(z) => {
                    let k = choose|k: int|
                        0 <= k < rest.len() && #[trigger] rest[k] == z && forall|j: int|
                            0 <= j < k ==> !config::is_within(qname, (#[trigger] rest[j]).name);
                    assert(zones[k + 1] == z);
                    assert forall|j: int| 0 <= j < k + 1 implies !config::is_within(
                        qname,
                        (#[trigger] zones[j]).name,
                    ) by {
                        if j > 0 {
                            assert(rest[j - 1] == zones[j]);
                        }
                    }
                },
            }
        }
    }
}

/// The zones of a snapshot are ordered by the length of their names, consistently.
pub proof fn lemma_longest_first_order()
    ensures
        order::is_total_preorder::<LongestFirst>(),
{
}

/// The views of zones.
pub open spec fn zone_views(zones: Seq<ZoneModel>, records: Seq<RecordModel>) -> Seq<
    ZoneViewModel,
> {
    zones.map_values(|z: ZoneModel| resolver::zone_view(z, records))
}

/// The most specific zone answers: of all zones that a name lies within, the authoritative one has
/// the longest name.
pub proof fn lemma_most_specific_zone(
    zones: Seq<ZoneModel>,
    records: Seq<RecordModel>,
    primary_ns: Seq<char>,
    hostmaster: Seq<char>,
    qname: Seq<char>,
)
    ensures
        ({
            let snap = resolver::snapshot_of(zones, records, primary_ns, hostmaster);
            let found = resolver::authority_for(snap.zones, qname);
            &&& found is Some <==> exists|i: int|
                0 <= i < zones.len() && config::is_within(qname, (#[trigger] zones[i]).name)
            &&& found matches Some(z) ==> zone_views(zones, records).contains(z) && forall|i: int|
                0 <= i < zones.len() && config::is_within(qname, (#[trigger] zones[i]).name)
                    ==> vstd::utf8::encode_utf8(zones[i].name).len() <= vstd::utf8::encode_utf8(
                    z.name,
                ).len()
        }),
{
    broadcast use vstd::seq_lib::group_to_multiset_ensures;

    let views = zone_views(zones, records);
    let s = order::sorted::<LongestFirst>(views);
    let snap = resolver::snapshot_of(zones, records, primary_ns, hostmaster);
    assert(snap.zones == s);
    lemma_longest_first_order();
    order::lemma_sorted_permutes::<LongestFirst>(views);
    order::lemma_sorted_in_order::<LongestFirst>(views);
    lemma_authority(s, qname);
    assert forall|i: int| 0 <= i < zones.len() implies s.contains(#[trigger] views[i])
        && views[i].name == zones[i].name by {
        assert(views.contains(views[i]));
        assert(views.to_multiset().count(views[i]) > 0);
        assert(s.to_multiset().count(views[i]) > 0);
    }
    match resolver::authority_for(s, qname) {
        None => {
            assert forall|i: int| 0 <= i < zones.len() implies !config::is_within(
                qname,
                (#[trigger] zones[i]).name,
            ) by {
                assert(s.contains(views[i]));
                let k = choose|k: int| 0 <= k < s.len() && s[k] == views[i];
                assert(!config::is_within(qname, s[k].name));
            }
        },
        Some(z) => {
            let k = choose|k: int|
                0 <= k < s.len() && #[trigger] s[k] == z && forall|j: int|
                    0 <= j < k ==> !config::is_within(qname, (#[trigger] s[j]).name);
            assert(s.contains(s[k]));
            assert(s.to_multiset().count(z) > 0);
            assert(views.to_multiset().count(z) > 0);
            assert(views.contains(z));
            let m = choose|m: int| 0 <= m < views.len() && views[m] == z;
            assert(config::is_within(qname, zones[m].name));
            assert forall|i: int|
                0 <= i < zones.len() && config::is_within(
                    qname,
                    (#[trigger] zones[i]).name,
                ) implies vstd::utf8::encode_utf8(zones[i].name).len()
                <= vstd::utf8::encode_utf8(z.name).len() by {
                assert(s.contains(views[i]));
                let j = choose|j: int| 0 <= j < s.len() && s[j] == views[i];
                assert(j >= k);
                if j > k {
                    assert(LongestFirst::le(s[k], s[j]));
                }
            }
        },
    }
}

// ---------------------------------------------------------------------------
// Answers
// ---------------------------------------------------------------------------

/// A name that owns no record has no answers and no CNAME.
proof fn lemma_no_owner(records: Seq<RecViewModel>, owner: Seq<char>, qtype: u16, name: Seq<char>)
    requires
        !resolver::is_owner(records, owner),
    ensures
        resolver::cname_at(records, owner) is None,
        resolver::answers_at(records, owner, qtype, name).len() == 0,
    decreases records.len(),
{
    reveal(Seq::filter);
    assert forall|i: int| 0 <= i < records.len() implies (#[trigger] records[i]).name != owner by {}
    let p = |r: RecViewModel| r.name == owner && resolver::asks_for(qtype, r.rtype);
    records.lemma_all_neg_filter_empty(p);
    if records.len() > 0 {
        let rest = records.drop_first();
        assert(!resolver::is_owner(rest, owner)) by {
            assert forall|i: int| 0 <= i < rest.len() implies (#[trigger] rest[i]).name
                != owner by {
                assert(records[i + 1] == rest[i]);
            }
        }
        lemma_no_owner(rest, owner, qtype, name);
        assert(records[0].name != owner);
    }
}

/// A resolver without zones refuses every question.
pub proof fn lemma_empty_refuses(snap: SnapshotModel, qname: Seq<char>, qtype: u16)
    requires
        snap.zones.len() == 0,
    ensures
        resolver::answer(snap, qname, qtype) == resolver::refused(),
{
}

/// The shape of every answer. A question is refused if and only if no zone covers the name, and every
/// other answer is authoritative. An answer with records is positive and has no authority section;
/// an authoritative one without records is negative and carries the SOA of the zone.
pub proof fn lemma_answer_shape(snap: SnapshotModel, qname: Seq<char>, qtype: u16)
    ensures
        ({
            let a = resolver::answer(snap, qname, qtype);
            let zone = resolver::authority_for(snap.zones, qname);
            &&& a.aa <==> zone is Some
            &&& a.rcode == RCODE_REFUSED <==> zone is None
            &&& a.rcode == RCODE_NOERROR || a.rcode == RCODE_NXDOMAIN || a.rcode == RCODE_REFUSED
            &&& a.answers.len() > 0 ==> a.rcode == RCODE_NOERROR && a.authority.len() == 0
            &&& a.answers.len() == 0 ==> match zone {
                Some(z) => a.authority == seq![resolver::soa_of(snap, z)],
                None => a.authority.len() == 0,
            }
        }),
{
    if let Some(zone) = resolver::authority_for(snap.zones, qname) {
        let direct = resolver::direct_answers(snap, zone, qname, qtype);
        if resolver::follows_cname(qtype) && resolver::cname_at(zone.records, qname) is Some {
            let cn = resolver::cname_at(zone.records, qname).unwrap();
            assert(resolver::cname_answers(zone.records, cn, qname, qtype).len() > 0);
        }
    }
}

/// A name does not exist if and only if it lies within a zone, is not its apex, owns no record there
/// and no wildcard covers it. In particular the apex always exists.
pub proof fn lemma_nxdomain(snap: SnapshotModel, qname: Seq<char>, qtype: u16)
    ensures
        resolver::answer(snap, qname, qtype).rcode == RCODE_NXDOMAIN <==> (
        resolver::authority_for(snap.zones, qname) matches Some(zone) && qname != zone.name
            && !resolver::is_owner(zone.records, qname) && resolver::wildcard_for(
            zone.records,
            zone.name,
            qname,
        ) is None),
{
    if let Some(zone) = resolver::authority_for(snap.zones, qname) {
        if qname != zone.name && !resolver::is_owner(zone.records, qname) {
            lemma_no_owner(zone.records, qname, qtype, qname);
            assert(resolver::direct_answers(snap, zone, qname, qtype).len() == 0);
        }
    }
}

/// Whether the type of each record of a snapshot is that of its data.
pub open spec fn is_consistent(records: Seq<RecViewModel>) -> bool {
    forall|i: int|
        0 <= i < records.len() ==> (#[trigger] records[i]).rtype == dns::code_of(records[i].data)
}

/// Parsing a stored record gives data of its type.
pub proof fn lemma_parsed_type(r: RecordModel)
    ensures
        resolver::parsed(r) matches Some(v) ==> v.rtype == dns::code_of(v.data) && dns::type_of(
            r.rtype,
        ) == Some(v.rtype),
{
}

/// The records of a loaded zone have the types of their data.
pub proof fn lemma_loaded_is_consistent(records: Seq<RecordModel>)
    ensures
        is_consistent(resolver::parsed_records(records)),
    decreases records.len(),
{
    if records.len() > 0 {
        lemma_loaded_is_consistent(records.drop_last());
        lemma_parsed_type(records.last());
    }
}

/// Each answer at an owner is made of a record of that owner that the question asks for.
proof fn lemma_answers_at(
    records: Seq<RecViewModel>,
    owner: Seq<char>,
    qtype: u16,
    name: Seq<char>,
    i: int,
)
    requires
        0 <= i < resolver::answers_at(records, owner, qtype, name).len(),
    ensures
        exists|k: int|
            0 <= k < records.len() && (#[trigger] records[k]).name == owner && resolver::asks_for(
                qtype,
                records[k].rtype,
            ) && resolver::answers_at(records, owner, qtype, name)[i] == resolver::answer_from(
                name,
                records[k],
            ),
{
    let p = |r: RecViewModel| r.name == owner && resolver::asks_for(qtype, r.rtype);
    let found = records.filter(p);
    records.lemma_filter_pred(p, i);
    assert(found.contains(found[i]));
    records.lemma_filter_contains_rev(p, found[i]);
    let k = choose|k: int| 0 <= k < records.len() && records[k] == found[i];
    assert(records[k].name == owner);
}

/// The first CNAME record at an owner is a record of that owner and type.
proof fn lemma_cname_at(records: Seq<RecViewModel>, owner: Seq<char>)
    ensures
        resolver::cname_at(records, owner) matches Some(cn) ==> cn.name == owner && cn.rtype
            == TYPE_CNAME && exists|k: int| 0 <= k < records.len() && #[trigger] records[k] == cn,
    decreases records.len(),
{
    if records.len() > 0 {
        let rest = records.drop_first();
        if records[0].name == owner && records[0].rtype == TYPE_CNAME {
            assert(records[0] == records[0]);
        } else {
            lemma_cname_at(rest, owner);
            if let Some(cn) = resolver::cname_at(rest, owner) {
                let k = choose|k: int| 0 <= k < rest.len() && #[trigger] rest[k] == cn;
                assert(records[k + 1] == cn);
            }
        }
    }
}

/// Whether the data of a record is the name `target`.
pub open spec fn points_to(rec: RecViewModel, target: Seq<char>) -> bool {
    rec.data matches RDataModel::Name(_, t) && t == target
}

/// Whether an answer record stands for the name asked for, or for the target of a CNAME among the
/// records, and is of a type that the question asks for or a CNAME.
pub open spec fn is_fitting(
    rr: RrModel,
    records: Seq<RecViewModel>,
    qname: Seq<char>,
    qtype: u16,
) -> bool {
    &&& rr.name == qname || exists|k: int|
        0 <= k < records.len() && points_to(#[trigger] records[k], rr.name)
    &&& resolver::asks_for(qtype, dns::code_of(rr.data)) || dns::code_of(rr.data) == TYPE_CNAME
}

/// Every record of an answer fits the question.
pub proof fn lemma_answers_fit(snap: SnapshotModel, qname: Seq<char>, qtype: u16, i: int)
    requires
        resolver::authority_for(snap.zones, qname) matches Some(zone) && is_consistent(
            zone.records,
        ),
        0 <= i < resolver::answer(snap, qname, qtype).answers.len(),
    ensures
        is_fitting(
            resolver::answer(snap, qname, qtype).answers[i],
            resolver::authority_for(snap.zones, qname).unwrap().records,
            qname,
            qtype,
        ),
{
    let zone = resolver::authority_for(snap.zones, qname).unwrap();
    let recs = zone.records;
    let a = resolver::answer(snap, qname, qtype);
    let direct = resolver::direct_answers(snap, zone, qname, qtype);
    let wild = resolver::wildcard_for(recs, zone.name, qname);
    lemma_cname_at(recs, qname);
    if resolver::follows_cname(qtype) && resolver::cname_at(recs, qname) is Some {
        let cn = resolver::cname_at(recs, qname).unwrap();
        let k = choose|k: int| 0 <= k < recs.len() && #[trigger] recs[k] == cn;
        assert(recs[k].rtype == dns::code_of(recs[k].data));
        if i > 0 {
            if let RDataModel::Name(_, target) = cn.data {
                let chased = resolver::answers_at(recs, target, qtype, target);
                assert(a.answers[i] == chased[i - 1]);
                lemma_answers_at(recs, target, qtype, target, i - 1);
            }
        }
    } else if direct.len() > 0 {
        let found = resolver::answers_at(recs, qname, qtype, qname);
        let offset = direct.len() - found.len();
        if i >= offset {
            assert(a.answers[i] == found[i - offset]);
            lemma_answers_at(recs, qname, qtype, qname, i - offset);
        } else {
            assert(a.answers[i] == resolver::soa_of(snap, zone));
        }
    } else if qname != zone.name && wild is Some {
        let w = wild.unwrap();
        lemma_cname_at(recs, w);
        if resolver::follows_cname(qtype) && resolver::cname_at(recs, w) is Some {
            let cn = resolver::cname_at(recs, w).unwrap();
            let k = choose|k: int| 0 <= k < recs.len() && #[trigger] recs[k] == cn;
            assert(recs[k].rtype == dns::code_of(recs[k].data));
        } else {
            lemma_answers_at(recs, w, qtype, qname, i);
        }
    }
}

/// What is stored is served: a record of the authoritative zone at the name and of the type asked for
/// is among the answers, unless a CNAME at the name takes its place.
pub proof fn lemma_stored_is_served(
    snap: SnapshotModel,
    zone: ZoneViewModel,
    k: int,
    qname: Seq<char>,
    qtype: u16,
)
    requires
        resolver::authority_for(snap.zones, qname) == Some(zone),
        0 <= k < zone.records.len(),
        zone.records[k].name == qname,
        resolver::asks_for(qtype, zone.records[k].rtype),
        resolver::follows_cname(qtype) ==> resolver::cname_at(zone.records, qname) is None,
    ensures
        resolver::answer(snap, qname, qtype).rcode == RCODE_NOERROR,
        resolver::answer(snap, qname, qtype).answers.contains(
            resolver::answer_from(qname, zone.records[k]),
        ),
{
    let recs = zone.records;
    let p = |r: RecViewModel| r.name == qname && resolver::asks_for(qtype, r.rtype);
    let f = |r: RecViewModel| resolver::answer_from(qname, r);
    recs.lemma_filter_contains(p, k);
    let found = recs.filter(p);
    let j = choose|j: int| 0 <= j < found.len() && found[j] == recs[k];
    let made = found.map_values(f);
    assert(made[j] == resolver::answer_from(qname, recs[k]));
    let direct = resolver::direct_answers(snap, zone, qname, qtype);
    let offset = direct.len() - made.len();
    assert(direct[offset + j] == made[j]);
}

/// A CNAME at the name comes first in the answer to a question for another type.
pub proof fn lemma_cname_comes_first(
    snap: SnapshotModel,
    zone: ZoneViewModel,
    qname: Seq<char>,
    qtype: u16,
)
    requires
        resolver::authority_for(snap.zones, qname) == Some(zone),
        resolver::follows_cname(qtype),
        resolver::cname_at(zone.records, qname) is Some,
    ensures
        resolver::answer(snap, qname, qtype).answers.len() > 0,
        resolver::answer(snap, qname, qtype).answers[0] == resolver::answer_from(
            qname,
            resolver::cname_at(zone.records, qname).unwrap(),
        ),
{
}

// ---------------------------------------------------------------------------
// Wildcards
// ---------------------------------------------------------------------------

/// A wildcard that covers a name owns a record, and is `*.` and an ancestor of the name.
pub proof fn lemma_wildcard_at(records: Seq<RecViewModel>, zone: Seq<char>, parent: Seq<char>)
    ensures
        resolver::wildcard_at(records, zone, parent) matches Some(w) ==> resolver::is_owner(
            records,
            w,
        ) && exists|p: Seq<char>|
            w == #[trigger] ("*."@ + p) && config::is_within(parent, p),
    decreases parent.len(),
{
    let candidate = "*."@ + parent;
    if resolver::is_owner(records, candidate) {
        assert(config::is_within(parent, parent));
    } else if parent != zone {
        resolver::lemma_after_first_shorter(parent, '.');
        if let Some(up) = text::after_first(parent, '.') {
            lemma_wildcard_at(records, zone, up);
            lemma_after_first_within(parent);
            if let Some(w) = resolver::wildcard_at(records, zone, up) {
                let p = choose|p: Seq<char>|
                    w == #[trigger] ("*."@ + p) && config::is_within(up, p);
                crate::laws::names::lemma_within_transitive(parent, up, p);
            }
        }
    }
}

/// What follows the first dot of a name is a name that it lies within.
pub proof fn lemma_after_first_within(name: Seq<char>)
    ensures
        text::after_first(name, '.') matches Some(p) ==> config::is_within(name, p),
    decreases name.len(),
{
    if name.len() > 0 {
        if name[0] == '.' {
            let p = name.drop_first();
            assert(name.subrange(0, name.len() as int) == seq!['.'] + p);
        } else {
            lemma_after_first_within(name.drop_first());
            if let Some(p) = text::after_first(name.drop_first(), '.') {
                let rest = name.drop_first();
                let pp = seq!['.'] + p;
                resolver::lemma_after_first_shorter(rest, '.');
                if rest == p {
                    assert(p.len() < rest.len());
                }
                assert(rest.subrange(rest.len() - pp.len(), rest.len() as int) == pp);
                assert(name.subrange(name.len() - pp.len(), name.len() as int) =~= rest.subrange(
                    rest.len() - pp.len(),
                    rest.len() as int,
                ));
            }
        }
    }
}

/// An answer from a wildcard stands for the name that was asked for.
pub proof fn lemma_wildcard_keeps_name(
    snap: SnapshotModel,
    zone: ZoneViewModel,
    wild: Seq<char>,
    qname: Seq<char>,
    qtype: u16,
    i: int,
)
    requires
        0 <= i < resolver::wildcard_answer(snap, zone, wild, qname, qtype).answers.len(),
    ensures
        resolver::wildcard_answer(snap, zone, wild, qname, qtype).answers[i].name == qname,
{
}

// ---------------------------------------------------------------------------
// Loading
// ---------------------------------------------------------------------------

/// The parsed records of two lists are those of the first and those of the second.
pub proof fn lemma_parsed_append(a: Seq<RecordModel>, b: Seq<RecordModel>)
    ensures
        resolver::parsed_records(a + b) == resolver::parsed_records(a) + resolver::parsed_records(
            b,
        ),
    decreases b.len(),
{
    if b.len() == 0 {
        assert(a + b == a);
        assert(resolver::parsed_records(a) + resolver::parsed_records(b)
            == resolver::parsed_records(a));
    } else {
        lemma_parsed_append(a, b.drop_last());
        assert((a + b).drop_last() == a + b.drop_last());
        assert((a + b).last() == b.last());
        if let Some(v) = resolver::parsed(b.last()) {
            assert((resolver::parsed_records(a) + resolver::parsed_records(b.drop_last())).push(v)
                == resolver::parsed_records(a) + resolver::parsed_records(b.drop_last()).push(v));
        }
    }
}

/// One bad row never blanks a zone: a record that cannot be parsed changes nothing in what is loaded.
pub proof fn lemma_bad_record_is_harmless(
    zones: Seq<ZoneModel>,
    before: Seq<RecordModel>,
    bad: RecordModel,
    behind: Seq<RecordModel>,
    primary_ns: Seq<char>,
    hostmaster: Seq<char>,
)
    requires
        resolver::parsed(bad) is None,
    ensures
        resolver::snapshot_of(zones, before.push(bad) + behind, primary_ns, hostmaster)
            == resolver::snapshot_of(zones, before + behind, primary_ns, hostmaster),
{
    let with = before.push(bad) + behind;
    let without = before + behind;
    assert forall|z: ZoneModel| resolver::zone_view(z, with) == resolver::zone_view(z, without) by {
        let p = |r: RecordModel| r.zone_id == z.id;
        Seq::filter_distributes_over_add(before.push(bad), behind, p);
        Seq::filter_distributes_over_add(before, behind, p);
        reveal(Seq::filter);
        assert(before.push(bad).drop_last() == before);
        lemma_parsed_append(before.push(bad).filter(p), behind.filter(p));
        lemma_parsed_append(before.filter(p), behind.filter(p));
        if p(bad) {
            assert(before.filter(p).push(bad).drop_last() == before.filter(p));
        }
    }
    assert(zones.map_values(|z: ZoneModel| resolver::zone_view(z, with)) =~= zones.map_values(
        |z: ZoneModel| resolver::zone_view(z, without),
    ));
}

/// An added record is served by its zone from the next reload on, and changes no other zone.
pub proof fn lemma_added_record_is_loaded(
    zone: ZoneModel,
    records: Seq<RecordModel>,
    added: RecordModel,
)
    ensures
        ({
            let before = resolver::zone_view(zone, records).records;
            let after = resolver::zone_view(zone, records.push(added)).records;
            match resolver::parsed(added) {
                Some(v) => after == if added.zone_id == zone.id {
                    before.push(v)
                } else {
                    before
                },
                None => after == before,
            }
        }),
{
    reveal(Seq::filter);
    assert(records.push(added).drop_last() == records);
    let mine = store::records_of(records, zone.id);
    assert(mine.push(added).drop_last() == mine);
}

/// A deleted record is not served from the next reload on: what a zone serves then are those of its
/// records that have another id.
pub proof fn lemma_deleted_record_is_unloaded(
    zone: ZoneModel,
    records: Seq<RecordModel>,
    id: Seq<char>,
)
    ensures
        resolver::zone_view(zone, store::records_but(records, id)).records
            == resolver::parsed_records(
            store::records_but(store::records_of(records, zone.id), id),
        ),
{
    crate::laws::store::lemma_delete_in_zone(records, id, zone.id);
}

} // verus!

//! Laws of the store.
use crate::config::LIST_LIMIT;
use crate::order;
use crate::order::Order;
use crate::store;
use crate::store::{
    ByNameAndType, ByZoneName, HistoryModel, NewestFirst, RecordModel, StoreModel, ZoneModel,
};
use vstd::prelude::*;

verus! {

// ---------------------------------------------------------------------------
// Zones
// ---------------------------------------------------------------------------

/// Whether no two zones have one name.
pub open spec fn distinct_names(zones: Seq<ZoneModel>) -> bool {
    forall|i: int, j: int|
        0 <= i < j < zones.len() ==> (#[trigger] zones[i]).name != (#[trigger] zones[j]).name
}

/// A zone is found by its name if and only if some zone has that name, and what is found has it.
pub proof fn lemma_zone_by_name(zones: Seq<ZoneModel>, name: Seq<char>)
    ensures
        store::zone_with_name(zones, name) is Some <==> exists|i: int|
            0 <= i < zones.len() && (#[trigger] zones[i]).name == name,
        store::zone_with_name(zones, name) matches Some(z) ==> z.name == name && zones.contains(z),
    decreases zones.len(),
{
    if zones.len() > 0 {
        let rest = zones.drop_first();
        if zones[0].name == name {
            assert(zones.contains(zones[0]));
        } else {
            lemma_zone_by_name(rest, name);
            assert forall|i: int| 0 <= i < zones.len() && (#[trigger] zones[i]).name
                == name implies exists|k: int|
                0 <= k < rest.len() && (#[trigger] rest[k]).name == name by {
                assert(rest[i - 1] == zones[i]);
            }
            if exists|k: int| 0 <= k < rest.len() && (#[trigger] rest[k]).name == name {
                let k = choose|k: int| 0 <= k < rest.len() && (#[trigger] rest[k]).name == name;
                assert(zones[k + 1] == rest[k]);
            }
            if let Some(z) = store::zone_with_name(rest, name) {
                let k = choose|k: int| 0 <= k < rest.len() && rest[k] == z;
                assert(zones[k + 1] == z);
            }
        }
    }
}

/// The names of zones stay distinct: a zone is only created under a name that no zone has, and a new
/// serial changes no name.
pub proof fn lemma_names_stay_distinct(zones: Seq<ZoneModel>, zone: ZoneModel)
    requires
        distinct_names(zones),
        store::zone_with_name(zones, zone.name) is None,
    ensures
        distinct_names(zones.push(zone)),
{
    lemma_zone_by_name(zones, zone.name);
    let out = zones.push(zone);
    assert forall|i: int, j: int| 0 <= i < j < out.len() implies (#[trigger] out[i]).name != (
    #[trigger] out[j]).name by {
        assert(zones[i] == out[i]);
        if j < zones.len() {
            assert(zones[j] == out[j]);
        }
    }
}

/// A created zone is found by its name.
pub proof fn lemma_created_zone_is_found(zones: Seq<ZoneModel>, zone: ZoneModel)
    requires
        store::zone_with_name(zones, zone.name) is None,
    ensures
        store::zone_with_name(zones.push(zone), zone.name) == Some(zone),
    decreases zones.len(),
{
    let out = zones.push(zone);
    if zones.len() > 0 {
        assert(out[0] == zones[0]);
        assert(out.drop_first() == zones.drop_first().push(zone));
        lemma_created_zone_is_found(zones.drop_first(), zone);
    }
}

/// Setting a serial changes the serial of the zone with the id and nothing else: ids, names and times
/// stay, and so does every other zone.
pub proof fn lemma_set_serial(zones: Seq<ZoneModel>, id: Seq<char>, serial: i64)
    ensures
        store::with_serial(zones, id, serial) is Some <==> store::zone_with_id(zones, id) is Some,
        store::with_serial(zones, id, serial) matches Some(out) ==> {
            &&& out.len() == zones.len()
            &&& forall|i: int|
                0 <= i < zones.len() ==> (#[trigger] out[i]).id == zones[i].id && out[i].name
                    == zones[i].name && out[i].created_at == zones[i].created_at
            &&& forall|i: int|
                0 <= i < zones.len() && zones[i].id != id ==> #[trigger] out[i] == zones[i]
            &&& store::zone_with_id(out, id) == Some(
                ZoneModel { serial, ..store::zone_with_id(zones, id).unwrap() },
            )
        },
    decreases zones.len(),
{
    if zones.len() > 0 {
        let rest = zones.drop_first();
        if zones[0].id == id {
            let out = seq![ZoneModel { serial, ..zones[0] }] + rest;
            assert(out[0].id == id);
            assert forall|i: int| 0 < i < zones.len() implies #[trigger] out[i] == zones[i] by {
                assert(rest[i - 1] == zones[i]);
            }
        } else {
            lemma_set_serial(rest, id, serial);
            if let Some(tail) = store::with_serial(rest, id, serial) {
                let out = seq![zones[0]] + tail;
                assert(out.drop_first() == tail);
                assert(out[0] == zones[0]);
                assert forall|i: int| 0 <= i < zones.len() implies (#[trigger] out[i]).id
                    == zones[i].id && out[i].name == zones[i].name && out[i].created_at
                    == zones[i].created_at && (zones[i].id != id ==> out[i] == zones[i]) by {
                    if i > 0 {
                        assert(out[i] == tail[i - 1]);
                        assert(rest[i - 1] == zones[i]);
                    }
                }
            }
        }
    }
}

// ---------------------------------------------------------------------------
// Records
// ---------------------------------------------------------------------------

/// A record is found by its id if and only if some record has that id, and what is found has it.
pub proof fn lemma_record_by_id(records: Seq<RecordModel>, id: Seq<char>)
    ensures
        store::record_with_id(records, id) is Some <==> exists|i: int|
            0 <= i < records.len() && (#[trigger] records[i]).id == id,
        store::record_with_id(records, id) matches Some(r) ==> r.id == id,
    decreases records.len(),
{
    if records.len() > 0 {
        let rest = records.drop_first();
        if records[0].id != id {
            lemma_record_by_id(rest, id);
            assert forall|i: int| 0 <= i < records.len() && (#[trigger] records[i]).id
                == id implies exists|k: int| 0 <= k < rest.len() && (#[trigger] rest[k]).id
                == id by {
                assert(rest[i - 1] == records[i]);
            }
            if exists|k: int| 0 <= k < rest.len() && (#[trigger] rest[k]).id == id {
                let k = choose|k: int| 0 <= k < rest.len() && (#[trigger] rest[k]).id == id;
                assert(records[k + 1] == rest[k]);
            }
        }
    }
}

/// A created record is found by its id, where the id is fresh.
pub proof fn lemma_created_record_is_found(records: Seq<RecordModel>, record: RecordModel)
    requires
        store::record_with_id(records, record.id) is None,
    ensures
        store::record_with_id(records.push(record), record.id) == Some(record),
    decreases records.len(),
{
    let out = records.push(record);
    if records.len() > 0 {
        assert(out[0] == records[0]);
        assert(out.drop_first() == records.drop_first().push(record));
        lemma_created_record_is_found(records.drop_first(), record);
    }
}

/// A deleted record is gone, and no record with another id is.
pub proof fn lemma_deleted_record_is_gone(records: Seq<RecordModel>, id: Seq<char>)
    ensures
        store::record_with_id(store::records_but(records, id), id) is None,
        forall|i: int|
            0 <= i < records.len() && records[i].id != id ==> store::records_but(
                records,
                id,
            ).contains(#[trigger] records[i]),
{
    let p = |r: RecordModel| r.id != id;
    let out = store::records_but(records, id);
    lemma_record_by_id(out, id);
    assert forall|i: int| 0 <= i < out.len() implies (#[trigger] out[i]).id != id by {
        records.lemma_filter_pred(p, i);
    }
    assert forall|i: int| 0 <= i < records.len() && records[i].id != id implies out.contains(
        #[trigger] records[i],
    ) by {
        records.lemma_filter_contains(p, i);
    }
}

/// Deleting a record that was just added under a fresh id undoes the addition.
pub proof fn lemma_delete_undoes_add(records: Seq<RecordModel>, record: RecordModel)
    requires
        store::record_with_id(records, record.id) is None,
    ensures
        store::records_but(records.push(record), record.id) == records,
{
    let p = |r: RecordModel| r.id != record.id;
    lemma_record_by_id(records, record.id);
    reveal(Seq::filter);
    assert(records.push(record).drop_last() == records);
    lemma_filter_all(records, p);
}

/// A filter that all items pass changes nothing.
proof fn lemma_filter_all<A>(s: Seq<A>, p: spec_fn(A) -> bool)
    requires
        forall|i: int| 0 <= i < s.len() ==> p(#[trigger] s[i]),
    ensures
        s.filter(p) == s,
    decreases s.len(),
{
    reveal(Seq::filter);
    if s.len() > 0 {
        let init = s.drop_last();
        assert forall|i: int| 0 <= i < init.len() implies p(#[trigger] init[i]) by {
            assert(init[i] == s[i]);
        }
        lemma_filter_all(init, p);
        assert(p(s[s.len() - 1]));
        assert(init.push(s.last()) == s);
    }
}

/// A filter that no item passes leaves nothing.
proof fn lemma_filter_none<A>(s: Seq<A>, p: spec_fn(A) -> bool)
    requires
        forall|i: int| 0 <= i < s.len() ==> !p(#[trigger] s[i]),
    ensures
        s.filter(p) == Seq::<A>::empty(),
    decreases s.len(),
{
    reveal(Seq::filter);
    if s.len() > 0 {
        let init = s.drop_last();
        assert forall|i: int| 0 <= i < init.len() implies !p(#[trigger] init[i]) by {
            assert(init[i] == s[i]);
        }
        lemma_filter_none(init, p);
        assert(!p(s[s.len() - 1]));
    }
}

/// Two filters in a row are one filter by both.
proof fn lemma_filter_twice<A>(
    s: Seq<A>,
    p: spec_fn(A) -> bool,
    q: spec_fn(A) -> bool,
    both: spec_fn(A) -> bool,
)
    requires
        forall|x: A| #[trigger] both(x) == (p(x) && q(x)),
    ensures
        s.filter(p).filter(q) == s.filter(both),
    decreases s.len(),
{
    reveal(Seq::filter);
    if s.len() > 0 {
        let init = s.drop_last();
        lemma_filter_twice(init, p, q, both);
        assert(both(s.last()) == (p(s.last()) && q(s.last())));
        if p(s.last()) {
            assert(init.filter(p).push(s.last()).drop_last() == init.filter(p));
        }
    } else {
        assert(s.filter(p).filter(q) =~= s.filter(both));
    }
}

/// Replacing the records of a zone leaves exactly the new ones in it, and every other zone as it was.
pub proof fn lemma_replace_records(
    records: Seq<RecordModel>,
    zone_id: Seq<char>,
    fresh: Seq<RecordModel>,
    other: Seq<char>,
)
    requires
        forall|i: int| 0 <= i < fresh.len() ==> (#[trigger] fresh[i]).zone_id == zone_id,
        other != zone_id,
    ensures
        store::records_of(store::records_of_others(records, zone_id) + fresh, zone_id) == fresh,
        store::records_of(store::records_of_others(records, zone_id) + fresh, other)
            == store::records_of(records, other),
{
    let others = store::records_of_others(records, zone_id);
    let mine = |r: RecordModel| r.zone_id == zone_id;
    let not_mine = |r: RecordModel| r.zone_id != zone_id;
    let theirs = |r: RecordModel| r.zone_id == other;
    Seq::filter_distributes_over_add(others, fresh, mine);
    Seq::filter_distributes_over_add(others, fresh, theirs);
    assert forall|i: int| 0 <= i < others.len() implies !mine(#[trigger] others[i]) by {
        records.lemma_filter_pred(not_mine, i);
    }
    lemma_filter_none(others, mine);
    lemma_filter_all(fresh, mine);
    assert(Seq::<RecordModel>::empty() + fresh == fresh);
    lemma_filter_none(fresh, theirs);
    lemma_filter_twice(records, not_mine, theirs, theirs);
    assert(records.filter(theirs) + Seq::<RecordModel>::empty() == records.filter(theirs));
}

/// Adding a record to a zone changes no other zone.
pub proof fn lemma_add_keeps_other_zones(
    records: Seq<RecordModel>,
    record: RecordModel,
    other: Seq<char>,
)
    ensures
        other != record.zone_id ==> store::records_of(records.push(record), other)
            == store::records_of(records, other),
        store::records_of(records.push(record), record.zone_id) == store::records_of(
            records,
            record.zone_id,
        ).push(record),
{
    reveal(Seq::filter);
    assert(records.push(record).drop_last() == records);
}

/// Deleting a record deletes it in its zone: it does not matter whether the zone is picked first.
pub proof fn lemma_delete_in_zone(records: Seq<RecordModel>, id: Seq<char>, zone_id: Seq<char>)
    ensures
        store::records_of(store::records_but(records, id), zone_id) == store::records_but(
            store::records_of(records, zone_id),
            id,
        ),
{
    let kept = |r: RecordModel| r.id != id;
    let mine = |r: RecordModel| r.zone_id == zone_id;
    let both = |r: RecordModel| r.id != id && r.zone_id == zone_id;
    lemma_filter_twice(records, kept, mine, both);
    lemma_filter_twice(records, mine, kept, both);
}

// ---------------------------------------------------------------------------
// Listings
// ---------------------------------------------------------------------------

/// Zones are ordered by name, consistently.
pub proof fn lemma_zone_order()
    ensures
        order::is_total_preorder::<ByZoneName>(),
{
    assert forall|a: ZoneModel, b: ZoneModel| #![trigger ByZoneName::le(a, b)] ByZoneName::le(a, b)
        || ByZoneName::le(b, a) by {
        order::lemma_lex_total(a.name, b.name);
    }
    assert forall|a: ZoneModel, b: ZoneModel, c: ZoneModel|
        #![trigger ByZoneName::le(a, b), ByZoneName::le(b, c)]
        ByZoneName::le(a, b) && ByZoneName::le(b, c) implies ByZoneName::le(a, c) by {
        order::lemma_lex_transitive(a.name, b.name, c.name);
    }
}

/// Records are ordered by name and type, consistently.
pub proof fn lemma_record_order()
    ensures
        order::is_total_preorder::<ByNameAndType>(),
{
    assert forall|a: RecordModel, b: RecordModel|
        #![trigger ByNameAndType::le(a, b)]
        ByNameAndType::le(a, b) || ByNameAndType::le(b, a) by {
        order::lemma_lex_total(a.name, b.name);
        order::lemma_lex_total(a.rtype, b.rtype);
    }
    assert forall|a: RecordModel, b: RecordModel, c: RecordModel|
        #![trigger ByNameAndType::le(a, b), ByNameAndType::le(b, c)]
        ByNameAndType::le(a, b) && ByNameAndType::le(b, c) implies ByNameAndType::le(a, c) by {
        if a.name == b.name && b.name == c.name {
            order::lemma_lex_transitive(a.rtype, b.rtype, c.rtype);
        } else if a.name != b.name && b.name != c.name {
            order::lemma_lex_transitive(a.name, b.name, c.name);
            if a.name == c.name {
                order::lemma_lex_antisymmetric(a.name, b.name);
            }
        }
    }
}

/// History entries are ordered by time, consistently.
pub proof fn lemma_history_order()
    ensures
        order::is_total_preorder::<NewestFirst>(),
{
}

/// Whether `listed` is the start of an ordered permutation of `all`, and all of it where `limit`
/// allows.
pub open spec fn is_listing<O: Order>(
    listed: Seq<<O::Item as View>::V>,
    all: Seq<<O::Item as View>::V>,
    limit: int,
) -> bool {
    &&& listed.len() == if all.len() > limit {
        limit
    } else {
        all.len() as int
    }
    &&& order::in_order::<O>(listed)
    &&& listed.to_multiset().subset_of(all.to_multiset())
    &&& all.len() <= limit ==> listed.to_multiset() == all.to_multiset()
}

/// The first items of a sorted list are a listing.
proof fn lemma_capped_listing<O: Order>(all: Seq<<O::Item as View>::V>, limit: int)
    requires
        0 <= limit,
        order::is_total_preorder::<O>(),
    ensures
        is_listing::<O>(store::capped(order::sorted::<O>(all), limit), all, limit),
{
    broadcast use vstd::seq_lib::group_to_multiset_ensures;
    broadcast use vstd::multiset::group_multiset_axioms;

    let s = order::sorted::<O>(all);
    order::lemma_sorted_permutes::<O>(all);
    order::lemma_sorted_in_order::<O>(all);
    let listed = store::capped(s, limit);
    if s.len() > limit {
        assert forall|i: int, j: int| 0 <= i < j < listed.len() implies O::le(
            #[trigger] listed[i],
            #[trigger] listed[j],
        ) by {
            assert(listed[i] == s[i] && listed[j] == s[j]);
        }
        assert(s == s.take(limit) + s.skip(limit));
        vstd::seq_lib::lemma_multiset_commutative(s.take(limit), s.skip(limit));
        assert(s.to_multiset() == s.take(limit).to_multiset().add(s.skip(limit).to_multiset()));
        assert(listed.to_multiset().subset_of(s.to_multiset()));
    }
}

/// The zones are listed by name, each as often as it is stored, and at most so many as the cap.
pub proof fn lemma_listed_zones(model: StoreModel)
    ensures
        is_listing::<ByZoneName>(model.listed_zones(), model.zones, LIST_LIMIT as int),
{
    lemma_zone_order();
    lemma_capped_listing::<ByZoneName>(model.zones, LIST_LIMIT as int);
}

/// The records of a zone are listed by name and type, and only they.
pub proof fn lemma_listed_records(model: StoreModel, zone_id: Seq<char>)
    ensures
        is_listing::<ByNameAndType>(
            model.listed_records(zone_id),
            store::records_of(model.records, zone_id),
            LIST_LIMIT as int,
        ),
{
    lemma_record_order();
    lemma_capped_listing::<ByNameAndType>(
        store::records_of(model.records, zone_id),
        LIST_LIMIT as int,
    );
}

/// The history of a zone is listed newest first, and only it.
pub proof fn lemma_listed_history(model: StoreModel, zone_id: Seq<char>)
    ensures
        is_listing::<NewestFirst>(
            model.listed_history(zone_id),
            store::history_of(model.history, zone_id),
            store::HISTORY_LIMIT as int,
        ),
{
    lemma_history_order();
    lemma_capped_listing::<NewestFirst>(
        store::history_of(model.history, zone_id),
        store::HISTORY_LIMIT as int,
    );
}

} // verus!

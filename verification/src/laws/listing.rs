//! Which items a listing holds, and in what order.
use crate::handlers::zones as zone_handlers;
use crate::handlers::zones::{ByListedName, ListedModel};
use crate::laws::store as store_laws;
use crate::order;
use crate::order::Order;
use crate::store;
use crate::store::{
    ByNameAndType, ByZoneName, HistoryModel, NewestFirst, RecordModel, StoreModel, ZoneModel,
};
use crate::zonefile::render::ByNameTypeValue;
use vstd::prelude::*;

verus! {

// ---------------------------------------------------------------------------
// Texts in order
// ---------------------------------------------------------------------------

/// Whether `a` and `b` agree in their first `k` characters, and `a` ends there or has the smaller
/// character.
pub open spec fn decided_at(a: Seq<char>, b: Seq<char>, k: int) -> bool {
    &&& 0 <= k <= a.len() && k <= b.len()
    &&& forall|i: int| 0 <= i < k ==> a[i] == b[i]
    &&& k == a.len() || (k < b.len() && a[k] < b[k])
}

/// Whether `a` comes before `b` in a dictionary, or is `b`.
pub open spec fn precedes(a: Seq<char>, b: Seq<char>) -> bool {
    exists|k: int| decided_at(a, b, k)
}

/// Texts are ordered as in a dictionary: by the first character in which they differ, and a text before
/// its continuations.
pub proof fn lemma_lex_means(a: Seq<char>, b: Seq<char>)
    ensures
        order::lex_le(a, b) <==> precedes(a, b),
    decreases a.len(),
{
    if a.len() == 0 {
        assert(decided_at(a, b, 0));
    } else if b.len() > 0 {
        let (s, t) = (a.drop_first(), b.drop_first());
        lemma_lex_means(s, t);
        if a[0] == b[0] {
            if precedes(s, t) {
                let k = choose|k: int| decided_at(s, t, k);
                assert forall|i: int| 0 <= i < k + 1 implies a[i] == b[i] by {
                    if i > 0 {
                        assert(s[i - 1] == a[i] && t[i - 1] == b[i]);
                    }
                }
                assert(k < s.len() ==> s[k] == a[k + 1]);
                assert(k < t.len() ==> t[k] == b[k + 1]);
                assert(decided_at(a, b, k + 1));
            }
            if precedes(a, b) {
                let k = choose|k: int| decided_at(a, b, k);
                assert(k > 0);
                assert forall|i: int| 0 <= i < k - 1 implies s[i] == t[i] by {
                    assert(s[i] == a[i + 1] && t[i] == b[i + 1]);
                }
                assert(k < a.len() ==> s[k - 1] == a[k]);
                assert(k < b.len() ==> t[k - 1] == b[k]);
                assert(decided_at(s, t, k - 1));
            }
        } else {
            if a[0] < b[0] {
                assert(decided_at(a, b, 0));
            }
            if precedes(a, b) {
                let k = choose|k: int| decided_at(a, b, k);
                if k > 0 {
                    assert(a[0] == b[0]);
                }
            }
        }
    }
}

// ---------------------------------------------------------------------------
// Picked items
// ---------------------------------------------------------------------------

/// Whether `out` are the items of `s` at the positions `at`, which are all the positions of items that
/// `p` holds of, in order.
pub open spec fn are_at<A>(out: Seq<A>, at: Seq<int>, s: Seq<A>, p: spec_fn(A) -> bool) -> bool {
    &&& out.len() == at.len()
    &&& forall|i: int|
        0 <= i < at.len() ==> 0 <= #[trigger] at[i] < s.len() && p(s[at[i]]) && out[i] == s[at[i]]
    &&& forall|i: int, j: int| 0 <= i < j < at.len() ==> at[i] < at[j]
    &&& forall|k: int| 0 <= k < s.len() && p(#[trigger] s[k]) ==> at.contains(k)
}

/// Whether `out` are the items of `s` that `p` holds of, each as often as it stands there, and in order.
pub open spec fn are_picked<A>(out: Seq<A>, s: Seq<A>, p: spec_fn(A) -> bool) -> bool {
    exists|at: Seq<int>| are_at(out, at, s, p)
}

/// A filter picks.
pub proof fn lemma_filter_picks<A>(s: Seq<A>, p: spec_fn(A) -> bool)
    ensures
        are_picked(s.filter(p), s, p),
    decreases s.len(),
{
    reveal(Seq::filter);
    let out = s.filter(p);
    if s.len() == 0 {
        assert(are_at(out, Seq::<int>::empty(), s, p));
    } else {
        let init = s.drop_last();
        lemma_filter_picks(init, p);
        let before = init.filter(p);
        let at = choose|at: Seq<int>| are_at(before, at, init, p);
        let n = init.len() as int;
        if p(s.last()) {
            let more = at.push(n);
            assert forall|i: int| 0 <= i < more.len() implies 0 <= #[trigger] more[i] < s.len()
                && p(s[more[i]]) && out[i] == s[more[i]] by {
                if i < at.len() {
                    assert(more[i] == at[i]);
                    assert(s[at[i]] == init[at[i]]);
                }
            }
            assert forall|i: int, j: int| 0 <= i < j < more.len() implies more[i] < more[j] by {
                assert(more[i] == at[i]);
                if j < at.len() {
                    assert(more[j] == at[j]);
                }
            }
            assert forall|k: int| 0 <= k < s.len() && p(#[trigger] s[k]) implies more.contains(
                k,
            ) by {
                if k < n {
                    assert(init[k] == s[k]);
                    assert(at.contains(k));
                    let i = choose|i: int| 0 <= i < at.len() && at[i] == k;
                    assert(more[i] == k);
                } else {
                    assert(more[at.len() as int] == k);
                }
            }
            assert(are_at(out, more, s, p));
        } else {
            assert forall|k: int| 0 <= k < s.len() && p(#[trigger] s[k]) implies at.contains(k) by {
                assert(init[k] == s[k]);
            }
            assert(are_at(out, at, s, p));
        }
    }
}

/// The records of a zone are those with its id, the records of the others those without it, and a
/// deletion leaves those with another id: all of them, and in order.
pub proof fn lemma_picked_records(records: Seq<RecordModel>, id: Seq<char>)
    ensures
        are_picked(store::records_of(records, id), records, |r: RecordModel| r.zone_id == id),
        are_picked(
            store::records_of_others(records, id),
            records,
            |r: RecordModel| !(r.zone_id == id),
        ),
        are_picked(store::records_but(records, id), records, |r: RecordModel| !(r.id == id)),
{
    let mine = |r: RecordModel| r.zone_id == id;
    let others = |r: RecordModel| r.zone_id != id;
    let left = |r: RecordModel| r.id != id;
    lemma_filter_picks(records, mine);
    lemma_filter_picks(records, others);
    lemma_filter_picks(records, left);
    let a = choose|at: Seq<int>| are_at(store::records_of(records, id), at, records, mine);
    let b = choose|at: Seq<int>| are_at(store::records_of_others(records, id), at, records, others);
    let c = choose|at: Seq<int>| are_at(store::records_but(records, id), at, records, left);
    assert(are_at(store::records_of(records, id), a, records, |r: RecordModel| r.zone_id == id));
    assert(are_at(
        store::records_of_others(records, id),
        b,
        records,
        |r: RecordModel| !(r.zone_id == id),
    ));
    assert(are_at(store::records_but(records, id), c, records, |r: RecordModel| !(r.id == id)));
}

/// The history of a zone are the entries with its id, in order.
pub proof fn lemma_picked_history(history: Seq<HistoryModel>, id: Seq<char>)
    ensures
        are_picked(store::history_of(history, id), history, |h: HistoryModel| h.zone_id == id),
{
    let mine = |h: HistoryModel| h.zone_id == id;
    lemma_filter_picks(history, mine);
    let a = choose|at: Seq<int>| are_at(store::history_of(history, id), at, history, mine);
    assert(are_at(store::history_of(history, id), a, history, |h: HistoryModel| h.zone_id == id));
}

// ---------------------------------------------------------------------------
// Ordered listings
// ---------------------------------------------------------------------------

/// Whether one record comes before another by name and then by type.
pub open spec fn by_name_and_type(a: RecordModel, b: RecordModel) -> bool {
    if a.name == b.name {
        precedes(a.rtype, b.rtype)
    } else {
        precedes(a.name, b.name)
    }
}

/// Whether `listed` holds the first items of `all` in the order `le`, at most `limit` of them: as many
/// as there are or as the limit allows, in order, and nothing that is left out belongs before them.
pub open spec fn are_first<A>(
    listed: Seq<A>,
    all: Seq<A>,
    limit: int,
    le: spec_fn(A, A) -> bool,
) -> bool {
    &&& listed.len() == if all.len() <= limit {
        all.len() as int
    } else {
        limit
    }
    &&& forall|i: int, j: int|
        0 <= i < j < listed.len() ==> le(#[trigger] listed[i], #[trigger] listed[j])
    &&& listed.to_multiset().subset_of(all.to_multiset())
    &&& forall|i: int, x: A|
        0 <= i < listed.len() && listed.to_multiset().count(x) < all.to_multiset().count(x) ==> le(
            #[trigger] listed[i],
            x,
        ) || !#[trigger] all.contains(x)
}

/// What a cap leaves of a sorted list are its first items.
proof fn lemma_capped_is_first<O: Order>(
    all: Seq<<O::Item as View>::V>,
    limit: int,
    le: spec_fn(<O::Item as View>::V, <O::Item as View>::V) -> bool,
)
    requires
        0 <= limit,
        order::is_total_preorder::<O>(),
        forall|a: <O::Item as View>::V, b: <O::Item as View>::V| #[trigger]
            O::le(a, b) ==> le(a, b),
    ensures
        are_first(store::capped(order::sorted::<O>(all), limit), all, limit, le),
{
    broadcast use vstd::seq_lib::group_to_multiset_ensures;
    broadcast use vstd::multiset::group_multiset_axioms;

    let s = order::sorted::<O>(all);
    let listed = store::capped(s, limit);
    order::lemma_sorted_permutes::<O>(all);
    order::lemma_sorted_in_order::<O>(all);
    assert forall|i: int, j: int| 0 <= i < j < listed.len() implies le(
        #[trigger] listed[i],
        #[trigger] listed[j],
    ) by {
        assert(listed[i] == s[i] && listed[j] == s[j]);
        assert(O::le(s[i], s[j]));
    }
    if s.len() > limit {
        let rest = s.skip(limit);
        assert(s == s.take(limit) + rest);
        vstd::seq_lib::lemma_multiset_commutative(s.take(limit), rest);
        assert(s.to_multiset() == listed.to_multiset().add(rest.to_multiset()));
        assert forall|i: int, x: <O::Item as View>::V|
            0 <= i < listed.len() && listed.to_multiset().count(x) < all.to_multiset().count(
                x,
            ) implies le(#[trigger] listed[i], x) || !#[trigger] all.contains(x) by {
            assert(rest.to_multiset().count(x) > 0);
            assert(rest.contains(x));
            let j = choose|j: int| 0 <= j < rest.len() && rest[j] == x;
            assert(s[limit + j] == x);
            assert(O::le(s[i], s[limit + j]));
        }
    }
}

/// The zones are listed by name, at most 2000 of them.
pub proof fn lemma_zones_by_name(model: StoreModel)
    ensures
        are_first(
            model.listed_zones(),
            model.zones,
            2000,
            |a: ZoneModel, b: ZoneModel| precedes(a.name, b.name),
        ),
{
    let le = |a: ZoneModel, b: ZoneModel| precedes(a.name, b.name);
    assert forall|a: ZoneModel, b: ZoneModel| #[trigger] ByZoneName::le(a, b) implies le(a, b) by {
        lemma_lex_means(a.name, b.name);
    }
    store_laws::lemma_zone_order();
    lemma_capped_is_first::<ByZoneName>(model.zones, 2000, le);
}

/// The records of a zone are listed by name and type, at most 2000 of them.
pub proof fn lemma_records_by_name(model: StoreModel, zone_id: Seq<char>)
    ensures
        are_first(
            model.listed_records(zone_id),
            store::records_of(model.records, zone_id),
            2000,
            |a: RecordModel, b: RecordModel| by_name_and_type(a, b),
        ),
{
    let le = |a: RecordModel, b: RecordModel| by_name_and_type(a, b);
    assert forall|a: RecordModel, b: RecordModel| #[trigger] ByNameAndType::le(a, b) implies le(
        a,
        b,
    ) by {
        lemma_lex_means(a.name, b.name);
        lemma_lex_means(a.rtype, b.rtype);
    }
    store_laws::lemma_record_order();
    lemma_capped_is_first::<ByNameAndType>(store::records_of(model.records, zone_id), 2000, le);
}

/// The history of a zone is listed with the newest entry first, at most 25 entries of it.
pub proof fn lemma_newest_history(model: StoreModel, zone_id: Seq<char>)
    ensures
        are_first(
            model.listed_history(zone_id),
            store::history_of(model.history, zone_id),
            25,
            |a: HistoryModel, b: HistoryModel| a.created_at >= b.created_at,
        ),
{
    let le = |a: HistoryModel, b: HistoryModel| a.created_at >= b.created_at;
    assert forall|a: HistoryModel, b: HistoryModel| #[trigger] NewestFirst::le(a, b) implies le(
        a,
        b,
    ) by {}
    store_laws::lemma_history_order();
    lemma_capped_is_first::<NewestFirst>(store::history_of(model.history, zone_id), 25, le);
}

/// The records of a zone file are in the order of name, type and value, and each of the given ones
/// stands there as often as it is given.
pub proof fn lemma_file_order(records: Seq<RecordModel>)
    ensures
        are_first(
            order::sorted::<ByNameTypeValue>(records),
            records,
            records.len() as int,
            |a: RecordModel, b: RecordModel|
                if a.name == b.name && a.rtype == b.rtype {
                    precedes(a.value, b.value)
                } else {
                    by_name_and_type(a, b)
                },
        ),
{
    let le = |a: RecordModel, b: RecordModel|
        if a.name == b.name && a.rtype == b.rtype {
            precedes(a.value, b.value)
        } else {
            by_name_and_type(a, b)
        };
    assert forall|a: RecordModel, b: RecordModel| #[trigger] ByNameTypeValue::le(a, b) implies le(
        a,
        b,
    ) by {
        lemma_lex_means(a.name, b.name);
        lemma_lex_means(a.rtype, b.rtype);
        lemma_lex_means(a.value, b.value);
    }
    lemma_file_order_total();
    order::lemma_sorted_permutes::<ByNameTypeValue>(records);
    lemma_capped_is_first::<ByNameTypeValue>(records, records.len() as int, le);
}

/// The order of a zone file compares any two records, and consistently.
proof fn lemma_file_order_total()
    ensures
        order::is_total_preorder::<ByNameTypeValue>(),
{
    assert forall|a: RecordModel, b: RecordModel|
        #![trigger ByNameTypeValue::le(a, b)]
        ByNameTypeValue::le(a, b) || ByNameTypeValue::le(b, a) by {
        order::lemma_lex_total(a.name, b.name);
        order::lemma_lex_total(a.rtype, b.rtype);
        order::lemma_lex_total(a.value, b.value);
    }
    assert forall|a: RecordModel, b: RecordModel, c: RecordModel|
        #![trigger ByNameTypeValue::le(a, b), ByNameTypeValue::le(b, c)]
        ByNameTypeValue::le(a, b) && ByNameTypeValue::le(b, c) implies ByNameTypeValue::le(
        a,
        c,
    ) by {
        lemma_then(a.name, b.name, c.name);
        lemma_then(a.rtype, b.rtype, c.rtype);
        lemma_then(a.value, b.value, c.value);
    }
}

/// Three texts in order are in order, and are equal where the first is the last.
proof fn lemma_then(a: Seq<char>, b: Seq<char>, c: Seq<char>)
    ensures
        order::lex_le(a, b) && order::lex_le(b, c) ==> order::lex_le(a, c) && (a == c ==> a == b),
{
    if order::lex_le(a, b) && order::lex_le(b, c) {
        order::lemma_lex_transitive(a, b, c);
        if a == c {
            order::lemma_lex_antisymmetric(a, b);
        }
    }
}

// ---------------------------------------------------------------------------
// The list of all records
// ---------------------------------------------------------------------------

/// The list of all records shows each record once, with the name of its zone, by name and type.
pub proof fn lemma_listing_means(zones: Seq<ZoneModel>, records: Seq<RecordModel>)
    ensures
        ({
            let shown = records.map_values(
                |r: RecordModel|
                    ListedModel {
                        zone: zone_handlers::name_of_zone(zones, r.zone_id),
                        record: r,
                    },
            );
            are_first(
                zone_handlers::listing(zones, records),
                shown,
                shown.len() as int,
                |a: ListedModel, b: ListedModel| by_name_and_type(a.record, b.record),
            )
        }),
{
    let shown = records.map_values(
        |r: RecordModel|
            ListedModel { zone: zone_handlers::name_of_zone(zones, r.zone_id), record: r },
    );
    let le = |a: ListedModel, b: ListedModel| by_name_and_type(a.record, b.record);
    assert forall|a: ListedModel, b: ListedModel| #[trigger] ByListedName::le(a, b) implies le(
        a,
        b,
    ) by {
        lemma_lex_means(a.record.name, b.record.name);
        lemma_lex_means(a.record.rtype, b.record.rtype);
    }
    assert forall|a: ListedModel, b: ListedModel|
        #![trigger ByListedName::le(a, b)]
        ByListedName::le(a, b) || ByListedName::le(b, a) by {
        order::lemma_lex_total(a.record.name, b.record.name);
        order::lemma_lex_total(a.record.rtype, b.record.rtype);
    }
    assert forall|a: ListedModel, b: ListedModel, c: ListedModel|
        #![trigger ByListedName::le(a, b), ByListedName::le(b, c)]
        ByListedName::le(a, b) && ByListedName::le(b, c) implies ByListedName::le(a, c) by {
        lemma_then(a.record.name, b.record.name, c.record.name);
        lemma_then(a.record.rtype, b.record.rtype, c.record.rtype);
    }
    order::lemma_sorted_permutes::<ByListedName>(shown);
    lemma_capped_is_first::<ByListedName>(shown, shown.len() as int, le);
}

/// A record is shown with the name of a zone that has its zone id, and without one where there is none.
pub proof fn lemma_zone_name_shown(zones: Seq<ZoneModel>, id: Seq<char>)
    ensures
        (exists|i: int| 0 <= i < zones.len() && (#[trigger] zones[i]).id == id) ==> exists|i: int|
            0 <= i < zones.len() && (#[trigger] zones[i]).id == id && zone_handlers::name_of_zone(
                zones,
                id,
            ) == zones[i].name,
        (forall|i: int| 0 <= i < zones.len() ==> (#[trigger] zones[i]).id != id)
            ==> zone_handlers::name_of_zone(zones, id).len() == 0,
    decreases zones.len(),
{
    if zones.len() > 0 {
        let init = zones.drop_last();
        let n = init.len() as int;
        lemma_zone_name_shown(init, id);
        if zones.last().id == id {
            assert(zones[n].id == id);
        } else {
            if exists|i: int| 0 <= i < zones.len() && (#[trigger] zones[i]).id == id {
                let i = choose|i: int| 0 <= i < zones.len() && (#[trigger] zones[i]).id == id;
                assert(init[i] == zones[i]);
                let k = choose|i: int|
                    0 <= i < init.len() && (#[trigger] init[i]).id == id
                        && zone_handlers::name_of_zone(init, id) == init[i].name;
                assert(zones[k] == init[k]);
            } else {
                assert forall|i: int| 0 <= i < init.len() implies (#[trigger] init[i]).id != id by {
                    assert(zones[i] == init[i]);
                }
            }
        }
    }
}

/// The list of all records of a store holds every record of it.
pub proof fn lemma_every_record_listed(model: StoreModel, i: int)
    requires
        0 <= i < model.records.len(),
    ensures
        zone_handlers::all_listed(model).len() == model.records.len(),
        exists|k: int|
            0 <= k < zone_handlers::all_listed(model).len() && (#[trigger] zone_handlers::all_listed(
                model,
            )[k]).record == model.records[i],
{
    broadcast use vstd::seq_lib::group_to_multiset_ensures;

    let zones = model.listed_zones();
    let shown = model.records.map_values(
        |r: RecordModel|
            ListedModel { zone: zone_handlers::name_of_zone(zones, r.zone_id), record: r },
    );
    let listed = zone_handlers::all_listed(model);
    order::lemma_sorted_permutes::<ByListedName>(shown);
    assert(shown.contains(shown[i]));
    assert(shown.to_multiset().count(shown[i]) > 0);
    assert(listed.to_multiset().count(shown[i]) > 0);
    assert(listed.contains(shown[i]));
    let k = choose|k: int| 0 <= k < listed.len() && listed[k] == shown[i];
    assert(listed[k].record == model.records[i]);
}

} // verus!

//! Laws of zone edits.
use crate::config;
use crate::config::LIST_LIMIT;
use crate::handlers;
use crate::handlers::zones;
use crate::handlers::zones::{AddForm, ImportForm};
use crate::ids;
use crate::laws::records;
use crate::laws::store as store_laws;
use crate::order;
use crate::seed;
use crate::store;
use crate::store::{ByNameAndType, HistoryModel, RecordModel, StoreModel, ZoneModel};
use crate::zonefile;
use crate::zonefile::ParsedModel;
use vstd::prelude::*;

verus! {

// ---------------------------------------------------------------------------
// Records stay valid
// ---------------------------------------------------------------------------

/// An accepted addition belongs to its zone.
pub proof fn lemma_added_record_belongs(
    zone: ZoneModel,
    existing: Seq<RecordModel>,
    form: AddForm,
    id: Seq<char>,
    now: i64,
)
    ensures
        zones::planned_add(Some(zone), existing, form, id, now) matches Ok(r) ==> {
            &&& r.id == id
            &&& r.zone_id == zone.id
            &&& config::is_within(r.name, zone.name)
            &&& zonefile::is_editable(r.rtype)
            &&& 0 <= r.ttl <= 2_147_483_647
            &&& records::conflict_free(existing.push(r))
        },
{
    records::lemma_owner_within_origin(form.name@, zone.name);
    if let Ok(r) = zones::planned_add(Some(zone), existing, form, id, now) {
        let p = zones::checked_add(Some(zone), existing, form)->Ok_0;
        records::lemma_conflict_ignores_ids(
            existing.push(r),
            existing.push(zones::draft_record(zone.id, p)),
        );
        records::lemma_accepted_iff_conflict_free(existing.push(r));
    }
}

/// A zone without conflicts stays so when a record is added, as long as the listing that the record is
/// held against shows all of the zone.
pub proof fn lemma_add_keeps_zone_valid(
    model: StoreModel,
    form: AddForm,
    id: Seq<char>,
    now: i64,
)
    requires
        store::records_of(model.records, form.zone_id@).len() <= LIST_LIMIT,
    ensures
        zones::store_add(model, form, id, now) matches Ok(r) ==> records::conflict_free(
            store::records_of(model.records.push(r), form.zone_id@),
        ),
{
    broadcast use vstd::seq_lib::group_to_multiset_ensures;

    if let Ok(r) = zones::store_add(model, form, id, now) {
        let zone = store::zone_with_id(model.zones, form.zone_id@).unwrap();
        let mine = store::records_of(model.records, form.zone_id@);
        let listed = model.listed_records(form.zone_id@);
        lemma_found_id(model.zones, form.zone_id@);
        lemma_added_record_belongs(zone, listed, form, id, now);
        store_laws::lemma_listed_records(model, form.zone_id@);
        store_laws::lemma_add_keeps_other_zones(model.records, r, form.zone_id@);
        assert(listed.push(r).to_multiset() == mine.push(r).to_multiset());
        records::lemma_conflict_free_permutation(listed.push(r), mine.push(r));
    }
}

/// A zone that is found by its id has that id.
proof fn lemma_found_id(zones: Seq<ZoneModel>, id: Seq<char>)
    ensures
        store::zone_with_id(zones, id) matches Some(z) ==> z.id == id,
    decreases zones.len(),
{
    if zones.len() > 0 && zones[0].id != id {
        lemma_found_id(zones.drop_first(), id);
    }
}

/// A zone without conflicts stays so when a record is deleted.
pub proof fn lemma_delete_keeps_zone_valid(
    all: Seq<RecordModel>,
    id: Seq<char>,
    zone_id: Seq<char>,
)
    requires
        records::conflict_free(store::records_of(all, zone_id)),
    ensures
        records::conflict_free(store::records_of(store::records_but(all, id), zone_id)),
{
    store_laws::lemma_delete_in_zone(all, id, zone_id);
    records::lemma_conflict_free_filter(
        store::records_of(all, zone_id),
        |r: RecordModel| r.id != id,
    );
}

/// The records of a planned import do not conflict.
pub proof fn lemma_planned_is_conflict_free(
    zone_id: Seq<char>,
    parsed: Seq<ParsedModel>,
    ids: Seq<Seq<char>>,
    now: i64,
)
    ensures
        zones::import_conflict(zone_id, parsed) is None <==> records::conflict_free(
            zones::imported(zone_id, parsed, ids, now),
        ),
{
    let recs = zones::imported(zone_id, parsed, ids, now);
    records::lemma_conflict_ignores_ids(recs, zones::drafts(zone_id, parsed));
    records::lemma_accepted_iff_conflict_free(recs);
}

/// Every record of an import has a fresh id, where there is one for each.
pub proof fn lemma_imported_have_ids(
    zone_id: Seq<char>,
    parsed: Seq<ParsedModel>,
    ids: Seq<Seq<char>>,
    now: i64,
)
    requires
        zones::are_ids("rec"@, ids),
        ids.len() >= parsed.len(),
    ensures
        ({
            let recs = zones::imported(zone_id, parsed, ids, now);
            forall|i: int| 0 <= i < recs.len() ==> ids::is_id("rec"@, (#[trigger] recs[i]).id)
        }),
{
    let recs = zones::imported(zone_id, parsed, ids, now);
    assert forall|i: int| 0 <= i < recs.len() implies ids::is_id(
        "rec"@,
        (#[trigger] recs[i]).id,
    ) by {
        assert(ids::is_id("rec"@, ids[i]));
    }
}

/// After an accepted import the zone holds exactly the imported records, without conflicts, and each
/// of them belongs to the zone. The records of every other zone are as they were.
pub proof fn lemma_import_replaces_zone(
    model: StoreModel,
    form: ImportForm,
    ids: Seq<Seq<char>>,
    now: i64,
    other: Seq<char>,
)
    requires
        other != form.zone_id@,
    ensures
        zones::store_import(model, form, ids, now) matches Ok(recs) ==> {
            let after = store::records_of_others(model.records, form.zone_id@) + recs;
            &&& store::records_of(after, form.zone_id@) == recs
            &&& records::conflict_free(recs)
            &&& recs.len() > 0
            &&& forall|i: int|
                0 <= i < recs.len() ==> config::is_within(
                    (#[trigger] recs[i]).name,
                    store::zone_with_id(model.zones, form.zone_id@).unwrap().name,
                ) && zonefile::is_editable(recs[i].rtype)
            &&& store::records_of(after, other) == store::records_of(model.records, other)
        },
{
    if let Ok(recs) = zones::store_import(model, form, ids, now) {
        let zone = store::zone_with_id(model.zones, form.zone_id@).unwrap();
        let parsed = zonefile::zone_file_records(zone.name, form.zone_file@)->Ok_0;
        records::lemma_zone_file_keeps_to_zone(zone.name, form.zone_file@);
        assert forall|i: int| 0 <= i < recs.len() implies config::is_within(
            (#[trigger] recs[i]).name,
            zone.name,
        ) && zonefile::is_editable(recs[i].rtype) by {
            assert(records::is_zone_record(parsed[i], zone.name));
        }
        lemma_planned_is_conflict_free(form.zone_id@, parsed, ids, now);
        store_laws::lemma_replace_records(model.records, form.zone_id@, recs, other);
    }
}

// ---------------------------------------------------------------------------
// Serials and history
// ---------------------------------------------------------------------------

/// Every edit moves the serial of its zone strictly up, and never behind the time of the edit; no other
/// zone changes. The history grows by one entry at its end.
pub proof fn lemma_edit_bumps_serial(
    model: StoreModel,
    zone: ZoneModel,
    left: Seq<RecordModel>,
    entry: HistoryModel,
)
    requires
        store::zone_with_id(model.zones, zone.id) == Some(zone),
        zone.serial < i64::MAX,
    ensures
        ({
            let after = zones::edited(model, zone, left, entry);
            &&& store::zone_with_id(after.zones, zone.id) matches Some(z) && z.serial > zone.serial
                && z.serial >= entry.created_at && z.name == zone.name
            &&& after.zones.len() == model.zones.len()
            &&& forall|i: int|
                0 <= i < model.zones.len() && model.zones[i].id != zone.id
                    ==> #[trigger] after.zones[i] == model.zones[i]
            &&& after.history == model.history.push(entry)
        }),
{
    store_laws::lemma_set_serial(
        model.zones,
        zone.id,
        zones::bumped(zone.serial, entry.created_at),
    );
}

// ---------------------------------------------------------------------------
// Seeding
// ---------------------------------------------------------------------------

/// Every record of the seed has a fresh id, where there is one for each.
pub proof fn lemma_seeded_have_ids(
    cfg: config::Config,
    zone_id: Seq<char>,
    ids: Seq<Seq<char>>,
    now: i64,
)
    requires
        zones::are_ids("rec"@, ids),
        ids.len() >= seed::SEED_RECORDS,
    ensures
        ({
            let recs = seed::seed_records(cfg, zone_id, ids, now);
            forall|i: int| 0 <= i < recs.len() ==> ids::is_id("rec"@, (#[trigger] recs[i]).id)
        }),
{
    let recs = seed::seed_records(cfg, zone_id, ids, now);
    assert forall|i: int| 0 <= i < recs.len() implies ids::is_id(
        "rec"@,
        (#[trigger] recs[i]).id,
    ) by {
        assert(ids::is_id("rec"@, ids[i]));
    }
}

/// Seeding is idempotent: a store that was seeded is left alone by the next seeding.
pub proof fn lemma_seed_once(
    before: StoreModel,
    between: StoreModel,
    after: StoreModel,
    infallible: bool,
    cfg: config::Config,
    zone_id: Seq<char>,
    ids: Seq<Seq<char>>,
    now: i64,
    next_zone_id: Seq<char>,
    next_ids: Seq<Seq<char>>,
    later: i64,
    again: bool,
)
    requires
        seed::seed_outcome(before, between, infallible, cfg, zone_id, ids, now, true),
        seed::seed_outcome(
            between,
            after,
            infallible,
            cfg,
            next_zone_id,
            next_ids,
            later,
            again,
        ),
    ensures
        !again,
        after == between,
{
}

// ---------------------------------------------------------------------------
// Escaping
// ---------------------------------------------------------------------------

/// Whether `c` has a meaning in HTML text or attributes beyond starting an entity.
pub open spec fn is_markup(c: char) -> bool {
    c == '<' || c == '>' || c == '"' || c == '\''
}

/// An entity holds no markup.
proof fn lemma_entity(c: char)
    ensures
        forall|i: int| 0 <= i < handlers::entity(c).len() ==> !is_markup(
            #[trigger] handlers::entity(c)[i],
        ),
{
    reveal_strlit("&amp;");
    reveal_strlit("&lt;");
    reveal_strlit("&gt;");
    reveal_strlit("&quot;");
    reveal_strlit("&#x27;");
}

/// Escaped text holds no markup.
pub proof fn lemma_escaped_has_no_markup(s: Seq<char>)
    ensures
        forall|i: int| 0 <= i < handlers::escaped(s).len() ==> !is_markup(
            #[trigger] handlers::escaped(s)[i],
        ),
    decreases s.len(),
{
    if s.len() > 0 {
        lemma_escaped_has_no_markup(s.drop_last());
        lemma_entity(s.last());
        let head = handlers::escaped(s.drop_last());
        let e = handlers::entity(s.last());
        assert forall|i: int| 0 <= i < handlers::escaped(s).len() implies !is_markup(
            #[trigger] handlers::escaped(s)[i],
        ) by {
            if i < head.len() {
                assert(handlers::escaped(s)[i] == head[i]);
            } else {
                assert(handlers::escaped(s)[i] == e[i - head.len()]);
            }
        }
    }
}

/// Escaping works character by character.
pub proof fn lemma_escaped_append(a: Seq<char>, b: Seq<char>)
    ensures
        handlers::escaped(a + b) == handlers::escaped(a) + handlers::escaped(b),
    decreases b.len(),
{
    if b.len() == 0 {
        assert(a + b == a);
        assert(handlers::escaped(a) + handlers::escaped(b) == handlers::escaped(a));
    } else {
        lemma_escaped_append(a, b.drop_last());
        assert((a + b).drop_last() == a + b.drop_last());
        assert((a + b).last() == b.last());
        assert(handlers::escaped(a) + handlers::escaped(b.drop_last()) + handlers::entity(b.last())
            == handlers::escaped(a) + (handlers::escaped(b.drop_last()) + handlers::entity(
            b.last(),
        )));
    }
}

} // verus!

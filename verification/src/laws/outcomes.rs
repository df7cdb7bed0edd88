//! What an edit of a zone does to the store, item by item.
use crate::config;
use crate::digits;
use crate::handlers::zones;
use crate::handlers::zones::{
    AddForm, DeleteForm, Edit, EditError, EditErrorModel, ImportForm,
};
use crate::ids;
use crate::laws::listing;
use crate::laws::reading;
use crate::laws::records;
use crate::laws::stored;
use crate::store;
use crate::store::{RecordModel, StoreModel, ZoneModel};
use crate::text;
use crate::zonefile;
use crate::zonefile::ParsedModel;
use vstd::prelude::*;

verus! {

// ---------------------------------------------------------------------------
// Zones and records by id
// ---------------------------------------------------------------------------

/// Whether the zone at `i` is the first with the id `id`.
pub open spec fn is_zone_at(zones: Seq<ZoneModel>, id: Seq<char>, i: int) -> bool {
    &&& 0 <= i < zones.len()
    &&& zones[i].id == id
    &&& forall|k: int| 0 <= k < i ==> (#[trigger] zones[k]).id != id
}

/// Whether no zone has the id `id`.
pub open spec fn no_zone(zones: Seq<ZoneModel>, id: Seq<char>) -> bool {
    forall|k: int| 0 <= k < zones.len() ==> (#[trigger] zones[k]).id != id
}

/// The zone with an id is the first that has it.
pub proof fn lemma_zone_by_id(zones: Seq<ZoneModel>, id: Seq<char>)
    ensures
        match store::zone_with_id(zones, id) {
            Some(z) => exists|i: int| #[trigger] is_zone_at(zones, id, i) && zones[i] == z,
            None => no_zone(zones, id),
        },
    decreases zones.len(),
{
    if zones.len() > 0 {
        if zones[0].id == id {
            assert(is_zone_at(zones, id, 0));
        } else {
            let rest = zones.drop_first();
            lemma_zone_by_id(rest, id);
            match store::zone_with_id(rest, id) {
                Some(z) => {
                    let i = choose|i: int| #[trigger] is_zone_at(rest, id, i) && rest[i] == z;
                    assert forall|k: int| 0 <= k < i + 1 implies (#[trigger] zones[k]).id != id by {
                        if k > 0 {
                            assert(rest[k - 1] == zones[k]);
                        }
                    }
                    assert(is_zone_at(zones, id, i + 1));
                },
                None => {
                    assert forall|k: int| 0 <= k < zones.len() implies (#[trigger] zones[k]).id
                        != id by {
                        if k > 0 {
                            assert(rest[k - 1] == zones[k]);
                        }
                    }
                },
            }
        }
    }
}

/// Whether the record at `i` is the first with the id `id`.
pub open spec fn is_record_at(records: Seq<RecordModel>, id: Seq<char>, i: int) -> bool {
    &&& 0 <= i < records.len()
    &&& records[i].id == id
    &&& forall|k: int| 0 <= k < i ==> (#[trigger] records[k]).id != id
}

/// Whether no record has the id `id`.
pub open spec fn no_record(records: Seq<RecordModel>, id: Seq<char>) -> bool {
    forall|k: int| 0 <= k < records.len() ==> (#[trigger] records[k]).id != id
}

/// The record with an id is the first that has it.
pub proof fn lemma_record_by_id(records: Seq<RecordModel>, id: Seq<char>)
    ensures
        match store::record_with_id(records, id) {
            Some(r) => exists|i: int| #[trigger] is_record_at(records, id, i) && records[i] == r,
            None => no_record(records, id),
        },
    decreases records.len(),
{
    if records.len() > 0 {
        if records[0].id == id {
            assert(is_record_at(records, id, 0));
        } else {
            let rest = records.drop_first();
            lemma_record_by_id(rest, id);
            match store::record_with_id(rest, id) {
                Some(r) => {
                    let i = choose|i: int| #[trigger] is_record_at(rest, id, i) && rest[i] == r;
                    assert forall|k: int| 0 <= k < i + 1 implies (#[trigger] records[k]).id
                        != id by {
                        if k > 0 {
                            assert(rest[k - 1] == records[k]);
                        }
                    }
                    assert(is_record_at(records, id, i + 1));
                },
                None => {
                    assert forall|k: int| 0 <= k < records.len() implies (#[trigger] records[k]).id
                        != id by {
                        if k > 0 {
                            assert(rest[k - 1] == records[k]);
                        }
                    }
                },
            }
        }
    }
}

/// Setting a serial changes the serial of the first zone with the id and nothing else.
proof fn lemma_serial_at(zones: Seq<ZoneModel>, id: Seq<char>, serial: i64, i: int)
    requires
        is_zone_at(zones, id, i),
    ensures
        store::with_serial(zones, id, serial) == Some(
            zones.update(i, ZoneModel { serial, ..zones[i] }),
        ),
    decreases zones.len(),
{
    let out = zones.update(i, ZoneModel { serial, ..zones[i] });
    let rest = zones.drop_first();
    if i == 0 {
        assert(out =~= seq![ZoneModel { serial, ..zones[0] }] + rest);
    } else {
        assert(zones[0].id != id);
        assert forall|k: int| 0 <= k < i - 1 implies (#[trigger] rest[k]).id != id by {
            assert(rest[k] == zones[k + 1]);
        }
        lemma_serial_at(rest, id, serial, i - 1);
        assert(out =~= seq![zones[0]] + rest.update(
            i - 1,
            ZoneModel { serial, ..rest[i - 1] },
        ));
    }
}

// ---------------------------------------------------------------------------
// What every edit does
// ---------------------------------------------------------------------------

/// Whether `after` is `before` after an edit of the zone at `i` at the time `now`: the serial of the
/// zone is one more than before, or the time where that is later; the history has one entry more, by
/// `actor`, with what was done; no other zone changes.
pub open spec fn is_recorded(
    before: StoreModel,
    after: StoreModel,
    i: int,
    actor: Seq<char>,
    action: Seq<char>,
    detail: Seq<char>,
    now: i64,
) -> bool {
    let zone = before.zones[i];
    &&& 0 <= i < before.zones.len()
    &&& now >= 0
    &&& after.zones.len() == before.zones.len()
    &&& forall|k: int|
        0 <= k < before.zones.len() && k != i ==> #[trigger] after.zones[k] == before.zones[k]
    &&& after.zones[i].id == zone.id
    &&& after.zones[i].name == zone.name
    &&& after.zones[i].created_at == zone.created_at
    &&& after.zones[i].serial == if now > zone.serial {
        now as int
    } else {
        zone.serial + 1
    }
    &&& after.history.len() == before.history.len() + 1
    &&& after.history.drop_last() == before.history
    &&& ids::is_id("hist"@, after.history.last().id)
    &&& after.history.last().zone_id == zone.id
    &&& after.history.last().actor == actor
    &&& after.history.last().action == action
    &&& after.history.last().detail == detail
    &&& after.history.last().created_at == now
}

/// An edit is recorded.
proof fn lemma_edited_is_recorded(
    before: StoreModel,
    zone: ZoneModel,
    left: Seq<RecordModel>,
    history_id: Seq<char>,
    actor: Seq<char>,
    action: Seq<char>,
    detail: Seq<char>,
    now: i64,
    i: int,
)
    requires
        is_zone_at(before.zones, zone.id, i),
        before.zones[i] == zone,
        zone.serial < i64::MAX,
        now >= 0,
        ids::is_id("hist"@, history_id),
    ensures
        ({
            let after = zones::edited(
                before,
                zone,
                left,
                zones::entry_model(history_id, zone.id, actor, action, detail, now),
            );
            after.records == left && is_recorded(before, after, i, actor, action, detail, now)
        }),
{
    let entry = zones::entry_model(history_id, zone.id, actor, action, detail, now);
    let after = zones::edited(before, zone, left, entry);
    lemma_serial_at(before.zones, zone.id, zones::bumped(zone.serial, now), i);
    assert(after.history.drop_last() =~= before.history);
}

// ---------------------------------------------------------------------------
// Additions
// ---------------------------------------------------------------------------

/// Whether `rec` is the record that the form writes for `zone` at the time `now`: at its owner name,
/// with its type in upper case, its value as it is stored and its TTL.
pub open spec fn is_from_form(rec: RecordModel, zone: ZoneModel, form: AddForm, now: i64) -> bool {
    &&& ids::is_id("rec"@, rec.id)
    &&& rec.zone_id == zone.id
    &&& stored::is_placed(config::canonical(form.name@), zone.name, rec.name)
    &&& reading::is_record_type(text::trimmed(form.rtype@))
    &&& rec.rtype == text::uppered(text::trimmed(form.rtype@))
    &&& zonefile::stored_value(rec.rtype, form.value@, zone.name) == Ok::<Seq<char>, Seq<char>>(
        rec.value,
    )
    &&& rec.ttl == zonefile::ttl_of(form.ttl@)
    &&& rec.created_at == now
}

/// Whether two of the listed records and `rec` cannot stand in one zone.
pub open spec fn has_clash(existing: Seq<RecordModel>, rec: RecordModel) -> bool {
    let all = existing.push(rec);
    exists|j: int, k: int|
        0 <= j < all.len() && 0 <= k < all.len() && j != k && !records::can_coexist(
            #[trigger] all[j],
            #[trigger] all[k],
        )
}

/// Whether an addition was done: one record more, at the end, that the form writes and that clashes with
/// no other of its zone; everything else as every edit leaves it.
pub open spec fn is_added(
    before: StoreModel,
    after: StoreModel,
    form: AddForm,
    actor: Seq<char>,
    edit: Edit,
    i: int,
    now: i64,
) -> bool {
    let zone = before.zones[i];
    let rec = after.records.last();
    let detail = "add "@ + rec.rtype + " "@ + rec.name + " -> "@ + rec.value;
    &&& is_zone_at(before.zones, form.zone_id@, i)
    &&& after.records.len() == before.records.len() + 1
    &&& after.records.drop_last() == before.records
    &&& is_from_form(rec, zone, form, now)
    &&& !has_clash(before.listed_records(form.zone_id@), rec)
    &&& is_recorded(before, after, i, actor, "add"@, detail, now)
    &&& edit.zone_name@ == zone.name
    &&& edit.detail@ == detail
}

/// An addition that succeeds adds the record of the form, moves the serial up and writes the history.
pub proof fn lemma_added(
    before: StoreModel,
    after: StoreModel,
    form: AddForm,
    actor: Seq<char>,
    edit: Edit,
)
    requires
        zones::serial_can_grow(before, form.zone_id@),
        zones::added_now(before, after, true, form, actor, Ok(edit)),
    ensures
        exists|i: int, now: i64| is_added(before, after, form, actor, edit, i, now),
{
    let r = Ok::<Edit, EditError>(edit);
    let (record_id, history_id, now) = choose|
        record_id: Seq<char>,
        history_id: Seq<char>,
        now: i64,
    |
        ids::is_id("rec"@, record_id) && ids::is_id("hist"@, history_id) && now >= 0
            && #[trigger] zones::add_outcome(
            before,
            after,
            true,
            form,
            actor,
            record_id,
            history_id,
            now,
            r,
        );
    let rec = zones::store_add(before, form, record_id, now)->Ok_0;
    let zone = store::zone_with_id(before.zones, form.zone_id@).unwrap();
    lemma_zone_by_id(before.zones, form.zone_id@);
    let i = choose|i: int| #[trigger]
        is_zone_at(before.zones, form.zone_id@, i) && before.zones[i] == zone;
    lemma_edited_is_recorded(
        before,
        zone,
        before.records.push(rec),
        history_id,
        actor,
        "add"@,
        zones::add_detail(rec),
        now,
        i,
    );
    let p = zones::checked_add(
        Some(zone),
        before.listed_records(form.zone_id@),
        form,
    )->Ok_0;
    reading::lemma_words_of_a_line(text::trimmed(form.rtype@));
    stored::lemma_owner_means(form.name@, zone.name);
    let existing = before.listed_records(form.zone_id@);
    lemma_clash(existing, zones::draft_record(zone.id, p), rec);
    assert(after.records.last() == rec);
    assert(after.records.drop_last() =~= before.records);
    assert(is_added(before, after, form, actor, edit, i, now));
}

/// Whether records clash depends on their names, types and values alone.
proof fn lemma_clash(existing: Seq<RecordModel>, draft: RecordModel, rec: RecordModel)
    requires
        draft.name == rec.name,
        draft.rtype == rec.rtype,
        draft.value == rec.value,
    ensures
        zonefile::set_conflict(existing.push(draft)) is None <==> !has_clash(existing, rec),
{
    records::lemma_conflict_ignores_ids(existing.push(draft), existing.push(rec));
    records::lemma_accepted_means(existing.push(rec));
}

/// An addition that fails changes nothing. It fails for want of a zone if and only if no zone has the
/// id; as invalid if and only if the type is not one that can be edited or the value is refused; and as
/// a conflict only where the record clashes with one of its zone.
pub proof fn lemma_not_added(
    before: StoreModel,
    after: StoreModel,
    infallible: bool,
    form: AddForm,
    actor: Seq<char>,
    e: EditError,
)
    requires
        zones::added_now(before, after, infallible, form, actor, Err(e)),
    ensures
        after == before,
        !(e is Unauthorized),
        e is Store ==> !infallible,
        no_zone(before.zones, form.zone_id@) ==> e@ == EditErrorModel::NotFound("no such zone"@),
        e is NotFound ==> no_zone(before.zones, form.zone_id@),
        forall|i: int| #[trigger]
            is_zone_at(before.zones, form.zone_id@, i) ==> {
                let zone = before.zones[i];
                let t = text::trimmed(form.rtype@);
                let value = zonefile::stored_value(text::uppered(t), form.value@, zone.name);
                &&& !reading::is_record_type(t) ==> e@ == EditErrorModel::InvalidRequest(
                    "unsupported record type: "@ + text::uppered(t),
                )
                &&& reading::is_record_type(t) && value is Err ==> e@
                    == EditErrorModel::InvalidRequest(value->Err_0)
                &&& e is InvalidRequest ==> !reading::is_record_type(t) || value is Err
                &&& e is Conflict ==> exists|rec: RecordModel| #[trigger]
                    has_clash(before.listed_records(form.zone_id@), rec) && stored::is_placed(
                        config::canonical(form.name@),
                        zone.name,
                        rec.name,
                    ) && rec.rtype == text::uppered(t) && value == Ok::<Seq<char>, Seq<char>>(
                        rec.value,
                    )
            },
{
    let zone = store::zone_with_id(before.zones, form.zone_id@);
    let existing = before.listed_records(form.zone_id@);
    lemma_zone_by_id(before.zones, form.zone_id@);
    let t = text::trimmed(form.rtype@);
    reading::lemma_words_of_a_line(t);
    if no_zone(before.zones, form.zone_id@) {
        assert(zone is None);
    }
    assert forall|i: int| #[trigger] is_zone_at(before.zones, form.zone_id@, i) implies zone == Some(
        before.zones[i],
    ) by {
        let j = choose|j: int| #[trigger]
            is_zone_at(before.zones, form.zone_id@, j) && before.zones[j] == zone.unwrap();
        if i < j {
            assert(before.zones[i].id != form.zone_id@);
        }
        if j < i {
            assert(before.zones[j].id != form.zone_id@);
        }
    }
    if let Some(z) = zone {
        stored::lemma_owner_means(form.name@, z.name);
        if e is Conflict {
            let p = zones::form_draft(z, form)->Ok_0;
            let rec = zones::draft_record(z.id, p);
            lemma_clash(existing, rec, rec);
            assert(has_clash(existing, rec));
        }
    }
}

// ---------------------------------------------------------------------------
// Deletions
// ---------------------------------------------------------------------------

/// Whether a deletion was done: the records with the id are gone, all others are there in order, and
/// where the record has a zone, everything else is as every edit leaves it.
pub open spec fn is_deleted(
    before: StoreModel,
    after: StoreModel,
    form: DeleteForm,
    actor: Seq<char>,
    edit: Edit,
    at: int,
    i: int,
    now: i64,
) -> bool {
    let rec = before.records[at];
    let detail = "delete "@ + rec.rtype + " "@ + rec.name + " -> "@ + rec.value;
    &&& is_record_at(before.records, form.id@, at)
    &&& listing::are_picked(
        after.records,
        before.records,
        |r: RecordModel| !(r.id == form.id@),
    )
    &&& edit.detail@ == detail
    &&& if no_zone(before.zones, rec.zone_id) {
        after.zones == before.zones && after.history == before.history && edit.zone_name@.len()
            == 0
    } else {
        &&& is_zone_at(before.zones, rec.zone_id, i)
        &&& is_recorded(before, after, i, actor, "delete"@, detail, now)
        &&& edit.zone_name@ == before.zones[i].name
    }
}

/// A deletion that succeeds takes the record away, and nothing else, moves the serial up and writes the
/// history.
pub proof fn lemma_deleted(
    before: StoreModel,
    after: StoreModel,
    form: DeleteForm,
    actor: Seq<char>,
    edit: Edit,
)
    requires
        zones::zone_of_record(before, form.id@) matches Some(z) ==> z.serial < i64::MAX,
        zones::deleted_now(before, after, true, form, actor, Ok(edit)),
    ensures
        exists|at: int, i: int, now: i64|
            is_deleted(before, after, form, actor, edit, at, i, now),
{
    let r = Ok::<Edit, EditError>(edit);
    lemma_record_by_id(before.records, form.id@);
    let rec = store::record_with_id(before.records, form.id@).unwrap();
    let at = choose|at: int| #[trigger]
        is_record_at(before.records, form.id@, at) && before.records[at] == rec;
    listing::lemma_picked_records(before.records, form.id@);
    lemma_zone_by_id(before.zones, rec.zone_id);
    let left = store::records_but(before.records, form.id@);
    match store::zone_with_id(before.zones, rec.zone_id) {
        None => {
            assert(is_deleted(before, after, form, actor, edit, at, 0, 0));
        },
        Some(zone) => {
            let (history_id, now) = choose|history_id: Seq<char>, now: i64|
                ids::is_id("hist"@, history_id) && now >= 0 && #[trigger] zones::delete_outcome(
                    before,
                    after,
                    true,
                    form,
                    actor,
                    history_id,
                    now,
                    r,
                );
            let i = choose|i: int| #[trigger]
                is_zone_at(before.zones, rec.zone_id, i) && before.zones[i] == zone;
            lemma_edited_is_recorded(
                before,
                zone,
                left,
                history_id,
                actor,
                "delete"@,
                zones::delete_detail(rec),
                now,
                i,
            );
            assert(before.zones[i].id == rec.zone_id);
            assert(is_deleted(before, after, form, actor, edit, at, i, now));
        },
    }
}

/// A deletion that fails changes nothing; it fails for want of a record if and only if no record has
/// the id.
pub proof fn lemma_not_deleted(
    before: StoreModel,
    after: StoreModel,
    infallible: bool,
    form: DeleteForm,
    actor: Seq<char>,
    e: EditError,
)
    requires
        zones::deleted_now(before, after, infallible, form, actor, Err(e)),
    ensures
        after == before,
        no_record(before.records, form.id@) ==> e@ == EditErrorModel::NotFound("no such record"@),
        !no_record(before.records, form.id@) ==> e is System || (e is Store && !infallible),
{
    lemma_record_by_id(before.records, form.id@);
}

// ---------------------------------------------------------------------------
// Imports
// ---------------------------------------------------------------------------

/// Whether `rec` is the record `p` of a zone file, stored in `zone` at the time `now`.
pub open spec fn is_from_file(rec: RecordModel, zone: ZoneModel, p: ParsedModel, now: i64) -> bool {
    &&& ids::is_id("rec"@, rec.id)
    &&& rec.zone_id == zone.id
    &&& rec.name == p.name
    &&& rec.rtype == p.rtype
    &&& rec.value == p.value
    &&& rec.ttl == p.ttl
    &&& rec.created_at == now
}

/// Whether an import was done: the records of the other zones are there in order, behind them the
/// records of the file in order, and none of the records that the zone had before.
pub open spec fn is_imported(
    before: StoreModel,
    after: StoreModel,
    form: ImportForm,
    actor: Seq<char>,
    edit: Edit,
    i: int,
    now: i64,
) -> bool {
    let zone = before.zones[i];
    let parsed = zonefile::zone_file_records(zone.name, form.zone_file@)->Ok_0;
    let others = after.records.len() - parsed.len();
    let detail = "import BIND zone file ("@ + digits::decimal(parsed.len()) + " records)"@;
    &&& is_zone_at(before.zones, form.zone_id@, i)
    &&& zonefile::zone_file_records(zone.name, form.zone_file@) is Ok
    &&& parsed.len() > 0
    &&& others >= 0
    &&& listing::are_picked(
        after.records.take(others),
        before.records,
        |r: RecordModel| !(r.zone_id == form.zone_id@),
    )
    &&& forall|k: int|
        0 <= k < parsed.len() ==> is_from_file(
            #[trigger] after.records[others + k],
            zone,
            parsed[k],
            now,
        )
    &&& forall|j: int, k: int|
        others <= j < after.records.len() && others <= k < after.records.len() && j != k
            ==> records::can_coexist(#[trigger] after.records[j], #[trigger] after.records[k])
    &&& is_recorded(before, after, i, actor, "import"@, detail, now)
    &&& edit.zone_name@ == zone.name
    &&& edit.detail@ == detail
}

/// An import that succeeds puts the records of the file in the place of those of the zone, moves the
/// serial up and writes the history.
pub proof fn lemma_imported(
    before: StoreModel,
    after: StoreModel,
    form: ImportForm,
    actor: Seq<char>,
    edit: Edit,
)
    requires
        zones::serial_can_grow(before, form.zone_id@),
        zones::imported_now(before, after, true, form, actor, Ok(edit)),
    ensures
        exists|i: int, now: i64| is_imported(before, after, form, actor, edit, i, now),
{
    let r = Ok::<Edit, EditError>(edit);
    let parsed = zones::store_import_check(before, form)->Ok_0;
    let (record_ids, history_id, now) = choose|
        record_ids: Seq<Seq<char>>,
        history_id: Seq<char>,
        now: i64,
    |
        record_ids.len() == parsed.len() && zones::are_ids("rec"@, record_ids) && ids::is_id(
            "hist"@,
            history_id,
        ) && now >= 0 && #[trigger] zones::import_outcome(
            before,
            after,
            true,
            form,
            actor,
            record_ids,
            history_id,
            now,
            r,
        );
    let recs = zones::store_import(before, form, record_ids, now)->Ok_0;
    let zone = store::zone_with_id(before.zones, form.zone_id@).unwrap();
    lemma_zone_by_id(before.zones, form.zone_id@);
    let i = choose|i: int| #[trigger]
        is_zone_at(before.zones, form.zone_id@, i) && before.zones[i] == zone;
    assert(zone.id == form.zone_id@);
    let others = store::records_of_others(before.records, zone.id);
    lemma_edited_is_recorded(
        before,
        zone,
        others + recs,
        history_id,
        actor,
        "import"@,
        zones::import_detail(recs.len()),
        now,
        i,
    );
    listing::lemma_picked_records(before.records, form.zone_id@);
    assert(recs.len() == parsed.len());
    assert(after.records.take(others.len() as int) =~= others);
    assert forall|k: int| 0 <= k < parsed.len() implies is_from_file(
        #[trigger] after.records[others.len() + k],
        zone,
        parsed[k],
        now,
    ) by {
        assert(after.records[others.len() + k] == recs[k]);
        assert(ids::is_id("rec"@, record_ids[k]));
    }
    records::lemma_conflict_ignores_ids(recs, zones::drafts(form.zone_id@, parsed));
    records::lemma_accepted_means(recs);
    assert forall|j: int, k: int|
        others.len() <= j < after.records.len() && others.len() <= k < after.records.len() && j
            != k implies records::can_coexist(
        #[trigger] after.records[j],
        #[trigger] after.records[k],
    ) by {
        assert(after.records[j] == recs[j - others.len()]);
        assert(after.records[k] == recs[k - others.len()]);
    }
    assert(is_imported(before, after, form, actor, edit, i, now));
}

/// An import that fails changes nothing. It fails for want of a zone if and only if no zone has the id;
/// as invalid if and only if the file cannot be read or holds no record; and as a conflict if and only
/// if two of its records clash.
pub proof fn lemma_not_imported(
    before: StoreModel,
    after: StoreModel,
    infallible: bool,
    form: ImportForm,
    actor: Seq<char>,
    e: EditError,
)
    requires
        zones::imported_now(before, after, infallible, form, actor, Err(e)),
    ensures
        after == before,
        e is Store ==> !infallible,
        no_zone(before.zones, form.zone_id@) ==> e@ == EditErrorModel::NotFound("no such zone"@),
        e is NotFound ==> no_zone(before.zones, form.zone_id@),
        forall|i: int| #[trigger]
            is_zone_at(before.zones, form.zone_id@, i) ==> match zonefile::zone_file_records(
                before.zones[i].name,
                form.zone_file@,
            ) {
                Err(m) => e@ == EditErrorModel::InvalidRequest(m),
                Ok(parsed) => {
                    let clash = exists|j: int, k: int|
                        0 <= j < parsed.len() && 0 <= k < parsed.len() && j != k
                            && !records::can_coexist(
                            zones::draft_record(form.zone_id@, #[trigger] parsed[j]),
                            zones::draft_record(form.zone_id@, #[trigger] parsed[k]),
                        );
                    &&& parsed.len() == 0 <==> e@ == EditErrorModel::InvalidRequest(
                        "zone file contains no supported records"@,
                    )
                    &&& parsed.len() > 0 && clash <==> e is Conflict
                },
            },
{
    let zone = store::zone_with_id(before.zones, form.zone_id@);
    lemma_zone_by_id(before.zones, form.zone_id@);
    assert forall|i: int| #[trigger] is_zone_at(before.zones, form.zone_id@, i) implies zone == Some(
        before.zones[i],
    ) by {
        let j = choose|j: int| #[trigger]
            is_zone_at(before.zones, form.zone_id@, j) && before.zones[j] == zone.unwrap();
        if i < j {
            assert(before.zones[i].id != form.zone_id@);
        }
        if j < i {
            assert(before.zones[j].id != form.zone_id@);
        }
    }
    if let Some(z) = zone {
        if let Ok(parsed) = zonefile::zone_file_records(z.name, form.zone_file@) {
            let drafts = zones::drafts(form.zone_id@, parsed);
            records::lemma_accepted_means(drafts);
            assert forall|j: int| 0 <= j < parsed.len() implies #[trigger] drafts[j]
                == zones::draft_record(form.zone_id@, parsed[j]) by {}
            if exists|j: int, k: int|
                0 <= j < drafts.len() && 0 <= k < drafts.len() && j != k && !records::can_coexist(
                    #[trigger] drafts[j],
                    #[trigger] drafts[k],
                ) {
                let (j, k) = choose|j: int, k: int|
                    0 <= j < drafts.len() && 0 <= k < drafts.len() && j != k
                        && !records::can_coexist(#[trigger] drafts[j], #[trigger] drafts[k]);
                assert(!records::can_coexist(
                    zones::draft_record(form.zone_id@, parsed[j]),
                    zones::draft_record(form.zone_id@, parsed[k]),
                ));
            }
            if exists|j: int, k: int|
                0 <= j < parsed.len() && 0 <= k < parsed.len() && j != k && !records::can_coexist(
                    zones::draft_record(form.zone_id@, #[trigger] parsed[j]),
                    zones::draft_record(form.zone_id@, #[trigger] parsed[k]),
                ) {
                let (j, k) = choose|j: int, k: int|
                    0 <= j < parsed.len() && 0 <= k < parsed.len() && j != k
                        && !records::can_coexist(
                        zones::draft_record(form.zone_id@, #[trigger] parsed[j]),
                        zones::draft_record(form.zone_id@, #[trigger] parsed[k]),
                    );
                assert(!records::can_coexist(drafts[j], drafts[k]));
            }
        }
    }
}

// ---------------------------------------------------------------------------
// Backends that fail
// ---------------------------------------------------------------------------

/// Whether `after` is what an edit of the zone at `i` may leave where the backend fails behind the
/// change of the records: the zones are as they were, or as the edit leaves them, and so is the history.
pub open spec fn is_partly_recorded(
    before: StoreModel,
    after: StoreModel,
    i: int,
    actor: Seq<char>,
    action: Seq<char>,
    detail: Seq<char>,
    now: i64,
) -> bool {
    exists|full: StoreModel|
        {
            &&& #[trigger] is_recorded(before, full, i, actor, action, detail, now)
            &&& after.zones == before.zones || after.zones == full.zones
            &&& after.history == before.history || after.history == full.history
        }
}

/// Whether an addition was done as far as the records go: one record more, at the end, that the form
/// writes; everything else as an edit may leave it.
pub open spec fn is_added_anyway(
    before: StoreModel,
    after: StoreModel,
    form: AddForm,
    actor: Seq<char>,
    i: int,
    now: i64,
) -> bool {
    let rec = after.records.last();
    let detail = "add "@ + rec.rtype + " "@ + rec.name + " -> "@ + rec.value;
    &&& is_zone_at(before.zones, form.zone_id@, i)
    &&& after.records.len() == before.records.len() + 1
    &&& after.records.drop_last() == before.records
    &&& is_from_form(rec, before.zones[i], form, now)
    &&& is_partly_recorded(before, after, i, actor, "add"@, detail, now)
}

/// An addition that is reported as done has added the record of the form, whatever else the backend has
/// failed to write.
pub proof fn lemma_added_anyway(
    before: StoreModel,
    after: StoreModel,
    infallible: bool,
    form: AddForm,
    actor: Seq<char>,
    edit: Edit,
)
    requires
        zones::serial_can_grow(before, form.zone_id@),
        zones::added_now(before, after, infallible, form, actor, Ok(edit)),
    ensures
        exists|i: int, now: i64| is_added_anyway(before, after, form, actor, i, now),
{
    let r = Ok::<Edit, EditError>(edit);
    let (record_id, history_id, now) = choose|
        record_id: Seq<char>,
        history_id: Seq<char>,
        now: i64,
    |
        ids::is_id("rec"@, record_id) && ids::is_id("hist"@, history_id) && now >= 0
            && #[trigger] zones::add_outcome(
            before,
            after,
            infallible,
            form,
            actor,
            record_id,
            history_id,
            now,
            r,
        );
    let rec = zones::store_add(before, form, record_id, now)->Ok_0;
    let zone = store::zone_with_id(before.zones, form.zone_id@).unwrap();
    lemma_zone_by_id(before.zones, form.zone_id@);
    let i = choose|i: int| #[trigger]
        is_zone_at(before.zones, form.zone_id@, i) && before.zones[i] == zone;
    let entry = zones::entry_model(
        history_id,
        zone.id,
        actor,
        "add"@,
        zones::add_detail(rec),
        now,
    );
    let full = zones::edited(before, zone, before.records.push(rec), entry);
    lemma_edited_is_recorded(
        before,
        zone,
        before.records.push(rec),
        history_id,
        actor,
        "add"@,
        zones::add_detail(rec),
        now,
        i,
    );
    reading::lemma_words_of_a_line(text::trimmed(form.rtype@));
    stored::lemma_owner_means(form.name@, zone.name);
    assert(after.records.last() == rec);
    assert(after.records.drop_last() =~= before.records);
    assert(is_recorded(before, full, i, actor, "add"@, zones::add_detail(rec), now));
    assert(is_partly_recorded(before, after, i, actor, "add"@, zones::add_detail(rec), now));
    assert(is_added_anyway(before, after, form, actor, i, now));
}

/// A deletion that is reported as done has taken away the records with the id and no others.
pub proof fn lemma_deleted_anyway(
    before: StoreModel,
    after: StoreModel,
    infallible: bool,
    form: DeleteForm,
    actor: Seq<char>,
    edit: Edit,
)
    requires
        zones::deleted_now(before, after, infallible, form, actor, Ok(edit)),
    ensures
        listing::are_picked(
            after.records,
            before.records,
            |r: RecordModel| !(r.id == form.id@),
        ),
{
    listing::lemma_picked_records(before.records, form.id@);
}

} // verus!

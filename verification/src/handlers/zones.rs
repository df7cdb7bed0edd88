//! Zone editing: add, delete, import and export, the list of records, and the test query.
//!
//! Each edit comes in three layers. A check decides from loaded data alone whether the edit is
//! accepted, before anything has an id. An application takes the ids and the time, carries the edit
//! out on a [`Store`], bumps the serial of the zone and writes its history. The outermost function
//! makes sure that the sender may edit, checks, and only then supplies fresh ids and the time.
use crate::auth;
use crate::auth::{AuthError, Session};
use crate::config;
use crate::config::Config;
use crate::digits;
use crate::dns;
use crate::dns::resolver;
use crate::dns::resolver::{Resolver, SnapshotModel};
use crate::dns::type_from_str;
use crate::handlers;
use crate::handlers::zones_view;
use crate::handlers::zones_view::{TestOutcome, TestOutcomeModel};
use crate::ids;
use crate::ids::SystemError;
use crate::order;
use crate::order::Order;
use crate::store;
use crate::store::{
    HistoryModel, Record, RecordModel, Store, StoreError, StoreModel, Zone, ZoneHistory, ZoneModel,
};
use crate::text;
use crate::zonefile;
use crate::zonefile::{ParsedModel, ParsedRecord};
use vstd::prelude::*;

verus! {

/// Record types an operator may store. SOA is synthesized for each zone; ANY is a query type only.
pub const EDITABLE_TYPES: [&'static str; 8] = [
    "A",
    "AAAA",
    "CNAME",
    "MX",
    "NS",
    "TXT",
    "SRV",
    "CAA",
];

/// Optional test-query parameters.
#[derive(Debug)]
pub struct IndexQuery {
    pub q: Option<String>,
    pub qtype: Option<String>,
}

/// The form that adds a record.
#[derive(Debug)]
pub struct AddForm {
    pub zone_id: String,
    pub name: String,
    pub rtype: String,
    pub value: String,
    pub ttl: String,
    pub csrf_token: String,
}

/// The form that deletes a record by id.
#[derive(Debug)]
pub struct DeleteForm {
    pub id: String,
    pub csrf_token: String,
}

/// The query that exports a zone.
#[derive(Debug)]
pub struct ZoneQuery {
    pub zone_id: String,
}

/// The form that replaces a zone from a BIND zone file.
#[derive(Debug)]
pub struct ImportForm {
    pub zone_id: String,
    pub zone_file: String,
    pub csrf_token: String,
}

/// One record in the list of all records.
#[derive(Debug)]
pub struct RecordJson {
    pub id: String,
    pub zone_id: String,
    pub zone: String,
    pub name: String,
    pub rtype: String,
    pub value: String,
    pub ttl: i64,
    pub created_at: i64,
}

// ---------------------------------------------------------------------------
// Refusals
// ---------------------------------------------------------------------------

/// Why a request is refused.
#[derive(Debug)]
pub enum EditError {
    Unauthorized(AuthError),
    NotFound(String),
    InvalidRequest(String),
    Conflict(String),
    Store(StoreError),
    System(SystemError),
}

/// The model of [`EditError`].
pub enum EditErrorModel {
    Unauthorized(AuthError),
    NotFound(Seq<char>),
    InvalidRequest(Seq<char>),
    Conflict(Seq<char>),
    Store(Seq<char>),
    System(SystemError),
}

impl View for EditError {
    type V = EditErrorModel;

    open spec fn view(&self) -> EditErrorModel {
        match self {
            EditError::Unauthorized(e) => EditErrorModel::Unauthorized(*e),
            EditError::NotFound(m) => EditErrorModel::NotFound(m@),
            EditError::InvalidRequest(m) => EditErrorModel::InvalidRequest(m@),
            EditError::Conflict(m) => EditErrorModel::Conflict(m@),
            EditError::Store(e) => EditErrorModel::Store(e.text()),
            EditError::System(e) => EditErrorModel::System(*e),
        }
    }
}

impl EditError {
    /// The HTTP status that answers the request.
    pub fn status(&self) -> (r: u16)
        ensures
            r == match self {
                EditError::Unauthorized(_) => 401u16,
                EditError::NotFound(_) => 404,
                EditError::InvalidRequest(_) => 400,
                EditError::Conflict(_) => 409,
                EditError::Store(StoreError::Conflict(_)) => 409,
                EditError::Store(StoreError::Backend(_)) => 500,
                EditError::System(_) => 500,
            },
    {
        match self {
            EditError::Unauthorized(_) => 401,
            EditError::NotFound(_) => 404,
            EditError::InvalidRequest(_) => 400,
            EditError::Conflict(_) => 409,
            EditError::Store(StoreError::Conflict(_)) => 409,
            EditError::Store(StoreError::Backend(_)) => 500,
            EditError::System(_) => 500,
        }
    }

    /// The message that answers the request.
    pub fn message(&self) -> (r: String)
        ensures
            r@ == match self@ {
                EditErrorModel::Unauthorized(e) => e.text(),
                EditErrorModel::NotFound(m) => m,
                EditErrorModel::InvalidRequest(m) => m,
                EditErrorModel::Conflict(m) => m,
                EditErrorModel::Store(m) => m,
                EditErrorModel::System(e) => e.text(),
            },
    {
        match self {
            EditError::Unauthorized(e) => e.message(),
            EditError::NotFound(m) => m.clone(),
            EditError::InvalidRequest(m) => m.clone(),
            EditError::Conflict(m) => m.clone(),
            EditError::Store(e) => e.message(),
            EditError::System(e) => e.message(),
        }
    }
}

// ---------------------------------------------------------------------------
// Serials and history
// ---------------------------------------------------------------------------

/// The serial that follows `serial` at the time `now`: strictly larger, and not behind the clock.
pub open spec fn bumped(serial: i64, now: i64) -> i64
    recommends
        serial < i64::MAX,
{
    if serial + 1 > now {
        (serial + 1) as i64
    } else {
        now
    }
}

/// The serial that follows `serial`: strictly increasing, preferring the current epoch so that it
/// keeps climbing across restarts.
pub fn next_serial(serial: i64, now: i64) -> (r: i64)
    requires
        serial < i64::MAX,
    ensures
        r == bumped(serial, now),
        r > serial,
        r >= now,
{
    if serial + 1 > now {
        serial + 1
    } else {
        now
    }
}

/// A history entry.
pub open spec fn entry_model(
    id: Seq<char>,
    zone_id: Seq<char>,
    actor: Seq<char>,
    action: Seq<char>,
    detail: Seq<char>,
    now: i64,
) -> HistoryModel {
    HistoryModel { id, zone_id, actor, action, detail, created_at: now }
}

/// Makes a history entry.
pub fn history_entry(
    id: String,
    zone: &Zone,
    actor: &str,
    action: &str,
    detail: &str,
    now: i64,
) -> (r: ZoneHistory)
    ensures
        r@ == entry_model(id@, zone@.id, actor@, action@, detail@, now),
{
    ZoneHistory {
        id,
        zone_id: zone.id.clone(),
        actor: actor.to_string(),
        action: action.to_string(),
        detail: detail.to_string(),
        created_at: now,
    }
}

/// The contents of a store after an edit of `zone` that leaves the records `records`.
pub open spec fn edited(
    model: StoreModel,
    zone: ZoneModel,
    records: Seq<RecordModel>,
    entry: HistoryModel,
) -> StoreModel {
    StoreModel {
        zones: store::with_serial(
            model.zones,
            zone.id,
            bumped(zone.serial, entry.created_at),
        ).unwrap(),
        records,
        history: model.history.push(entry),
    }
}

/// What is left of an edit of `zone` where the backend may fail behind the change of the records: the
/// serial is bumped or not, and the history is written or not.
pub open spec fn partly_edited(
    model: StoreModel,
    zone: ZoneModel,
    records: Seq<RecordModel>,
    entry: HistoryModel,
    after: StoreModel,
) -> bool {
    let full = edited(model, zone, records, entry);
    &&& after.records == records
    &&& after.zones == full.zones || after.zones == model.zones
    &&& after.history == full.history || after.history == model.history
}

/// A zone that is found by its id has that id, and its serial can be set.
proof fn lemma_found_zone(zones: Seq<ZoneModel>, id: Seq<char>, serial: i64)
    ensures
        store::zone_with_id(zones, id) matches Some(z) ==> z.id == id && store::with_serial(
            zones,
            id,
            serial,
        ) is Some,
    decreases zones.len(),
{
    if zones.len() > 0 && zones[0].id != id {
        lemma_found_zone(zones.drop_first(), id, serial);
    }
}

/// A record that is found by its id has that id.
proof fn lemma_found_record(records: Seq<RecordModel>, id: Seq<char>)
    ensures
        store::record_with_id(records, id) matches Some(r) ==> r.id == id,
    decreases records.len(),
{
    if records.len() > 0 && records[0].id != id {
        lemma_found_record(records.drop_first(), id);
    }
}

/// Bumps the serial of a zone and appends a history entry. A failure of either leaves the edit that
/// was made in place.
fn finish_edit<S: Store>(store: &mut S, zone: &Zone, entry: &ZoneHistory)
    requires
        zone.serial < i64::MAX,
        store::zone_with_id(old(store).model().zones, zone@.id) is Some,
    ensures
        old(store).infallible() ==> final(store).model() == edited(
            old(store).model(),
            zone@,
            old(store).model().records,
            entry@,
        ),
        partly_edited(
            old(store).model(),
            zone@,
            old(store).model().records,
            entry@,
            final(store).model(),
        ),
        final(store).infallible() == old(store).infallible(),
{
    let next: i64 = next_serial(zone.serial, entry.created_at);
    proof {
        lemma_found_zone(store.model().zones, zone@.id, next);
    }
    let _bumped = store.set_serial(&zone.id, next);
    let _written = store.create_history(entry);
}

/// The outcome of an edit: the zone's name, and what was done.
#[derive(Debug)]
pub struct Edit {
    pub zone_name: String,
    pub detail: String,
}

/// The zone that an edit asks for, where the serial can still grow.
pub open spec fn serial_can_grow(model: StoreModel, zone_id: Seq<char>) -> bool {
    store::zone_with_id(model.zones, zone_id) matches Some(z) ==> z.serial < i64::MAX
}

/// The stored form of a parsed record, with its id and the time.
pub open spec fn stamped_record(
    zone_id: Seq<char>,
    p: ParsedModel,
    id: Seq<char>,
    now: i64,
) -> RecordModel {
    RecordModel {
        id,
        zone_id,
        name: p.name,
        rtype: p.rtype,
        value: p.value,
        ttl: p.ttl,
        created_at: now,
    }
}

/// A record of the zone `zone_id` that has no id and no time yet.
pub open spec fn draft_record(zone_id: Seq<char>, p: ParsedModel) -> RecordModel {
    stamped_record(zone_id, p, Seq::<char>::empty(), 0)
}

/// Gives a parsed record its id and the time.
pub fn stamp_record(zone_id: &str, p: &ParsedRecord, id: &str, now: i64) -> (r: Record)
    ensures
        r@ == stamped_record(zone_id@, p@, id@, now),
{
    Record {
        id: id.to_string(),
        zone_id: zone_id.to_string(),
        name: p.name.clone(),
        rtype: p.rtype.clone(),
        value: p.value.clone(),
        ttl: p.ttl,
        created_at: now,
    }
}

/// A record that has no id and no time yet.
fn make_draft(zone_id: &str, p: &ParsedRecord) -> (r: Record)
    ensures
        r@ == draft_record(zone_id@, p@),
{
    let none = String::new();
    assert(none@ == Seq::<char>::empty());
    stamp_record(zone_id, p, &none, 0)
}

/// What an accepted edit of `zone` does to a store with the contents `before`: the records become
/// `records`, the serial is bumped and `entry` is written to the history. Of a backend that may
/// fail, the serial or the entry may be missing, and a failure to write the records is reported.
pub open spec fn committed(
    before: StoreModel,
    after: StoreModel,
    infallible: bool,
    zone: ZoneModel,
    records: Seq<RecordModel>,
    entry: HistoryModel,
    r: Result<Edit, EditError>,
) -> bool {
    match r {
        Ok(edit) => {
            &&& edit.zone_name@ == zone.name
            &&& edit.detail@ == entry.detail
            &&& infallible ==> after == edited(before, zone, records, entry)
            &&& partly_edited(before, zone, records, entry, after)
        },
        Err(e) => after == before && e is Store && !infallible,
    }
}

/// Whether an edit was refused with `error`, and nothing was changed.
pub open spec fn declined(
    before: StoreModel,
    after: StoreModel,
    error: EditErrorModel,
    r: Result<Edit, EditError>,
) -> bool {
    after == before && (r matches Err(e) && e@ == error)
}

// ---------------------------------------------------------------------------
// Adding a record
// ---------------------------------------------------------------------------

/// The record that the form writes for `zone`, or why it is refused.
pub open spec fn form_draft(zone: ZoneModel, form: AddForm) -> Result<ParsedModel, EditErrorModel> {
    let rtype = text::uppered(text::trimmed(form.rtype@));
    if !zonefile::is_editable(rtype) {
        Err(EditErrorModel::InvalidRequest("unsupported record type: "@ + rtype))
    } else {
        match zonefile::stored_value(rtype, form.value@, zone.name) {
            Ok(value) => Ok(
                ParsedModel {
                    name: zonefile::owner_of(form.name@, zone.name),
                    rtype,
                    value,
                    ttl: zonefile::ttl_of(form.ttl@),
                },
            ),
            Err(e) => Err(EditErrorModel::InvalidRequest(e)),
        }
    }
}

/// The record that the form adds, or why it is refused: there is no such zone, the form is invalid,
/// or the record conflicts with the `existing` ones of the zone. Ids and times decide nothing.
pub open spec fn checked_add(
    zone: Option<ZoneModel>,
    existing: Seq<RecordModel>,
    form: AddForm,
) -> Result<ParsedModel, EditErrorModel> {
    match zone {
        Some(z) => match form_draft(z, form) {
            Ok(p) => match zonefile::set_conflict(existing.push(draft_record(z.id, p))) {
                Some(e) => Err(EditErrorModel::Conflict(e)),
                None => Ok(p),
            },
            Err(e) => Err(e),
        },
        None => Err(EditErrorModel::NotFound("no such zone"@)),
    }
}

/// The record that the form adds under the id `id` at the time `now`, or why it is refused.
pub open spec fn planned_add(
    zone: Option<ZoneModel>,
    existing: Seq<RecordModel>,
    form: AddForm,
    id: Seq<char>,
    now: i64,
) -> Result<RecordModel, EditErrorModel> {
    match checked_add(zone, existing, form) {
        Ok(p) => Ok(stamped_record(zone.unwrap().id, p, id, now)),
        Err(e) => Err(e),
    }
}

/// What an addition did.
pub open spec fn add_detail(r: RecordModel) -> Seq<char> {
    "add "@ + r.rtype + " "@ + r.name + " -> "@ + r.value
}

/// The view of an optional item.
pub open spec fn model_of<T: View>(x: Option<&T>) -> Option<T::V> {
    match x {
        Some(t) => Some(t@),
        None => None,
    }
}

/// Checks a form against its zone, before the record has an id.
pub fn check_add(zone: Option<&Zone>, existing: &[Record], form: &AddForm) -> (r: Result<
    ParsedRecord,
    EditError,
>)
    ensures
        match r {
            Ok(p) => checked_add(model_of(zone), order::models(existing@), *form) == Ok::<
                ParsedModel,
                EditErrorModel,
            >(p@),
            Err(e) => checked_add(model_of(zone), order::models(existing@), *form) == Err::<
                ParsedModel,
                EditErrorModel,
            >(e@),
        },
{
    let zone = match zone {
        Some(z) => z,
        None => {
            return Err(EditError::NotFound("no such zone".to_string()));
        },
    };
    let rtype = text::to_ascii_uppercase(&text::trim(&form.rtype));
    if !zonefile::is_editable_type(&rtype) {
        return Err(EditError::InvalidRequest(text::concat("unsupported record type: ", &rtype)));
    }
    let value = match zonefile::normalize_record_value(&rtype, &form.value, &zone.name) {
        Ok(v) => v,
        Err(e) => {
            return Err(EditError::InvalidRequest(e));
        },
    };
    let p = ParsedRecord {
        name: zonefile::owner_name(&form.name, &zone.name),
        rtype,
        value,
        ttl: zonefile::parse_ttl(&form.ttl),
    };
    match zonefile::validate_new_record(existing, &make_draft(&zone.id, &p)) {
        Ok(_) => Ok(p),
        Err(e) => Err(EditError::Conflict(e)),
    }
}

/// Describes an addition.
pub fn describe_add(r: &Record) -> (s: String)
    ensures
        s@ == add_detail(r@),
{
    let mut s = "add ".to_string();
    s.push_str(&r.rtype);
    s.push_str(" ");
    s.push_str(&r.name);
    s.push_str(" -> ");
    s.push_str(&r.value);
    s
}

/// The record that a form adds to the store, or why it is refused.
pub open spec fn store_add_check(model: StoreModel, form: AddForm) -> Result<
    ParsedModel,
    EditErrorModel,
> {
    checked_add(
        store::zone_with_id(model.zones, form.zone_id@),
        model.listed_records(form.zone_id@),
        form,
    )
}

/// The plan of an addition to the store.
pub open spec fn store_add(model: StoreModel, form: AddForm, id: Seq<char>, now: i64) -> Result<
    RecordModel,
    EditErrorModel,
> {
    planned_add(
        store::zone_with_id(model.zones, form.zone_id@),
        model.listed_records(form.zone_id@),
        form,
        id,
        now,
    )
}

/// What adding a record does to a store with the contents `before`: where the form is accepted,
/// the record is added, the serial bumped and the history written; otherwise nothing changes. Of a
/// backend that may fail, any of these writes may be missing, and a failure to add the record is
/// reported.
pub open spec fn add_outcome(
    before: StoreModel,
    after: StoreModel,
    infallible: bool,
    form: AddForm,
    actor: Seq<char>,
    record_id: Seq<char>,
    history_id: Seq<char>,
    now: i64,
    r: Result<Edit, EditError>,
) -> bool {
    match r {
        Ok(edit) => match store_add(before, form, record_id, now) {
            Ok(rec) => {
                let zone = store::zone_with_id(before.zones, form.zone_id@).unwrap();
                let records = before.records.push(rec);
                let entry = entry_model(
                    history_id,
                    zone.id,
                    actor,
                    "add"@,
                    add_detail(rec),
                    now,
                );
                &&& edit.zone_name@ == zone.name
                &&& edit.detail@ == add_detail(rec)
                &&& infallible ==> after == edited(before, zone, records, entry)
                &&& partly_edited(before, zone, records, entry, after)
            },
            Err(_) => false,
        },
        Err(e) => {
            &&& after == before
            &&& match store_add(before, form, record_id, now) {
                Ok(_) => e is Store && !infallible,
                Err(m) => e@ == m,
            }
        },
    }
}

/// Adds a checked record to its zone under the id `record_id`, bumps the serial and writes the
/// history.
pub fn apply_add<S: Store>(
    store: &mut S,
    zone: Zone,
    draft: &ParsedRecord,
    actor: &str,
    record_id: &str,
    history_id: String,
    now: i64,
) -> (r: Result<Edit, EditError>)
    requires
        zone.serial < i64::MAX,
        store::zone_with_id(old(store).model().zones, zone@.id) == Some(zone@),
    ensures
        ({
            let record = stamped_record(zone@.id, draft@, record_id@, now);
            committed(
                old(store).model(),
                final(store).model(),
                old(store).infallible(),
                zone@,
                old(store).model().records.push(record),
                entry_model(history_id@, zone@.id, actor@, "add"@, add_detail(record), now),
                r,
            )
        }),
        final(store).infallible() == old(store).infallible(),
{
    let record = stamp_record(&zone.id, draft, record_id, now);
    if let Err(e) = store.create_record(&record) {
        return Err(EditError::Store(e));
    }
    let detail = describe_add(&record);
    let entry = history_entry(history_id, &zone, actor, "add", &detail, now);
    finish_edit(store, &zone, &entry);
    Ok(Edit { zone_name: zone.name, detail })
}

/// What adding a record under fresh ids and at the current time does. A form that is refused gives
/// its error and changes nothing. Of a form that is accepted, it does what [`add_outcome`] says for
/// some ids and some time, or nothing where the system gives none.
pub open spec fn added_now(
    before: StoreModel,
    after: StoreModel,
    infallible: bool,
    form: AddForm,
    actor: Seq<char>,
    r: Result<Edit, EditError>,
) -> bool {
    match store_add_check(before, form) {
        Err(error) => declined(before, after, error, r),
        Ok(_) => {
            ||| r matches Err(EditError::System(_)) && after == before
            ||| exists|record_id: Seq<char>, history_id: Seq<char>, now: i64|
                ids::is_id("rec"@, record_id) && ids::is_id("hist"@, history_id) && now >= 0
                    && #[trigger] add_outcome(
                    before,
                    after,
                    infallible,
                    form,
                    actor,
                    record_id,
                    history_id,
                    now,
                    r,
                )
        },
    }
}

/// Adds a record on behalf of `actor`.
fn add_as<S: Store>(store: &mut S, form: &AddForm, actor: &str) -> (r: Result<Edit, EditError>)
    requires
        serial_can_grow(old(store).model(), form.zone_id@),
    ensures
        added_now(
            old(store).model(),
            final(store).model(),
            old(store).infallible(),
            *form,
            actor@,
            r,
        ),
        final(store).infallible() == old(store).infallible(),
{
    let ghost before = store.model();
    let found = store.get_zone(&form.zone_id);
    proof {
        lemma_found_zone(before.zones, form.zone_id@, 0);
    }
    let zone = match found {
        Some(z) => z,
        None => {
            return Err(EditError::NotFound("no such zone".to_string()));
        },
    };
    let existing = store.list_records(&zone.id);
    let draft = match check_add(Some(&zone), &existing, form) {
        Ok(p) => p,
        Err(e) => {
            return Err(e);
        },
    };
    let record_id = match ids::new_id("rec") {
        Ok(id) => id,
        Err(e) => {
            return Err(EditError::System(e));
        },
    };
    let history_id = match ids::new_id("hist") {
        Ok(id) => id,
        Err(e) => {
            return Err(EditError::System(e));
        },
    };
    let now: i64 = match ids::now_secs() {
        Ok(n) => n,
        Err(e) => {
            return Err(EditError::System(e));
        },
    };
    let ghost hist = history_id@;
    let r = apply_add(store, zone, &draft, actor, &record_id, history_id, now);
    assert(add_outcome(
        before,
        store.model(),
        old(store).infallible(),
        *form,
        actor@,
        record_id@,
        hist,
        now,
        r,
    ));
    r
}

/// Whether a request was refused for want of rights, and nothing was changed.
pub open spec fn refused(
    before: StoreModel,
    after: StoreModel,
    error: AuthError,
    r: Result<Edit, EditError>,
) -> bool {
    after == before && (r matches Err(e) && e@ == EditErrorModel::Unauthorized(error))
}

/// Adds a record to a zone, bumps the serial and writes the history, where the sender may edit.
pub fn add_record<S: Store>(store: &mut S, session: &Session, form: &AddForm) -> (r: Result<
    Edit,
    EditError,
>)
    requires
        serial_can_grow(old(store).model(), form.zone_id@),
    ensures
        match auth::authorized(*session, form.csrf_token@) {
            Err(e) => refused(old(store).model(), final(store).model(), e, r),
            Ok(actor) => added_now(
                old(store).model(),
                final(store).model(),
                old(store).infallible(),
                *form,
                actor,
                r,
            ),
        },
        final(store).infallible() == old(store).infallible(),
{
    match auth::authorize(session, &form.csrf_token) {
        Ok(actor) => add_as(store, form, &actor),
        Err(e) => Err(EditError::Unauthorized(e)),
    }
}

// ---------------------------------------------------------------------------
// Deleting a record
// ---------------------------------------------------------------------------

/// What a deletion did.
pub open spec fn delete_detail(r: RecordModel) -> Seq<char> {
    "delete "@ + r.rtype + " "@ + r.name + " -> "@ + r.value
}

/// Describes a deletion.
pub fn describe_delete(r: &Record) -> (s: String)
    ensures
        s@ == delete_detail(r@),
{
    let mut s = "delete ".to_string();
    s.push_str(&r.rtype);
    s.push_str(" ");
    s.push_str(&r.name);
    s.push_str(" -> ");
    s.push_str(&r.value);
    s
}

/// The zone of the record with the id `id`.
pub open spec fn zone_of_record(model: StoreModel, id: Seq<char>) -> Option<ZoneModel> {
    match store::record_with_id(model.records, id) {
        Some(r) => store::zone_with_id(model.zones, r.zone_id),
        None => None,
    }
}

/// What deleting a record does to a store with the contents `before`: where there is a record with the
/// id, the records with that id go, and where its zone exists, the serial is bumped and the history
/// written; otherwise nothing changes. Of a backend that may fail, any of these writes may be
/// missing, and a failure to delete is reported.
pub open spec fn delete_outcome(
    before: StoreModel,
    after: StoreModel,
    infallible: bool,
    form: DeleteForm,
    actor: Seq<char>,
    history_id: Seq<char>,
    now: i64,
    r: Result<Edit, EditError>,
) -> bool {
    let left = store::records_but(before.records, form.id@);
    match r {
        Ok(edit) => match store::record_with_id(before.records, form.id@) {
            Some(rec) => {
                &&& edit.detail@ == delete_detail(rec)
                &&& match store::zone_with_id(before.zones, rec.zone_id) {
                    Some(zone) => {
                        let entry = entry_model(
                            history_id,
                            zone.id,
                            actor,
                            "delete"@,
                            delete_detail(rec),
                            now,
                        );
                        &&& edit.zone_name@ == zone.name
                        &&& infallible ==> after == edited(before, zone, left, entry)
                        &&& partly_edited(before, zone, left, entry, after)
                    },
                    None => edit.zone_name@ == Seq::<char>::empty() && after == (StoreModel {
                        records: left,
                        ..before
                    }),
                }
            },
            None => false,
        },
        Err(e) => {
            &&& after == before
            &&& match store::record_with_id(before.records, form.id@) {
                Some(_) => e is Store && !infallible,
                None => e@ == EditErrorModel::NotFound("no such record"@),
            }
        },
    }
}

/// Deletes a record that was found and, where its zone exists, bumps the serial and writes the
/// history.
pub fn apply_delete<S: Store>(
    store: &mut S,
    form: &DeleteForm,
    record: &Record,
    zone: Option<Zone>,
    actor: &str,
    history_id: String,
    now: i64,
) -> (r: Result<Edit, EditError>)
    requires
        store::record_with_id(old(store).model().records, form.id@) == Some(record@),
        match zone {
            Some(z) => z.serial < i64::MAX && store::zone_with_id(
                old(store).model().zones,
                record@.zone_id,
            ) == Some(z@),
            None => store::zone_with_id(old(store).model().zones, record@.zone_id) is None,
        },
    ensures
        delete_outcome(
            old(store).model(),
            final(store).model(),
            old(store).infallible(),
            *form,
            actor@,
            history_id@,
            now,
            r,
        ),
        final(store).infallible() == old(store).infallible(),
{
    let ghost before = store.model();
    proof {
        lemma_found_record(before.records, form.id@);
    }
    if let Err(e) = store.delete_record(&record.id) {
        return Err(EditError::Store(e));
    }
    let detail = describe_delete(record);
    match zone {
        Some(z) => {
            proof {
                lemma_found_zone(before.zones, record@.zone_id, 0);
            }
            let entry = history_entry(history_id, &z, actor, "delete", &detail, now);
            finish_edit(store, &z, &entry);
            Ok(Edit { zone_name: z.name, detail })
        },
        None => {
            let zone_name = String::new();
            assert(zone_name@ == Seq::<char>::empty());
            Ok(Edit { zone_name, detail })
        },
    }
}

/// What deleting a record under a fresh id and at the current time does. An unknown record gives an
/// error and changes nothing. A record without a zone is deleted without an entry in the history.
/// Otherwise it does what [`delete_outcome`] says for some id and some time, or nothing where the
/// system gives none.
pub open spec fn deleted_now(
    before: StoreModel,
    after: StoreModel,
    infallible: bool,
    form: DeleteForm,
    actor: Seq<char>,
    r: Result<Edit, EditError>,
) -> bool {
    if store::record_with_id(before.records, form.id@) is None {
        declined(before, after, EditErrorModel::NotFound("no such record"@), r)
    } else if zone_of_record(before, form.id@) is None {
        delete_outcome(before, after, infallible, form, actor, Seq::<char>::empty(), 0, r)
    } else {
        ||| r matches Err(EditError::System(_)) && after == before
        ||| exists|history_id: Seq<char>, now: i64|
            ids::is_id("hist"@, history_id) && now >= 0 && #[trigger] delete_outcome(
                before,
                after,
                infallible,
                form,
                actor,
                history_id,
                now,
                r,
            )
    }
}

/// Deletes a record on behalf of `actor`.
fn delete_as<S: Store>(store: &mut S, form: &DeleteForm, actor: &str) -> (r: Result<Edit, EditError>)
    requires
        zone_of_record(old(store).model(), form.id@) matches Some(z) ==> z.serial < i64::MAX,
    ensures
        deleted_now(
            old(store).model(),
            final(store).model(),
            old(store).infallible(),
            *form,
            actor@,
            r,
        ),
        final(store).infallible() == old(store).infallible(),
{
    let record = match store.get_record(&form.id) {
        Some(r) => r,
        None => {
            return Err(EditError::NotFound("no such record".to_string()));
        },
    };
    let zone = store.get_zone(&record.zone_id);
    if zone.is_none() {
        let none = String::new();
        assert(none@ == Seq::<char>::empty());
        return apply_delete(store, form, &record, None, actor, none, 0);
    }
    let history_id = match ids::new_id("hist") {
        Ok(id) => id,
        Err(e) => {
            return Err(EditError::System(e));
        },
    };
    let now: i64 = match ids::now_secs() {
        Ok(n) => n,
        Err(e) => {
            return Err(EditError::System(e));
        },
    };
    apply_delete(store, form, &record, zone, actor, history_id, now)
}

/// Deletes a record by id, bumps the serial and writes the history, where the sender may edit.
pub fn delete_record<S: Store>(store: &mut S, session: &Session, form: &DeleteForm) -> (r: Result<
    Edit,
    EditError,
>)
    requires
        zone_of_record(old(store).model(), form.id@) matches Some(z) ==> z.serial < i64::MAX,
    ensures
        match auth::authorized(*session, form.csrf_token@) {
            Err(e) => refused(old(store).model(), final(store).model(), e, r),
            Ok(actor) => deleted_now(
                old(store).model(),
                final(store).model(),
                old(store).infallible(),
                *form,
                actor,
                r,
            ),
        },
        final(store).infallible() == old(store).infallible(),
{
    match auth::authorize(session, &form.csrf_token) {
        Ok(actor) => delete_as(store, form, &actor),
        Err(e) => Err(EditError::Unauthorized(e)),
    }
}

// ---------------------------------------------------------------------------
// Importing a zone file
// ---------------------------------------------------------------------------

/// The records that an import reads, or why it is refused.
pub open spec fn import_records(zone: Option<ZoneModel>, zone_file: Seq<char>) -> Result<
    Seq<ParsedModel>,
    EditErrorModel,
> {
    match zone {
        Some(z) => match zonefile::zone_file_records(z.name, zone_file) {
            Ok(parsed) => if parsed.len() == 0 {
                Err(EditErrorModel::InvalidRequest("zone file contains no supported records"@))
            } else {
                Ok(parsed)
            },
            Err(e) => Err(EditErrorModel::InvalidRequest(e)),
        },
        None => Err(EditErrorModel::NotFound("no such zone"@)),
    }
}

/// Reads the records of an import.
pub fn parse_import(zone: Option<&Zone>, zone_file: &str) -> (r: Result<
    Vec<ParsedRecord>,
    EditError,
>)
    ensures
        match r {
            Ok(v) => import_records(model_of(zone), zone_file@) == Ok::<
                Seq<ParsedModel>,
                EditErrorModel,
            >(order::models(v@)),
            Err(e) => import_records(model_of(zone), zone_file@) == Err::<
                Seq<ParsedModel>,
                EditErrorModel,
            >(e@),
        },
{
    match zone {
        Some(z) => match zonefile::parse_zone_file(z, zone_file) {
            Ok(parsed) => {
                if parsed.len() == 0 {
                    return Err(
                        EditError::InvalidRequest(
                            "zone file contains no supported records".to_string(),
                        ),
                    );
                }
                Ok(parsed)
            },
            Err(e) => Err(EditError::InvalidRequest(e)),
        },
        None => Err(EditError::NotFound("no such zone".to_string())),
    }
}

/// The stored forms of parsed records, with the ids `ids`.
pub open spec fn imported(
    zone_id: Seq<char>,
    parsed: Seq<ParsedModel>,
    ids: Seq<Seq<char>>,
    now: i64,
) -> Seq<RecordModel> {
    Seq::new(parsed.len(), |i: int| stamped_record(zone_id, parsed[i], ids[i], now))
}

/// Parsed records as records of a zone that have no ids and no time yet.
pub open spec fn drafts(zone_id: Seq<char>, parsed: Seq<ParsedModel>) -> Seq<RecordModel> {
    parsed.map_values(|p: ParsedModel| draft_record(zone_id, p))
}

/// Why the parsed records cannot stand in one zone. Ids and times decide nothing.
pub open spec fn import_conflict(zone_id: Seq<char>, parsed: Seq<ParsedModel>) -> Option<
    EditErrorModel,
> {
    match zonefile::set_conflict(drafts(zone_id, parsed)) {
        Some(e) => Some(EditErrorModel::Conflict(e)),
        None => None,
    }
}

/// The records that an import stores, or why they cannot stand in one zone.
pub open spec fn planned_import(
    zone_id: Seq<char>,
    parsed: Seq<ParsedModel>,
    ids: Seq<Seq<char>>,
    now: i64,
) -> Result<Seq<RecordModel>, EditErrorModel> {
    match import_conflict(zone_id, parsed) {
        Some(e) => Err(e),
        None => Ok(imported(zone_id, parsed, ids, now)),
    }
}

/// Checks that parsed records can stand in one zone, before they have ids.
pub fn check_import(zone_id: &str, parsed: &[ParsedRecord]) -> (r: Result<(), EditError>)
    ensures
        match r {
            Ok(_) => import_conflict(zone_id@, order::models(parsed@)) is None,
            Err(e) => import_conflict(zone_id@, order::models(parsed@)) == Some(e@),
        },
{
    let ghost all = drafts(zone_id@, order::models(parsed@));
    let mut records: Vec<Record> = Vec::new();
    let mut i: usize = 0;
    assert(order::models(records@) == all.take(0));
    while i < parsed.len()
        invariant
            i <= parsed@.len(),
            all == drafts(zone_id@, order::models(parsed@)),
            order::models(records@) == all.take(i as int),
        decreases parsed@.len() - i,
    {
        let ghost before = order::models(records@);
        let rec = make_draft(zone_id, &parsed[i]);
        assert(all[i as int] == rec@);
        records.push(rec);
        assert(order::models(records@) == before.push(rec@));
        assert(all.take(i + 1) == all.take(i as int).push(all[i as int]));
        i += 1;
    }
    assert(all.take(i as int) == all);
    match zonefile::validate_record_set(&records) {
        Ok(_) => Ok(()),
        Err(e) => Err(EditError::Conflict(e)),
    }
}

/// Gives parsed records their ids and the time.
pub fn stamp_records(zone_id: &str, parsed: &[ParsedRecord], ids: &[String], now: i64) -> (r: Vec<
    Record,
>)
    requires
        ids@.len() >= parsed@.len(),
    ensures
        order::models(r@) == imported(zone_id@, order::models(parsed@), text::views(ids@), now),
{
    let ghost all = imported(zone_id@, order::models(parsed@), text::views(ids@), now);
    let mut records: Vec<Record> = Vec::new();
    let mut i: usize = 0;
    assert(order::models(records@) == all.take(0));
    while i < parsed.len()
        invariant
            i <= parsed@.len() <= ids@.len(),
            all == imported(zone_id@, order::models(parsed@), text::views(ids@), now),
            order::models(records@) == all.take(i as int),
        decreases parsed@.len() - i,
    {
        let ghost before = order::models(records@);
        let rec = stamp_record(zone_id, &parsed[i], &ids[i], now);
        assert(all[i as int] == rec@);
        records.push(rec);
        assert(order::models(records@) == before.push(rec@));
        assert(all.take(i + 1) == all.take(i as int).push(all[i as int]));
        i += 1;
    }
    assert(all.take(i as int) == all);
    records
}

/// What an import did.
pub open spec fn import_detail(count: nat) -> Seq<char> {
    "import BIND zone file ("@ + digits::decimal(count) + " records)"@
}

/// Describes an import.
pub fn describe_import(count: usize) -> (s: String)
    ensures
        s@ == import_detail(count as nat),
{
    let mut s = "import BIND zone file (".to_string();
    s.push_str(&digits::decimal_text(count as u64));
    s.push_str(" records)");
    s
}

/// The records that an import into the store reads, or why it is refused.
pub open spec fn store_import_check(model: StoreModel, form: ImportForm) -> Result<
    Seq<ParsedModel>,
    EditErrorModel,
> {
    match import_records(store::zone_with_id(model.zones, form.zone_id@), form.zone_file@) {
        Ok(parsed) => match import_conflict(form.zone_id@, parsed) {
            Some(e) => Err(e),
            None => Ok(parsed),
        },
        Err(e) => Err(e),
    }
}

/// The plan of an import into the store.
pub open spec fn store_import(
    model: StoreModel,
    form: ImportForm,
    ids: Seq<Seq<char>>,
    now: i64,
) -> Result<Seq<RecordModel>, EditErrorModel> {
    match import_records(store::zone_with_id(model.zones, form.zone_id@), form.zone_file@) {
        Ok(parsed) => planned_import(form.zone_id@, parsed, ids, now),
        Err(e) => Err(e),
    }
}

/// What an import does to a store with the contents `before`: where the plan accepts the file, its
/// records take the place of those of the zone, the serial is bumped and the history written;
/// otherwise nothing changes. Of a backend that may fail, any of these writes may be missing, and a
/// failure to replace the records is reported.
pub open spec fn import_outcome(
    before: StoreModel,
    after: StoreModel,
    infallible: bool,
    form: ImportForm,
    actor: Seq<char>,
    record_ids: Seq<Seq<char>>,
    history_id: Seq<char>,
    now: i64,
    r: Result<Edit, EditError>,
) -> bool {
    match r {
        Ok(edit) => match store_import(before, form, record_ids, now) {
            Ok(recs) => {
                let zone = store::zone_with_id(before.zones, form.zone_id@).unwrap();
                let records = store::records_of_others(before.records, zone.id) + recs;
                let entry = entry_model(
                    history_id,
                    zone.id,
                    actor,
                    "import"@,
                    import_detail(recs.len()),
                    now,
                );
                &&& edit.zone_name@ == zone.name
                &&& edit.detail@ == import_detail(recs.len())
                &&& infallible ==> after == edited(before, zone, records, entry)
                &&& partly_edited(before, zone, records, entry, after)
            },
            Err(_) => false,
        },
        Err(e) => {
            &&& after == before
            &&& match store_import(before, form, record_ids, now) {
                Ok(_) => e is Store && !infallible,
                Err(m) => e@ == m,
            }
        },
    }
}

/// Replaces the records of a zone by checked ones under the ids `record_ids`, bumps the serial and
/// writes the history.
pub fn apply_import<S: Store>(
    store: &mut S,
    zone: Zone,
    parsed: &[ParsedRecord],
    actor: &str,
    record_ids: &[String],
    history_id: String,
    now: i64,
) -> (r: Result<Edit, EditError>)
    requires
        zone.serial < i64::MAX,
        store::zone_with_id(old(store).model().zones, zone@.id) == Some(zone@),
        record_ids@.len() >= parsed@.len(),
    ensures
        ({
            let records = imported(
                zone@.id,
                order::models(parsed@),
                text::views(record_ids@),
                now,
            );
            committed(
                old(store).model(),
                final(store).model(),
                old(store).infallible(),
                zone@,
                store::records_of_others(old(store).model().records, zone@.id) + records,
                entry_model(
                    history_id@,
                    zone@.id,
                    actor@,
                    "import"@,
                    import_detail(records.len()),
                    now,
                ),
                r,
            )
        }),
        final(store).infallible() == old(store).infallible(),
{
    let records = stamp_records(&zone.id, parsed, record_ids, now);
    assert(order::models(records@).len() == records@.len());
    if let Err(e) = store.replace_records(&zone.id, &records) {
        return Err(EditError::Store(e));
    }
    let detail = describe_import(records.len());
    let entry = history_entry(history_id, &zone, actor, "import", &detail, now);
    finish_edit(store, &zone, &entry);
    Ok(Edit { zone_name: zone.name, detail })
}

/// Whether each of `ids` is an id with the prefix `prefix`.
pub open spec fn are_ids(prefix: Seq<char>, ids: Seq<Seq<char>>) -> bool {
    forall|i: int| 0 <= i < ids.len() ==> #[trigger] ids::is_id(prefix, ids[i])
}

/// Fresh ids, as many as asked for.
pub fn new_ids(prefix: &str, count: usize) -> (r: Result<Vec<String>, SystemError>)
    ensures
        match r {
            Ok(v) => v@.len() == count && are_ids(prefix@, text::views(v@)),
            Err(e) => e == SystemError::Randomness,
        },
{
    let mut out: Vec<String> = Vec::new();
    while out.len() < count
        invariant
            out@.len() <= count,
            are_ids(prefix@, text::views(out@)),
        decreases count - out@.len(),
    {
        match ids::new_id(prefix) {
            Ok(id) => {
                let ghost before = text::views(out@);
                out.push(id);
                assert(text::views(out@) == before.push(id@));
            },
            Err(e) => {
                return Err(e);
            },
        }
    }
    Ok(out)
}

/// What an import under fresh ids and at the current time does. A file that is refused gives its error
/// and changes nothing. Of a file that is accepted, it does what [`import_outcome`] says for some
/// ids, one for each record, and some time, or nothing where the system gives none.
pub open spec fn imported_now(
    before: StoreModel,
    after: StoreModel,
    infallible: bool,
    form: ImportForm,
    actor: Seq<char>,
    r: Result<Edit, EditError>,
) -> bool {
    match store_import_check(before, form) {
        Err(error) => declined(before, after, error, r),
        Ok(parsed) => {
            ||| r matches Err(EditError::System(_)) && after == before
            ||| exists|record_ids: Seq<Seq<char>>, history_id: Seq<char>, now: i64|
                record_ids.len() == parsed.len() && are_ids("rec"@, record_ids) && ids::is_id(
                    "hist"@,
                    history_id,
                ) && now >= 0 && #[trigger] import_outcome(
                    before,
                    after,
                    infallible,
                    form,
                    actor,
                    record_ids,
                    history_id,
                    now,
                    r,
                )
        },
    }
}

/// Imports a zone file on behalf of `actor`.
fn import_as<S: Store>(store: &mut S, form: &ImportForm, actor: &str) -> (r: Result<Edit, EditError>)
    requires
        serial_can_grow(old(store).model(), form.zone_id@),
    ensures
        imported_now(
            old(store).model(),
            final(store).model(),
            old(store).infallible(),
            *form,
            actor@,
            r,
        ),
        final(store).infallible() == old(store).infallible(),
{
    let ghost before = store.model();
    proof {
        lemma_found_zone(before.zones, form.zone_id@, 0);
    }
    let zone = match store.get_zone(&form.zone_id) {
        Some(z) => z,
        None => {
            return Err(EditError::NotFound("no such zone".to_string()));
        },
    };
    let parsed = match parse_import(Some(&zone), &form.zone_file) {
        Ok(p) => p,
        Err(e) => {
            return Err(e);
        },
    };
    if let Err(e) = check_import(&zone.id, &parsed) {
        return Err(e);
    }
    let record_ids = match new_ids("rec", parsed.len()) {
        Ok(v) => v,
        Err(e) => {
            return Err(EditError::System(e));
        },
    };
    let history_id = match ids::new_id("hist") {
        Ok(id) => id,
        Err(e) => {
            return Err(EditError::System(e));
        },
    };
    let now: i64 = match ids::now_secs() {
        Ok(n) => n,
        Err(e) => {
            return Err(EditError::System(e));
        },
    };
    let ghost hist = history_id@;
    let r = apply_import(store, zone, &parsed, actor, &record_ids, history_id, now);
    assert(import_outcome(
        before,
        store.model(),
        old(store).infallible(),
        *form,
        actor@,
        text::views(record_ids@),
        hist,
        now,
        r,
    ));
    r
}

/// Replaces the records of a zone from a zone file, bumps the serial and writes the history, where the
/// sender may edit.
pub fn import_zone<S: Store>(store: &mut S, session: &Session, form: &ImportForm) -> (r: Result<
    Edit,
    EditError,
>)
    requires
        serial_can_grow(old(store).model(), form.zone_id@),
    ensures
        match auth::authorized(*session, form.csrf_token@) {
            Err(e) => refused(old(store).model(), final(store).model(), e, r),
            Ok(actor) => imported_now(
                old(store).model(),
                final(store).model(),
                old(store).infallible(),
                *form,
                actor,
                r,
            ),
        },
        final(store).infallible() == old(store).infallible(),
{
    match auth::authorize(session, &form.csrf_token) {
        Ok(actor) => import_as(store, form, &actor),
        Err(e) => Err(EditError::Unauthorized(e)),
    }
}

// ---------------------------------------------------------------------------
// Exporting a zone
// ---------------------------------------------------------------------------

/// An exported zone: its zone file, and the header that names the download.
#[derive(Debug)]
pub struct Export {
    pub body: String,
    pub disposition: String,
}

/// The header that names the download of the zone `name`; quotes are left out of the file name.
pub open spec fn download_header(name: Seq<char>) -> Seq<char> {
    "attachment; filename=\""@ + text::replaced(name, "\""@, ""@) + ".zone\""@
}

/// Exports a zone that was loaded with its records.
pub fn export_of(zone: &Zone, records: &[Record], cfg: &Config) -> (r: Export)
    ensures
        r.body@ == zonefile::render::zone_file(
            zone@,
            order::models(records@),
            cfg.primary_ns@,
            cfg.hostmaster@,
        ),
        r.disposition@ == download_header(zone@.name),
{
    proof {
        reveal_strlit("\"");
    }
    let body = zonefile::render_zone_file(zone, records, &cfg.primary_ns, &cfg.hostmaster);
    let mut disposition = "attachment; filename=\"".to_string();
    disposition.push_str(&text::replace(&zone.name, "\"", ""));
    disposition.push_str(".zone\"");
    Export { body, disposition }
}

/// The zone file of the zone with the id `zone_id` and the header that names it, where there is such a
/// zone.
pub open spec fn exported(
    model: StoreModel,
    zone_id: Seq<char>,
    primary_ns: Seq<char>,
    hostmaster: Seq<char>,
) -> Option<(Seq<char>, Seq<char>)> {
    match store::zone_with_id(model.zones, zone_id) {
        Some(zone) => Some(
            (
                zonefile::render::zone_file(
                    zone,
                    model.listed_records(zone.id),
                    primary_ns,
                    hostmaster,
                ),
                download_header(zone.name),
            ),
        ),
        None => None,
    }
}

/// Exports one zone as a BIND-compatible zone file.
pub fn export_zone<S: Store>(store: &S, query: &ZoneQuery, cfg: &Config) -> (r: Result<
    Export,
    EditError,
>)
    ensures
        match store::zone_with_id(store.model().zones, query.zone_id@) {
            Some(zone) => r matches Ok(export) && export.body@ == zonefile::render::zone_file(
                zone,
                store.model().listed_records(zone.id),
                cfg.primary_ns@,
                cfg.hostmaster@,
            ) && export.disposition@ == download_header(zone.name),
            None => r matches Err(e) && e@ == EditErrorModel::NotFound("no such zone"@),
        },
        match exported(store.model(), query.zone_id@, cfg.primary_ns@, cfg.hostmaster@) {
            Some((body, disposition)) => r matches Ok(export) && export.body@ == body
                && export.disposition@ == disposition,
            None => r matches Err(e) && e@ == EditErrorModel::NotFound("no such zone"@),
        },
{
    match store.get_zone(&query.zone_id) {
        Some(zone) => {
            let records = store.list_records(&zone.id);
            Ok(export_of(&zone, &records, cfg))
        },
        None => Err(EditError::NotFound("no such zone".to_string())),
    }
}

// ---------------------------------------------------------------------------
// The list of all records
// ---------------------------------------------------------------------------

/// The model of [`RecordJson`].
pub struct ListedModel {
    pub zone: Seq<char>,
    pub record: RecordModel,
}

impl View for RecordJson {
    type V = ListedModel;

    open spec fn view(&self) -> ListedModel {
        ListedModel {
            zone: self.zone@,
            record: RecordModel {
                id: self.id@,
                zone_id: self.zone_id@,
                name: self.name@,
                rtype: self.rtype@,
                value: self.value@,
                ttl: self.ttl,
                created_at: self.created_at,
            },
        }
    }
}

/// The order of listed records by name, and of those with one name by type.
pub struct ByListedName;

impl Order for ByListedName {
    type Item = RecordJson;

    open spec fn le(a: ListedModel, b: ListedModel) -> bool {
        if a.record.name == b.record.name {
            order::lex_le(a.record.rtype, b.record.rtype)
        } else {
            order::lex_le(a.record.name, b.record.name)
        }
    }

    fn not_after(a: &RecordJson, b: &RecordJson) -> (r: bool) {
        if text::same(&a.name, &b.name) {
            order::str_le(&a.rtype, &b.rtype)
        } else {
            order::str_le(&a.name, &b.name)
        }
    }
}

/// The name of the last of `zones` with the id `id`; empty where there is none.
pub open spec fn name_of_zone(zones: Seq<ZoneModel>, id: Seq<char>) -> Seq<char>
    decreases zones.len(),
{
    if zones.len() == 0 {
        Seq::<char>::empty()
    } else if zones.last().id == id {
        zones.last().name
    } else {
        name_of_zone(zones.drop_last(), id)
    }
}

/// The list of `records` with the names of their zones.
pub open spec fn listing(zones: Seq<ZoneModel>, records: Seq<RecordModel>) -> Seq<ListedModel> {
    order::sorted::<ByListedName>(
        records.map_values(
            |r: RecordModel| ListedModel { zone: name_of_zone(zones, r.zone_id), record: r },
        ),
    )
}

/// Looks up the name of a zone.
fn zone_name(zones: &[Zone], id: &str) -> (r: String)
    ensures
        r@ == name_of_zone(order::models(zones@), id@),
{
    let ghost all = order::models(zones@);
    let mut i: usize = zones.len();
    assert(all.take(i as int) == all);
    while i > 0
        invariant
            i <= zones@.len(),
            all == order::models(zones@),
            name_of_zone(all, id@) == name_of_zone(all.take(i as int), id@),
        decreases i,
    {
        assert(all.take(i as int).last() == zones@[i - 1]@);
        assert(all.take(i as int).drop_last() == all.take(i - 1));
        i -= 1;
        if text::same(&zones[i].id, id) {
            return zones[i].name.clone();
        }
    }
    let r = String::new();
    assert(r@ == Seq::<char>::empty());
    r
}

/// Lists records with the names of their zones, by name and type.
pub fn list_records(zones: &[Zone], records: &[Record]) -> (r: Vec<RecordJson>)
    ensures
        order::models(r@) == listing(order::models(zones@), order::models(records@)),
{
    let ghost names = order::models(zones@);
    let ghost all = order::models(records@);
    let ghost listed = |r: RecordModel|
        ListedModel { zone: name_of_zone(names, r.zone_id), record: r };
    let mut out: Vec<RecordJson> = Vec::new();
    let mut i: usize = 0;
    while i < records.len()
        invariant
            i <= records@.len(),
            names == order::models(zones@),
            all == order::models(records@),
            listed == (|r: RecordModel|
                ListedModel { zone: name_of_zone(names, r.zone_id), record: r }),
            order::models(out@) == all.take(i as int).map_values(listed),
        decreases records@.len() - i,
    {
        let ghost before = order::models(out@);
        let r = records[i].clone();
        let row = RecordJson {
            zone: zone_name(zones, &r.zone_id),
            id: r.id,
            zone_id: r.zone_id,
            name: r.name,
            rtype: r.rtype,
            value: r.value,
            ttl: r.ttl,
            created_at: r.created_at,
        };
        assert(row@ == listed(all[i as int]));
        out.push(row);
        assert(order::models(out@) == before.push(row@));
        assert(all.take(i + 1) == all.take(i as int).push(all[i as int]));
        i += 1;
    }
    assert(all.take(all.len() as int) == all);
    order::sort::<ByListedName>(&mut out);
    out
}

/// The list of all records of a store.
pub open spec fn all_listed(model: StoreModel) -> Seq<ListedModel> {
    listing(model.listed_zones(), model.records)
}

/// Lists every record across every zone.
pub fn api_records<S: Store>(store: &S) -> (r: Vec<RecordJson>)
    ensures
        order::models(r@) == listing(store.model().listed_zones(), store.model().records),
        order::models(r@) == all_listed(store.model()),
{
    list_records(&store.list_zones(), &store.all_records())
}

// ---------------------------------------------------------------------------
// The zones page
// ---------------------------------------------------------------------------

/// A zone with what its card shows.
#[derive(Debug)]
pub struct ZonePage {
    pub zone: Zone,
    pub records: Vec<Record>,
    pub history: Vec<ZoneHistory>,
}

/// The model of [`ZonePage`].
pub struct ZonePageModel {
    pub zone: ZoneModel,
    pub records: Seq<RecordModel>,
    pub history: Seq<HistoryModel>,
}

impl View for ZonePage {
    type V = ZonePageModel;

    open spec fn view(&self) -> ZonePageModel {
        ZonePageModel {
            zone: self.zone@,
            records: order::models(self.records@),
            history: order::models(self.history@),
        }
    }
}

/// What a page needs beside its contents: the template, the theme, the user and the CSRF token.
#[derive(Debug)]
pub struct Chrome {
    pub template: String,
    pub theme_attr: String,
    pub color_scheme: String,
    pub email: String,
    pub csrf: String,
}

/// What is shown where there are no zones.
pub const NO_ZONES: &'static str =
    r#"<div class="empty-state"><h2>No zones yet</h2><p>The default zone is seeded on first run. If you see this, the store is empty.</p></div>"#;

/// The cards of `pages`, one after the other.
pub open spec fn zone_cards(pages: Seq<ZonePageModel>, csrf: Seq<char>) -> Seq<char>
    decreases pages.len(),
{
    if pages.len() == 0 {
        Seq::<char>::empty()
    } else {
        zone_cards(pages.drop_last(), csrf) + zones_view::zone_card(
            pages.last().zone,
            pages.last().records,
            pages.last().history,
            csrf,
            EDITABLE_TYPES@,
        )
    }
}

/// The number of records on `pages`.
pub open spec fn total_records(pages: Seq<ZonePageModel>) -> nat
    decreases pages.len(),
{
    if pages.len() == 0 {
        0
    } else {
        total_records(pages.drop_last()) + pages.last().records.len()
    }
}

/// The status line of the zones page.
pub open spec fn status_line(zones: nat, records: nat, dns_addr: Seq<char>) -> Seq<char> {
    digits::decimal(zones) + " zone(s), "@ + digits::decimal(records)
        + " record(s) loaded · serving authoritative DNS on "@ + dns_addr
}

/// The zones page.
pub open spec fn zones_page(
    chrome: Chrome,
    pages: Seq<ZonePageModel>,
    dns_addr: Seq<char>,
    test: Seq<char>,
) -> Seq<char> {
    let shell = handlers::filled(
        chrome.template@,
        chrome.theme_attr@,
        chrome.color_scheme@,
        handlers::bar_with("/"@, handlers::chip_for(Some(chrome.email@))),
    );
    let cards = if pages.len() == 0 {
        NO_ZONES@
    } else {
        zone_cards(pages, chrome.csrf@)
    };
    text::replaced(
        text::replaced(
            text::replaced(
                shell,
                "{{STATUS}}"@,
                handlers::escaped(status_line(pages.len(), total_records(pages), dns_addr)),
            ),
            "{{TEST}}"@,
            test,
        ),
        "{{ZONES}}"@,
        cards,
    )
}

/// What a test query gives: nothing without a name, an unknown type, or an answer.
pub open spec fn test_outcome(
    snap: SnapshotModel,
    name: Seq<char>,
    qtype_text: Seq<char>,
) -> TestOutcomeModel {
    if name.len() == 0 {
        TestOutcomeModel::Empty
    } else {
        let qname = config::canonical(name);
        match dns::type_of(qtype_text) {
            Some(qtype) => TestOutcomeModel::Resolved {
                qname,
                qtype,
                lookup: resolver::answer(snap, qname, qtype),
            },
            None => TestOutcomeModel::UnknownType,
        }
    }
}

/// The text of an optional parameter, or `default`.
pub open spec fn param_or(param: Option<String>, default: Seq<char>) -> Seq<char> {
    match param {
        Some(s) => s@,
        None => default,
    }
}

/// The test card for a query.
pub open spec fn test_section(snap: SnapshotModel, query: IndexQuery) -> Seq<char> {
    let name = text::trimmed(param_or(query.q, ""@));
    let qtype_text = text::uppered(text::trimmed(param_or(query.qtype, "A"@)));
    zones_view::test_card(name, qtype_text, test_outcome(snap, name, qtype_text))
}

/// Renders the test-query card and, when a name was submitted, the resolved answer.
pub fn render_test(resolver: &Resolver, query: &IndexQuery) -> (r: String)
    ensures
        r@ == test_section(resolver@, *query),
{
    let name = match &query.q {
        Some(q) => text::trim(q),
        None => text::trim(""),
    };
    let qtype_str = match &query.qtype {
        Some(t) => text::to_ascii_uppercase(&text::trim(t)),
        None => text::to_ascii_uppercase(&text::trim("A")),
    };
    let outcome = if name.as_str().is_empty() {
        TestOutcome::Empty
    } else {
        let qname = config::normalize_name(&name);
        match type_from_str(&qtype_str) {
            Some(qtype) => {
                let lookup = resolver.lookup(&qname, qtype);
                TestOutcome::Resolved { qname, qtype, lookup }
            },
            None => TestOutcome::UnknownType,
        }
    };
    zones_view::render_test_card(&name, &qtype_str, &outcome)
}

/// Renders the zones page from loaded zones.
pub fn index_page(chrome: &Chrome, pages: &[ZonePage], dns_addr: &str, test: &str) -> (r: String)
    requires
        total_records(order::models(pages@)) <= usize::MAX,
    ensures
        r@ == zones_page(*chrome, order::models(pages@), dns_addr@, test@),
{
    let ghost all = order::models(pages@);
    let mut cards = String::new();
    let mut total: usize = 0;
    let mut i: usize = 0;
    assert(all.take(0) == Seq::<ZonePageModel>::empty());
    assert(cards@ == Seq::<char>::empty());
    while i < pages.len()
        invariant
            i <= pages@.len(),
            all == order::models(pages@),
            total_records(all) <= usize::MAX,
            total == total_records(all.take(i as int)),
            cards@ == zone_cards(all.take(i as int), chrome.csrf@),
        decreases pages@.len() - i,
    {
        let page = &pages[i];
        assert(all.take(i + 1).drop_last() == all.take(i as int));
        assert(all.take(i + 1).last() == page@);
        proof {
            lemma_total_grows(all, i + 1);
        }
        total = total + page.records.len();
        cards.push_str(
            &zones_view::render_zone(
                &page.zone,
                &page.records,
                &page.history,
                &chrome.csrf,
                EDITABLE_TYPES.as_slice(),
            ),
        );
        i += 1;
    }
    assert(all.take(all.len() as int) == all);
    if pages.len() == 0 {
        cards = NO_ZONES.to_string();
    }
    let mut status = digits::decimal_text(pages.len() as u64);
    status.push_str(" zone(s), ");
    status.push_str(&digits::decimal_text(total as u64));
    status.push_str(" record(s) loaded · serving authoritative DNS on ");
    status.push_str(dns_addr);
    proof {
        reveal_strlit("{{STATUS}}");
        reveal_strlit("{{TEST}}");
        reveal_strlit("{{ZONES}}");
    }
    let mut s = handlers::shell(
        &chrome.template,
        "/",
        &chrome.theme_attr,
        &chrome.color_scheme,
        Some(&chrome.email),
    );
    s = text::replace(&s, "{{STATUS}}", &handlers::esc(&status));
    s = text::replace(&s, "{{TEST}}", test);
    text::replace(&s, "{{ZONES}}", &cards)
}

/// The first pages hold no more records than all of them.
proof fn lemma_total_grows(pages: Seq<ZonePageModel>, i: int)
    requires
        0 <= i <= pages.len(),
    ensures
        total_records(pages.take(i)) <= total_records(pages),
    decreases pages.len(),
{
    if i < pages.len() {
        lemma_total_grows(pages.drop_last(), i);
        assert(pages.drop_last().take(i) == pages.take(i));
    } else {
        assert(pages.take(i) == pages);
    }
}

/// The zones of a store with what their cards show.
pub open spec fn store_pages(model: StoreModel) -> Seq<ZonePageModel> {
    model.listed_zones().map_values(
        |z: ZoneModel|
            ZonePageModel {
                zone: z,
                records: model.listed_records(z.id),
                history: model.listed_history(z.id),
            },
    )
}

/// Each page of a store holds a bounded number of records.
proof fn lemma_store_pages_bounded(model: StoreModel, i: int)
    requires
        0 <= i <= store_pages(model).len(),
    ensures
        store_pages(model).len() <= 2000,
        total_records(store_pages(model).take(i)) <= i * 2000,
    decreases i,
{
    let pages = store_pages(model);
    if i > 0 {
        lemma_store_pages_bounded(model, i - 1);
        assert(pages.take(i).drop_last() == pages.take(i - 1));
        assert(pages.take(i).last() == pages[i - 1]);
        assert(pages[i - 1].records.len() <= 2000);
    }
}

/// Renders the zones page of a store: zones and records, the forms, and the test-query box.
pub fn index<S: Store>(
    store: &S,
    resolver: &Resolver,
    query: &IndexQuery,
    chrome: &Chrome,
    cfg: &Config,
) -> (r: String)
    ensures
        r@ == zones_page(
            *chrome,
            store_pages(store.model()),
            cfg.dns_addr@,
            test_section(resolver@, *query),
        ),
{
    let zones = store.list_zones();
    let ghost all = order::models(zones@);
    let ghost whole = store_pages(store.model());
    let mut pages: Vec<ZonePage> = Vec::new();
    let mut i: usize = 0;
    while i < zones.len()
        invariant
            i <= zones@.len(),
            all == order::models(zones@),
            all == store.model().listed_zones(),
            whole == store_pages(store.model()),
            order::models(pages@) == whole.take(i as int),
        decreases zones@.len() - i,
    {
        let ghost before = order::models(pages@);
        let zone = zones[i].clone();
        assert(all[i as int] == zone@);
        let records = store.list_records(&zone.id);
        let history = store.list_history(&zone.id);
        let page = ZonePage { zone, records, history };
        pages.push(page);
        assert(order::models(pages@) == before.push(page@));
        assert(whole[i as int] == page@);
        assert(whole.take(i + 1) == whole.take(i as int).push(whole[i as int]));
        i += 1;
    }
    proof {
        lemma_store_pages_bounded(store.model(), whole.len() as int);
        assert(whole.take(whole.len() as int) == whole);
    }
    let test = render_test(resolver, query);
    index_page(chrome, &pages, &cfg.dns_addr, &test)
}

} // verus!

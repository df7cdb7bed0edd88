//! Zone and record storage.
//!
//! [`Store`] is a small trait; [`InMemoryStore`] implements it on plain lists. The trait is stated
//! over a model of the store's contents: the zones, records and history entries in the order in
//! which they were added.
use crate::config::LIST_LIMIT;
use crate::order;
use crate::order::Order;
use crate::text;
use vstd::prelude::*;

verus! {

/// How many history entries are listed.
pub const HISTORY_LIMIT: usize = 25;

/// A DNS zone.
#[derive(Debug)]
pub struct Zone {
    pub id: String,
    pub name: String,
    pub serial: i64,
    pub created_at: i64,
}

/// A resource record. `rtype` is the textual type (`A`, `AAAA`, `MX`, `TXT`, `NS`, `CNAME`, `SRV`,
/// `CAA`), `value` its presentation form (such as `159.195.136.226` or `10 mail.w33d.xyz`).
#[derive(Debug)]
pub struct Record {
    pub id: String,
    pub zone_id: String,
    pub name: String,
    pub rtype: String,
    pub value: String,
    pub ttl: i64,
    pub created_at: i64,
}

/// One local change-history entry of a zone.
#[derive(Debug)]
pub struct ZoneHistory {
    pub id: String,
    pub zone_id: String,
    pub actor: String,
    pub action: String,
    pub detail: String,
    pub created_at: i64,
}

/// The model of [`Zone`].
pub struct ZoneModel {
    pub id: Seq<char>,
    pub name: Seq<char>,
    pub serial: i64,
    pub created_at: i64,
}

/// The model of [`Record`].
pub struct RecordModel {
    pub id: Seq<char>,
    pub zone_id: Seq<char>,
    pub name: Seq<char>,
    pub rtype: Seq<char>,
    pub value: Seq<char>,
    pub ttl: i64,
    pub created_at: i64,
}

/// The model of [`ZoneHistory`].
pub struct HistoryModel {
    pub id: Seq<char>,
    pub zone_id: Seq<char>,
    pub actor: Seq<char>,
    pub action: Seq<char>,
    pub detail: Seq<char>,
    pub created_at: i64,
}

impl View for Zone {
    type V = ZoneModel;

    open spec fn view(&self) -> ZoneModel {
        ZoneModel {
            id: self.id@,
            name: self.name@,
            serial: self.serial,
            created_at: self.created_at,
        }
    }
}

impl View for Record {
    type V = RecordModel;

    open spec fn view(&self) -> RecordModel {
        RecordModel {
            id: self.id@,
            zone_id: self.zone_id@,
            name: self.name@,
            rtype: self.rtype@,
            value: self.value@,
            ttl: self.ttl,
            created_at: self.created_at,
        }
    }
}

impl View for ZoneHistory {
    type V = HistoryModel;

    open spec fn view(&self) -> HistoryModel {
        HistoryModel {
            id: self.id@,
            zone_id: self.zone_id@,
            actor: self.actor@,
            action: self.action@,
            detail: self.detail@,
            created_at: self.created_at,
        }
    }
}

impl Clone for Zone {
    fn clone(&self) -> (r: Self)
        ensures
            r == *self,
    {
        Zone {
            id: self.id.clone(),
            name: self.name.clone(),
            serial: self.serial,
            created_at: self.created_at,
        }
    }
}

impl Clone for Record {
    fn clone(&self) -> (r: Self)
        ensures
            r == *self,
    {
        Record {
            id: self.id.clone(),
            zone_id: self.zone_id.clone(),
            name: self.name.clone(),
            rtype: self.rtype.clone(),
            value: self.value.clone(),
            ttl: self.ttl,
            created_at: self.created_at,
        }
    }
}

impl Clone for ZoneHistory {
    fn clone(&self) -> (r: Self)
        ensures
            r == *self,
    {
        ZoneHistory {
            id: self.id.clone(),
            zone_id: self.zone_id.clone(),
            actor: self.actor.clone(),
            action: self.action.clone(),
            detail: self.detail.clone(),
            created_at: self.created_at,
        }
    }
}

/// A storage failure.
#[derive(Debug)]
pub enum StoreError {
    /// A zone with this name already exists.
    Conflict(String),
    /// The backend failed.
    Backend(String),
}

impl StoreError {
    /// The message that describes the failure.
    pub open spec fn text(&self) -> Seq<char> {
        match self {
            StoreError::Conflict(name) => "zone already exists: "@ + name@,
            StoreError::Backend(e) => "store error: "@ + e@,
        }
    }

    /// The message that describes the failure.
    pub fn message(&self) -> (r: String)
        ensures
            r@ == self.text(),
    {
        match self {
            StoreError::Conflict(name) => text::concat("zone already exists: ", name),
            StoreError::Backend(e) => text::concat("store error: ", e),
        }
    }
}

// ---------------------------------------------------------------------------
// Orders
// ---------------------------------------------------------------------------

/// The order of zones by name.
pub struct ByZoneName;

impl Order for ByZoneName {
    type Item = Zone;

    open spec fn le(a: ZoneModel, b: ZoneModel) -> bool {
        order::lex_le(a.name, b.name)
    }

    fn not_after(a: &Zone, b: &Zone) -> (r: bool) {
        order::str_le(&a.name, &b.name)
    }
}

/// The order of records by name, and of records with one name by type.
pub struct ByNameAndType;

impl Order for ByNameAndType {
    type Item = Record;

    open spec fn le(a: RecordModel, b: RecordModel) -> bool {
        if a.name == b.name {
            order::lex_le(a.rtype, b.rtype)
        } else {
            order::lex_le(a.name, b.name)
        }
    }

    fn not_after(a: &Record, b: &Record) -> (r: bool) {
        if text::same(&a.name, &b.name) {
            order::str_le(&a.rtype, &b.rtype)
        } else {
            order::str_le(&a.name, &b.name)
        }
    }
}

/// The order of history entries, newest first.
pub struct NewestFirst;

impl Order for NewestFirst {
    type Item = ZoneHistory;

    open spec fn le(a: HistoryModel, b: HistoryModel) -> bool {
        a.created_at >= b.created_at
    }

    fn not_after(a: &ZoneHistory, b: &ZoneHistory) -> (r: bool) {
        a.created_at >= b.created_at
    }
}

// ---------------------------------------------------------------------------
// The model
// ---------------------------------------------------------------------------

/// The contents of a store, in the order in which they were added.
pub struct StoreModel {
    pub zones: Seq<ZoneModel>,
    pub records: Seq<RecordModel>,
    pub history: Seq<HistoryModel>,
}

/// The first `limit` items of `s`.
pub open spec fn capped<A>(s: Seq<A>, limit: int) -> Seq<A> {
    if s.len() > limit {
        s.take(limit)
    } else {
        s
    }
}

/// The first zone with the id `id`.
pub open spec fn zone_with_id(zones: Seq<ZoneModel>, id: Seq<char>) -> Option<ZoneModel>
    decreases zones.len(),
{
    if zones.len() == 0 {
        None
    } else if zones[0].id == id {
        Some(zones[0])
    } else {
        zone_with_id(zones.drop_first(), id)
    }
}

/// The first zone with the name `name`.
pub open spec fn zone_with_name(zones: Seq<ZoneModel>, name: Seq<char>) -> Option<ZoneModel>
    decreases zones.len(),
{
    if zones.len() == 0 {
        None
    } else if zones[0].name == name {
        Some(zones[0])
    } else {
        zone_with_name(zones.drop_first(), name)
    }
}

/// The first record with the id `id`.
pub open spec fn record_with_id(records: Seq<RecordModel>, id: Seq<char>) -> Option<RecordModel>
    decreases records.len(),
{
    if records.len() == 0 {
        None
    } else if records[0].id == id {
        Some(records[0])
    } else {
        record_with_id(records.drop_first(), id)
    }
}

/// `zones` with the serial of the first zone with the id `id` set; nothing where there is none.
pub open spec fn with_serial(zones: Seq<ZoneModel>, id: Seq<char>, serial: i64) -> Option<
    Seq<ZoneModel>,
>
    decreases zones.len(),
{
    if zones.len() == 0 {
        None
    } else if zones[0].id == id {
        Some(seq![ZoneModel { serial, ..zones[0] }] + zones.drop_first())
    } else {
        match with_serial(zones.drop_first(), id, serial) {
            Some(rest) => Some(seq![zones[0]] + rest),
            None => None,
        }
    }
}

/// The records of the zone `zone_id`.
pub open spec fn records_of(records: Seq<RecordModel>, zone_id: Seq<char>) -> Seq<RecordModel> {
    records.filter(|r: RecordModel| r.zone_id == zone_id)
}

/// The records of all zones but `zone_id`.
pub open spec fn records_of_others(records: Seq<RecordModel>, zone_id: Seq<char>) -> Seq<
    RecordModel,
> {
    records.filter(|r: RecordModel| r.zone_id != zone_id)
}

/// The records with another id than `id`.
pub open spec fn records_but(records: Seq<RecordModel>, id: Seq<char>) -> Seq<RecordModel> {
    records.filter(|r: RecordModel| r.id != id)
}

/// The history of the zone `zone_id`.
pub open spec fn history_of(history: Seq<HistoryModel>, zone_id: Seq<char>) -> Seq<HistoryModel> {
    history.filter(|h: HistoryModel| h.zone_id == zone_id)
}

impl StoreModel {
    /// All zones, name-ascending, capped.
    pub open spec fn listed_zones(self) -> Seq<ZoneModel> {
        capped(order::sorted::<ByZoneName>(self.zones), LIST_LIMIT as int)
    }

    /// The records of one zone, by name and type, capped.
    pub open spec fn listed_records(self, zone_id: Seq<char>) -> Seq<RecordModel> {
        capped(
            order::sorted::<ByNameAndType>(records_of(self.records, zone_id)),
            LIST_LIMIT as int,
        )
    }

    /// The most recent history entries of one zone, newest first.
    pub open spec fn listed_history(self, zone_id: Seq<char>) -> Seq<HistoryModel> {
        capped(
            order::sorted::<NewestFirst>(history_of(self.history, zone_id)),
            HISTORY_LIMIT as int,
        )
    }
}

/// Pluggable zone and record store.
pub trait Store {
    /// The contents of the store.
    spec fn model(&self) -> StoreModel;

    /// Whether the backend never fails: every write succeeds where its arguments allow it.
    spec fn infallible(&self) -> bool;

    /// All zones, name-ascending, capped at [`LIST_LIMIT`].
    fn list_zones(&self) -> (r: Vec<Zone>)
        ensures
            order::models(r@) == self.model().listed_zones(),
    ;

    /// One zone by its id.
    fn get_zone(&self, id: &str) -> (r: Option<Zone>)
        ensures
            match r {
                Some(z) => zone_with_id(self.model().zones, id@) == Some(z@),
                None => zone_with_id(self.model().zones, id@) is None,
            },
    ;

    /// One zone by its (already normalized) name.
    fn get_zone_by_name(&self, name: &str) -> (r: Option<Zone>)
        ensures
            match r {
                Some(z) => zone_with_name(self.model().zones, name@) == Some(z@),
                None => zone_with_name(self.model().zones, name@) is None,
            },
    ;

    /// Inserts a new zone. Errors with [`StoreError::Conflict`] if and only if the name is taken.
    fn create_zone(&mut self, zone: &Zone) -> (r: Result<(), StoreError>)
        ensures
            match r {
                Ok(_) => zone_with_name(old(self).model().zones, zone@.name) is None
                    && final(self).model() == (StoreModel {
                    zones: old(self).model().zones.push(zone@),
                    ..old(self).model()
                }),
                Err(StoreError::Conflict(name)) => name@ == zone@.name && zone_with_name(
                    old(self).model().zones,
                    zone@.name,
                ) is Some && final(self).model() == old(self).model(),
                Err(StoreError::Backend(_)) => zone_with_name(
                    old(self).model().zones,
                    zone@.name,
                ) is None && final(self).model() == old(self).model(),
            },
            old(self).infallible() ==> !(r matches Err(StoreError::Backend(_))),
            final(self).infallible() == old(self).infallible(),
    ;

    /// Sets a zone's serial (bumped on every record change).
    fn set_serial(&mut self, zone_id: &str, serial: i64) -> (r: Result<(), StoreError>)
        ensures
            match r {
                Ok(_) => with_serial(old(self).model().zones, zone_id@, serial) is Some
                    && final(self).model() == (StoreModel {
                    zones: with_serial(old(self).model().zones, zone_id@, serial).unwrap(),
                    ..old(self).model()
                }),
                Err(_) => final(self).model() == old(self).model(),
            },
            old(self).infallible() ==> (r is Ok <==> with_serial(
                old(self).model().zones,
                zone_id@,
                serial,
            ) is Some),
            final(self).infallible() == old(self).infallible(),
    ;

    /// All records in one zone, capped at [`LIST_LIMIT`].
    fn list_records(&self, zone_id: &str) -> (r: Vec<Record>)
        ensures
            order::models(r@) == self.model().listed_records(zone_id@),
    ;

    /// Every record across every zone.
    fn all_records(&self) -> (r: Vec<Record>)
        ensures
            order::models(r@) == self.model().records,
    ;

    /// One record by its id.
    fn get_record(&self, id: &str) -> (r: Option<Record>)
        ensures
            match r {
                Some(rec) => record_with_id(self.model().records, id@) == Some(rec@),
                None => record_with_id(self.model().records, id@) is None,
            },
    ;

    /// Inserts a new record.
    fn create_record(&mut self, record: &Record) -> (r: Result<(), StoreError>)
        ensures
            match r {
                Ok(_) => final(self).model() == (StoreModel {
                    records: old(self).model().records.push(record@),
                    ..old(self).model()
                }),
                Err(_) => final(self).model() == old(self).model(),
            },
            old(self).infallible() ==> r is Ok,
            final(self).infallible() == old(self).infallible(),
    ;

    /// Replaces every record in a zone with a prepared set.
    fn replace_records(&mut self, zone_id: &str, records: &[Record]) -> (r: Result<
        (),
        StoreError,
    >)
        ensures
            match r {
                Ok(_) => final(self).model() == (StoreModel {
                    records: records_of_others(old(self).model().records, zone_id@)
                        + order::models(records@),
                    ..old(self).model()
                }),
                Err(_) => final(self).model() == old(self).model(),
            },
            old(self).infallible() ==> r is Ok,
            final(self).infallible() == old(self).infallible(),
    ;

    /// Deletes a record by id.
    fn delete_record(&mut self, id: &str) -> (r: Result<(), StoreError>)
        ensures
            match r {
                Ok(_) => final(self).model() == (StoreModel {
                    records: records_but(old(self).model().records, id@),
                    ..old(self).model()
                }),
                Err(_) => final(self).model() == old(self).model(),
            },
            old(self).infallible() ==> r is Ok,
            final(self).infallible() == old(self).infallible(),
    ;

    /// Recent local change-history entries of one zone.
    fn list_history(&self, zone_id: &str) -> (r: Vec<ZoneHistory>)
        ensures
            order::models(r@) == self.model().listed_history(zone_id@),
    ;

    /// Appends one local change-history entry.
    fn create_history(&mut self, entry: &ZoneHistory) -> (r: Result<(), StoreError>)
        ensures
            match r {
                Ok(_) => final(self).model() == (StoreModel {
                    history: old(self).model().history.push(entry@),
                    ..old(self).model()
                }),
                Err(_) => final(self).model() == old(self).model(),
            },
            old(self).infallible() ==> r is Ok,
            final(self).infallible() == old(self).infallible(),
    ;
}

// ---------------------------------------------------------------------------
// In-memory store
// ---------------------------------------------------------------------------

/// The in-memory store, which keeps the whole service database-free.
pub struct InMemoryStore {
    pub zones: Vec<Zone>,
    pub records: Vec<Record>,
    pub history: Vec<ZoneHistory>,
}

impl InMemoryStore {
    /// An empty store.
    pub fn new() -> (r: Self)
        ensures
            r.zones@.len() == 0,
            r.records@.len() == 0,
            r.history@.len() == 0,
    {
        InMemoryStore { zones: Vec::new(), records: Vec::new(), history: Vec::new() }
    }
}

impl Default for InMemoryStore {
    fn default() -> (r: Self)
        ensures
            r.zones@.len() == 0,
            r.records@.len() == 0,
            r.history@.len() == 0,
    {
        InMemoryStore::new()
    }
}

/// A copy of a list of zones.
pub fn clone_zones(v: &[Zone]) -> (r: Vec<Zone>)
    ensures
        r@ == v@,
{
    let mut out: Vec<Zone> = Vec::new();
    let mut i: usize = 0;
    while i < v.len()
        invariant
            i <= v@.len(),
            out@ == v@.take(i as int),
        decreases v@.len() - i,
    {
        out.push(v[i].clone());
        i += 1;
    }
    assert(v@.take(v@.len() as int) == v@);
    out
}

/// A copy of a list of records.
pub fn clone_records(v: &[Record]) -> (r: Vec<Record>)
    ensures
        r@ == v@,
{
    let mut out: Vec<Record> = Vec::new();
    let mut i: usize = 0;
    while i < v.len()
        invariant
            i <= v@.len(),
            out@ == v@.take(i as int),
        decreases v@.len() - i,
    {
        out.push(v[i].clone());
        i += 1;
    }
    assert(v@.take(v@.len() as int) == v@);
    out
}

/// The models of a list with one more item.
proof fn lemma_models_push<T: View>(s: Seq<T>, x: T)
    ensures
        order::models(s.push(x)) == order::models(s).push(x@),
{
    assert(order::models(s.push(x)) =~= order::models(s).push(x@));
}

impl Store for InMemoryStore {
    open spec fn model(&self) -> StoreModel {
        StoreModel {
            zones: order::models(self.zones@),
            records: order::models(self.records@),
            history: order::models(self.history@),
        }
    }

    open spec fn infallible(&self) -> bool {
        true
    }

    fn list_zones(&self) -> (r: Vec<Zone>) {
        let mut v = clone_zones(&self.zones);
        order::sort::<ByZoneName>(&mut v);
        let ghost all = v@;
        v.truncate(LIST_LIMIT);
        assert(order::models(v@) == capped(order::models(all), LIST_LIMIT as int));
        v
    }

    fn get_zone(&self, id: &str) -> (r: Option<Zone>) {
        let ghost all = order::models(self.zones@);
        let mut i: usize = 0;
        assert(all.skip(0) == all);
        while i < self.zones.len()
            invariant
                i <= self.zones@.len(),
                all == order::models(self.zones@),
                zone_with_id(all, id@) == zone_with_id(all.skip(i as int), id@),
            decreases self.zones@.len() - i,
        {
            assert(all.skip(i as int).drop_first() == all.skip(i + 1));
            if text::same(&self.zones[i].id, id) {
                return Some(self.zones[i].clone());
            }
            i += 1;
        }
        None
    }

    fn get_zone_by_name(&self, name: &str) -> (r: Option<Zone>) {
        let ghost all = order::models(self.zones@);
        let mut i: usize = 0;
        assert(all.skip(0) == all);
        while i < self.zones.len()
            invariant
                i <= self.zones@.len(),
                all == order::models(self.zones@),
                zone_with_name(all, name@) == zone_with_name(all.skip(i as int), name@),
            decreases self.zones@.len() - i,
        {
            assert(all.skip(i as int).drop_first() == all.skip(i + 1));
            if text::same(&self.zones[i].name, name) {
                return Some(self.zones[i].clone());
            }
            i += 1;
        }
        None
    }

    fn create_zone(&mut self, zone: &Zone) -> (r: Result<(), StoreError>) {
        if self.get_zone_by_name(&zone.name).is_some() {
            return Err(StoreError::Conflict(zone.name.clone()));
        }
        let ghost before = self.zones@;
        self.zones.push(zone.clone());
        proof {
            lemma_models_push(before, *zone);
        }
        Ok(())
    }

    fn set_serial(&mut self, zone_id: &str, serial: i64) -> (r: Result<(), StoreError>)
        ensures
            match r {
                Ok(_) => true,
                Err(e) => with_serial(old(self).model().zones, zone_id@, serial) is None
                    && e.text() == "store error: "@ + ("no zone with id "@ + zone_id@),
            },
    {
        let ghost all = order::models(self.zones@);
        let mut i: usize = 0;
        assert(all.skip(0) == all);
        assert(with_serial(all, zone_id@, serial) matches Some(rest) ==> all.take(0) + rest
            == rest);
        while i < self.zones.len()
            invariant
                i <= self.zones@.len(),
                *self == *old(self),
                all == order::models(self.zones@),
                with_serial(all, zone_id@, serial) == match with_serial(
                    all.skip(i as int),
                    zone_id@,
                    serial,
                ) {
                    Some(rest) => Some(all.take(i as int) + rest),
                    None => None,
                },
            decreases self.zones@.len() - i,
        {
            let ghost rest = all.skip(i as int);
            assert(rest.drop_first() == all.skip(i + 1));
            assert(rest[0] == self.zones@[i as int]@);
            if text::same(&self.zones[i].id, zone_id) {
                let z = Zone { serial, ..self.zones[i].clone() };
                self.zones.set(i, z);
                assert(order::models(self.zones@) == all.take(i as int) + (seq![
                    ZoneModel { serial, ..rest[0] },
                ] + rest.drop_first()));
                return Ok(());
            }
            assert(with_serial(all.skip(i + 1), zone_id@, serial) matches Some(t) ==> all.take(
                i as int,
            ) + (seq![rest[0]] + t) == all.take(i + 1) + t);
            i += 1;
        }
        Err(StoreError::Backend(text::concat("no zone with id ", zone_id)))
    }

    fn list_records(&self, zone_id: &str) -> (r: Vec<Record>) {
        let ghost all = order::models(self.records@);
        let ghost wanted = |r: RecordModel| r.zone_id == zone_id@;
        let mut v: Vec<Record> = Vec::new();
        let mut i: usize = 0;
        proof {
            reveal(Seq::filter);
        }
        assert(order::models(v@) == all.take(0).filter(wanted));
        while i < self.records.len()
            invariant
                i <= self.records@.len(),
                all == order::models(self.records@),
                wanted == (|r: RecordModel| r.zone_id == zone_id@),
                order::models(v@) == all.take(i as int).filter(wanted),
            decreases self.records@.len() - i,
        {
            let ghost before = v@;
            proof {
                reveal(Seq::filter);
                assert(all.take(i + 1).drop_last() == all.take(i as int));
                assert(all.take(i + 1).last() == self.records@[i as int]@);
            }
            if text::same(&self.records[i].zone_id, zone_id) {
                v.push(self.records[i].clone());
                proof {
                    lemma_models_push(before, self.records@[i as int]);
                }
            }
            i += 1;
        }
        assert(all.take(all.len() as int) == all);
        order::sort::<ByNameAndType>(&mut v);
        let ghost listed = v@;
        v.truncate(LIST_LIMIT);
        assert(order::models(v@) == capped(order::models(listed), LIST_LIMIT as int));
        v
    }

    fn all_records(&self) -> (r: Vec<Record>) {
        clone_records(&self.records)
    }

    fn get_record(&self, id: &str) -> (r: Option<Record>) {
        let ghost all = order::models(self.records@);
        let mut i: usize = 0;
        assert(all.skip(0) == all);
        while i < self.records.len()
            invariant
                i <= self.records@.len(),
                all == order::models(self.records@),
                record_with_id(all, id@) == record_with_id(all.skip(i as int), id@),
            decreases self.records@.len() - i,
        {
            assert(all.skip(i as int).drop_first() == all.skip(i + 1));
            if text::same(&self.records[i].id, id) {
                return Some(self.records[i].clone());
            }
            i += 1;
        }
        None
    }

    fn create_record(&mut self, record: &Record) -> (r: Result<(), StoreError>) {
        let ghost before = self.records@;
        self.records.push(record.clone());
        proof {
            lemma_models_push(before, *record);
        }
        Ok(())
    }

    fn replace_records(&mut self, zone_id: &str, records: &[Record]) -> (r: Result<(), StoreError>) {
        let ghost all = order::models(self.records@);
        let ghost kept = |r: RecordModel| r.zone_id != zone_id@;
        let mut v: Vec<Record> = Vec::new();
        let mut i: usize = 0;
        proof {
            reveal(Seq::filter);
        }
        assert(order::models(v@) == all.take(0).filter(kept));
        while i < self.records.len()
            invariant
                i <= self.records@.len(),
                *self == *old(self),
                all == order::models(self.records@),
                kept == (|r: RecordModel| r.zone_id != zone_id@),
                order::models(v@) == all.take(i as int).filter(kept),
            decreases self.records@.len() - i,
        {
            let ghost before = v@;
            proof {
                reveal(Seq::filter);
                assert(all.take(i + 1).drop_last() == all.take(i as int));
                assert(all.take(i + 1).last() == self.records@[i as int]@);
            }
            if !text::same(&self.records[i].zone_id, zone_id) {
                v.push(self.records[i].clone());
                proof {
                    lemma_models_push(before, self.records@[i as int]);
                }
            }
            i += 1;
        }
        assert(all.take(all.len() as int) == all);
        let ghost others = v@;
        let mut added = clone_records(records);
        v.append(&mut added);
        assert(order::models(v@) == order::models(others) + order::models(records@));
        self.records = v;
        Ok(())
    }

    fn delete_record(&mut self, id: &str) -> (r: Result<(), StoreError>) {
        let ghost all = order::models(self.records@);
        let ghost kept = |r: RecordModel| r.id != id@;
        let mut v: Vec<Record> = Vec::new();
        let mut i: usize = 0;
        proof {
            reveal(Seq::filter);
        }
        assert(order::models(v@) == all.take(0).filter(kept));
        while i < self.records.len()
            invariant
                i <= self.records@.len(),
                *self == *old(self),
                all == order::models(self.records@),
                kept == (|r: RecordModel| r.id != id@),
                order::models(v@) == all.take(i as int).filter(kept),
            decreases self.records@.len() - i,
        {
            let ghost before = v@;
            proof {
                reveal(Seq::filter);
                assert(all.take(i + 1).drop_last() == all.take(i as int));
                assert(all.take(i + 1).last() == self.records@[i as int]@);
            }
            if !text::same(&self.records[i].id, id) {
                v.push(self.records[i].clone());
                proof {
                    lemma_models_push(before, self.records@[i as int]);
                }
            }
            i += 1;
        }
        assert(all.take(all.len() as int) == all);
        self.records = v;
        Ok(())
    }

    fn list_history(&self, zone_id: &str) -> (r: Vec<ZoneHistory>) {
        let ghost all = order::models(self.history@);
        let ghost wanted = |h: HistoryModel| h.zone_id == zone_id@;
        let mut v: Vec<ZoneHistory> = Vec::new();
        let mut i: usize = 0;
        proof {
            reveal(Seq::filter);
        }
        assert(order::models(v@) == all.take(0).filter(wanted));
        while i < self.history.len()
            invariant
                i <= self.history@.len(),
                all == order::models(self.history@),
                wanted == (|h: HistoryModel| h.zone_id == zone_id@),
                order::models(v@) == all.take(i as int).filter(wanted),
            decreases self.history@.len() - i,
        {
            let ghost before = v@;
            proof {
                reveal(Seq::filter);
                assert(all.take(i + 1).drop_last() == all.take(i as int));
                assert(all.take(i + 1).last() == self.history@[i as int]@);
            }
            if text::same(&self.history[i].zone_id, zone_id) {
                v.push(self.history[i].clone());
                proof {
                    lemma_models_push(before, self.history@[i as int]);
                }
            }
            i += 1;
        }
        assert(all.take(all.len() as int) == all);
        order::sort::<NewestFirst>(&mut v);
        let ghost listed = v@;
        v.truncate(HISTORY_LIMIT);
        assert(order::models(v@) == capped(order::models(listed), HISTORY_LIMIT as int));
        v
    }

    fn create_history(&mut self, entry: &ZoneHistory) -> (r: Result<(), StoreError>) {
        let ghost before = self.history@;
        self.history.push(entry.clone());
        proof {
            lemma_models_push(before, *entry);
        }
        Ok(())
    }
}

} // verus!

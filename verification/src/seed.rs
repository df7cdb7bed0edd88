//! First-run seed: a zone that mirrors the known live records, so that the server answers something
//! real out of the box (apex, wildcard, common subdomains, mail exchanger, SPF and nameservers).
//!
//! Seeding runs only when the store has no zones, so a restart against a populated store never
//! duplicates or overwrites operator edits.
use crate::config;
use crate::config::{Config, LIST_LIMIT};
use crate::handlers::zones;
use crate::ids;
use crate::ids::SystemError;
use crate::order;
use crate::store;
use crate::store::{Record, RecordModel, Store, StoreModel, Zone, ZoneModel};
use crate::text;
use vstd::prelude::*;

verus! {

/// How many records the seed writes.
pub const SEED_RECORDS: usize = 11;

/// The zone of the seed.
pub open spec fn seed_zone(cfg: Config, id: Seq<char>, now: i64) -> ZoneModel {
    ZoneModel { id, name: config::canonical(cfg.zone_name@), serial: 1, created_at: now }
}

/// The owner, type and value of each record of the seed: apex and wildcard address, mail exchanger
/// and SPF policy, the two nameservers and their glue, and the common subdomains.
pub open spec fn seed_rows(cfg: Config) -> Seq<(Seq<char>, Seq<char>, Seq<char>)> {
    let zone = config::canonical(cfg.zone_name@);
    let ip = cfg.seed_ip@;
    let ns1 = cfg.primary_ns@;
    let ns2 = "ns2."@ + zone;
    let mail = "mail."@ + zone;
    seq![
        (zone, "A"@, ip),
        ("*."@ + zone, "A"@, ip),
        (zone, "MX"@, "10 "@ + mail),
        (zone, "TXT"@, "v=spf1 mx -all"@),
        (zone, "NS"@, ns1),
        (zone, "NS"@, ns2),
        (ns1, "A"@, ip),
        (ns2, "A"@, ip),
        ("id."@ + zone, "A"@, ip),
        ("status."@ + zone, "A"@, ip),
        (mail, "A"@, ip),
    ]
}

/// A record of the seed.
pub open spec fn seed_record(
    row: (Seq<char>, Seq<char>, Seq<char>),
    zone_id: Seq<char>,
    id: Seq<char>,
    now: i64,
) -> RecordModel {
    RecordModel {
        id,
        zone_id,
        name: config::canonical(row.0),
        rtype: row.1,
        value: row.2,
        ttl: 300,
        created_at: now,
    }
}

/// The records of the seed, with the ids `ids`.
pub open spec fn seed_records(
    cfg: Config,
    zone_id: Seq<char>,
    ids: Seq<Seq<char>>,
    now: i64,
) -> Seq<RecordModel> {
    Seq::new(
        SEED_RECORDS as nat,
        |i: int| seed_record(seed_rows(cfg)[i], zone_id, ids[i], now),
    )
}

/// Makes a record of the seed.
fn make_record(name: &str, rtype: &str, value: &str, zone_id: &str, id: &str, now: i64) -> (r:
    Record)
    ensures
        r@ == seed_record((name@, rtype@, value@), zone_id@, id@, now),
{
    Record {
        id: id.to_string(),
        zone_id: zone_id.to_string(),
        name: config::normalize_name(name),
        rtype: rtype.to_string(),
        value: value.to_string(),
        ttl: 300,
        created_at: now,
    }
}

/// Makes the zone of the seed.
pub fn make_seed_zone(cfg: &Config, id: &str, now: i64) -> (r: Zone)
    ensures
        r@ == seed_zone(*cfg, id@, now),
{
    Zone {
        id: id.to_string(),
        name: config::normalize_name(&cfg.zone_name),
        serial: 1,
        created_at: now,
    }
}

/// Makes the records of the seed.
pub fn make_seed_records(cfg: &Config, zone_id: &str, ids: &[String], now: i64) -> (r: Vec<Record>)
    requires
        ids@.len() >= SEED_RECORDS,
    ensures
        order::models(r@) == seed_records(*cfg, zone_id@, text::views(ids@), now),
{
    let zone = config::normalize_name(&cfg.zone_name);
    let ip = &cfg.seed_ip;
    let ns1 = &cfg.primary_ns;
    let ns2 = text::concat("ns2.", &zone);
    let mail = text::concat("mail.", &zone);
    let mut v: Vec<Record> = Vec::new();
    v.push(make_record(&zone, "A", ip, zone_id, &ids[0], now));
    v.push(make_record(&text::concat("*.", &zone), "A", ip, zone_id, &ids[1], now));
    v.push(make_record(&zone, "MX", &text::concat("10 ", &mail), zone_id, &ids[2], now));
    v.push(make_record(&zone, "TXT", "v=spf1 mx -all", zone_id, &ids[3], now));
    v.push(make_record(&zone, "NS", ns1, zone_id, &ids[4], now));
    v.push(make_record(&zone, "NS", &ns2, zone_id, &ids[5], now));
    v.push(make_record(ns1, "A", ip, zone_id, &ids[6], now));
    v.push(make_record(&ns2, "A", ip, zone_id, &ids[7], now));
    v.push(make_record(&text::concat("id.", &zone), "A", ip, zone_id, &ids[8], now));
    v.push(make_record(&text::concat("status.", &zone), "A", ip, zone_id, &ids[9], now));
    v.push(make_record(&mail, "A", ip, zone_id, &ids[10], now));
    assert(order::models(v@) == seed_records(*cfg, zone_id@, text::views(ids@), now));
    v
}

/// What seeding does to a store with the contents `before`: nothing where it has zones; otherwise the
/// zone and the records of the seed are added. Of a backend that may fail, the zone or some of the
/// records may be missing; nothing else is added.
pub open spec fn seed_outcome(
    before: StoreModel,
    after: StoreModel,
    infallible: bool,
    cfg: Config,
    zone_id: Seq<char>,
    ids: Seq<Seq<char>>,
    now: i64,
    seeded: bool,
) -> bool {
    let zones = before.zones.push(seed_zone(cfg, zone_id, now));
    &&& before.zones.len() > 0 ==> !seeded
    &&& !seeded ==> after == before
    &&& seeded ==> after.zones == zones && after.history == before.history
        && before.records.is_prefix_of(after.records) && order::is_subsequence(
        after.records.skip(before.records.len() as int),
        seed_records(cfg, zone_id, ids, now),
    )
    &&& before.zones.len() == 0 && infallible ==> seeded && after == (StoreModel {
        zones,
        records: before.records + seed_records(cfg, zone_id, ids, now),
        history: before.history,
    })
}

/// Whether `after` is what seeding with fresh ids, one for each record, and at some time makes of
/// `before`.
pub open spec fn seeded_freshly(
    before: StoreModel,
    after: StoreModel,
    infallible: bool,
    cfg: Config,
    seeded: bool,
) -> bool {
    exists|zone_id: Seq<char>, record_ids: Seq<Seq<char>>, now: i64|
        ids::is_id("zone"@, zone_id) && record_ids.len() == SEED_RECORDS && zones::are_ids(
            "rec"@,
            record_ids,
        ) && now >= 0
            && #[trigger] seed_outcome(
            before,
            after,
            infallible,
            cfg,
            zone_id,
            record_ids,
            now,
            seeded,
        )
}

/// A store lists no zones only where it has none.
proof fn lemma_lists_zones(model: StoreModel)
    ensures
        model.listed_zones().len() == 0 <==> model.zones.len() == 0,
{
    order::lemma_sorted_permutes::<store::ByZoneName>(model.zones);
    assert(LIST_LIMIT > 0);
}

/// Seeds the default zone and its records when the store has no zones. Returns whether it did.
pub fn apply_seed<S: Store>(
    store: &mut S,
    cfg: &Config,
    zone_id: &str,
    record_ids: &[String],
    now: i64,
) -> (seeded: bool)
    requires
        record_ids@.len() >= SEED_RECORDS,
    ensures
        seed_outcome(
            old(store).model(),
            final(store).model(),
            old(store).infallible(),
            *cfg,
            zone_id@,
            text::views(record_ids@),
            now,
            seeded,
        ),
        final(store).infallible() == old(store).infallible(),
{
    let ghost before = store.model();
    proof {
        lemma_lists_zones(before);
    }
    if store.list_zones().len() > 0 {
        return false;
    }
    let zone = make_seed_zone(cfg, zone_id, now);
    if store.create_zone(&zone).is_err() {
        return false;
    }
    let records = make_seed_records(cfg, zone_id, record_ids, now);
    let ghost all = order::models(records@);
    let mut i: usize = 0;
    assert(before.records + all.take(0) == before.records);
    assert(before.records.skip(before.records.len() as int) == all.take(0));
    while i < records.len()
        invariant
            i <= records@.len(),
            all == order::models(records@),
            store.model().zones == before.zones.push(zone@),
            store.model().history == before.history,
            before.records.is_prefix_of(store.model().records),
            order::is_subsequence(
                store.model().records.skip(before.records.len() as int),
                all.take(i as int),
            ),
            store.infallible() == old(store).infallible(),
            store.infallible() ==> store.model().records == before.records + all.take(i as int),
        decreases records@.len() - i,
    {
        let ghost prior = store.model().records;
        let _written = store.create_record(&records[i]);
        proof {
            assert(all.take(i + 1) == all.take(i as int).push(all[i as int]));
            assert(all[i as int] == records@[i as int]@);
            assert(before.records + all.take(i + 1) == (before.records + all.take(i as int)).push(
                all[i as int],
            ));
            assert(store.model().records == prior || store.model().records == prior.push(
                records@[i as int]@,
            ));
            let added = prior.skip(before.records.len() as int);
            assert(all.take(i + 1).drop_last() == all.take(i as int));
            assert(prior.push(all[i as int]).skip(before.records.len() as int) == added.push(
                all[i as int],
            ));
            assert(added.push(all[i as int]).drop_last() == added);
            assert(before.records == prior.subrange(0, before.records.len() as int));
            assert(prior.push(records@[i as int]@).subrange(0, before.records.len() as int)
                == prior.subrange(0, before.records.len() as int));
        }
        i += 1;
    }
    assert(all.take(all.len() as int) == all);
    true
}

/// Seeds the default zone and its records under fresh ids when the store has no zones; does nothing
/// otherwise. Returns whether it seeded.
pub fn seed_if_empty<S: Store>(store: &mut S, cfg: &Config) -> (r: Result<bool, SystemError>)
    ensures
        old(store).model().zones.len() > 0 ==> r == Ok::<bool, SystemError>(false)
            && final(store).model() == old(store).model(),
        match r {
            Ok(seeded) => old(store).model().zones.len() > 0 || seeded_freshly(
                old(store).model(),
                final(store).model(),
                old(store).infallible(),
                *cfg,
                seeded,
            ),
            Err(_) => final(store).model() == old(store).model(),
        },
        final(store).infallible() == old(store).infallible(),
{
    proof {
        lemma_lists_zones(store.model());
    }
    if store.list_zones().len() > 0 {
        return Ok(false);
    }
    let now: i64 = match ids::now_secs() {
        Ok(n) => n,
        Err(e) => {
            return Err(e);
        },
    };
    let zone_id = match ids::new_id("zone") {
        Ok(id) => id,
        Err(e) => {
            return Err(e);
        },
    };
    let record_ids = match zones::new_ids("rec", SEED_RECORDS) {
        Ok(v) => v,
        Err(e) => {
            return Err(e);
        },
    };
    let seeded = apply_seed(store, cfg, &zone_id, &record_ids, now);
    assert(seed_outcome(
        old(store).model(),
        store.model(),
        old(store).infallible(),
        *cfg,
        zone_id@,
        text::views(record_ids@),
        now,
        seeded,
    ));
    Ok(seeded)
}

} // verus!

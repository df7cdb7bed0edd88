//! Laws of fresh ids and of the seed.
use crate::addr;
use crate::config;
use crate::config::Config;
use crate::ids;
use crate::seed;
use crate::store::{RecordModel, StoreModel};
use vstd::prelude::*;

verus! {

// ---------------------------------------------------------------------------
// Ids
// ---------------------------------------------------------------------------

/// The bytes of an id read back from its digits: two for each byte, the high half first.
pub proof fn lemma_hex_reads_back(bytes: Seq<u8>)
    ensures
        ids::hex_text(bytes).len() == 2 * bytes.len(),
        forall|i: int|
            0 <= i < bytes.len() ==> addr::hex_digit(ids::hex_text(bytes)[2 * i]) == Some(
                (#[trigger] bytes[i] / 16) as nat,
            ) && addr::hex_digit(ids::hex_text(bytes)[2 * i + 1]) == Some((bytes[i] % 16) as nat),
    decreases bytes.len(),
{
    if bytes.len() > 0 {
        let init = bytes.drop_last();
        lemma_hex_reads_back(init);
        let t = ids::hex_text(bytes);
        let head = ids::hex_text(init);
        assert forall|i: int| 0 <= i < bytes.len() implies addr::hex_digit(t[2 * i]) == Some(
            (#[trigger] bytes[i] / 16) as nat,
        ) && addr::hex_digit(t[2 * i + 1]) == Some((bytes[i] % 16) as nat) by {
            if i < init.len() {
                assert(init[i] == bytes[i]);
                assert(t[2 * i] == head[2 * i] && t[2 * i + 1] == head[2 * i + 1]);
            } else {
                assert(t[2 * i] == addr::hex_char((bytes.last() / 16) as nat));
                assert(t[2 * i + 1] == addr::hex_char((bytes.last() % 16) as nat));
            }
        }
    }
}

/// An id is its prefix, an underscore and sixteen digits; different bytes make different ids.
pub proof fn lemma_id_shape(prefix: Seq<char>, a: Seq<u8>, b: Seq<u8>)
    requires
        a.len() == 8,
        b.len() == 8,
    ensures
        ids::id_text(prefix, a).len() == prefix.len() + 17,
        ids::id_text(prefix, a).take(prefix.len() as int) == prefix,
        ids::id_text(prefix, a)[prefix.len() as int] == '_',
        ids::id_text(prefix, a) == ids::id_text(prefix, b) ==> a == b,
{
    reveal_strlit("_");
    lemma_hex_reads_back(a);
    lemma_hex_reads_back(b);
    let n = prefix.len() as int;
    let s = ids::id_text(prefix, a);
    let t = ids::id_text(prefix, b);
    assert(s.take(n) =~= prefix);
    assert(s.skip(n + 1) =~= ids::hex_text(a));
    assert(t.skip(n + 1) =~= ids::hex_text(b));
    if s == t {
        assert forall|i: int| 0 <= i < 8 implies a[i] == b[i] by {
            assert(a[i] / 16 == b[i] / 16 && a[i] % 16 == b[i] % 16);
        }
        assert(a =~= b);
    }
}

// ---------------------------------------------------------------------------
// The seed
// ---------------------------------------------------------------------------

/// Whether one of `recs` has the owner `name`, the type `rtype` and the value `value`.
pub open spec fn has(
    recs: Seq<RecordModel>,
    name: Seq<char>,
    rtype: Seq<char>,
    value: Seq<char>,
) -> bool {
    exists|i: int|
        0 <= i < recs.len() && (#[trigger] recs[i]).name == config::canonical(name)
            && recs[i].rtype == rtype && recs[i].value == value
}

/// The seed gives the zone its apex and wildcard address, a mail exchanger with an address and a policy,
/// two nameservers with their addresses, and the addresses of the two services; it gives nothing else.
pub proof fn lemma_seed_means(cfg: Config, zone_id: Seq<char>, ids: Seq<Seq<char>>, now: i64)
    requires
        ids.len() >= 11,
    ensures
        ({
            let recs = seed::seed_records(cfg, zone_id, ids, now);
            let zone = config::canonical(cfg.zone_name@);
            let ip = cfg.seed_ip@;
            &&& recs.len() == 11
            &&& has(recs, zone, "A"@, ip)
            &&& has(recs, "*."@ + zone, "A"@, ip)
            &&& has(recs, zone, "MX"@, "10 "@ + ("mail."@ + zone))
            &&& has(recs, "mail."@ + zone, "A"@, ip)
            &&& has(recs, zone, "TXT"@, "v=spf1 mx -all"@)
            &&& has(recs, zone, "NS"@, cfg.primary_ns@)
            &&& has(recs, cfg.primary_ns@, "A"@, ip)
            &&& has(recs, zone, "NS"@, "ns2."@ + zone)
            &&& has(recs, "ns2."@ + zone, "A"@, ip)
            &&& has(recs, "id."@ + zone, "A"@, ip)
            &&& has(recs, "status."@ + zone, "A"@, ip)
            &&& forall|i: int|
                0 <= i < 11 ==> (#[trigger] recs[i]).id == ids[i] && recs[i].zone_id == zone_id
                    && recs[i].ttl == 300 && recs[i].created_at == now
        }),
{
    let recs = seed::seed_records(cfg, zone_id, ids, now);
    let zone = config::canonical(cfg.zone_name@);
    let ip = cfg.seed_ip@;
    let rows = seed::seed_rows(cfg);
    assert(recs.len() == 11);
    assert(recs[0].name == config::canonical(rows[0].0));
    assert(recs[1].name == config::canonical(rows[1].0));
    assert(recs[2].name == config::canonical(rows[2].0));
    assert(recs[3].name == config::canonical(rows[3].0));
    assert(recs[4].name == config::canonical(rows[4].0));
    assert(recs[5].name == config::canonical(rows[5].0));
    assert(recs[6].name == config::canonical(rows[6].0));
    assert(recs[7].name == config::canonical(rows[7].0));
    assert(recs[8].name == config::canonical(rows[8].0));
    assert(recs[9].name == config::canonical(rows[9].0));
    assert(recs[10].name == config::canonical(rows[10].0));
}

/// Seeding an empty store that does not fail makes one zone, with the configured name and the serial 1,
/// and the records of the seed; a store that has a zone stays as it is.
pub proof fn lemma_seeding_means(
    before: StoreModel,
    after: StoreModel,
    cfg: Config,
    zone_id: Seq<char>,
    ids: Seq<Seq<char>>,
    now: i64,
    seeded: bool,
)
    requires
        seed::seed_outcome(before, after, true, cfg, zone_id, ids, now, seeded),
    ensures
        before.zones.len() > 0 ==> !seeded && after == before,
        before.zones.len() == 0 ==> {
            &&& seeded
            &&& after.zones.len() == 1
            &&& after.zones[0].id == zone_id
            &&& after.zones[0].name == config::canonical(cfg.zone_name@)
            &&& after.zones[0].serial == 1
            &&& after.zones[0].created_at == now
            &&& after.records.len() == before.records.len() + 11
            &&& after.records.take(before.records.len() as int) == before.records
            &&& after.records.skip(before.records.len() as int) == seed::seed_records(
                cfg,
                zone_id,
                ids,
                now,
            )
            &&& after.history == before.history
        },
{
    let recs = seed::seed_records(cfg, zone_id, ids, now);
    if before.zones.len() == 0 {
        let n = before.records.len() as int;
        assert((before.records + recs).take(n) =~= before.records);
        assert((before.records + recs).skip(n) =~= recs);
    }
}

} // verus!

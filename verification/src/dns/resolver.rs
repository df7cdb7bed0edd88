//! In-process authoritative resolver over a snapshot of all zones.
//!
//! [`Resolver::reload`] builds the snapshot from the store, and [`Resolver::lookup`] answers from it
//! without touching the store again. A server reloads on a timer and after every zone edit.
use crate::addr;
use crate::addr::{Ipv4Addr, Ipv6Addr};
use crate::config;
use crate::config::{Config, SOA_MINIMUM};
use crate::digits;
use crate::dns;
use crate::dns::{
    Lookup, LookupModel, RData, RDataModel, Rr, RrModel, Soa, RCODE_NOERROR, RCODE_NXDOMAIN,
    RCODE_REFUSED, TYPE_A, TYPE_AAAA, TYPE_ANY, TYPE_CAA, TYPE_CNAME, TYPE_MX, TYPE_NS, TYPE_SOA,
    TYPE_SRV, TYPE_TXT,
};
use crate::order;
use crate::order::Order;
use crate::store;
use crate::store::{Record, RecordModel, Store, StoreModel, Zone, ZoneModel};
use crate::text;
use vstd::prelude::*;

verus! {

/// One stored record parsed into wire form.
#[derive(Debug)]
pub struct RecView {
    /// Canonical owner name (may be a wildcard such as `*.w33d.xyz`).
    pub name: String,
    pub rtype: u16,
    pub ttl: u32,
    pub data: RData,
}

/// One zone, with its records parsed for lookups.
#[derive(Debug)]
pub struct ZoneView {
    pub name: String,
    pub serial: u32,
    pub records: Vec<RecView>,
}

/// A point-in-time view of all zones, and the SOA identity fields.
#[derive(Debug)]
pub struct Snapshot {
    pub zones: Vec<ZoneView>,
    pub primary_ns: String,
    pub hostmaster: String,
}

/// The model of [`RecView`].
pub struct RecViewModel {
    pub name: Seq<char>,
    pub rtype: u16,
    pub ttl: u32,
    pub data: RDataModel,
}

/// The model of [`ZoneView`].
pub struct ZoneViewModel {
    pub name: Seq<char>,
    pub serial: u32,
    pub records: Seq<RecViewModel>,
}

/// The model of [`Snapshot`].
pub struct SnapshotModel {
    pub zones: Seq<ZoneViewModel>,
    pub primary_ns: Seq<char>,
    pub hostmaster: Seq<char>,
}

impl View for RecView {
    type V = RecViewModel;

    open spec fn view(&self) -> RecViewModel {
        RecViewModel { name: self.name@, rtype: self.rtype, ttl: self.ttl, data: self.data@ }
    }
}

impl View for ZoneView {
    type V = ZoneViewModel;

    open spec fn view(&self) -> ZoneViewModel {
        ZoneViewModel {
            name: self.name@,
            serial: self.serial,
            records: order::models(self.records@),
        }
    }
}

impl View for Snapshot {
    type V = SnapshotModel;

    open spec fn view(&self) -> SnapshotModel {
        SnapshotModel {
            zones: order::models(self.zones@),
            primary_ns: self.primary_ns@,
            hostmaster: self.hostmaster@,
        }
    }
}

// ---------------------------------------------------------------------------
// Parsing stored records
// ---------------------------------------------------------------------------

/// The words of `words` from position `from` on, with a space between each two of them.
pub open spec fn words_from(words: Seq<Seq<char>>, from: int) -> Seq<char> {
    text::joined(words.skip(from), " "@)
}

/// The data that an MX value writes: a preference and a host.
pub open spec fn mx_of(words: Seq<Seq<char>>) -> Option<RDataModel> {
    if words.len() < 1 {
        None
    } else {
        match digits::unsigned(words[0], 65535) {
            Some(pref) => {
                let host = config::canonical(words_from(words, 1));
                if host.len() == 0 {
                    None
                } else {
                    Some(RDataModel::Mx { pref: pref as u16, host })
                }
            },
            None => None,
        }
    }
}

/// The data that an SRV value writes: a priority, a weight, a port and a target.
pub open spec fn srv_of(words: Seq<Seq<char>>) -> Option<RDataModel> {
    if words.len() < 3 {
        None
    } else {
        match (
            digits::unsigned(words[0], 65535),
            digits::unsigned(words[1], 65535),
            digits::unsigned(words[2], 65535),
        ) {
            (Some(priority), Some(weight), Some(port)) => {
                let target = config::canonical(words_from(words, 3));
                if target.len() == 0 {
                    None
                } else {
                    Some(
                        RDataModel::Srv {
                            priority: priority as u16,
                            weight: weight as u16,
                            port: port as u16,
                            target,
                        },
                    )
                }
            },
            _ => None,
        }
    }
}

/// The data that a CAA value writes: flags, a tag and a value.
pub open spec fn caa_of(words: Seq<Seq<char>>) -> Option<RDataModel> {
    if words.len() < 2 {
        None
    } else {
        match digits::unsigned(words[0], 255) {
            Some(flags) => {
                let tag = text::lowered(words[1]);
                let value = text::unquoted(words_from(words, 2));
                if tag.len() == 0 || value.len() == 0 {
                    None
                } else {
                    Some(RDataModel::Caa { flags: flags as u8, tag, value })
                }
            },
            None => None,
        }
    }
}

/// The data that the presentation form `raw` writes for the type `code`. SOA data is never stored.
pub open spec fn data_of(code: u16, raw: Seq<char>) -> Option<RDataModel> {
    let value = text::trimmed(raw);
    if code == TYPE_A {
        match addr::ipv4_of(value) {
            Some(ip) => Some(RDataModel::A(ip)),
            None => None,
        }
    } else if code == TYPE_AAAA {
        match addr::ipv6_of(value) {
            Some(ip) => Some(RDataModel::Aaaa(ip)),
            None => None,
        }
    } else if code == TYPE_NS || code == TYPE_CNAME {
        Some(RDataModel::Name(code, config::canonical(value)))
    } else if code == TYPE_MX {
        mx_of(text::words_of(value))
    } else if code == TYPE_TXT {
        Some(RDataModel::Txt(text::unquoted(raw)))
    } else if code == TYPE_SRV {
        srv_of(text::words_of(value))
    } else if code == TYPE_CAA {
        caa_of(text::words_of(value))
    } else {
        None
    }
}

/// A stored TTL brought into the range of the wire.
pub open spec fn clamped_ttl(ttl: i64) -> u32 {
    if ttl < 0 {
        0
    } else if ttl > u32::MAX {
        u32::MAX
    } else {
        ttl as u32
    }
}

/// The wire form of a stored record; nothing where its type is unknown or its value cannot be
/// parsed.
pub open spec fn parsed(r: RecordModel) -> Option<RecViewModel> {
    match dns::type_of(r.rtype) {
        Some(code) => match data_of(code, r.value) {
            Some(data) => Some(
                RecViewModel {
                    name: config::canonical(r.name),
                    rtype: code,
                    ttl: clamped_ttl(r.ttl),
                    data,
                },
            ),
            None => None,
        },
        None => None,
    }
}

/// Parses the value of an MX record.
fn parse_mx(words: &Vec<String>) -> (r: Option<RData>)
    ensures
        match r {
            Some(d) => mx_of(text::views(words@)) == Some(d@),
            None => mx_of(text::views(words@)) is None,
        },
{
    if words.len() < 1 {
        return None;
    }
    match digits::parse_unsigned(&words[0], 65535) {
        Some(pref) => {
            let host = config::normalize_name(&text::join_from(words, 1, " "));
            if host.as_str().is_empty() {
                return None;
            }
            Some(RData::Mx { pref: pref as u16, host })
        },
        None => None,
    }
}

/// Parses the value of an SRV record.
fn parse_srv(words: &Vec<String>) -> (r: Option<RData>)
    ensures
        match r {
            Some(d) => srv_of(text::views(words@)) == Some(d@),
            None => srv_of(text::views(words@)) is None,
        },
{
    if words.len() < 3 {
        return None;
    }
    match (
        digits::parse_unsigned(&words[0], 65535),
        digits::parse_unsigned(&words[1], 65535),
        digits::parse_unsigned(&words[2], 65535),
    ) {
        (Some(priority), Some(weight), Some(port)) => {
            let target = config::normalize_name(&text::join_from(words, 3, " "));
            if target.as_str().is_empty() {
                return None;
            }
            Some(
                RData::Srv {
                    priority: priority as u16,
                    weight: weight as u16,
                    port: port as u16,
                    target,
                },
            )
        },
        _ => None,
    }
}

/// Parses the value of a CAA record.
fn parse_caa(words: &Vec<String>) -> (r: Option<RData>)
    ensures
        match r {
            Some(d) => caa_of(text::views(words@)) == Some(d@),
            None => caa_of(text::views(words@)) is None,
        },
{
    if words.len() < 2 {
        return None;
    }
    match digits::parse_unsigned(&words[0], 255) {
        Some(flags) => {
            let tag = text::to_ascii_lowercase(&words[1]);
            let value = text::strip_quotes(&text::join_from(words, 2, " "));
            if tag.as_str().is_empty() || value.as_str().is_empty() {
                return None;
            }
            Some(RData::Caa { flags: flags as u8, tag, value })
        },
        None => None,
    }
}

/// Parses the presentation form of record data for the type `code`.
fn parse_data(code: u16, raw: &str) -> (r: Option<RData>)
    ensures
        match r {
            Some(d) => data_of(code, raw@) == Some(d@),
            None => data_of(code, raw@) is None,
        },
{
    let value = text::trim(raw);
    if code == TYPE_A {
        match Ipv4Addr::parse(&value) {
            Some(ip) => Some(RData::A(ip)),
            None => None,
        }
    } else if code == TYPE_AAAA {
        match Ipv6Addr::parse(&value) {
            Some(ip) => Some(RData::Aaaa(ip)),
            None => None,
        }
    } else if code == TYPE_NS || code == TYPE_CNAME {
        Some(RData::Name(code, config::normalize_name(&value)))
    } else if code == TYPE_MX {
        parse_mx(&text::split_whitespace(&value))
    } else if code == TYPE_TXT {
        Some(RData::Txt(text::strip_quotes(raw)))
    } else if code == TYPE_SRV {
        parse_srv(&text::split_whitespace(&value))
    } else if code == TYPE_CAA {
        parse_caa(&text::split_whitespace(&value))
    } else {
        None
    }
}

/// Parses a stored record. Returns `None` when the value cannot be parsed for its type. SOA rows are
/// ignored: the SOA is synthesized for each zone.
pub fn parse_record(r: &Record) -> (v: Option<RecView>)
    ensures
        match v {
            Some(rec) => parsed(r@) == Some(rec@),
            None => parsed(r@) is None,
        },
{
    match dns::type_from_str(&r.rtype) {
        Some(code) => match parse_data(code, &r.value) {
            Some(data) => {
                let ttl: u32 = if r.ttl < 0 {
                    0
                } else if r.ttl > u32::MAX as i64 {
                    u32::MAX
                } else {
                    r.ttl as u32
                };
                Some(RecView { name: config::normalize_name(&r.name), rtype: code, ttl, data })
            },
            None => None,
        },
        None => None,
    }
}

// ---------------------------------------------------------------------------
// Building the snapshot
// ---------------------------------------------------------------------------

/// The wire forms of those of `records` that can be parsed.
pub open spec fn parsed_records(records: Seq<RecordModel>) -> Seq<RecViewModel>
    decreases records.len(),
{
    if records.len() == 0 {
        Seq::<RecViewModel>::empty()
    } else {
        let before = parsed_records(records.drop_last());
        match parsed(records.last()) {
            Some(v) => before.push(v),
            None => before,
        }
    }
}

/// The serial of a zone on the wire: never negative, and the 32 low bits.
pub open spec fn wire_serial(serial: i64) -> u32 {
    if serial < 0 {
        0
    } else {
        (serial % 0x1_0000_0000) as u32
    }
}

/// A zone with those of its records that can be parsed.
pub open spec fn zone_view(zone: ZoneModel, records: Seq<RecordModel>) -> ZoneViewModel {
    ZoneViewModel {
        name: zone.name,
        serial: wire_serial(zone.serial),
        records: parsed_records(store::records_of(records, zone.id)),
    }
}

/// The order of zones by the length of their names in bytes, longest first.
pub struct LongestFirst;

impl Order for LongestFirst {
    type Item = ZoneView;

    open spec fn le(a: ZoneViewModel, b: ZoneViewModel) -> bool {
        vstd::utf8::encode_utf8(a.name).len() >= vstd::utf8::encode_utf8(b.name).len()
    }

    fn not_after(a: &ZoneView, b: &ZoneView) -> (r: bool) {
        a.name.as_str().as_bytes().len() >= b.name.as_str().as_bytes().len()
    }
}

/// The snapshot of `zones` and `records`, with the SOA identity of `primary_ns` and `hostmaster`.
pub open spec fn snapshot_of(
    zones: Seq<ZoneModel>,
    records: Seq<RecordModel>,
    primary_ns: Seq<char>,
    hostmaster: Seq<char>,
) -> SnapshotModel {
    SnapshotModel {
        zones: order::sorted::<LongestFirst>(
            zones.map_values(|z: ZoneModel| zone_view(z, records)),
        ),
        primary_ns,
        hostmaster,
    }
}

/// Parses the records of one zone; those that cannot be parsed are left out.
fn view_zone(zone: &Zone, records: &[Record]) -> (r: ZoneView)
    ensures
        r@ == zone_view(zone@, order::models(records@)),
{
    let ghost all = order::models(records@);
    let ghost id = zone@.id;
    let mut recs: Vec<RecView> = Vec::new();
    let mut i: usize = 0;
    proof {
        reveal(Seq::filter);
    }
    assert(order::models(recs@) == parsed_records(store::records_of(all.take(0), id)));
    while i < records.len()
        invariant
            i <= records@.len(),
            all == order::models(records@),
            id == zone@.id,
            order::models(recs@) == parsed_records(store::records_of(all.take(i as int), id)),
        decreases records@.len() - i,
    {
        let ghost before = store::records_of(all.take(i as int), id);
        proof {
            reveal(Seq::filter);
            assert(all.take(i + 1).drop_last() == all.take(i as int));
            assert(all.take(i + 1).last() == records@[i as int]@);
        }
        if text::same(&records[i].zone_id, &zone.id) {
            assert(store::records_of(all.take(i + 1), id) == before.push(records@[i as int]@));
            assert(before.push(records@[i as int]@).drop_last() == before);
            let ghost done = order::models(recs@);
            if let Some(v) = parse_record(&records[i]) {
                recs.push(v);
                assert(order::models(recs@) == done.push(v@));
            }
        }
        i += 1;
    }
    assert(all.take(all.len() as int) == all);
    let serial: u32 = if zone.serial < 0 {
        0
    } else {
        (zone.serial % 0x1_0000_0000) as u32
    };
    ZoneView { name: zone.name.clone(), serial, records: recs }
}

/// Builds the snapshot of `zones` and `records`.
pub fn build_snapshot(zones: &[Zone], records: &[Record], cfg: &Config) -> (r: Snapshot)
    ensures
        r@ == snapshot_of(
            order::models(zones@),
            order::models(records@),
            cfg.primary_ns@,
            cfg.hostmaster@,
        ),
{
    let ghost all = order::models(zones@);
    let ghost recs = order::models(records@);
    let mut views: Vec<ZoneView> = Vec::new();
    let mut i: usize = 0;
    while i < zones.len()
        invariant
            i <= zones@.len(),
            all == order::models(zones@),
            recs == order::models(records@),
            order::models(views@) == all.take(i as int).map_values(
                |z: ZoneModel| zone_view(z, recs),
            ),
        decreases zones@.len() - i,
    {
        let v = view_zone(&zones[i], records);
        let ghost before = order::models(views@);
        views.push(v);
        assert(order::models(views@) == before.push(v@));
        assert(all.take(i + 1) == all.take(i as int).push(all[i as int]));
        i += 1;
    }
    assert(all.take(all.len() as int) == all);
    order::sort::<LongestFirst>(&mut views);
    Snapshot {
        zones: views,
        primary_ns: cfg.primary_ns.clone(),
        hostmaster: cfg.hostmaster.clone(),
    }
}

// ---------------------------------------------------------------------------
// Answering
// ---------------------------------------------------------------------------

/// The snapshot of what a store holds.
pub open spec fn reloaded(
    model: StoreModel,
    primary_ns: Seq<char>,
    hostmaster: Seq<char>,
) -> SnapshotModel {
    snapshot_of(model.listed_zones(), model.records, primary_ns, hostmaster)
}

/// The first of `zones` that `qname` lies within.
pub open spec fn authority_for(zones: Seq<ZoneViewModel>, qname: Seq<char>) -> Option<ZoneViewModel>
    decreases zones.len(),
{
    if zones.len() == 0 {
        None
    } else if config::is_within(qname, zones[0].name) {
        Some(zones[0])
    } else {
        authority_for(zones.drop_first(), qname)
    }
}

/// The SOA record of a zone.
pub open spec fn soa_of(snap: SnapshotModel, zone: ZoneViewModel) -> RrModel {
    RrModel {
        name: zone.name,
        ttl: SOA_MINIMUM,
        data: RDataModel::Soa(dns::soa_model(snap.primary_ns, snap.hostmaster, zone.serial)),
    }
}

/// A negative answer: no answers, and the SOA in the authority section.
pub open spec fn negative_answer(
    snap: SnapshotModel,
    zone: ZoneViewModel,
    rcode: u8,
) -> LookupModel {
    LookupModel {
        rcode,
        aa: true,
        answers: Seq::<RrModel>::empty(),
        authority: seq![soa_of(snap, zone)],
    }
}

/// A positive answer.
pub open spec fn positive_answer(answers: Seq<RrModel>) -> LookupModel {
    LookupModel {
        rcode: RCODE_NOERROR,
        aa: true,
        answers,
        authority: Seq::<RrModel>::empty(),
    }
}

/// The answer to a question about a name that no zone covers.
pub open spec fn refused() -> LookupModel {
    LookupModel {
        rcode: RCODE_REFUSED,
        aa: false,
        answers: Seq::<RrModel>::empty(),
        authority: Seq::<RrModel>::empty(),
    }
}

/// The answer record for the owner `name` that a stored record gives.
pub open spec fn answer_from(name: Seq<char>, rec: RecViewModel) -> RrModel {
    RrModel { name, ttl: rec.ttl, data: rec.data }
}

/// Whether a question for `qtype` asks for records of type `t`.
pub open spec fn asks_for(qtype: u16, t: u16) -> bool {
    qtype == TYPE_ANY || t == qtype
}

/// The records at `owner` that a question for `qtype` asks for, as answers for the owner `name`.
pub open spec fn answers_at(
    records: Seq<RecViewModel>,
    owner: Seq<char>,
    qtype: u16,
    name: Seq<char>,
) -> Seq<RrModel> {
    records.filter(|r: RecViewModel| r.name == owner && asks_for(qtype, r.rtype)).map_values(
        |r: RecViewModel| answer_from(name, r),
    )
}

/// The first CNAME record at `owner`.
pub open spec fn cname_at(records: Seq<RecViewModel>, owner: Seq<char>) -> Option<RecViewModel>
    decreases records.len(),
{
    if records.len() == 0 {
        None
    } else if records[0].name == owner && records[0].rtype == TYPE_CNAME {
        Some(records[0])
    } else {
        cname_at(records.drop_first(), owner)
    }
}

/// Whether some record is owned by `owner`.
pub open spec fn is_owner(records: Seq<RecViewModel>, owner: Seq<char>) -> bool {
    exists|i: int| 0 <= i < records.len() && #[trigger] records[i].name == owner
}

/// What follows the first `c` is shorter than the whole.
pub proof fn lemma_after_first_shorter(s: Seq<char>, c: char)
    ensures
        text::after_first(s, c) matches Some(t) ==> t.len() < s.len(),
    decreases s.len(),
{
    if s.len() > 0 && s[0] != c {
        lemma_after_first_shorter(s.drop_first(), c);
    }
}

/// The nearest wildcard owner at or above `*.parent`, up to the zone apex.
pub open spec fn wildcard_at(
    records: Seq<RecViewModel>,
    zone: Seq<char>,
    parent: Seq<char>,
) -> Option<Seq<char>>
    decreases parent.len(),
{
    let candidate = "*."@ + parent;
    if is_owner(records, candidate) {
        Some(candidate)
    } else if parent == zone {
        None
    } else {
        proof {
            lemma_after_first_shorter(parent, '.');
        }
        match text::after_first(parent, '.') {
            Some(p) => wildcard_at(records, zone, p),
            None => None,
        }
    }
}

/// The nearest wildcard owner that covers `qname`.
pub open spec fn wildcard_for(
    records: Seq<RecViewModel>,
    zone: Seq<char>,
    qname: Seq<char>,
) -> Option<Seq<char>> {
    match text::after_first(qname, '.') {
        Some(parent) => wildcard_at(records, zone, parent),
        None => None,
    }
}

/// Whether a question for `qtype` follows a CNAME in place of the records it asks for.
pub open spec fn follows_cname(qtype: u16) -> bool {
    qtype != TYPE_CNAME && qtype != TYPE_ANY
}

/// The answers that the CNAME record `cn` gives: the record itself, and the records of the type asked
/// for that its target has in the zone.
pub open spec fn cname_answers(
    records: Seq<RecViewModel>,
    cn: RecViewModel,
    qname: Seq<char>,
    qtype: u16,
) -> Seq<RrModel> {
    let first = seq![answer_from(qname, cn)];
    match cn.data {
        RDataModel::Name(_, target) => first + answers_at(records, target, qtype, target),
        _ => first,
    }
}

/// The records at `qname` itself that a question for `qtype` asks for; at the apex the SOA is one.
pub open spec fn direct_answers(
    snap: SnapshotModel,
    zone: ZoneViewModel,
    qname: Seq<char>,
    qtype: u16,
) -> Seq<RrModel> {
    let soa = if qname == zone.name && (qtype == TYPE_SOA || qtype == TYPE_ANY) {
        seq![soa_of(snap, zone)]
    } else {
        Seq::<RrModel>::empty()
    };
    soa + answers_at(zone.records, qname, qtype, qname)
}

/// The answer that the records at the wildcard owner `wild` give for `qname`.
pub open spec fn wildcard_answer(
    snap: SnapshotModel,
    zone: ZoneViewModel,
    wild: Seq<char>,
    qname: Seq<char>,
    qtype: u16,
) -> LookupModel {
    let found = answers_at(zone.records, wild, qtype, qname);
    if follows_cname(qtype) && cname_at(zone.records, wild) is Some {
        positive_answer(seq![answer_from(qname, cname_at(zone.records, wild).unwrap())])
    } else if found.len() > 0 {
        positive_answer(found)
    } else {
        negative_answer(snap, zone, RCODE_NOERROR)
    }
}

/// The answer of the authoritative zone `zone`. A CNAME at the name comes first, then the records of
/// the name itself, then those of the nearest wildcard. A name with neither does not exist, unless
/// it is the apex or owns a record of another type.
pub open spec fn zone_answer(
    snap: SnapshotModel,
    zone: ZoneViewModel,
    qname: Seq<char>,
    qtype: u16,
) -> LookupModel {
    let direct = direct_answers(snap, zone, qname, qtype);
    let wild = wildcard_for(zone.records, zone.name, qname);
    if follows_cname(qtype) && cname_at(zone.records, qname) is Some {
        positive_answer(
            cname_answers(zone.records, cname_at(zone.records, qname).unwrap(), qname, qtype),
        )
    } else if direct.len() > 0 {
        positive_answer(direct)
    } else if qname != zone.name && wild is Some {
        wildcard_answer(snap, zone, wild.unwrap(), qname, qtype)
    } else if qname == zone.name || is_owner(zone.records, qname) {
        negative_answer(snap, zone, RCODE_NOERROR)
    } else {
        negative_answer(snap, zone, RCODE_NXDOMAIN)
    }
}

/// The answer to one question.
pub open spec fn answer(snap: SnapshotModel, qname: Seq<char>, qtype: u16) -> LookupModel {
    match authority_for(snap.zones, qname) {
        Some(zone) => zone_answer(snap, zone, qname, qtype),
        None => refused(),
    }
}

/// Builds an answer for an owner name from a parsed record.
fn rr_for(owner: &str, rec: &RecView) -> (r: Rr)
    ensures
        r@ == answer_from(owner@, rec@),
{
    Rr { name: owner.to_string(), ttl: rec.ttl, data: rec.data.clone() }
}

/// Appends the records at `owner` that a question for `qtype` asks for.
fn collect_answers(
    records: &Vec<RecView>,
    owner: &str,
    qtype: u16,
    name: &str,
    out: &mut Vec<Rr>,
)
    ensures
        order::models(final(out)@) == order::models(old(out)@) + answers_at(
            order::models(records@),
            owner@,
            qtype,
            name@,
        ),
{
    let ghost all = order::models(records@);
    let ghost wanted = |r: RecViewModel| r.name == owner@ && asks_for(qtype, r.rtype);
    let ghost made = |r: RecViewModel| answer_from(name@, r);
    let ghost start = order::models(out@);
    let mut i: usize = 0;
    proof {
        reveal(Seq::filter);
    }
    assert(start + all.take(0).filter(wanted).map_values(made) == start);
    while i < records.len()
        invariant
            i <= records@.len(),
            all == order::models(records@),
            wanted == (|r: RecViewModel| r.name == owner@ && asks_for(qtype, r.rtype)),
            made == (|r: RecViewModel| answer_from(name@, r)),
            order::models(out@) == start + all.take(i as int).filter(wanted).map_values(made),
        decreases records@.len() - i,
    {
        let ghost before = all.take(i as int).filter(wanted);
        let ghost done = order::models(out@);
        proof {
            reveal(Seq::filter);
            assert(all.take(i + 1).drop_last() == all.take(i as int));
            assert(all.take(i + 1).last() == records@[i as int]@);
        }
        if text::same(&records[i].name, owner) && (qtype == TYPE_ANY || records[i].rtype
            == qtype) {
            let rr = rr_for(name, &records[i]);
            out.push(rr);
            assert(order::models(out@) == done.push(rr@));
            assert(before.push(records@[i as int]@).map_values(made) == before.map_values(
                made,
            ).push(rr@));
            assert(done.push(rr@) == start + before.map_values(made).push(rr@));
        }
        i += 1;
    }
    assert(all.take(all.len() as int) == all);
}

/// Finds the first CNAME record at `owner`.
fn find_cname<'a>(records: &'a Vec<RecView>, owner: &str) -> (r: Option<&'a RecView>)
    ensures
        match r {
            Some(rec) => cname_at(order::models(records@), owner@) == Some(rec@),
            None => cname_at(order::models(records@), owner@) is None,
        },
{
    let ghost all = order::models(records@);
    let mut i: usize = 0;
    assert(all.skip(0) == all);
    while i < records.len()
        invariant
            i <= records@.len(),
            all == order::models(records@),
            cname_at(all, owner@) == cname_at(all.skip(i as int), owner@),
        decreases records@.len() - i,
    {
        assert(all.skip(i as int).drop_first() == all.skip(i + 1));
        assert(all.skip(i as int)[0] == records@[i as int]@);
        if text::same(&records[i].name, owner) && records[i].rtype == TYPE_CNAME {
            return Some(&records[i]);
        }
        i += 1;
    }
    None
}

/// Whether some record is owned by `owner`.
fn has_owner(records: &Vec<RecView>, owner: &str) -> (r: bool)
    ensures
        r == is_owner(order::models(records@), owner@),
{
    let ghost all = order::models(records@);
    let mut i: usize = 0;
    while i < records.len()
        invariant
            i <= records@.len(),
            all == order::models(records@),
            forall|j: int| 0 <= j < i ==> #[trigger] all[j].name != owner@,
        decreases records@.len() - i,
    {
        assert(all[i as int] == records@[i as int]@);
        if text::same(&records[i].name, owner) {
            assert(all[i as int].name == owner@);
            return true;
        }
        i += 1;
    }
    false
}

impl Snapshot {
    /// The authoritative zone for `qname`. Zones are kept longest name first, so the first match is
    /// the most specific.
    pub fn authoritative_zone(&self, qname: &str) -> (r: Option<&ZoneView>)
        ensures
            match r {
                Some(z) => authority_for(self@.zones, qname@) == Some(z@),
                None => authority_for(self@.zones, qname@) is None,
            },
    {
        let ghost all = order::models(self.zones@);
        let mut i: usize = 0;
        assert(all.skip(0) == all);
        while i < self.zones.len()
            invariant
                i <= self.zones@.len(),
                all == order::models(self.zones@),
                authority_for(all, qname@) == authority_for(all.skip(i as int), qname@),
            decreases self.zones@.len() - i,
        {
            assert(all.skip(i as int).drop_first() == all.skip(i + 1));
            assert(all.skip(i as int)[0] == self.zones@[i as int]@);
            if config::within(qname, &self.zones[i].name) {
                return Some(&self.zones[i]);
            }
            i += 1;
        }
        None
    }

    /// Synthesizes the SOA record of the zone.
    fn soa_rr(&self, zone: &ZoneView) -> (r: Rr)
        ensures
            r@ == soa_of(self@, zone@),
    {
        Rr {
            name: zone.name.clone(),
            ttl: SOA_MINIMUM,
            data: RData::Soa(Soa::new(&self.primary_ns, &self.hostmaster, zone.serial)),
        }
    }

    /// A negative answer: no answers, the SOA in the authority section, AA set.
    fn negative(&self, zone: &ZoneView, rcode: u8) -> (r: Lookup)
        ensures
            r@ == negative_answer(self@, zone@, rcode),
    {
        let mut authority: Vec<Rr> = Vec::new();
        authority.push(self.soa_rr(zone));
        let r = Lookup { rcode, aa: true, answers: Vec::new(), authority };
        assert(r@.answers == Seq::<RrModel>::empty());
        assert(r@.authority == seq![soa_of(self@, zone@)]);
        r
    }

    /// Finds the nearest wildcard owner (`*.<ancestor>`) that covers `qname`, from the immediate
    /// parent up to the zone apex.
    pub fn wildcard_owner(&self, qname: &str, zone: &ZoneView) -> (r: Option<String>)
        ensures
            match r {
                Some(w) => wildcard_for(zone@.records, zone@.name, qname@) == Some(w@),
                None => wildcard_for(zone@.records, zone@.name, qname@) is None,
            },
    {
        let mut parent = match text::after(qname, '.') {
            Some(p) => p,
            None => {
                return None;
            },
        };
        loop
            invariant
                wildcard_for(zone@.records, zone@.name, qname@) == wildcard_at(
                    zone@.records,
                    zone@.name,
                    parent@,
                ),
            decreases parent@.len(),
        {
            let candidate = text::concat("*.", &parent);
            if has_owner(&zone.records, &candidate) {
                return Some(candidate);
            }
            if text::same(&parent, &zone.name) {
                return None;
            }
            proof {
                lemma_after_first_shorter(parent@, '.');
            }
            parent =
            match text::after(&parent, '.') {
                Some(p) => p,
                None => {
                    return None;
                },
            };
        }
    }

    /// Answers from the records at the wildcard owner `wild`.
    fn lookup_wildcard(&self, zone: &ZoneView, wild: &str, qname: &str, qtype: u16) -> (r: Lookup)
        ensures
            r@ == wildcard_answer(self@, zone@, wild@, qname@, qtype),
    {
        if qtype != TYPE_CNAME && qtype != TYPE_ANY {
            if let Some(cn) = find_cname(&zone.records, wild) {
                let mut answers: Vec<Rr> = Vec::new();
                answers.push(rr_for(qname, cn));
                assert(order::models(answers@) == seq![answer_from(qname@, cn@)]);
                return positive(answers);
            }
        }
        let mut found: Vec<Rr> = Vec::new();
        collect_answers(&zone.records, wild, qtype, qname, &mut found);
        assert(order::models(found@) == answers_at(zone@.records, wild@, qtype, qname@));
        if found.len() > 0 {
            return positive(found);
        }
        self.negative(zone, RCODE_NOERROR)
    }

    /// Resolves one question.
    pub fn lookup(&self, qname: &str, qtype: u16) -> (r: Lookup)
        ensures
            r@ == answer(self@, qname@, qtype),
    {
        let zone = match self.authoritative_zone(qname) {
            Some(z) => z,
            None => {
                let r = Lookup {
                    rcode: RCODE_REFUSED,
                    aa: false,
                    answers: Vec::new(),
                    authority: Vec::new(),
                };
                assert(r@.answers == Seq::<RrModel>::empty());
                assert(r@.authority == Seq::<RrModel>::empty());
                return r;
            },
        };
        let apex = text::same(qname, &zone.name);
        if qtype != TYPE_CNAME && qtype != TYPE_ANY {
            if let Some(cn) = find_cname(&zone.records, qname) {
                let mut answers: Vec<Rr> = Vec::new();
                answers.push(rr_for(qname, cn));
                assert(order::models(answers@) == seq![answer_from(qname@, cn@)]);
                if let RData::Name(_, target) = &cn.data {
                    collect_answers(&zone.records, target, qtype, target, &mut answers);
                }
                return positive(answers);
            }
        }
        let mut answers: Vec<Rr> = Vec::new();
        if apex && (qtype == TYPE_SOA || qtype == TYPE_ANY) {
            answers.push(self.soa_rr(zone));
            assert(order::models(answers@) == seq![soa_of(self@, zone@)]);
        } else {
            assert(order::models(answers@) == Seq::<RrModel>::empty());
        }
        collect_answers(&zone.records, qname, qtype, qname, &mut answers);
        assert(order::models(answers@) == direct_answers(self@, zone@, qname@, qtype));
        if answers.len() > 0 {
            return positive(answers);
        }
        if !apex {
            if let Some(wild) = self.wildcard_owner(qname, zone) {
                return self.lookup_wildcard(zone, &wild, qname, qtype);
            }
        }
        if apex || has_owner(&zone.records, qname) {
            self.negative(zone, RCODE_NOERROR)
        } else {
            self.negative(zone, RCODE_NXDOMAIN)
        }
    }
}

/// A positive answer.
fn positive(answers: Vec<Rr>) -> (r: Lookup)
    ensures
        r@ == positive_answer(order::models(answers@)),
{
    let r = Lookup { rcode: RCODE_NOERROR, aa: true, answers, authority: Vec::new() };
    assert(r@.authority == Seq::<RrModel>::empty());
    r
}

/// The authoritative resolver.
pub struct Resolver {
    pub snapshot: Snapshot,
}

impl View for Resolver {
    type V = SnapshotModel;

    open spec fn view(&self) -> SnapshotModel {
        self.snapshot@
    }
}

impl Default for Resolver {
    fn default() -> (r: Self)
        ensures
            r@.zones.len() == 0,
            r@.primary_ns.len() == 0,
            r@.hostmaster.len() == 0,
    {
        Resolver::new()
    }
}

impl Resolver {
    /// A resolver with an empty snapshot, which refuses every question until the first reload.
    pub fn new() -> (r: Self)
        ensures
            r@.zones.len() == 0,
            r@.primary_ns.len() == 0,
            r@.hostmaster.len() == 0,
    {
        Resolver {
            snapshot: Snapshot {
                zones: Vec::new(),
                primary_ns: String::new(),
                hostmaster: String::new(),
            },
        }
    }

    /// Replaces the snapshot by one of the given zones and records. Records that cannot be parsed
    /// are left out, so that one bad row never blanks a zone.
    pub fn load(&mut self, zones: &[Zone], records: &[Record], cfg: &Config)
        ensures
            final(self)@ == snapshot_of(
                order::models(zones@),
                order::models(records@),
                cfg.primary_ns@,
                cfg.hostmaster@,
            ),
    {
        self.snapshot = build_snapshot(zones, records, cfg);
    }

    /// Rebuilds the snapshot from the store.
    pub fn reload<S: Store>(&mut self, store: &S, cfg: &Config)
        ensures
            final(self)@ == snapshot_of(
                store.model().listed_zones(),
                store.model().records,
                cfg.primary_ns@,
                cfg.hostmaster@,
            ),
            final(self)@ == reloaded(store.model(), cfg.primary_ns@, cfg.hostmaster@),
    {
        let zones = store.list_zones();
        let records = store.all_records();
        self.load(&zones, &records, cfg);
    }

    /// Resolves one question. `qname` is in canonical form; `qtype` is a wire type code.
    pub fn lookup(&self, qname: &str, qtype: u16) -> (r: Lookup)
        ensures
            r@ == answer(self@, qname@, qtype),
    {
        self.snapshot.lookup(qname, qtype)
    }

    /// The number of zones currently loaded.
    pub fn zone_count(&self) -> (r: usize)
        ensures
            r == self@.zones.len(),
    {
        self.snapshot.zones.len()
    }
}

} // verus!

//! What messages hold, byte by byte: a response carries the records of its lookup, and a request is
//! read from its bytes.
//!
//! The readers here go through a message from front to back and know nothing of how it is written.
use crate::config;
use crate::dns::resolver;
use crate::dns::resolver::SnapshotModel;
use crate::dns::server;
use crate::dns::wire;
use crate::dns::{LookupModel, QueryModel, RDataModel, RrModel};
use crate::laws::names;
use crate::laws::wire as wire_laws;
use crate::text;
use vstd::prelude::*;

verus! {

// ---------------------------------------------------------------------------
// Reading bytes
// ---------------------------------------------------------------------------

/// The number in the two bytes from `i` on, the high one first.
pub open spec fn two(buf: Seq<u8>, i: int) -> int {
    buf[i] * 256 + buf[i + 1]
}

/// The number in the four bytes from `i` on, the highest first.
pub open spec fn four(buf: Seq<u8>, i: int) -> int {
    two(buf, i) * 65536 + two(buf, i + 2)
}

/// The labels from `pos` on, each behind its length of 1 to 63, up to a zero byte, and the position
/// behind that byte.
pub open spec fn labels_at(buf: Seq<u8>, pos: int) -> Option<(Seq<Seq<char>>, int)>
    decreases buf.len() - pos,
{
    if pos < 0 || pos >= buf.len() {
        None
    } else if buf[pos] == 0 {
        Some((Seq::<Seq<char>>::empty(), pos + 1))
    } else if buf[pos] >= 64 || pos + 1 + buf[pos] > buf.len() {
        None
    } else {
        let bytes = buf.subrange(pos + 1, pos + 1 + buf[pos]);
        if !vstd::utf8::valid_utf8(bytes) {
            None
        } else {
            match labels_at(buf, pos + 1 + buf[pos]) {
                Some((labels, end)) => Some((seq![vstd::utf8::decode_utf8(bytes)] + labels, end)),
                None => None,
            }
        }
    }
}

/// The name whose labels stand from `pos` on, and the position behind it.
pub open spec fn name_in(buf: Seq<u8>, pos: int) -> Option<(Seq<char>, int)> {
    match labels_at(buf, pos) {
        Some((labels, end)) => Some((text::joined(labels, seq!['.']), end)),
        None => None,
    }
}

/// The bytes of the character strings that `data` is made of, each behind its length.
pub open spec fn strings_of(data: Seq<u8>) -> Option<Seq<u8>>
    decreases data.len(),
{
    if data.len() == 0 {
        Some(data)
    } else if 1 + data[0] > data.len() {
        None
    } else {
        match strings_of(data.skip(1 + data[0])) {
            Some(rest) => Some(data.subrange(1, 1 + data[0]) + rest),
            None => None,
        }
    }
}

/// Whether the bytes from `from` to `to` are the data `d` of a record of the type `code`.
pub open spec fn data_in(
    d: RDataModel,
    code: int,
    buf: Seq<u8>,
    from: int,
    to: int,
) -> bool {
    match d {
        RDataModel::A(ip) => code == 1 && to == from + 4 && buf.subrange(from, to) == ip,
        RDataModel::Aaaa(ip) => code == 28 && to == from + 16 && ip.len() == 8 && forall|i: int|
            0 <= i < 8 ==> two(buf, from + 2 * i) == #[trigger] ip[i],
        RDataModel::Name(t, name) => code == t && name_in(buf, from) == Some((name, to)),
        RDataModel::Mx { pref, host } => code == 15 && two(buf, from) == pref && name_in(
            buf,
            from + 2,
        ) == Some((host, to)),
        RDataModel::Txt(s) => code == 16 && from < to && strings_of(buf.subrange(from, to)) == Some(
            vstd::utf8::encode_utf8(s),
        ),
        RDataModel::Soa(s) => code == 6 && match name_in(buf, from) {
            Some((mname, a)) => mname == s.mname && match name_in(buf, a) {
                Some((rname, b)) => rname == s.rname && four(buf, b) == s.serial && four(buf, b + 4)
                    == s.refresh && four(buf, b + 8) == s.retry && four(buf, b + 12) == s.expire
                    && four(buf, b + 16) == s.minimum && to == b + 20,
                None => false,
            },
            None => false,
        },
        RDataModel::Srv { priority, weight, port, target } => code == 33 && two(buf, from)
            == priority && two(buf, from + 2) == weight && two(buf, from + 4) == port && name_in(
            buf,
            from + 6,
        ) == Some((target, to)),
        RDataModel::Caa { flags, tag, value } => code == 257 && buf[from] == flags && buf.subrange(
            from + 2,
            from + 2 + buf[from + 1],
        ) == vstd::utf8::encode_utf8(tag) && buf.subrange(from + 2 + buf[from + 1], to)
            == vstd::utf8::encode_utf8(value),
    }
}

/// The position behind the record that starts at `pos`: its owner, ten bytes, and as many as it says.
pub open spec fn record_end(buf: Seq<u8>, pos: int) -> int {
    let p = name_in(buf, pos).unwrap().1;
    p + 10 + two(buf, p + 8)
}

/// Whether the record `rr`, of the class IN, starts at `pos`.
pub open spec fn record_in(rr: RrModel, buf: Seq<u8>, pos: int) -> bool {
    name_in(buf, pos) matches Some((name, p)) && name == rr.name && two(buf, p + 2) == 1 && four(
        buf,
        p + 4,
    ) == rr.ttl && data_in(rr.data, two(buf, p), buf, p + 10, record_end(buf, pos))
}

/// Whether the records `rrs`, and nothing else, stand from `pos` to `end`.
pub open spec fn records_in(rrs: Seq<RrModel>, buf: Seq<u8>, pos: int, end: int) -> bool
    decreases rrs.len(),
{
    if rrs.len() == 0 {
        pos == end
    } else {
        record_in(rrs[0], buf, pos) && records_in(rrs.drop_first(), buf, record_end(buf, pos), end)
    }
}

// ---------------------------------------------------------------------------
// Parts of a message
// ---------------------------------------------------------------------------

/// Whether `part` stands at the position `pos` of `buf`.
pub open spec fn holds(buf: Seq<u8>, pos: int, part: Seq<u8>) -> bool {
    0 <= pos && pos + part.len() <= buf.len() && buf.subrange(pos, pos + part.len()) == part
}

/// Where two parts stand together, each stands.
proof fn lemma_holds_parts(buf: Seq<u8>, pos: int, a: Seq<u8>, b: Seq<u8>)
    requires
        holds(buf, pos, a + b),
    ensures
        holds(buf, pos, a),
        holds(buf, pos + a.len(), b),
{
    let whole = a + b;
    let part = buf.subrange(pos, pos + whole.len());
    assert(buf.subrange(pos, pos + a.len()) =~= a) by {
        assert forall|i: int| 0 <= i < a.len() implies buf[pos + i] == a[i] by {
            assert(part[i] == whole[i]);
        }
    }
    assert(buf.subrange(pos + a.len(), pos + a.len() + b.len()) =~= b) by {
        assert forall|i: int| 0 <= i < b.len() implies buf[pos + a.len() + i] == b[i] by {
            assert(part[a.len() + i] == whole[a.len() + i]);
        }
    }
}

/// A number of two bytes is read.
proof fn lemma_two(buf: Seq<u8>, pos: int, n: u16)
    requires
        holds(buf, pos, wire::be16(n)),
    ensures
        two(buf, pos) == n,
{
    wire_laws::lemma_be16_roundtrip(n, buf, pos);
    let part = buf.subrange(pos, pos + 2);
    assert(part[0] == buf[pos] && part[1] == buf[pos + 1]);
}

/// A number of four bytes is read.
proof fn lemma_four(buf: Seq<u8>, pos: int, n: u32)
    requires
        holds(buf, pos, wire::be32(n)),
    ensures
        four(buf, pos) == n,
{
    let hi = (n / 65536) as u16;
    let lo = (n % 65536) as u16;
    lemma_holds_parts(buf, pos, wire::be16(hi), wire::be16(lo));
    lemma_two(buf, pos, hi);
    lemma_two(buf, pos + 2, lo);
}

/// Labels are read.
proof fn lemma_labels(buf: Seq<u8>, pos: int, labels: Seq<Seq<char>>)
    requires
        forall|i: int| 0 <= i < labels.len() ==> wire_laws::is_wire_label(#[trigger] labels[i]),
        holds(buf, pos, wire::labels_wire(labels).push(0)),
    ensures
        labels_at(buf, pos) == Some((labels, pos + wire::labels_wire(labels).len() + 1)),
    decreases labels.len(),
{
    let w = wire::labels_wire(labels);
    if labels.len() == 0 {
        assert(buf.subrange(pos, pos + w.push(0).len())[0] == buf[pos]);
        assert(labels =~= Seq::<Seq<char>>::empty());
    } else {
        let label = labels[0];
        let rest = labels.drop_first();
        let bytes = vstd::utf8::encode_utf8(label);
        let n = bytes.len();
        wire_laws::lemma_labels_wire_front(labels);
        wire_laws::lemma_label_bytes(label);
        let v = wire::labels_wire(rest);
        let first = seq![n as u8];
        assert(w.push(0) =~= first + (bytes + v.push(0)));
        lemma_holds_parts(buf, pos, first, bytes + v.push(0));
        lemma_holds_parts(buf, pos + 1, bytes, v.push(0));
        assert(buf.subrange(pos, pos + 1)[0] == buf[pos]);
        assert(buf[pos] == n);
        assert forall|i: int| 0 <= i < rest.len() implies wire_laws::is_wire_label(
            #[trigger] rest[i],
        ) by {
            assert(rest[i] == labels[i + 1]);
        }
        lemma_labels(buf, pos + 1 + n, rest);
        assert(seq![label] + rest =~= labels);
    }
}

/// A name that fits is read.
proof fn lemma_name(buf: Seq<u8>, pos: int, name: Seq<char>)
    requires
        wire_laws::is_wire_name(name),
        holds(buf, pos, wire::name_wire(name)),
    ensures
        name_in(buf, pos) == Some((name, pos + wire::name_wire(name).len())),
{
    let labels = text::fields(name, '.');
    if name.len() == 0 {
        let none = Seq::<Seq<char>>::empty();
        assert(labels[0].len() == 0);
        assert(labels.drop_last() == none);
        assert(wire::labels_wire(labels) == wire::labels_wire(none) + wire::label_wire(labels[0]));
        assert(wire::labels_wire(labels) =~= wire::labels_wire(none));
        lemma_labels(buf, pos, none);
        assert(text::joined(none, seq!['.']) =~= name);
    } else {
        lemma_labels(buf, pos, labels);
        names::lemma_joined_fields(name, '.');
    }
}

/// Texts in character strings are read.
proof fn lemma_strings(bytes: Seq<u8>)
    ensures
        strings_of(wire::txt_chunks(bytes)) == Some(bytes),
    decreases bytes.len(),
{
    let data = wire::txt_chunks(bytes);
    reveal_with_fuel(strings_of, 2);
    if bytes.len() <= 255 {
        assert(data[0] == bytes.len());
        assert(data.subrange(1, 1 + data[0]) =~= bytes);
        assert(data.skip(1 + data[0]) =~= Seq::<u8>::empty());
        assert(bytes + Seq::<u8>::empty() =~= bytes);
    } else {
        lemma_strings(bytes.skip(255));
        assert(data[0] == 255);
        assert(data.subrange(1, 256) =~= bytes.take(255));
        assert(data.skip(256) =~= wire::txt_chunks(bytes.skip(255)));
        assert(bytes.take(255) + bytes.skip(255) =~= bytes);
    }
}

/// The segments of an address are read.
proof fn lemma_segments(buf: Seq<u8>, pos: int, s: Seq<u16>)
    requires
        holds(buf, pos, wire::segments_wire(s)),
    ensures
        wire::segments_wire(s).len() == 2 * s.len(),
        forall|i: int| 0 <= i < s.len() ==> two(buf, pos + 2 * i) == #[trigger] s[i],
    decreases s.len(),
{
    if s.len() > 0 {
        let init = s.drop_last();
        lemma_holds_parts(buf, pos, wire::segments_wire(init), wire::be16(s.last()));
        lemma_segments(buf, pos, init);
        lemma_two(buf, pos + 2 * init.len(), s.last());
        assert forall|i: int| 0 <= i < s.len() implies two(buf, pos + 2 * i)
            == #[trigger] s[i] by {
            if i < init.len() {
                assert(init[i] == s[i]);
            }
        }
    }
}

/// Whether data fits the wire form as it is: names of labels that fit, NS and CNAME targets, tags of at
/// most 255 bytes, and less than 65536 bytes in all.
pub open spec fn fits_data(d: RDataModel) -> bool {
    &&& wire::rdata_wire(d).len() < 65536
    &&& match d {
        RDataModel::A(ip) => ip.len() == 4,
        RDataModel::Aaaa(ip) => ip.len() == 8,
        RDataModel::Name(t, name) => wire_laws::is_wire_name(name),
        RDataModel::Mx { pref, host } => wire_laws::is_wire_name(host),
        RDataModel::Txt(s) => true,
        RDataModel::Soa(s) => wire_laws::is_wire_name(s.mname) && wire_laws::is_wire_name(s.rname),
        RDataModel::Srv { priority, weight, port, target } => wire_laws::is_wire_name(target),
        RDataModel::Caa { flags, tag, value } => vstd::utf8::encode_utf8(tag).len() <= 255,
    }
}

/// Whether a record fits the wire form as it is.
pub open spec fn fits_record(rr: RrModel) -> bool {
    wire_laws::is_wire_name(rr.name) && fits_data(rr.data)
}

/// The data of a start of authority is read.
proof fn lemma_soa_data(buf: Seq<u8>, pos: int, s: crate::dns::SoaModel)
    requires
        fits_data(RDataModel::Soa(s)),
        holds(buf, pos, wire::rdata_wire(RDataModel::Soa(s))),
    ensures
        data_in(
            RDataModel::Soa(s),
            6,
            buf,
            pos,
            pos + wire::rdata_wire(RDataModel::Soa(s)).len(),
        ),
{
    let m = wire::name_wire(s.mname);
    let r = wire::name_wire(s.rname);
    let e = wire::be32(s.minimum);
    let d = wire::be32(s.expire) + e;
    let c = wire::be32(s.retry) + d;
    let b = wire::be32(s.refresh) + c;
    let a = wire::be32(s.serial) + b;
    assert(wire::rdata_wire(RDataModel::Soa(s)) =~= m + (r + a));
    lemma_holds_parts(buf, pos, m, r + a);
    let p = pos + m.len();
    lemma_holds_parts(buf, p, r, a);
    let q = p + r.len();
    lemma_holds_parts(buf, q, wire::be32(s.serial), b);
    lemma_holds_parts(buf, q + 4, wire::be32(s.refresh), c);
    lemma_holds_parts(buf, q + 8, wire::be32(s.retry), d);
    lemma_holds_parts(buf, q + 12, wire::be32(s.expire), e);
    lemma_name(buf, pos, s.mname);
    lemma_name(buf, p, s.rname);
    lemma_four(buf, q, s.serial);
    lemma_four(buf, q + 4, s.refresh);
    lemma_four(buf, q + 8, s.retry);
    lemma_four(buf, q + 12, s.expire);
    lemma_four(buf, q + 16, s.minimum);
}

/// The data of a service record is read.
proof fn lemma_srv_data(buf: Seq<u8>, pos: int, p: u16, w: u16, q: u16, target: Seq<char>)
    requires
        wire_laws::is_wire_name(target),
        holds(
            buf,
            pos,
            wire::be16(p) + wire::be16(w) + wire::be16(q) + wire::name_wire(target),
        ),
    ensures
        two(buf, pos) == p,
        two(buf, pos + 2) == w,
        two(buf, pos + 4) == q,
        name_in(buf, pos + 6) == Some((target, pos + 6 + wire::name_wire(target).len())),
{
    let n = wire::name_wire(target);
    assert(wire::be16(p) + wire::be16(w) + wire::be16(q) + n =~= wire::be16(p) + (wire::be16(w) + (
    wire::be16(q) + n)));
    lemma_holds_parts(buf, pos, wire::be16(p), wire::be16(w) + (wire::be16(q) + n));
    lemma_holds_parts(buf, pos + 2, wire::be16(w), wire::be16(q) + n);
    lemma_holds_parts(buf, pos + 4, wire::be16(q), n);
    lemma_two(buf, pos, p);
    lemma_two(buf, pos + 2, w);
    lemma_two(buf, pos + 4, q);
    lemma_name(buf, pos + 6, target);
}

/// The data of a CAA record is read.
proof fn lemma_caa_data(buf: Seq<u8>, pos: int, flags: u8, tag: Seq<char>, value: Seq<char>)
    requires
        vstd::utf8::encode_utf8(tag).len() <= 255,
        holds(buf, pos, wire::caa_wire(flags, tag, value)),
    ensures
        data_in(
            RDataModel::Caa { flags, tag, value },
            257,
            buf,
            pos,
            pos + wire::caa_wire(flags, tag, value).len(),
        ),
{
    let t = vstd::utf8::encode_utf8(tag);
    let v = vstd::utf8::encode_utf8(value);
    let head = seq![flags, t.len() as u8];
    assert(t.take(t.len() as int) =~= t);
    assert(wire::caa_wire(flags, tag, value) =~= head + (t + v));
    lemma_holds_parts(buf, pos, head, t + v);
    lemma_holds_parts(buf, pos + 2, t, v);
    let part = buf.subrange(pos, pos + 2);
    assert(part[0] == buf[pos] && part[1] == buf[pos + 1]);
    assert(buf[pos + 1] == t.len());
}

/// The data of a record is read.
proof fn lemma_data(buf: Seq<u8>, pos: int, d: RDataModel)
    requires
        fits_data(d),
        holds(buf, pos, wire::rdata_wire(d)),
    ensures
        data_in(
            d,
            crate::dns::code_of(d) as int,
            buf,
            pos,
            pos + wire::rdata_wire(d).len(),
        ),
{
    match d {
        RDataModel::A(ip) => {},
        RDataModel::Aaaa(ip) => {
            lemma_segments(buf, pos, ip);
        },
        RDataModel::Name(t, name) => {
            lemma_name(buf, pos, name);
        },
        RDataModel::Mx { pref, host } => {
            lemma_holds_parts(buf, pos, wire::be16(pref), wire::name_wire(host));
            lemma_two(buf, pos, pref);
            lemma_name(buf, pos + 2, host);
        },
        RDataModel::Txt(s) => {
            lemma_strings(vstd::utf8::encode_utf8(s));
            assert(wire::txt_wire(s).len() > 0);
        },
        RDataModel::Soa(s) => {
            lemma_soa_data(buf, pos, s);
        },
        RDataModel::Srv { priority, weight, port, target } => {
            lemma_srv_data(buf, pos, priority, weight, port, target);
        },
        RDataModel::Caa { flags, tag, value } => {
            lemma_caa_data(buf, pos, flags, tag, value);
        },
    }
}

/// A record is read.
proof fn lemma_record(buf: Seq<u8>, pos: int, rr: RrModel)
    requires
        fits_record(rr),
        holds(buf, pos, wire::rr_wire(rr)),
    ensures
        record_in(rr, buf, pos),
        record_end(buf, pos) == pos + wire::rr_wire(rr).len(),
{
    let n = wire::name_wire(rr.name);
    let d = wire::rdata_wire(rr.data);
    let code = crate::dns::code_of(rr.data);
    let len = (d.len() % 65536) as u16;
    let t4 = wire::be16(len) + d;
    let t3 = wire::be32(rr.ttl) + t4;
    let t2 = wire::be16(crate::dns::CLASS_IN) + t3;
    let t1 = wire::be16(code) + t2;
    assert(wire::rr_wire(rr) =~= n + t1);
    lemma_holds_parts(buf, pos, n, t1);
    let p = pos + n.len();
    lemma_holds_parts(buf, p, wire::be16(code), t2);
    lemma_holds_parts(buf, p + 2, wire::be16(crate::dns::CLASS_IN), t3);
    lemma_holds_parts(buf, p + 4, wire::be32(rr.ttl), t4);
    lemma_holds_parts(buf, p + 8, wire::be16(len), d);
    lemma_name(buf, pos, rr.name);
    lemma_two(buf, p, code);
    lemma_two(buf, p + 2, crate::dns::CLASS_IN);
    lemma_four(buf, p + 4, rr.ttl);
    lemma_two(buf, p + 8, len);
    lemma_data(buf, p + 10, rr.data);
}

/// The wire form of records starts with that of the first.
proof fn lemma_records_front(rrs: Seq<RrModel>)
    requires
        rrs.len() > 0,
    ensures
        wire::rrs_wire(rrs) == wire::rr_wire(rrs[0]) + wire::rrs_wire(rrs.drop_first()),
    decreases rrs.len(),
{
    let first = wire::rr_wire(rrs[0]);
    let none = Seq::<RrModel>::empty();
    if rrs.len() == 1 {
        assert(rrs.drop_last() =~= none);
        assert(rrs.drop_first() =~= none);
        assert(wire::rrs_wire(none) + first =~= first + wire::rrs_wire(none));
    } else {
        let init = rrs.drop_last();
        lemma_records_front(init);
        assert(init.drop_first() =~= rrs.drop_first().drop_last());
        assert(rrs.drop_first().last() == rrs.last());
        assert(first + wire::rrs_wire(init.drop_first()) + wire::rr_wire(rrs.last()) =~= first + (
        wire::rrs_wire(init.drop_first()) + wire::rr_wire(rrs.last())));
    }
}

/// Records are read.
proof fn lemma_records(buf: Seq<u8>, pos: int, rrs: Seq<RrModel>)
    requires
        forall|i: int| 0 <= i < rrs.len() ==> fits_record(#[trigger] rrs[i]),
        holds(buf, pos, wire::rrs_wire(rrs)),
    ensures
        records_in(rrs, buf, pos, pos + wire::rrs_wire(rrs).len()),
    decreases rrs.len(),
{
    if rrs.len() > 0 {
        let rest = rrs.drop_first();
        lemma_records_front(rrs);
        lemma_holds_parts(buf, pos, wire::rr_wire(rrs[0]), wire::rrs_wire(rest));
        lemma_record(buf, pos, rrs[0]);
        assert forall|i: int| 0 <= i < rest.len() implies fits_record(#[trigger] rest[i]) by {
            assert(rest[i] == rrs[i + 1]);
        }
        lemma_records(buf, pos + wire::rr_wire(rrs[0]).len(), rest);
    }
}

// ---------------------------------------------------------------------------
// Responses
// ---------------------------------------------------------------------------

/// Whether the question `q` stands from the position 12 to `end`.
pub open spec fn question_in(q: QueryModel, buf: Seq<u8>, end: int) -> bool {
    name_in(buf, 12) matches Some((name, p)) && name == q.qname && two(buf, p) == q.qtype && two(
        buf,
        p + 2,
    ) == q.qclass && end == p + 4
}

/// Whether `mid` and `start` cut a message into header, question, answers and authority records.
pub open spec fn is_cut(q: QueryModel, lk: LookupModel, r: Seq<u8>, start: int, mid: int) -> bool {
    &&& if q.qname.len() > 0 || q.qtype != 0 {
        two(r, 4) == 1 && question_in(q, r, start)
    } else {
        two(r, 4) == 0 && start == 12
    }
    &&& two(r, 6) == lk.answers.len()
    &&& two(r, 8) == lk.authority.len()
    &&& two(r, 10) == 0
    &&& records_in(lk.answers, r, start, mid)
    &&& records_in(lk.authority, r, mid, r.len() as int)
}

/// A response holds its records: read from front to back, behind the header and the question stand as
/// many answers as the header counts, these are the answers of the lookup, and behind them its
/// authority records, as many as counted, up to the end of the message.
pub proof fn lemma_response_holds_its_records(q: QueryModel, lk: LookupModel)
    requires
        wire_laws::is_wire_name(q.qname),
        lk.answers.len() < 65536,
        lk.authority.len() < 65536,
        forall|i: int| 0 <= i < lk.answers.len() ==> fits_record(#[trigger] lk.answers[i]),
        forall|i: int| 0 <= i < lk.authority.len() ==> fits_record(#[trigger] lk.authority[i]),
    ensures
        exists|start: int, mid: int| is_cut(q, lk, wire::response(q, lk), start, mid),
{
    let start = 12 + wire::question_wire(q).len() as int;
    let mid = start + wire::rrs_wire(lk.answers).len();
    lemma_sections(q, lk);
    lemma_counts(q, lk);
    lemma_cut(wire::response(q, lk), q, lk, start, mid);
}

/// A message with the sections and counts of a lookup is cut at their ends.
proof fn lemma_cut(r: Seq<u8>, q: QueryModel, lk: LookupModel, start: int, mid: int)
    requires
        wire_laws::is_wire_name(q.qname),
        forall|i: int| 0 <= i < lk.answers.len() ==> fits_record(#[trigger] lk.answers[i]),
        forall|i: int| 0 <= i < lk.authority.len() ==> fits_record(#[trigger] lk.authority[i]),
        holds(r, 12, wire::question_wire(q)),
        start == 12 + wire::question_wire(q).len(),
        holds(r, start, wire::rrs_wire(lk.answers)),
        mid == start + wire::rrs_wire(lk.answers).len(),
        holds(r, mid, wire::rrs_wire(lk.authority)),
        r.len() == mid + wire::rrs_wire(lk.authority).len(),
        two(r, 4) == if q.qname.len() > 0 || q.qtype != 0 {
            1int
        } else {
            0
        },
        two(r, 6) == lk.answers.len(),
        two(r, 8) == lk.authority.len(),
        two(r, 10) == 0,
    ensures
        is_cut(q, lk, r, start, mid),
{
    lemma_records(r, start, lk.answers);
    lemma_records(r, mid, lk.authority);
    if q.qname.len() > 0 || q.qtype != 0 {
        lemma_question(r, q);
    }
}

/// The sections of a response stand one behind the other.
proof fn lemma_sections(q: QueryModel, lk: LookupModel)
    ensures
        ({
            let r = wire::response(q, lk);
            let question = wire::question_wire(q);
            let a = wire::rrs_wire(lk.answers);
            let n = wire::rrs_wire(lk.authority);
            &&& holds(r, 0, wire::response_header(q, lk))
            &&& holds(r, 12, question)
            &&& holds(r, 12 + question.len() as int, a)
            &&& holds(r, 12 + question.len() as int + a.len(), n)
            &&& r.len() == 12 + question.len() + a.len() + n.len()
        }),
{
    let r = wire::response(q, lk);
    let header = wire::response_header(q, lk);
    let question = wire::question_wire(q);
    let a = wire::rrs_wire(lk.answers);
    let n = wire::rrs_wire(lk.authority);
    assert(header.len() == 12);
    assert(r =~= header + (question + (a + n)));
    assert(r.subrange(0, r.len() as int) =~= r);
    lemma_holds_parts(r, 0, header, question + (a + n));
    lemma_holds_parts(r, 12, question, a + n);
    lemma_holds_parts(r, 12 + question.len() as int, a, n);
}

/// The counts in the header of a response.
proof fn lemma_counts(q: QueryModel, lk: LookupModel)
    ensures
        ({
            let r = wire::response(q, lk);
            &&& r.len() >= 12
            &&& two(r, 4) == if q.qname.len() > 0 || q.qtype != 0 {
                1int
            } else {
                0
            }
            &&& two(r, 6) == lk.answers.len() % 65536
            &&& two(r, 8) == lk.authority.len() % 65536
            &&& two(r, 10) == 0
        }),
{
    let r = wire::response(q, lk);
    wire_laws::lemma_header_numbers(q, lk);
    lemma_u16_is_two(r, 4);
    lemma_u16_is_two(r, 6);
    lemma_u16_is_two(r, 8);
    lemma_u16_is_two(r, 10);
}

/// A question is read.
proof fn lemma_question(r: Seq<u8>, q: QueryModel)
    requires
        wire_laws::is_wire_name(q.qname),
        q.qname.len() > 0 || q.qtype != 0,
        holds(r, 12, wire::question_wire(q)),
    ensures
        question_in(q, r, 12 + wire::question_wire(q).len() as int),
{
    let name = wire::name_wire(q.qname);
    let tail = wire::be16(q.qtype) + wire::be16(q.qclass);
    let p = 12 + name.len() as int;
    assert(wire::question_wire(q) =~= name + tail);
    lemma_holds_parts(r, 12, name, tail);
    lemma_holds_parts(r, p, wire::be16(q.qtype), wire::be16(q.qclass));
    lemma_name(r, 12, q.qname);
    lemma_two(r, p, q.qtype);
    lemma_two(r, p + 2, q.qclass);
}

/// The number that two bytes write is that of the bytes.
proof fn lemma_u16_is_two(buf: Seq<u8>, i: int)
    ensures
        wire::u16_at(buf, i) == two(buf, i),
{
}

/// The first bytes of a response: the id of the query; then a byte with the QR bit, the opcode, the AA
/// bit and the RD bit; then the rcode.
pub proof fn lemma_response_first_bytes(q: QueryModel, lk: LookupModel)
    ensures
        ({
            let r = wire::response(q, lk);
            &&& two(r, 0) == q.id
            &&& r[2] == 128 + (q.opcode % 16) * 8 + (if lk.aa {
                4int
            } else {
                0
            }) + (if q.rd {
                1int
            } else {
                0
            })
            &&& r[3] == lk.rcode % 16
        }),
{
    let r = wire::response(q, lk);
    let flags = wire::response_flags(q, lk);
    wire_laws::lemma_header_numbers(q, lk);
    lemma_u16_is_two(r, 0);
    assert(flags % 256 == lk.rcode % 16) by {
        wire_laws::lemma_flag_bits(q, lk);
    }
    let a: int = if lk.aa {
        4
    } else {
        0
    };
    let d: int = if q.rd {
        1
    } else {
        0
    };
    let op = (q.opcode % 16) as int;
    assert(flags == (128 + op * 8 + a + d) * 256 + lk.rcode % 16);
    assert(flags / 256 == 128 + op * 8 + a + d);
}

// ---------------------------------------------------------------------------
// Requests
// ---------------------------------------------------------------------------

/// A name of plain labels is read label by label.
pub proof fn lemma_plain_labels(buf: Seq<u8>, pos: int, fuel: nat)
    requires
        labels_at(buf, pos) matches Some((labels, end)) && labels.len() < fuel,
    ensures
        wire::name_at(buf, pos, fuel) == labels_at(buf, pos),
    decreases fuel,
{
    if buf[pos] != 0 {
        let next = pos + 1 + buf[pos];
        assert(labels_at(buf, next) is Some);
        lemma_plain_labels(buf, next, (fuel - 1) as nat);
    }
}

/// A pointer stands for the name that it points to: a byte of 192 or more, and the next one, give the
/// position where the name goes on, and the pointer ends the name where it stands.
pub proof fn lemma_pointer(buf: Seq<u8>, pos: int, fuel: nat)
    requires
        0 <= pos,
        pos + 1 < buf.len(),
        buf[pos] >= 192,
        fuel > 0,
    ensures
        ({
            let target = (buf[pos] - 192) * 256 + buf[pos + 1];
            match wire::name_at(buf, target, (fuel - 1) as nat) {
                Some((labels, _)) => wire::name_at(buf, pos, fuel) == Some((labels, pos + 2)),
                None => wire::name_at(buf, pos, fuel) is None,
            }
        }),
{
}

/// A name that runs over the end of the message, or points to itself, is not read.
pub proof fn lemma_malformed_name(buf: Seq<u8>, pos: int, fuel: nat)
    requires
        pos >= buf.len() || (0 <= pos && buf[pos] >= 192 && (pos + 1 >= buf.len() || (buf[pos]
            - 192) * 256 + buf[pos + 1] == pos)) || (0 <= pos && 0 < buf[pos] < 192 && pos + 1
            + buf[pos] > buf.len()),
    ensures
        wire::name_at(buf, pos, fuel) is None,
    decreases fuel,
{
    if fuel > 0 && 0 <= pos && pos + 1 < buf.len() && buf[pos] >= 192 {
        lemma_malformed_name(buf, pos, (fuel - 1) as nat);
    }
}

/// What is read from a request: the id, the opcode and the RD bit of its header, and, where it counts a
/// question, the canonical name, type and class of the first. A request is malformed if it is shorter
/// than a header, or counts a question that it does not hold.
pub proof fn lemma_query_means(buf: Seq<u8>)
    ensures
        match wire::query_of(buf) {
            Some(q) => {
                &&& buf.len() >= 12
                &&& q.id == two(buf, 0)
                &&& q.opcode == buf[2] / 8 % 16
                &&& q.rd <==> buf[2] % 2 == 1
                &&& two(buf, 4) == 0 ==> q.qname.len() == 0 && q.qtype == 0 && q.qclass == 0
                &&& two(buf, 4) > 0 ==> (wire::dotted_name_at(buf, 12) matches Some((name, p))
                    && p + 4 <= buf.len() && q.qname == config::canonical(name) && q.qtype == two(
                    buf,
                    p,
                ) && q.qclass == two(buf, p + 2))
            },
            None => buf.len() < 12 || (two(buf, 4) > 0 && match wire::dotted_name_at(buf, 12) {
                Some((name, p)) => p + 4 > buf.len(),
                None => true,
            }),
        },
{
    lemma_u16_is_two(buf, 0);
    lemma_u16_is_two(buf, 2);
    lemma_u16_is_two(buf, 4);
    if let Some((name, p)) = wire::dotted_name_at(buf, 12) {
        lemma_u16_is_two(buf, p);
        lemma_u16_is_two(buf, p + 2);
    }
    let flags = wire::u16_at(buf, 2);
    if buf.len() >= 12 {
        assert(flags == buf[2] * 256 + buf[3]);
        assert(flags / 256 == buf[2]);
        assert(flags / 2048 == buf[2] / 8);
    }
}

/// A question of plain labels is read as it stands.
pub proof fn lemma_plain_question(buf: Seq<u8>, name: Seq<char>, p: int)
    requires
        buf.len() >= 12,
        two(buf, 4) > 0,
        labels_at(buf, 12) matches Some((labels, end)) && labels.len() < 128,
        name_in(buf, 12) == Some((name, p)),
        p + 4 <= buf.len(),
    ensures
        wire::query_of(buf) matches Some(q) && q.qname == config::canonical(name) && q.qtype == two(
            buf,
            p,
        ) && q.qclass == two(buf, p + 2),
{
    lemma_plain_labels(buf, 12, 128);
    lemma_query_means(buf);
}

// ---------------------------------------------------------------------------
// The server
// ---------------------------------------------------------------------------

/// Whether `r` is a bare header with an rcode: the id, the opcode and the RD bit are echoed, and no
/// section holds anything.
pub open spec fn is_error(r: Seq<u8>, id: int, opcode: int, rd: bool, rcode: int) -> bool {
    &&& r.len() == 12
    &&& two(r, 0) == id
    &&& r[2] == 128 + opcode * 8 + (if rd {
        1int
    } else {
        0
    })
    &&& r[3] == rcode
    &&& two(r, 4) == 0 && two(r, 6) == 0 && two(r, 8) == 0 && two(r, 10) == 0
}

/// A header without sections is an error.
proof fn lemma_header_is_error(id: u16, opcode: u8, rd: bool, rcode: u8)
    requires
        opcode < 16,
        rcode < 16,
    ensures
        is_error(
            wire::header_only(id, opcode, rd, rcode),
            id as int,
            opcode as int,
            rd,
            rcode as int,
        ),
{
    let q = wire::bare_query(id, opcode, rd);
    let lk = wire::bare_lookup(rcode, false);
    let r = wire::response(q, lk);
    assert(r =~= wire::header_only(id, opcode, rd, rcode));
    lemma_response_first_bytes(q, lk);
    wire_laws::lemma_header_numbers(q, lk);
    lemma_u16_is_two(r, 4);
    lemma_u16_is_two(r, 6);
    lemma_u16_is_two(r, 8);
    lemma_u16_is_two(r, 10);
}

/// How a request is answered. A malformed one, and one without a question, is a format error (rcode 1);
/// another opcode than QUERY, and another class than IN, is not implemented (rcode 4). Every other
/// request gets what the zones answer, whole over TCP; over UDP whole where it is at most 512 bytes.
pub proof fn lemma_request_is_answered(snap: SnapshotModel, buf: Seq<u8>, udp: bool)
    ensures
        ({
            let r = server::handled(snap, buf, udp);
            match wire::query_of(buf) {
                None => is_error(
                    r,
                    if buf.len() >= 2 {
                        two(buf, 0)
                    } else {
                        0
                    },
                    0,
                    false,
                    1,
                ),
                Some(q) => {
                    let full = wire::response(q, resolver::answer(snap, q.qname, q.qtype));
                    &&& q.opcode != 0 ==> is_error(r, q.id as int, q.opcode as int, q.rd, 4)
                    &&& q.opcode == 0 && q.qname.len() == 0 ==> is_error(
                        r,
                        q.id as int,
                        0,
                        q.rd,
                        1,
                    )
                    &&& q.opcode == 0 && q.qname.len() > 0 && q.qclass != 1 ==> is_error(
                        r,
                        q.id as int,
                        0,
                        q.rd,
                        4,
                    )
                    &&& q.opcode == 0 && q.qname.len() > 0 && q.qclass == 1 && (!udp || full.len()
                        <= 512) ==> r == full
                },
            }
        }),
{
    lemma_query_means(buf);
    match wire::query_of(buf) {
        None => {
            let id = server::best_id(buf);
            lemma_header_is_error(id, 0, false, 1);
            if buf.len() >= 2 {
                lemma_u16_is_two(buf, 0);
            }
        },
        Some(q) => {
            lemma_header_is_error(q.id, q.opcode, q.rd, 4);
            lemma_header_is_error(q.id, q.opcode, q.rd, 1);
        },
    }
}

/// A longer answer over UDP is cut behind the question: it keeps the id, the AA bit, the rcode and the
/// question, sets the TC bit, and counts no records.
pub proof fn lemma_long_answer_is_cut(q: QueryModel, lk: LookupModel)
    requires
        wire::response(q, lk).len() > 512,
    ensures
        ({
            let full = wire::response(q, lk);
            let r = server::answered(q, lk, true);
            let question = wire::question_wire(q).len() as int;
            &&& r.len() == 12 + question
            &&& two(r, 0) == two(full, 0)
            &&& r[2] == full[2] + 2
            &&& r[3] == full[3]
            &&& two(r, 4) == two(full, 4)
            &&& two(r, 6) == 0 && two(r, 8) == 0
            &&& r.skip(12) == full.subrange(12, 12 + question)
        }),
{
    let full = wire::response(q, lk);
    let bare = wire::bare_lookup(lk.rcode, lk.aa);
    let short = wire::response(q, bare);
    let question = wire::question_wire(q);
    let r = server::answered(q, lk, true);
    lemma_response_first_bytes(q, lk);
    lemma_response_first_bytes(q, bare);
    lemma_counts(q, lk);
    lemma_counts(q, bare);
    lemma_sections(q, lk);
    lemma_sections(q, bare);
    assert(wire::rrs_wire(bare.answers).len() == 0);
    assert(short.len() == 12 + question.len());
    lemma_response_bits_of(q, bare);
    assert(r == server::with_tc(short));
    assert(r.len() == short.len());
    assert(r.skip(12) =~= short.subrange(12, 12 + question.len() as int));
}

/// The third byte of a response has room for the TC bit.
proof fn lemma_response_bits_of(q: QueryModel, lk: LookupModel)
    ensures
        wire::response(q, lk)[2] <= 253,
{
    wire_laws::lemma_response_bits(q, lk);
}

} // verus!

//! Laws of the wire form.
use crate::config;
use crate::dns;
use crate::dns::resolver::SnapshotModel;
use crate::dns::server;
use crate::dns::wire;
use crate::dns::{LookupModel, QueryModel, RDataModel, RrModel, CLASS_IN};
use crate::laws::names;
use crate::laws::pieces;
use crate::text;
use vstd::prelude::*;

verus! {

// ---------------------------------------------------------------------------
// Numbers
// ---------------------------------------------------------------------------

/// A part of a part of a list is a part of the list.
proof fn lemma_part_of_part(s: Seq<u8>, i: int, part: Seq<u8>, k: int, inner: Seq<u8>)
    requires
        0 <= i,
        i + part.len() <= s.len(),
        s.subrange(i, i + part.len()) == part,
        0 <= k,
        k + inner.len() <= part.len(),
        part.subrange(k, k + inner.len()) == inner,
    ensures
        s.subrange(i + k, i + k + inner.len()) == inner,
{
    assert(s.subrange(i + k, i + k + inner.len()) =~= s.subrange(i, i + part.len()).subrange(
        k,
        k + inner.len(),
    ));
}

/// Two bytes give back the number that they write.
pub proof fn lemma_be16_roundtrip(n: u16, buf: Seq<u8>, i: int)
    requires
        0 <= i,
        i + 2 <= buf.len(),
        buf.subrange(i, i + 2) == wire::be16(n),
    ensures
        wire::u16_at(buf, i) == n,
{
    assert(buf[i] == buf.subrange(i, i + 2)[0]);
    assert(buf[i + 1] == buf.subrange(i, i + 2)[1]);
}

// ---------------------------------------------------------------------------
// Names
// ---------------------------------------------------------------------------

/// Whether a label fits the wire form as it is: not empty, and at most 63 bytes.
pub open spec fn is_wire_label(label: Seq<char>) -> bool {
    label.len() > 0 && vstd::utf8::encode_utf8(label).len() <= 63
}

/// Whether a name fits the wire form as it is: the root, or at most 127 labels that fit.
pub open spec fn is_wire_name(name: Seq<char>) -> bool {
    let labels = text::fields(name, '.');
    name.len() == 0 || (labels.len() <= 127 && forall|i: int|
        0 <= i < labels.len() ==> is_wire_label(#[trigger] labels[i]))
}

/// The wire form of labels starts with that of the first.
pub proof fn lemma_labels_wire_front(labels: Seq<Seq<char>>)
    requires
        labels.len() > 0,
    ensures
        wire::labels_wire(labels) == wire::label_wire(labels[0]) + wire::labels_wire(
            labels.drop_first(),
        ),
    decreases labels.len(),
{
    let first = wire::label_wire(labels[0]);
    if labels.len() == 1 {
        assert(labels.drop_last() == Seq::<Seq<char>>::empty());
        assert(labels.drop_first() == Seq::<Seq<char>>::empty());
        assert(wire::labels_wire(labels.drop_last()) + first == first + wire::labels_wire(
            labels.drop_first(),
        ));
    } else {
        let init = labels.drop_last();
        lemma_labels_wire_front(init);
        assert(init.drop_first() == labels.drop_first().drop_last());
        assert(labels.drop_first().last() == labels.last());
        assert(first + wire::labels_wire(init.drop_first()) + wire::label_wire(labels.last())
            == first + (wire::labels_wire(init.drop_first()) + wire::label_wire(labels.last())));
    }
}

/// A label that fits has at least one byte and reads back.
pub proof fn lemma_label_bytes(label: Seq<char>)
    requires
        is_wire_label(label),
    ensures
        ({
            let bytes = vstd::utf8::encode_utf8(label);
            &&& 1 <= bytes.len() <= 63
            &&& vstd::utf8::valid_utf8(bytes)
            &&& vstd::utf8::decode_utf8(bytes) == label
            &&& wire::label_wire(label) == seq![bytes.len() as u8] + bytes
        }),
{
    let bytes = vstd::utf8::encode_utf8(label);
    vstd::utf8::encode_utf8_valid_utf8(label);
    vstd::utf8::encode_utf8_decode_utf8(label);
    if bytes.len() == 0 {
        assert(vstd::utf8::decode_utf8(bytes).len() == 0);
    }
    assert(bytes.take(bytes.len() as int) == bytes);
}

/// Labels in a message read back.
proof fn lemma_labels_read_back(buf: Seq<u8>, pos: int, labels: Seq<Seq<char>>, fuel: nat)
    requires
        0 <= pos,
        fuel > labels.len(),
        forall|i: int| 0 <= i < labels.len() ==> is_wire_label(#[trigger] labels[i]),
        pos + wire::labels_wire(labels).len() + 1 <= buf.len(),
        buf.subrange(pos, pos + wire::labels_wire(labels).len() + 1) == wire::labels_wire(
            labels,
        ).push(0),
    ensures
        wire::name_at(buf, pos, fuel) == Some(
            (labels, pos + wire::labels_wire(labels).len() + 1),
        ),
    decreases labels.len(),
{
    let w = wire::labels_wire(labels);
    let part = buf.subrange(pos, pos + w.len() + 1);
    if labels.len() == 0 {
        assert(part[0] == buf[pos]);
        assert(labels == Seq::<Seq<char>>::empty());
    } else {
        let label = labels[0];
        let rest = labels.drop_first();
        let bytes = vstd::utf8::encode_utf8(label);
        let n = bytes.len();
        lemma_labels_wire_front(labels);
        lemma_label_bytes(label);
        let v = wire::labels_wire(rest);
        assert(w == wire::label_wire(label) + v);
        assert(w.len() == 1 + n + v.len());
        assert(part[0] == buf[pos]);
        assert(w[0] == n as u8);
        assert(part[0] == w.push(0)[0]);
        assert(buf[pos] == n as u8);
        assert(buf.subrange(pos + 1, pos + 1 + n) =~= bytes) by {
            assert forall|i: int| 0 <= i < n implies buf.subrange(pos + 1, pos + 1 + n)[i]
                == bytes[i] by {
                assert(part[i + 1] == buf[pos + i + 1]);
                assert(w.push(0)[i + 1] == wire::label_wire(label)[i + 1]);
            }
        }
        assert(buf.subrange(pos + 1 + n, pos + 1 + n + v.len() + 1) =~= v.push(0)) by {
            assert forall|i: int| 0 <= i < v.len() + 1 implies buf.subrange(
                pos + 1 + n,
                pos + 1 + n + v.len() + 1,
            )[i] == v.push(0)[i] by {
                assert(part[i + 1 + n] == buf[pos + 1 + n + i]);
                assert(w.push(0)[i + 1 + n] == v.push(0)[i]);
            }
        }
        assert forall|i: int| 0 <= i < rest.len() implies is_wire_label(#[trigger] rest[i]) by {
            assert(rest[i] == labels[i + 1]);
        }
        lemma_labels_read_back(buf, pos + 1 + n, rest, (fuel - 1) as nat);
        assert(seq![label] + rest == labels);
    }
}

/// Decoding gives back an encoded name: wherever the wire form of a name that fits stands in a
/// message, the name is read there, up to the end of its wire form.
pub proof fn lemma_name_roundtrip(buf: Seq<u8>, pos: int, name: Seq<char>)
    requires
        is_wire_name(name),
        0 <= pos,
        pos + wire::name_wire(name).len() <= buf.len(),
        buf.subrange(pos, pos + wire::name_wire(name).len()) == wire::name_wire(name),
    ensures
        wire::dotted_name_at(buf, pos) == Some((name, pos + wire::name_wire(name).len())),
{
    let labels = text::fields(name, '.');
    if name.len() == 0 {
        let none = Seq::<Seq<char>>::empty();
        assert(labels[0].len() == 0);
        assert(labels.drop_last() == none);
        assert(wire::labels_wire(labels) == wire::labels_wire(none) + wire::label_wire(labels[0]));
        assert(wire::labels_wire(labels) == wire::labels_wire(none));
        lemma_labels_read_back(buf, pos, none, wire::NAME_STEPS as nat);
        assert(text::joined(none, seq!['.']) == name);
    } else {
        lemma_labels_read_back(buf, pos, labels, wire::NAME_STEPS as nat);
        names::lemma_joined_fields(name, '.');
    }
}

// ---------------------------------------------------------------------------
// Texts
// ---------------------------------------------------------------------------

/// The bytes that the character strings of a TXT record hold, one after the other.
pub open spec fn txt_payload(data: Seq<u8>) -> Seq<u8>
    decreases data.len(),
{
    if data.len() == 0 {
        data
    } else {
        let n = data[0] as int;
        let end = if 1 + n < data.len() {
            1 + n
        } else {
            data.len() as int
        };
        data.subrange(1, end) + txt_payload(data.skip(end))
    }
}

/// Splitting a text into character strings loses and adds nothing.
pub proof fn lemma_txt_roundtrip(bytes: Seq<u8>)
    ensures
        txt_payload(wire::txt_chunks(bytes)) == bytes,
    decreases bytes.len(),
{
    let data = wire::txt_chunks(bytes);
    reveal_with_fuel(txt_payload, 2);
    if bytes.len() <= 255 {
        assert(data[0] == bytes.len());
        assert(data.subrange(1, data.len() as int) == bytes);
        assert(data.skip(data.len() as int) == Seq::<u8>::empty());
        assert(txt_payload(data) == bytes + Seq::<u8>::empty());
        assert(bytes + Seq::<u8>::empty() == bytes);
    } else {
        let rest = bytes.skip(255);
        lemma_txt_roundtrip(rest);
        let tail = wire::txt_chunks(rest);
        assert(tail.len() > 0);
        assert(data[0] == 255);
        assert(data.subrange(1, 256) == bytes.take(255));
        assert(data.skip(256) == tail);
        assert(bytes.take(255) + rest == bytes);
    }
}

// ---------------------------------------------------------------------------
// Queries and responses
// ---------------------------------------------------------------------------

/// A message that starts with a header and one question is read as that question.
pub proof fn lemma_question_read_back(
    buf: Seq<u8>,
    id: u16,
    flags: u16,
    count: u16,
    name: Seq<char>,
    qtype: u16,
    qclass: u16,
)
    requires
        is_wire_name(name),
        count > 0,
        ({
            let head = wire::be16(id) + wire::be16(flags) + wire::be16(count);
            let question = wire::name_wire(name) + wire::be16(qtype) + wire::be16(qclass);
            &&& buf.len() >= 12 + question.len()
            &&& buf.subrange(0, 6) == head
            &&& buf.subrange(12, 12 + question.len() as int) == question
        }),
    ensures
        wire::query_of(buf) == Some(
            QueryModel {
                id,
                rd: flags / 256 % 2 == 1,
                opcode: (flags / 2048 % 16) as u8,
                qname: config::canonical(name),
                qtype,
                qclass,
            },
        ),
{
    let head = wire::be16(id) + wire::be16(flags) + wire::be16(count);
    let nw = wire::name_wire(name);
    let question = nw + wire::be16(qtype) + wire::be16(qclass);
    let n = nw.len() as int;
    assert(head.subrange(0, 2) =~= wire::be16(id));
    assert(head.subrange(2, 4) =~= wire::be16(flags));
    assert(head.subrange(4, 6) =~= wire::be16(count));
    assert(question.subrange(0, n) =~= nw);
    assert(question.subrange(n, n + 2) =~= wire::be16(qtype));
    assert(question.subrange(n + 2, n + 4) =~= wire::be16(qclass));
    lemma_part_of_part(buf, 0, head, 0, wire::be16(id));
    lemma_part_of_part(buf, 0, head, 2, wire::be16(flags));
    lemma_part_of_part(buf, 0, head, 4, wire::be16(count));
    lemma_part_of_part(buf, 12, question, 0, nw);
    lemma_part_of_part(buf, 12, question, n, wire::be16(qtype));
    lemma_part_of_part(buf, 12, question, n + 2, wire::be16(qclass));
    lemma_be16_roundtrip(id, buf, 0);
    lemma_be16_roundtrip(flags, buf, 2);
    lemma_be16_roundtrip(count, buf, 4);
    lemma_be16_roundtrip(qtype, buf, 12 + n);
    lemma_be16_roundtrip(qclass, buf, 14 + n);
    lemma_name_roundtrip(buf, 12, name);
}

/// The header of a response: the id of the query, the QR bit, the opcode and RD bit of the query, the
/// AA bit and the rcode of the lookup, and the number of records in each section. Of the opcode and
/// the rcode the four low bits are kept.
#[verifier::rlimit(60)]
pub proof fn lemma_response_header(q: QueryModel, lk: LookupModel)
    requires
        lk.answers.len() < 65536,
        lk.authority.len() < 65536,
    ensures
        ({
            let r = wire::response(q, lk);
            &&& r.len() >= 12
            &&& wire::u16_at(r, 0) == q.id
            &&& r[2] / 128 == 1
            &&& r[2] / 8 % 16 == q.opcode % 16
            &&& r[2] / 4 % 2 == 1 <==> lk.aa
            &&& r[2] / 2 % 2 == 0
            &&& r[2] % 2 == 1 <==> q.rd
            &&& r[3] == lk.rcode % 16
            &&& wire::u16_at(r, 4) == if wire::echoes_question(q) {
                1u16
            } else {
                0
            }
            &&& wire::u16_at(r, 6) == lk.answers.len()
            &&& wire::u16_at(r, 8) == lk.authority.len()
            &&& wire::u16_at(r, 10) == 0
        }),
{
    lemma_header_numbers(q, lk);
    lemma_flag_bits(q, lk);
    let r = wire::response(q, lk);
    let flags = wire::response_flags(q, lk);
    assert(r[2] == flags / 256);
    assert(r[3] == lk.rcode % 16);
}

/// The numbers in the header of a response.
pub proof fn lemma_header_numbers(q: QueryModel, lk: LookupModel)
    ensures
        ({
            let r = wire::response(q, lk);
            let flags = wire::response_flags(q, lk);
            &&& r.len() >= 12
            &&& wire::u16_at(r, 0) == q.id
            &&& r[2] == flags / 256
            &&& r[3] == flags % 256
            &&& wire::u16_at(r, 4) == if wire::echoes_question(q) {
                1u16
            } else {
                0
            }
            &&& wire::u16_at(r, 6) == lk.answers.len() % 65536
            &&& wire::u16_at(r, 8) == lk.authority.len() % 65536
            &&& wire::u16_at(r, 10) == 0
        }),
{
    let r = wire::response(q, lk);
    let asked: u16 = if wire::echoes_question(q) {
        1
    } else {
        0
    };
    let answers = (lk.answers.len() % 65536) as u16;
    let authority = (lk.authority.len() % 65536) as u16;
    let rest = wire::question_wire(q) + wire::rrs_wire(lk.answers) + wire::rrs_wire(lk.authority);
    assert(r =~= wire::response_header(q, lk) + rest);
    assert(r.subrange(0, 2) =~= wire::be16(q.id));
    assert(r.subrange(4, 6) =~= wire::be16(asked));
    assert(r.subrange(6, 8) =~= wire::be16(answers));
    assert(r.subrange(8, 10) =~= wire::be16(authority));
    assert(r.subrange(10, 12) =~= wire::be16(0));
    lemma_be16_roundtrip(q.id, r, 0);
    lemma_be16_roundtrip(asked, r, 4);
    lemma_be16_roundtrip(answers, r, 6);
    lemma_be16_roundtrip(authority, r, 8);
    lemma_be16_roundtrip(0, r, 10);
}

/// The bits of the flags of a response.
pub proof fn lemma_flag_bits(q: QueryModel, lk: LookupModel)
    ensures
        ({
            let flags = wire::response_flags(q, lk);
            let high = flags / 256;
            &&& high / 128 == 1
            &&& high / 8 % 16 == q.opcode % 16
            &&& high / 4 % 2 == 1 <==> lk.aa
            &&& high / 2 % 2 == 0
            &&& high % 2 == 1 <==> q.rd
            &&& flags % 256 == lk.rcode % 16
            &&& flags / 256 % 2 == 1 <==> q.rd
            &&& flags / 2048 % 16 == q.opcode % 16
        }),
{
    let flags = wire::response_flags(q, lk);
    let a: int = if lk.aa {
        1
    } else {
        0
    };
    let d: int = if q.rd {
        1
    } else {
        0
    };
    let opcode = q.opcode as int % 16;
    let rcode = lk.rcode as int % 16;
    assert(flags == 0x8000 + opcode * 0x0800 + a * 0x0400 + d * 0x0100 + rcode);
    let high = flags / 256;
    assert(high == 128 + opcode * 8 + a * 4 + d);
    assert(high / 4 == 32 + opcode * 2 + a);
    assert(high / 2 == 64 + opcode * 4 + a * 2);
    assert(high / 8 == 16 + opcode);
}

/// The bytes of a response that a query is read from: the start of the header, and the question.
proof fn lemma_response_parts(q: QueryModel, lk: LookupModel)
    requires
        wire::echoes_question(q),
    ensures
        ({
            let r = wire::response(q, lk);
            let question = wire::question_wire(q);
            &&& r.len() >= 12 + question.len()
            &&& r.subrange(0, 6) == wire::be16(q.id) + wire::be16(wire::response_flags(q, lk))
                + wire::be16(1)
            &&& r.subrange(12, 12 + question.len() as int) == question
        }),
{
    let r = wire::response(q, lk);
    let flags = wire::response_flags(q, lk);
    let question = wire::question_wire(q);
    let header = wire::response_header(q, lk);
    let records = wire::rrs_wire(lk.answers) + wire::rrs_wire(lk.authority);
    assert(header.len() == 12);
    assert(header.subrange(0, 6) =~= wire::be16(q.id) + wire::be16(flags) + wire::be16(1));
    assert(r =~= header + question + records);
    assert(r.subrange(0, 6) =~= header.subrange(0, 6));
    assert(r.subrange(12, 12 + question.len() as int) =~= question);
}

/// A message that starts with the header and the question of `q` is read as `q`.
proof fn lemma_reads_as(r: Seq<u8>, q: QueryModel, flags: u16)
    requires
        q.opcode < 16,
        is_wire_name(q.qname),
        flags / 256 % 2 == 1 <==> q.rd,
        flags / 2048 % 16 == q.opcode,
        ({
            let question = wire::name_wire(q.qname) + wire::be16(q.qtype) + wire::be16(q.qclass);
            &&& r.len() >= 12 + question.len()
            &&& r.subrange(0, 6) == wire::be16(q.id) + wire::be16(flags) + wire::be16(1)
            &&& r.subrange(12, 12 + question.len() as int) == question
        }),
    ensures
        wire::query_of(r) == Some(QueryModel { qname: config::canonical(q.qname), ..q }),
{
    lemma_question_read_back(r, q.id, flags, 1, q.qname, q.qtype, q.qclass);
}

/// A response repeats the question: read as a query, it gives the query back.
#[verifier::rlimit(60)]
pub proof fn lemma_response_echoes_query(q: QueryModel, lk: LookupModel)
    requires
        q.opcode < 16,
        is_wire_name(q.qname),
        wire::echoes_question(q),
    ensures
        wire::query_of(wire::response(q, lk)) == Some(
            QueryModel { qname: config::canonical(q.qname), ..q },
        ),
{
    lemma_response_parts(q, lk);
    lemma_flag_bits(q, lk);
    lemma_reads_as(wire::response(q, lk), q, wire::response_flags(q, lk));
}

// ---------------------------------------------------------------------------
// The server
// ---------------------------------------------------------------------------

/// The first bytes of a response hold the id and the QR bit.
proof fn lemma_response_start(q: QueryModel, lk: LookupModel)
    ensures
        wire::response(q, lk).len() >= 12,
        wire::response(q, lk).subrange(0, 2) == wire::be16(q.id),
        128 <= wire::response(q, lk)[2] <= 253,
        wire::response_header(q, lk).len() == 12,
{
    let r = wire::response(q, lk);
    let flags = wire::response_flags(q, lk);
    assert(0x8000 <= flags <= 0xfdff);
    assert(r[2] == flags / 256);
    assert(r.subrange(0, 2) =~= wire::be16(q.id));
}

/// A query carries the id of its message.
proof fn lemma_query_id(buf: Seq<u8>)
    ensures
        wire::query_of(buf) matches Some(q) ==> buf.len() >= 12 && q.id == wire::u16_at(buf, 0)
            && q.opcode < 16,
{
}

/// Every request is answered by a response with its id: the two first bytes are those of the
/// request, and the QR bit is set.
pub proof fn lemma_answers_carry_the_id(snap: SnapshotModel, buf: Seq<u8>, udp: bool)
    requires
        buf.len() >= 2,
    ensures
        server::handled(snap, buf, udp).len() >= 12,
        server::handled(snap, buf, udp).subrange(0, 2) == buf.subrange(0, 2),
        server::handled(snap, buf, udp)[2] >= 128,
{
    let r = server::handled(snap, buf, udp);
    let id = wire::u16_at(buf, 0);
    assert(wire::be16(id) =~= buf.subrange(0, 2));
    lemma_query_id(buf);
    match wire::query_of(buf) {
        Some(q) => {
            if q.opcode != 0 || q.qname.len() == 0 || q.qclass != CLASS_IN {
                lemma_header_only(q.id, q.opcode, q.rd, crate::dns::RCODE_NOTIMP);
                lemma_header_only(q.id, q.opcode, q.rd, crate::dns::RCODE_FORMERR);
            } else {
                let lk = crate::dns::resolver::answer(snap, q.qname, q.qtype);
                lemma_response_start(q, lk);
                lemma_response_start(q, wire::bare_lookup(lk.rcode, lk.aa));
                let full = wire::response(q, wire::bare_lookup(lk.rcode, lk.aa));
                assert(server::with_tc(full).subrange(0, 2) =~= full.subrange(0, 2));
            }
        },
        None => {
            lemma_header_only(id, 0, false, crate::dns::RCODE_FORMERR);
        },
    }
}

/// A header-only response is twelve bytes long and starts with the id and the QR bit.
proof fn lemma_header_only(id: u16, opcode: u8, rd: bool, rcode: u8)
    ensures
        wire::header_only(id, opcode, rd, rcode).len() == 12,
        wire::header_only(id, opcode, rd, rcode).subrange(0, 2) == wire::be16(id),
        wire::header_only(id, opcode, rd, rcode)[2] >= 128,
{
    let q = wire::bare_query(id, opcode, rd);
    let lk = wire::bare_lookup(rcode, false);
    lemma_response_start(q, lk);
    let r = wire::response(q, lk);
    let h = wire::response_header(q, lk);
    assert(h =~= r.subrange(0, 12));
    assert(h.subrange(0, 2) =~= r.subrange(0, 2));
}

/// An answer over UDP is at most 512 bytes long, unless the header and the question that it repeats
/// are longer already.
pub proof fn lemma_udp_answers_fit(snap: SnapshotModel, buf: Seq<u8>)
    ensures
        server::handled(snap, buf, true).len() <= server::UDP_MAX || (wire::query_of(
            buf,
        ) matches Some(q) && server::handled(snap, buf, true).len() == 12 + wire::question_wire(
            q,
        ).len()),
{
    match wire::query_of(buf) {
        Some(q) => {
            if q.opcode != 0 || q.qname.len() == 0 || q.qclass != CLASS_IN {
                lemma_header_only(q.id, q.opcode, q.rd, crate::dns::RCODE_NOTIMP);
                lemma_header_only(q.id, q.opcode, q.rd, crate::dns::RCODE_FORMERR);
            } else {
                let lk = crate::dns::resolver::answer(snap, q.qname, q.qtype);
                lemma_response_start(q, wire::bare_lookup(lk.rcode, lk.aa));
            }
        },
        None => {
            lemma_header_only(server::best_id(buf), 0, false, crate::dns::RCODE_FORMERR);
        },
    }
}

/// Setting the TC bit of a message changes no other part of its header.
proof fn lemma_tc_bit(msg: Seq<u8>)
    requires
        msg.len() >= 12,
        msg[2] <= 253,
        msg[2] / 2 % 2 == 0,
    ensures
        server::with_tc(msg)[2] / 2 % 2 == 1,
        server::with_tc(msg)[3] == msg[3],
        wire::u16_at(server::with_tc(msg), 6) == wire::u16_at(msg, 6),
        wire::u16_at(server::with_tc(msg), 8) == wire::u16_at(msg, 8),
{
}

/// The TC bit of a response is clear, and its rcode is that of the lookup.
pub proof fn lemma_response_bits(q: QueryModel, lk: LookupModel)
    ensures
        wire::response(q, lk).len() >= 12,
        wire::response(q, lk)[2] <= 253,
        wire::response(q, lk)[2] / 2 % 2 == 0,
        wire::response(q, lk)[3] == lk.rcode % 16,
{
    let r = wire::response(q, lk);
    let flags = wire::response_flags(q, lk);
    assert(r.len() >= 12 && r[2] == flags / 256 && r[3] == flags % 256) by {
        lemma_header_numbers(q, lk);
    }
    assert(flags / 256 / 2 % 2 == 0 && flags % 256 == lk.rcode % 16) by {
        lemma_flag_bits(q, lk);
    }
    assert(r[2] <= 253) by {
        lemma_response_start(q, lk);
    }
}

/// An answer over TCP, or one over UDP that fits, is complete: it is the response that carries
/// everything the zones answer. A longer answer over UDP has the TC bit set and carries no records.
pub proof fn lemma_truncation(q: QueryModel, lk: LookupModel, udp: bool)
    ensures
        ({
            let full = wire::response(q, lk);
            let r = server::answered(q, lk, udp);
            &&& !udp || full.len() <= server::UDP_MAX ==> r == full && r[2] / 2 % 2 == 0
            &&& udp && full.len() > server::UDP_MAX ==> r[2] / 2 % 2 == 1 && wire::u16_at(r, 6) == 0
                && wire::u16_at(r, 8) == 0 && r[3] == lk.rcode % 16
        }),
{
    let bare = wire::bare_lookup(lk.rcode, lk.aa);
    let short = wire::response(q, bare);
    lemma_response_bits(q, lk);
    lemma_response_bits(q, bare);
    assert(wire::u16_at(short, 6) == 0 && wire::u16_at(short, 8) == 0) by {
        lemma_header_numbers(q, bare);
    }
    lemma_tc_bit(short);
}

/// A framed message carries its length in front, and behind it the message.
pub proof fn lemma_frame_roundtrip(msg: Seq<u8>)
    requires
        msg.len() < 65536,
    ensures
        wire::u16_at(server::framed(msg), 0) == msg.len(),
        server::framed(msg).skip(2) == msg,
{
    let f = server::framed(msg);
    assert(f.subrange(0, 2) =~= wire::be16(msg.len() as u16));
    lemma_be16_roundtrip(msg.len() as u16, f, 0);
    assert(f.skip(2) =~= msg);
}

// ---------------------------------------------------------------------------
// Labels, tags and lengths
// ---------------------------------------------------------------------------

/// A label is its length and its bytes, cut to 63; an empty label takes no place.
pub proof fn lemma_label_means(label: Seq<char>)
    ensures
        ({
            let w = wire::label_wire(label);
            let bytes = vstd::utf8::encode_utf8(label);
            if label.len() == 0 {
                w.len() == 0
            } else {
                &&& w.len() == 1 + w[0]
                &&& w[0] == if bytes.len() > 63 {
                    63
                } else {
                    bytes.len() as int
                }
                &&& forall|i: int| 0 <= i < w[0] ==> w[1 + i] == #[trigger] bytes[i]
            }
        }),
{
}

/// A name is its labels one after the other, and a zero byte.
pub proof fn lemma_name_by_labels(a: Seq<char>, b: Seq<char>)
    requires
        names::free_of(a, '.'),
    ensures
        wire::name_wire(a) == wire::label_wire(a) + seq![0u8],
        wire::name_wire(a + seq!['.'] + b) == wire::label_wire(a) + wire::name_wire(b),
{
    pieces::lemma_fields_front(a, b, '.');
    let rest = text::fields(b, '.');
    let all = seq![a] + rest;
    lemma_labels_wire_front(all);
    assert(all.drop_first() =~= rest);
    lemma_labels_wire_front(seq![a]);
    let none = Seq::<Seq<char>>::empty();
    assert(seq![a].drop_first() =~= none);
    assert(wire::labels_wire(none) == Seq::<u8>::empty());
    assert(wire::name_wire(a) =~= wire::label_wire(a) + seq![0u8]);
    assert(wire::name_wire(a + seq!['.'] + b) =~= wire::label_wire(a) + wire::name_wire(b));
}

/// CAA data is the flags, the length of the tag and the tag, cut to 255 bytes, and the value.
pub proof fn lemma_caa_means(flags: u8, tag: Seq<char>, value: Seq<char>)
    ensures
        ({
            let w = wire::caa_wire(flags, tag, value);
            let bytes = vstd::utf8::encode_utf8(tag);
            &&& w[0] == flags
            &&& w[1] == if bytes.len() > 255 {
                255
            } else {
                bytes.len() as int
            }
            &&& w.subrange(2, 2 + w[1]) == bytes.take(w[1] as int)
            &&& w.skip(2 + w[1]) == vstd::utf8::encode_utf8(value)
        }),
{
    let w = wire::caa_wire(flags, tag, value);
    let bytes = vstd::utf8::encode_utf8(tag);
    assert(w.subrange(2, 2 + w[1]) =~= bytes.take(w[1] as int));
    assert(w.skip(2 + w[1]) =~= vstd::utf8::encode_utf8(value));
}

/// A record is its owner, two bytes of type, two of class, four of TTL, two of length and its data; the
/// length is that of the data, of which two bytes are kept.
pub proof fn lemma_record_parts(rr: RrModel)
    ensures
        ({
            let w = wire::rr_wire(rr);
            let n = wire::name_wire(rr.name).len() as int;
            let data = wire::rdata_wire(rr.data);
            &&& w.len() == n + 10 + data.len()
            &&& w.take(n) == wire::name_wire(rr.name)
            &&& w[n] * 256 + w[n + 1] == dns::code_of(rr.data)
            &&& w[n + 2] == 0 && w[n + 3] == 1
            &&& w[n + 4] * 16777216 + w[n + 5] * 65536 + w[n + 6] * 256 + w[n + 7] == rr.ttl
            &&& w[n + 8] * 256 + w[n + 9] == data.len() % 65536
            &&& w.skip(n + 10) == data
        }),
{
    let w = wire::rr_wire(rr);
    let name = wire::name_wire(rr.name);
    let n = name.len() as int;
    let data = wire::rdata_wire(rr.data);
    assert(w.take(n) =~= name);
    assert(w.skip(n + 10) =~= data);
    let t = dns::code_of(rr.data);
    assert(w[n] == (t / 256) as u8 && w[n + 1] == (t % 256) as u8);
}

/// Each kind of data has its own type code.
pub proof fn lemma_codes_of_data(d: RDataModel)
    ensures
        dns::code_of(d) == match d {
            RDataModel::A(_) => 1u16,
            RDataModel::Aaaa(_) => 28,
            RDataModel::Name(t, _) => t,
            RDataModel::Mx { .. } => 15,
            RDataModel::Txt(_) => 16,
            RDataModel::Soa(_) => 6,
            RDataModel::Srv { .. } => 33,
            RDataModel::Caa { .. } => 257,
        },
{
}

/// A text of at most 255 bytes is one string; a longer one starts with a string of 255 bytes, and the
/// rest of it follows in the same way.
pub proof fn lemma_txt_means(s: Seq<char>, a: Seq<u8>, b: Seq<u8>)
    ensures
        wire::txt_wire(s) == wire::txt_chunks(vstd::utf8::encode_utf8(s)),
        a.len() <= 255 ==> wire::txt_chunks(a).len() == a.len() + 1 && wire::txt_chunks(a)[0]
            == a.len() && wire::txt_chunks(a).skip(1) == a,
        a.len() == 255 && b.len() > 0 ==> wire::txt_chunks(a + b) == seq![255u8] + a
            + wire::txt_chunks(b),
{
    if a.len() <= 255 {
        assert(wire::txt_chunks(a).skip(1) =~= a);
    }
    if a.len() == 255 && b.len() > 0 {
        assert((a + b).take(255) =~= a);
        assert((a + b).skip(255) =~= b);
    }
}

} // verus!

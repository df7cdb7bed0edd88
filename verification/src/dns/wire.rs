//! The wire form of names, records, queries and responses.
use crate::config;
use crate::dns;
use crate::dns::{Lookup, LookupModel, Query, QueryModel, RData, RDataModel, Rr, RrModel, CLASS_IN};
use crate::order;
use crate::text;
use vstd::prelude::*;

verus! {

/// The error that `core::str::from_utf8` reports.
#[verifier::external_type_specification]
#[verifier::external_body]
pub struct ExUtf8Error(core::str::Utf8Error);

/// `core::str::from_utf8` succeeds if and only if the bytes are valid UTF-8, and then returns the
/// string that these bytes encode.
pub assume_specification[ core::str::from_utf8 ](v: &[u8]) -> (r: Result<
    &str,
    core::str::Utf8Error,
>)
    ensures
        r is Ok <==> vstd::utf8::valid_utf8(v@),
        r matches Ok(s) ==> vstd::utf8::encode_utf8(s@) == v@,
;

// ---------------------------------------------------------------------------
// Numbers
// ---------------------------------------------------------------------------

/// The two bytes of `n`, most significant first.
pub open spec fn be16(n: u16) -> Seq<u8> {
    seq![(n / 256) as u8, (n % 256) as u8]
}

/// The four bytes of `n`, most significant first.
pub open spec fn be32(n: u32) -> Seq<u8> {
    be16((n / 65536) as u16) + be16((n % 65536) as u16)
}

/// The number that two bytes write, most significant first.
pub open spec fn u16_at(buf: Seq<u8>, i: int) -> u16 {
    (buf[i] * 256 + buf[i + 1]) as u16
}

/// Appends the two bytes of `n`.
pub(crate) fn put16(out: &mut Vec<u8>, n: u16)
    ensures
        final(out)@ == old(out)@ + be16(n),
{
    out.push((n / 256) as u8);
    out.push((n % 256) as u8);
    assert(out@ == old(out)@ + be16(n));
}

/// Appends the four bytes of `n`.
fn put32(out: &mut Vec<u8>, n: u32)
    ensures
        final(out)@ == old(out)@ + be32(n),
{
    put16(out, (n / 65536) as u16);
    put16(out, (n % 65536) as u16);
    assert(out@ == old(out)@ + be32(n));
}

/// Appends the bytes of `v` from position `from` up to `to`.
pub(crate) fn put_bytes(out: &mut Vec<u8>, v: &[u8], from: usize, to: usize)
    requires
        from <= to <= v@.len(),
    ensures
        final(out)@ == old(out)@ + v@.subrange(from as int, to as int),
{
    let mut i: usize = from;
    assert(v@.subrange(from as int, from as int) == Seq::<u8>::empty());
    assert(out@ + Seq::<u8>::empty() == out@);
    while i < to
        invariant
            from <= i <= to <= v@.len(),
            out@ == old(out)@ + v@.subrange(from as int, i as int),
        decreases to - i,
    {
        out.push(v[i]);
        assert(v@.subrange(from as int, i + 1) == v@.subrange(from as int, i as int).push(
            v@[i as int],
        ));
        i += 1;
    }
}

/// Reads two bytes as a number.
pub(crate) fn get16(buf: &[u8], i: usize) -> (r: u16)
    requires
        i + 1 < buf@.len(),
    ensures
        r == u16_at(buf@, i as int),
{
    buf[i] as u16 * 256 + buf[i + 1] as u16
}

// ---------------------------------------------------------------------------
// Names and texts
// ---------------------------------------------------------------------------

/// The wire form of a label: its length and its bytes, of which at most 63 are kept. An empty label
/// is left out.
pub open spec fn label_wire(label: Seq<char>) -> Seq<u8> {
    let bytes = vstd::utf8::encode_utf8(label);
    let n = if bytes.len() < 63 {
        bytes.len()
    } else {
        63
    };
    if label.len() == 0 {
        Seq::<u8>::empty()
    } else {
        seq![n as u8] + bytes.take(n as int)
    }
}

/// The wire forms of `labels`, one after the other.
pub open spec fn labels_wire(labels: Seq<Seq<char>>) -> Seq<u8>
    decreases labels.len(),
{
    if labels.len() == 0 {
        Seq::<u8>::empty()
    } else {
        labels_wire(labels.drop_last()) + label_wire(labels.last())
    }
}

/// The wire form of a domain name: its labels and a zero byte.
pub open spec fn name_wire(name: Seq<char>) -> Seq<u8> {
    labels_wire(text::fields(name, '.')).push(0)
}

/// The wire form of a TXT value: one or more character strings of at most 255 bytes.
pub open spec fn txt_chunks(bytes: Seq<u8>) -> Seq<u8>
    decreases bytes.len(),
{
    if bytes.len() <= 255 {
        seq![bytes.len() as u8] + bytes
    } else {
        (seq![255u8] + bytes.take(255)) + txt_chunks(bytes.skip(255))
    }
}

/// The wire form of a TXT value.
pub open spec fn txt_wire(s: Seq<char>) -> Seq<u8> {
    txt_chunks(vstd::utf8::encode_utf8(s))
}

/// The wire form of a CAA record: flags, the length of the tag, the tag, of which at most 255 bytes
/// are kept, and the value.
pub open spec fn caa_wire(flags: u8, tag: Seq<char>, value: Seq<char>) -> Seq<u8> {
    let bytes = vstd::utf8::encode_utf8(tag);
    let n = if bytes.len() < 255 {
        bytes.len()
    } else {
        255
    };
    seq![flags, n as u8] + bytes.take(n as int) + vstd::utf8::encode_utf8(value)
}

/// Encodes a domain name (without a trailing dot) as length-prefixed labels and a zero terminator.
/// The root encodes as a single zero byte. Over-long labels are truncated to 63 bytes.
pub fn encode_name(name: &str, out: &mut Vec<u8>)
    ensures
        final(out)@ == old(out)@ + name_wire(name@),
{
    let labels = text::split(name, '.');
    let ghost all = text::fields(name@, '.');
    let mut i: usize = 0;
    assert(all.take(0) == Seq::<Seq<char>>::empty());
    assert(out@ + Seq::<u8>::empty() == out@);
    while i < labels.len()
        invariant
            i <= labels@.len(),
            all == text::views(labels@),
            out@ == old(out)@ + labels_wire(all.take(i as int)),
        decreases labels@.len() - i,
    {
        let ghost before = out@;
        let label: &str = labels[i].as_str();
        assert(all.take(i + 1).drop_last() == all.take(i as int));
        assert(all.take(i + 1).last() == label@);
        if !label.is_empty() {
            let bytes = label.as_bytes();
            let len: usize = if bytes.len() < 63 {
                bytes.len()
            } else {
                63
            };
            out.push(len as u8);
            put_bytes(out, bytes, 0, len);
            assert(bytes@.subrange(0, len as int) == bytes@.take(len as int));
            assert(out@ == before + label_wire(label@));
        } else {
            assert(out@ == before + label_wire(label@));
        }
        assert(out@ == old(out)@ + labels_wire(all.take(i + 1)));
        i += 1;
    }
    assert(all.take(all.len() as int) == all);
    out.push(0);
    assert(out@ == old(out)@ + name_wire(name@));
}

/// Encodes a TXT value as one or more character strings of at most 255 bytes.
pub fn encode_txt(s: &str, out: &mut Vec<u8>)
    ensures
        final(out)@ == old(out)@ + txt_wire(s@),
{
    let bytes = s.as_bytes();
    let mut i: usize = 0;
    assert(bytes@.skip(0) == bytes@);
    while bytes.len() - i > 255
        invariant
            i <= bytes@.len(),
            bytes@ == vstd::utf8::encode_utf8(s@),
            old(out)@ + txt_wire(s@) == out@ + txt_chunks(bytes@.skip(i as int)),
        decreases bytes@.len() - i,
    {
        let ghost before = out@;
        let ghost rest = bytes@.skip(i as int);
        out.push(255);
        put_bytes(out, bytes, i, i + 255);
        assert(bytes@.subrange(i as int, i + 255) == rest.take(255));
        assert(rest.skip(255) == bytes@.skip(i + 255));
        assert(out@ == before + (seq![255u8] + rest.take(255)));
        assert(before + ((seq![255u8] + rest.take(255)) + txt_chunks(rest.skip(255))) == out@
            + txt_chunks(rest.skip(255)));
        i += 255;
    }
    let ghost before = out@;
    let ghost rest = bytes@.skip(i as int);
    out.push((bytes.len() - i) as u8);
    put_bytes(out, bytes, i, bytes.len());
    assert(bytes@.subrange(i as int, bytes@.len() as int) == rest);
    assert(out@ == before + (seq![rest.len() as u8] + rest));
}

/// The name that starts at position `pos` of a message: its labels, and the position behind it. A
/// byte of 192 or more starts a pointer to the place where the name goes on. At most `fuel` labels
/// and pointers are followed.
pub open spec fn name_at(buf: Seq<u8>, pos: int, fuel: nat) -> Option<(Seq<Seq<char>>, int)>
    decreases fuel,
{
    if fuel == 0 || pos < 0 || pos >= buf.len() {
        None
    } else {
        let len = buf[pos];
        if len >= 192 {
            if pos + 1 >= buf.len() {
                None
            } else {
                match name_at(buf, (len - 192) * 256 + buf[pos + 1], (fuel - 1) as nat) {
                    Some((labels, _)) => Some((labels, pos + 2)),
                    None => None,
                }
            }
        } else if len == 0 {
            Some((Seq::<Seq<char>>::empty(), pos + 1))
        } else if pos + 1 + len > buf.len() {
            None
        } else {
            let bytes = buf.subrange(pos + 1, pos + 1 + len);
            if !vstd::utf8::valid_utf8(bytes) {
                None
            } else {
                match name_at(buf, pos + 1 + len, (fuel - 1) as nat) {
                    Some((labels, end)) => Some(
                        (seq![vstd::utf8::decode_utf8(bytes)] + labels, end),
                    ),
                    None => None,
                }
            }
        }
    }
}

/// How many labels and pointers of a name are followed.
pub const NAME_STEPS: usize = 128;

/// The dotted name that starts at position `start` of a message, and the position behind it.
pub open spec fn dotted_name_at(buf: Seq<u8>, start: int) -> Option<(Seq<char>, int)> {
    match name_at(buf, start, NAME_STEPS as nat) {
        Some((labels, end)) => Some((text::joined(labels, seq!['.']), end)),
        None => None,
    }
}

/// Decodes a domain name starting at `start`, following compression pointers. Returns the dotted
/// name and the position just past the name in the original stream; `None` on malformed input or a
/// pointer loop.
pub fn decode_name(buf: &[u8], start: usize) -> (r: Option<(String, usize)>)
    ensures
        match r {
            Some((name, end)) => dotted_name_at(buf@, start as int) == Some((name@, end as int))
                && end <= buf@.len(),
            None => dotted_name_at(buf@, start as int) is None,
        },
{
    let mut labels: Vec<String> = Vec::new();
    let mut pos: usize = start;
    let mut jumped = false;
    let mut next_after: usize = 0;
    let mut fuel: usize = NAME_STEPS;
    let ghost whole = name_at(buf@, start as int, NAME_STEPS as nat);
    assert(whole matches Some((ls, end)) ==> text::views(labels@) + ls == ls);
    while fuel > 0
        invariant
            whole == name_at(buf@, start as int, NAME_STEPS as nat),
            jumped ==> next_after <= buf@.len(),
            whole == match name_at(buf@, pos as int, fuel as nat) {
                Some((ls, end)) => Some(
                    (
                        text::views(labels@) + ls,
                        if jumped {
                            next_after as int
                        } else {
                            end
                        },
                    ),
                ),
                None => None,
            },
        decreases fuel,
    {
        if pos >= buf.len() {
            return None;
        }
        let len: u8 = buf[pos];
        if len >= 192 {
            if pos >= buf.len() - 1 {
                return None;
            }
            let target: usize = (len - 192) as usize * 256 + buf[pos + 1] as usize;
            if !jumped {
                next_after = pos + 2;
            }
            jumped = true;
            pos = target;
        } else if len == 0 {
            let end: usize = if jumped {
                next_after
            } else {
                pos + 1
            };
            assert(text::views(labels@) + Seq::<Seq<char>>::empty() == text::views(labels@));
            proof {
                reveal_strlit(".");
                assert("."@ == seq!['.']);
            }
            return Some((text::join(&labels, "."), end));
        } else {
            let n: usize = len as usize;
            if buf.len() - pos - 1 < n {
                return None;
            }
            let from: usize = pos + 1;
            let to: usize = from + n;
            let bytes = &buf[from..to];
            match core::str::from_utf8(bytes) {
                Ok(label) => {
                    let ghost before = text::views(labels@);
                    labels.push(label.to_string());
                    proof {
                        vstd::utf8::encode_utf8_decode_utf8(label@);
                        assert(text::views(labels@) == before.push(label@));
                        if let Some((ls, end)) = name_at(buf@, to as int, (fuel - 1) as nat) {
                            assert(before + (seq![label@] + ls) == before.push(label@) + ls);
                        }
                    }
                    pos = to;
                },
                Err(_) => {
                    return None;
                },
            }
        }
        fuel -= 1;
    }
    None
}

// ---------------------------------------------------------------------------
// Records
// ---------------------------------------------------------------------------

/// The bytes of 16-bit segments, one after the other.
pub open spec fn segments_wire(s: Seq<u16>) -> Seq<u8>
    decreases s.len(),
{
    if s.len() == 0 {
        Seq::<u8>::empty()
    } else {
        segments_wire(s.drop_last()) + be16(s.last())
    }
}

/// The wire form of record data, without its length.
pub open spec fn rdata_wire(d: RDataModel) -> Seq<u8> {
    match d {
        RDataModel::A(ip) => ip,
        RDataModel::Aaaa(ip) => segments_wire(ip),
        RDataModel::Name(_, n) => name_wire(n),
        RDataModel::Mx { pref, host } => be16(pref) + name_wire(host),
        RDataModel::Txt(s) => txt_wire(s),
        RDataModel::Soa(s) => name_wire(s.mname) + name_wire(s.rname) + be32(s.serial) + be32(
            s.refresh,
        ) + be32(s.retry) + be32(s.expire) + be32(s.minimum),
        RDataModel::Srv { priority, weight, port, target } => be16(priority) + be16(weight) + be16(
            port,
        ) + name_wire(target),
        RDataModel::Caa { flags, tag, value } => caa_wire(flags, tag, value),
    }
}

/// The wire form of a record: owner, type, class, TTL, length of the data (of which the two low
/// bytes are kept), and data.
pub open spec fn rr_wire(rr: RrModel) -> Seq<u8> {
    let data = rdata_wire(rr.data);
    name_wire(rr.name) + be16(dns::code_of(rr.data)) + be16(CLASS_IN) + be32(rr.ttl) + be16(
        (data.len() % 65536) as u16,
    ) + data
}

/// The wire forms of `rrs`, one after the other.
pub open spec fn rrs_wire(rrs: Seq<RrModel>) -> Seq<u8>
    decreases rrs.len(),
{
    if rrs.len() == 0 {
        Seq::<u8>::empty()
    } else {
        rrs_wire(rrs.drop_last()) + rr_wire(rrs.last())
    }
}

impl RData {
    /// Appends the bytes of this data, without its length.
    pub fn encode_rdata(&self, out: &mut Vec<u8>)
        ensures
            final(out)@ == old(out)@ + rdata_wire(self@),
    {
        match self {
            RData::A(ip) => {
                let v = ip.octets.as_slice();
                put_bytes(out, v, 0, 4);
                assert(v@.subrange(0, 4) == ip@);
            },
            RData::Aaaa(ip) => {
                let mut i: usize = 0;
                assert(ip@.take(0) == Seq::<u16>::empty());
                assert(out@ + Seq::<u8>::empty() == out@);
                while i < 8
                    invariant
                        i <= 8,
                        out@ == old(out)@ + segments_wire(ip@.take(i as int)),
                    decreases 8 - i,
                {
                    let ghost before = out@;
                    put16(out, ip.segments[i]);
                    assert(ip@.take(i + 1).drop_last() == ip@.take(i as int));
                    assert(out@ == old(out)@ + segments_wire(ip@.take(i + 1)));
                    i += 1;
                }
                assert(ip@.take(8) == ip@);
            },
            RData::Name(_, n) => encode_name(n, out),
            RData::Mx { pref, host } => {
                put16(out, *pref);
                encode_name(host, out);
                assert(out@ == old(out)@ + (be16(*pref) + name_wire(host@)));
            },
            RData::Txt(s) => encode_txt(s, out),
            RData::Soa(s) => {
                encode_name(&s.mname, out);
                encode_name(&s.rname, out);
                put32(out, s.serial);
                put32(out, s.refresh);
                put32(out, s.retry);
                put32(out, s.expire);
                put32(out, s.minimum);
                assert(out@ == old(out)@ + rdata_wire(self@));
            },
            RData::Srv { priority, weight, port, target } => {
                put16(out, *priority);
                put16(out, *weight);
                put16(out, *port);
                encode_name(target, out);
                assert(out@ == old(out)@ + rdata_wire(self@));
            },
            RData::Caa { flags, tag, value } => {
                let bytes = tag.as_str().as_bytes();
                let len: usize = if bytes.len() < 255 {
                    bytes.len()
                } else {
                    255
                };
                out.push(*flags);
                out.push(len as u8);
                put_bytes(out, bytes, 0, len);
                assert(bytes@.subrange(0, len as int) == bytes@.take(len as int));
                let rest = value.as_str().as_bytes();
                put_bytes(out, rest, 0, rest.len());
                assert(rest@.subrange(0, rest@.len() as int) == rest@);
                assert(out@ == old(out)@ + rdata_wire(self@));
            },
        }
    }
}

/// Appends the wire form of a record.
fn encode_rr(rr: &Rr, out: &mut Vec<u8>)
    ensures
        final(out)@ == old(out)@ + rr_wire(rr@),
{
    encode_name(&rr.name, out);
    put16(out, rr.data.type_code());
    put16(out, CLASS_IN);
    put32(out, rr.ttl);
    let mut data: Vec<u8> = Vec::new();
    rr.data.encode_rdata(&mut data);
    assert(data@ == rdata_wire(rr.data@));
    put16(out, (data.len() % 65536) as u16);
    put_bytes(out, &data, 0, data.len());
    assert(data@.subrange(0, data@.len() as int) == data@);
    assert(out@ == old(out)@ + rr_wire(rr@));
}

/// Appends the wire forms of `rrs`.
fn encode_rrs(rrs: &Vec<Rr>, out: &mut Vec<u8>)
    ensures
        final(out)@ == old(out)@ + rrs_wire(order::models(rrs@)),
{
    let ghost all = order::models(rrs@);
    let mut i: usize = 0;
    assert(all.take(0) == Seq::<RrModel>::empty());
    assert(out@ + Seq::<u8>::empty() == out@);
    while i < rrs.len()
        invariant
            i <= rrs@.len(),
            all == order::models(rrs@),
            out@ == old(out)@ + rrs_wire(all.take(i as int)),
        decreases rrs@.len() - i,
    {
        encode_rr(&rrs[i], out);
        assert(all.take(i + 1).drop_last() == all.take(i as int));
        assert(out@ == old(out)@ + rrs_wire(all.take(i + 1)));
        i += 1;
    }
    assert(all.take(all.len() as int) == all);
}

// ---------------------------------------------------------------------------
// Messages
// ---------------------------------------------------------------------------

/// The query that a message holds. A message without a question yields a query with an empty name
/// and type 0; of several questions the first is read.
pub open spec fn query_of(buf: Seq<u8>) -> Option<QueryModel> {
    if buf.len() < 12 {
        None
    } else {
        let id = u16_at(buf, 0);
        let flags = u16_at(buf, 2);
        let opcode = (flags / 2048 % 16) as u8;
        let rd = flags / 256 % 2 == 1;
        if u16_at(buf, 4) == 0 {
            Some(
                QueryModel { id, rd, opcode, qname: Seq::<char>::empty(), qtype: 0, qclass: 0 },
            )
        } else {
            match dotted_name_at(buf, 12) {
                Some((name, end)) => if end + 4 > buf.len() {
                    None
                } else {
                    Some(
                        QueryModel {
                            id,
                            rd,
                            opcode,
                            qname: config::canonical(name),
                            qtype: u16_at(buf, end),
                            qclass: u16_at(buf, end + 2),
                        },
                    )
                },
                None => None,
            }
        }
    }
}

/// Parses a request message into its single question. Returns `None` on a malformed or short buffer.
pub fn parse_query(buf: &[u8]) -> (r: Option<Query>)
    ensures
        match r {
            Some(q) => query_of(buf@) == Some(q@),
            None => query_of(buf@) is None,
        },
{
    if buf.len() < 12 {
        return None;
    }
    let id: u16 = get16(buf, 0);
    let flags: u16 = get16(buf, 2);
    let qdcount: u16 = get16(buf, 4);
    let opcode: u8 = (flags / 2048 % 16) as u8;
    let rd = flags / 256 % 2 == 1;
    if qdcount < 1 {
        return Some(Query { id, rd, opcode, qname: String::new(), qtype: 0, qclass: 0 });
    }
    match decode_name(buf, 12) {
        Some((qname, pos)) => {
            if buf.len() - pos < 4 {
                return None;
            }
            let qtype: u16 = get16(buf, pos);
            let qclass: u16 = get16(buf, pos + 2);
            Some(Query { id, rd, opcode, qname: config::normalize_name(&qname), qtype, qclass })
        },
        None => None,
    }
}

/// The flags of a response: QR, the opcode of the query, AA, the RD bit of the query, and the rcode.
pub open spec fn response_flags(q: QueryModel, lk: LookupModel) -> u16 {
    (0x8000 + (q.opcode % 16) * 0x0800 + (if lk.aa {
        0x0400int
    } else {
        0
    }) + (if q.rd {
        0x0100int
    } else {
        0
    }) + lk.rcode % 16) as u16
}

/// Whether a response to `q` repeats the question.
pub open spec fn echoes_question(q: QueryModel) -> bool {
    q.qname.len() > 0 || q.qtype != 0
}

/// The header of a response: id, flags and the numbers of records in each section, of which the two
/// low bytes are kept.
pub open spec fn response_header(q: QueryModel, lk: LookupModel) -> Seq<u8> {
    be16(q.id) + be16(response_flags(q, lk)) + be16(
        if echoes_question(q) {
            1
        } else {
            0
        },
    ) + be16((lk.answers.len() % 65536) as u16) + be16((lk.authority.len() % 65536) as u16) + be16(
        0,
    )
}

/// The wire form of the question of `q`.
pub open spec fn question_wire(q: QueryModel) -> Seq<u8> {
    if echoes_question(q) {
        name_wire(q.qname) + be16(q.qtype) + be16(q.qclass)
    } else {
        Seq::<u8>::empty()
    }
}

/// The response to `q` that carries `lk`: header, question, answers and authority records.
pub open spec fn response(q: QueryModel, lk: LookupModel) -> Seq<u8> {
    response_header(q, lk) + question_wire(q) + rrs_wire(lk.answers) + rrs_wire(lk.authority)
}

/// Builds the response to `query` given its resolved `lookup`.
pub fn build_response(query: &Query, lookup: &Lookup) -> (r: Vec<u8>)
    ensures
        r@ == response(query@, lookup@),
{
    let mut out: Vec<u8> = Vec::new();
    put16(&mut out, query.id);
    let mut flags: u16 = 0x8000 + (query.opcode % 16) as u16 * 0x0800;
    if lookup.aa {
        flags = flags + 0x0400;
    }
    if query.rd {
        flags = flags + 0x0100;
    }
    flags = flags + (lookup.rcode % 16) as u16;
    put16(&mut out, flags);
    let asked = !query.qname.as_str().is_empty() || query.qtype != 0;
    put16(
        &mut out,
        if asked {
            1
        } else {
            0
        },
    );
    put16(&mut out, (lookup.answers.len() % 65536) as u16);
    put16(&mut out, (lookup.authority.len() % 65536) as u16);
    put16(&mut out, 0);
    assert(out@ == response_header(query@, lookup@));
    let ghost header = out@;
    if asked {
        encode_name(&query.qname, &mut out);
        put16(&mut out, query.qtype);
        put16(&mut out, query.qclass);
        assert(out@ == header + question_wire(query@));
    } else {
        assert(out@ == header + question_wire(query@));
    }
    encode_rrs(&lookup.answers, &mut out);
    encode_rrs(&lookup.authority, &mut out);
    out
}

/// The query that a header-only response answers: one without a question.
pub open spec fn bare_query(id: u16, opcode: u8, rd: bool) -> QueryModel {
    QueryModel { id, rd, opcode, qname: Seq::<char>::empty(), qtype: 0, qclass: 0 }
}

/// A lookup without records.
pub open spec fn bare_lookup(rcode: u8, aa: bool) -> LookupModel {
    LookupModel {
        rcode,
        aa,
        answers: Seq::<RrModel>::empty(),
        authority: Seq::<RrModel>::empty(),
    }
}

/// A header that carries just an rcode, and echoes the id, opcode and RD bit.
pub open spec fn header_only(id: u16, opcode: u8, rd: bool, rcode: u8) -> Seq<u8> {
    response_header(bare_query(id, opcode, rd), bare_lookup(rcode, false))
}

/// A bare header-only response carrying just an rcode.
pub fn header_only_response(id: u16, opcode: u8, rd: bool, rcode: u8) -> (r: Vec<u8>)
    ensures
        r@ == header_only(id, opcode, rd, rcode),
{
    let q = Query { id, rd, opcode, qname: String::new(), qtype: 0, qclass: 0 };
    let lk = Lookup { rcode, aa: false, answers: Vec::new(), authority: Vec::new() };
    assert(lk@.answers == Seq::<RrModel>::empty());
    assert(lk@.authority == Seq::<RrModel>::empty());
    let r = build_response(&q, &lk);
    assert(r@ == header_only(id, opcode, rd, rcode));
    r
}

} // verus!

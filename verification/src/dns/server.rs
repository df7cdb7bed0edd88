//! From request messages to response messages.
//!
//! Both transports share one [`Resolver`]. UDP answers are capped at 512 bytes: an over-long answer
//! is returned without its records and with the TC bit set, which prompts the client to retry over
//! TCP, where a two-byte length frames each message. The sockets are the caller's.
use crate::dns::resolver;
use crate::dns::resolver::{Resolver, SnapshotModel};
use crate::dns::wire;
use crate::dns::{
    build_response, header_only_response, parse_query, Lookup, LookupModel, QueryModel, RrModel,
    CLASS_IN, RCODE_FORMERR, RCODE_NOTIMP,
};
use vstd::prelude::*;

verus! {

/// The largest answer sent over UDP.
pub const UDP_MAX: usize = 512;

/// The message `msg` with the TC bit, the second lowest of the third byte, set. The bit is clear
/// before.
pub open spec fn with_tc(msg: Seq<u8>) -> Seq<u8> {
    msg.update(2, (msg[2] + 2) as u8)
}

/// The truncated response to `q`: header and question, the rcode and AA bit of `lk`, and TC.
pub open spec fn truncated(q: QueryModel, lk: LookupModel) -> Seq<u8> {
    with_tc(wire::response(q, wire::bare_lookup(lk.rcode, lk.aa)))
}

/// The response to the query `q` from what the zones answer, `lk`.
pub open spec fn answered(q: QueryModel, lk: LookupModel, udp: bool) -> Seq<u8> {
    let full = wire::response(q, lk);
    if udp && full.len() > UDP_MAX {
        truncated(q, lk)
    } else {
        full
    }
}

/// The id that the response to a malformed message carries.
pub open spec fn best_id(buf: Seq<u8>) -> u16 {
    if buf.len() >= 2 {
        wire::u16_at(buf, 0)
    } else {
        0
    }
}

/// The response to the request message `buf`. A malformed message and one without a question are
/// format errors; other opcodes than QUERY and other classes than IN are not implemented.
pub open spec fn handled(snap: SnapshotModel, buf: Seq<u8>, udp: bool) -> Seq<u8> {
    match wire::query_of(buf) {
        Some(q) => if q.opcode != 0 {
            wire::header_only(q.id, q.opcode, q.rd, RCODE_NOTIMP)
        } else if q.qname.len() == 0 {
            wire::header_only(q.id, q.opcode, q.rd, RCODE_FORMERR)
        } else if q.qclass != CLASS_IN {
            wire::header_only(q.id, q.opcode, q.rd, RCODE_NOTIMP)
        } else {
            answered(q, resolver::answer(snap, q.qname, q.qtype), udp)
        },
        None => wire::header_only(best_id(buf), 0, false, RCODE_FORMERR),
    }
}

/// The third byte of a response leaves room for the TC bit.
proof fn lemma_third_byte(q: QueryModel, lk: LookupModel)
    ensures
        wire::response(q, lk).len() >= 12,
        wire::response(q, lk)[2] <= 253,
{
    let flags = wire::response_flags(q, lk);
    assert(flags <= 0xfdff);
    assert(wire::response(q, lk)[2] == flags / 256);
}

/// Turns one raw request message into a wire response. `udp` enables the 512-byte truncation rule.
pub fn handle_query(resolver: &Resolver, buf: &[u8], udp: bool) -> (r: Vec<u8>)
    ensures
        r@ == handled(resolver@, buf@, udp),
{
    let query = match parse_query(buf) {
        Some(q) => q,
        None => {
            let id: u16 = if buf.len() >= 2 {
                wire::get16(buf, 0)
            } else {
                0
            };
            return header_only_response(id, 0, false, RCODE_FORMERR);
        },
    };
    if query.opcode != 0 {
        return header_only_response(query.id, query.opcode, query.rd, RCODE_NOTIMP);
    }
    if query.qname.as_str().is_empty() {
        return header_only_response(query.id, query.opcode, query.rd, RCODE_FORMERR);
    }
    if query.qclass != CLASS_IN {
        return header_only_response(query.id, query.opcode, query.rd, RCODE_NOTIMP);
    }
    let lookup = resolver.lookup(&query.qname, query.qtype);
    let resp = build_response(&query, &lookup);
    if udp && resp.len() > UDP_MAX {
        let bare = Lookup {
            rcode: lookup.rcode,
            aa: lookup.aa,
            answers: Vec::new(),
            authority: Vec::new(),
        };
        assert(bare@.answers == Seq::<RrModel>::empty());
        assert(bare@.authority == Seq::<RrModel>::empty());
        let mut short = build_response(&query, &bare);
        proof {
            lemma_third_byte(query@, bare@);
        }
        let third: u8 = short[2] + 2;
        short.set(2, third);
        return short;
    }
    resp
}

/// A message as it goes over TCP: its length, of which the two low bytes are kept, and the message.
pub open spec fn framed(msg: Seq<u8>) -> Seq<u8> {
    wire::be16((msg.len() % 65536) as u16) + msg
}

/// Frames a message for TCP.
pub fn frame(msg: &[u8]) -> (r: Vec<u8>)
    ensures
        r@ == framed(msg@),
{
    let mut out: Vec<u8> = Vec::new();
    wire::put16(&mut out, (msg.len() % 65536) as u16);
    wire::put_bytes(&mut out, msg, 0, msg.len());
    assert(msg@.subrange(0, msg@.len() as int) == msg@);
    assert(out@ == framed(msg@));
    out
}

/// Reads the length prefix of a message that came over TCP.
pub fn frame_len(prefix: [u8; 2]) -> (r: u16)
    ensures
        r == wire::u16_at(prefix@, 0),
{
    wire::get16(&prefix, 0)
}

} // verus!

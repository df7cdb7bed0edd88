//! Minimal RFC 1035 DNS wire protocol: message parsing and response building.
//!
//! The library supports what an authoritative server for a handful of zones needs: A, AAAA, MX,
//! TXT, NS, CNAME, SRV, CAA and SOA, the standard `QUERY` opcode, class `IN`, wildcard owners, the
//! AA bit, and the distinction of NXDOMAIN and NODATA. Names are encoded without compression.
//!
//! [`wire`] reads and writes messages, [`resolver`] answers questions from a snapshot of all zones,
//! and [`server`] turns request messages into response messages.
pub mod resolver;
pub mod server;
pub mod wire;

pub use crate::dns::wire::{
    build_response, encode_name, encode_txt, header_only_response, parse_query,
};

use crate::addr;
use crate::addr::{Ipv4Addr, Ipv6Addr};
use crate::config::{SOA_EXPIRE, SOA_MINIMUM, SOA_REFRESH, SOA_RETRY};
use crate::digits;
use crate::order;
use crate::text;
use vstd::prelude::*;

verus! {

// Record and query type codes.
pub const TYPE_A: u16 = 1;

pub const TYPE_NS: u16 = 2;

pub const TYPE_CNAME: u16 = 5;

pub const TYPE_SOA: u16 = 6;

pub const TYPE_MX: u16 = 15;

pub const TYPE_TXT: u16 = 16;

pub const TYPE_AAAA: u16 = 28;

pub const TYPE_SRV: u16 = 33;

pub const TYPE_ANY: u16 = 255;

pub const TYPE_CAA: u16 = 257;

pub const CLASS_IN: u16 = 1;

// Response codes (RFC 1035, section 4.1.1).
pub const RCODE_NOERROR: u8 = 0;

pub const RCODE_FORMERR: u8 = 1;

pub const RCODE_NXDOMAIN: u8 = 3;

pub const RCODE_NOTIMP: u8 = 4;

pub const RCODE_REFUSED: u8 = 5;

// ---------------------------------------------------------------------------
// Record types as text
// ---------------------------------------------------------------------------

/// The code of a textual record type, in any case and with white space around it.
pub open spec fn type_of(s: Seq<char>) -> Option<u16> {
    let t = text::uppered(text::trimmed(s));
    if t == "A"@ {
        Some(TYPE_A)
    } else if t == "NS"@ {
        Some(TYPE_NS)
    } else if t == "CNAME"@ {
        Some(TYPE_CNAME)
    } else if t == "SOA"@ {
        Some(TYPE_SOA)
    } else if t == "MX"@ {
        Some(TYPE_MX)
    } else if t == "TXT"@ {
        Some(TYPE_TXT)
    } else if t == "AAAA"@ {
        Some(TYPE_AAAA)
    } else if t == "SRV"@ {
        Some(TYPE_SRV)
    } else if t == "CAA"@ {
        Some(TYPE_CAA)
    } else if t == "ANY"@ || t == "*"@ {
        Some(TYPE_ANY)
    } else {
        None
    }
}

/// The conventional label of a type code.
pub open spec fn type_label(t: u16) -> Seq<char> {
    if t == TYPE_A {
        "A"@
    } else if t == TYPE_NS {
        "NS"@
    } else if t == TYPE_CNAME {
        "CNAME"@
    } else if t == TYPE_SOA {
        "SOA"@
    } else if t == TYPE_MX {
        "MX"@
    } else if t == TYPE_TXT {
        "TXT"@
    } else if t == TYPE_AAAA {
        "AAAA"@
    } else if t == TYPE_SRV {
        "SRV"@
    } else if t == TYPE_CAA {
        "CAA"@
    } else if t == TYPE_ANY {
        "ANY"@
    } else {
        "TYPE"@ + digits::decimal(t as nat)
    }
}

/// Maps a textual record type (`A`, `mx`, ...) to its code; `None` for an unknown one.
pub fn type_from_str(s: &str) -> (r: Option<u16>)
    ensures
        r == type_of(s@),
{
    let t = text::to_ascii_uppercase(&text::trim(s));
    if text::same(&t, "A") {
        Some(TYPE_A)
    } else if text::same(&t, "NS") {
        Some(TYPE_NS)
    } else if text::same(&t, "CNAME") {
        Some(TYPE_CNAME)
    } else if text::same(&t, "SOA") {
        Some(TYPE_SOA)
    } else if text::same(&t, "MX") {
        Some(TYPE_MX)
    } else if text::same(&t, "TXT") {
        Some(TYPE_TXT)
    } else if text::same(&t, "AAAA") {
        Some(TYPE_AAAA)
    } else if text::same(&t, "SRV") {
        Some(TYPE_SRV)
    } else if text::same(&t, "CAA") {
        Some(TYPE_CAA)
    } else if text::same(&t, "ANY") || text::same(&t, "*") {
        Some(TYPE_ANY)
    } else {
        None
    }
}

/// Renders a type code as its conventional label.
pub fn type_to_str(t: u16) -> (r: String)
    ensures
        r@ == type_label(t),
{
    let label: &str = if t == TYPE_A {
        "A"
    } else if t == TYPE_NS {
        "NS"
    } else if t == TYPE_CNAME {
        "CNAME"
    } else if t == TYPE_SOA {
        "SOA"
    } else if t == TYPE_MX {
        "MX"
    } else if t == TYPE_TXT {
        "TXT"
    } else if t == TYPE_AAAA {
        "AAAA"
    } else if t == TYPE_SRV {
        "SRV"
    } else if t == TYPE_CAA {
        "CAA"
    } else if t == TYPE_ANY {
        "ANY"
    } else {
        return text::concat("TYPE", &digits::decimal_text(t as u64));
    };
    label.to_string()
}

// ---------------------------------------------------------------------------
// Records, answers and queries
// ---------------------------------------------------------------------------

/// The data of a single record, in a typed form that knows how to encode itself.
#[derive(Debug)]
pub enum RData {
    A(Ipv4Addr),
    Aaaa(Ipv6Addr),
    /// The target of an NS or CNAME record, with the record's type.
    Name(u16, String),
    Mx { pref: u16, host: String },
    Txt(String),
    Soa(Soa),
    Srv { priority: u16, weight: u16, port: u16, target: String },
    Caa { flags: u8, tag: String, value: String },
}

/// The synthesized start-of-authority record of a zone apex.
#[derive(Debug)]
pub struct Soa {
    pub mname: String,
    pub rname: String,
    pub serial: u32,
    pub refresh: u32,
    pub retry: u32,
    pub expire: u32,
    pub minimum: u32,
}

/// One resource record in an answer or authority section.
#[derive(Clone, Debug)]
pub struct Rr {
    /// Owner name, without a trailing dot.
    pub name: String,
    pub ttl: u32,
    pub data: RData,
}

/// The result of resolving one question: an rcode, the AA flag, and the answer and authority
/// records.
#[derive(Clone, Debug)]
pub struct Lookup {
    pub rcode: u8,
    pub aa: bool,
    pub answers: Vec<Rr>,
    pub authority: Vec<Rr>,
}

/// A parsed query; only a single question is ever read.
#[derive(Clone, Debug)]
pub struct Query {
    pub id: u16,
    /// Recursion-desired bit, echoed into the response header.
    pub rd: bool,
    pub opcode: u8,
    /// Owner name of the question, in canonical form.
    pub qname: String,
    pub qtype: u16,
    pub qclass: u16,
}

/// The model of [`RData`].
pub enum RDataModel {
    A(Seq<u8>),
    Aaaa(Seq<u16>),
    Name(u16, Seq<char>),
    Mx { pref: u16, host: Seq<char> },
    Txt(Seq<char>),
    Soa(SoaModel),
    Srv { priority: u16, weight: u16, port: u16, target: Seq<char> },
    Caa { flags: u8, tag: Seq<char>, value: Seq<char> },
}

/// The model of [`Soa`].
pub struct SoaModel {
    pub mname: Seq<char>,
    pub rname: Seq<char>,
    pub serial: u32,
    pub refresh: u32,
    pub retry: u32,
    pub expire: u32,
    pub minimum: u32,
}

/// The model of [`Rr`].
pub struct RrModel {
    pub name: Seq<char>,
    pub ttl: u32,
    pub data: RDataModel,
}

/// The model of [`Lookup`].
pub struct LookupModel {
    pub rcode: u8,
    pub aa: bool,
    pub answers: Seq<RrModel>,
    pub authority: Seq<RrModel>,
}

/// The model of [`Query`].
pub struct QueryModel {
    pub id: u16,
    pub rd: bool,
    pub opcode: u8,
    pub qname: Seq<char>,
    pub qtype: u16,
    pub qclass: u16,
}

impl View for Soa {
    type V = SoaModel;

    open spec fn view(&self) -> SoaModel {
        SoaModel {
            mname: self.mname@,
            rname: self.rname@,
            serial: self.serial,
            refresh: self.refresh,
            retry: self.retry,
            expire: self.expire,
            minimum: self.minimum,
        }
    }
}

impl View for RData {
    type V = RDataModel;

    open spec fn view(&self) -> RDataModel {
        match self {
            RData::A(ip) => RDataModel::A(ip@),
            RData::Aaaa(ip) => RDataModel::Aaaa(ip@),
            RData::Name(t, n) => RDataModel::Name(*t, n@),
            RData::Mx { pref, host } => RDataModel::Mx { pref: *pref, host: host@ },
            RData::Txt(s) => RDataModel::Txt(s@),
            RData::Soa(s) => RDataModel::Soa(s@),
            RData::Srv { priority, weight, port, target } => RDataModel::Srv {
                priority: *priority,
                weight: *weight,
                port: *port,
                target: target@,
            },
            RData::Caa { flags, tag, value } => RDataModel::Caa {
                flags: *flags,
                tag: tag@,
                value: value@,
            },
        }
    }
}

impl View for Rr {
    type V = RrModel;

    open spec fn view(&self) -> RrModel {
        RrModel { name: self.name@, ttl: self.ttl, data: self.data@ }
    }
}

impl View for Lookup {
    type V = LookupModel;

    open spec fn view(&self) -> LookupModel {
        LookupModel {
            rcode: self.rcode,
            aa: self.aa,
            answers: order::models(self.answers@),
            authority: order::models(self.authority@),
        }
    }
}

impl View for Query {
    type V = QueryModel;

    open spec fn view(&self) -> QueryModel {
        QueryModel {
            id: self.id,
            rd: self.rd,
            opcode: self.opcode,
            qname: self.qname@,
            qtype: self.qtype,
            qclass: self.qclass,
        }
    }
}

impl Clone for Soa {
    fn clone(&self) -> (r: Self)
        ensures
            r@ == self@,
    {
        Soa {
            mname: self.mname.clone(),
            rname: self.rname.clone(),
            serial: self.serial,
            refresh: self.refresh,
            retry: self.retry,
            expire: self.expire,
            minimum: self.minimum,
        }
    }
}

impl Clone for RData {
    fn clone(&self) -> (r: Self)
        ensures
            r@ == self@,
    {
        match self {
            RData::A(ip) => RData::A(*ip),
            RData::Aaaa(ip) => RData::Aaaa(*ip),
            RData::Name(t, n) => RData::Name(*t, n.clone()),
            RData::Mx { pref, host } => RData::Mx { pref: *pref, host: host.clone() },
            RData::Txt(s) => RData::Txt(s.clone()),
            RData::Soa(s) => RData::Soa(s.clone()),
            RData::Srv { priority, weight, port, target } => RData::Srv {
                priority: *priority,
                weight: *weight,
                port: *port,
                target: target.clone(),
            },
            RData::Caa { flags, tag, value } => RData::Caa {
                flags: *flags,
                tag: tag.clone(),
                value: value.clone(),
            },
        }
    }
}

impl Default for Lookup {
    fn default() -> (r: Self)
        ensures
            r.rcode == 0,
            !r.aa,
            r.answers@.len() == 0,
            r.authority@.len() == 0,
    {
        Lookup { rcode: 0, aa: false, answers: Vec::new(), authority: Vec::new() }
    }
}

/// The SOA of a zone, with the default timers.
pub open spec fn soa_model(mname: Seq<char>, rname: Seq<char>, serial: u32) -> SoaModel {
    SoaModel {
        mname,
        rname,
        serial,
        refresh: SOA_REFRESH,
        retry: SOA_RETRY,
        expire: SOA_EXPIRE,
        minimum: SOA_MINIMUM,
    }
}

impl Soa {
    /// Builds the SOA of a zone from its primary NS, hostmaster and serial; the timers are the
    /// defaults.
    pub fn new(mname: &str, rname: &str, serial: u32) -> (r: Self)
        ensures
            r@ == soa_model(mname@, rname@, serial),
    {
        Soa {
            mname: mname.to_string(),
            rname: rname.to_string(),
            serial,
            refresh: SOA_REFRESH,
            retry: SOA_RETRY,
            expire: SOA_EXPIRE,
            minimum: SOA_MINIMUM,
        }
    }
}

/// The type code of record data.
pub open spec fn code_of(d: RDataModel) -> u16 {
    match d {
        RDataModel::A(_) => TYPE_A,
        RDataModel::Aaaa(_) => TYPE_AAAA,
        RDataModel::Name(t, _) => t,
        RDataModel::Mx { .. } => TYPE_MX,
        RDataModel::Txt(_) => TYPE_TXT,
        RDataModel::Soa(_) => TYPE_SOA,
        RDataModel::Srv { .. } => TYPE_SRV,
        RDataModel::Caa { .. } => TYPE_CAA,
    }
}

/// The presentation form of record data. Names end in a dot; texts stand in quotes.
pub open spec fn rdata_text(d: RDataModel) -> Seq<char> {
    match d {
        RDataModel::A(ip) => addr::ipv4_text(ip),
        RDataModel::Aaaa(ip) => addr::ipv6_text(ip),
        RDataModel::Name(_, n) => n.push('.'),
        RDataModel::Mx { pref, host } => digits::decimal(pref as nat).push(' ') + host.push('.'),
        RDataModel::Txt(s) => seq!['"'] + s.push('"'),
        RDataModel::Soa(s) => s.mname + ". "@ + s.rname + ". "@ + digits::decimal(
            s.serial as nat,
        ).push(' ') + digits::decimal(s.refresh as nat).push(' ') + digits::decimal(
            s.retry as nat,
        ).push(' ') + digits::decimal(s.expire as nat).push(' ') + digits::decimal(
            s.minimum as nat,
        ),
        RDataModel::Srv { priority, weight, port, target } => digits::decimal(
            priority as nat,
        ).push(' ') + digits::decimal(weight as nat).push(' ') + digits::decimal(
            port as nat,
        ).push(' ') + target.push('.'),
        RDataModel::Caa { flags, tag, value } => digits::decimal(flags as nat).push(' ') + tag
            + " \""@ + value.push('"'),
    }
}

/// The decimal digits of `n` and a space.
fn number_and_space(n: u32) -> (r: String)
    ensures
        r@ == digits::decimal(n as nat).push(' '),
{
    let mut s = digits::decimal_text(n as u64);
    s.push(' ');
    s
}

/// The name `n` and a dot.
fn name_and_dot(n: &str) -> (r: String)
    ensures
        r@ == n@.push('.'),
{
    let mut s = n.to_string();
    s.push('.');
    s
}

impl RData {
    /// The type code this data carries.
    pub fn type_code(&self) -> (r: u16)
        ensures
            r == code_of(self@),
    {
        match self {
            RData::A(_) => TYPE_A,
            RData::Aaaa(_) => TYPE_AAAA,
            RData::Name(t, _) => *t,
            RData::Mx { .. } => TYPE_MX,
            RData::Txt(_) => TYPE_TXT,
            RData::Soa(_) => TYPE_SOA,
            RData::Srv { .. } => TYPE_SRV,
            RData::Caa { .. } => TYPE_CAA,
        }
    }

    /// The presentation form, for the test-query box of the dashboard.
    pub fn to_text(&self) -> (r: String)
        ensures
            r@ == rdata_text(self@),
    {
        match self {
            RData::A(ip) => ip.to_text(),
            RData::Aaaa(ip) => ip.to_text(),
            RData::Name(_, n) => name_and_dot(n),
            RData::Mx { pref, host } => {
                let mut s = number_and_space(*pref as u32);
                s.push_str(&name_and_dot(host));
                s
            },
            RData::Txt(t) => {
                let mut s = String::new();
                s.push('"');
                let mut quoted = t.clone();
                quoted.push('"');
                s.push_str(&quoted);
                assert(s@ == seq!['"'] + t@.push('"'));
                s
            },
            RData::Soa(soa) => {
                let mut s = soa.mname.clone();
                s.push_str(". ");
                s.push_str(&soa.rname);
                s.push_str(". ");
                s.push_str(&number_and_space(soa.serial));
                s.push_str(&number_and_space(soa.refresh));
                s.push_str(&number_and_space(soa.retry));
                s.push_str(&number_and_space(soa.expire));
                s.push_str(&digits::decimal_text(soa.minimum as u64));
                s
            },
            RData::Srv { priority, weight, port, target } => {
                let mut s = number_and_space(*priority as u32);
                s.push_str(&number_and_space(*weight as u32));
                s.push_str(&number_and_space(*port as u32));
                s.push_str(&name_and_dot(target));
                s
            },
            RData::Caa { flags, tag, value } => {
                let mut s = number_and_space(*flags as u32);
                s.push_str(tag);
                s.push_str(" \"");
                let mut quoted = value.clone();
                quoted.push('"');
                s.push_str(&quoted);
                s
            },
        }
    }
}

} // verus!

//! IPv4 and IPv6 addresses and their textual forms.
use crate::digits;
use crate::text;
use vstd::prelude::*;

verus! {

/// An IPv4 address.
#[derive(Clone, Copy, Debug, PartialEq, Eq)]
pub struct Ipv4Addr {
    /// The four octets, most significant first.
    pub octets: [u8; 4],
}

/// An IPv6 address.
#[derive(Clone, Copy, Debug, PartialEq, Eq)]
pub struct Ipv6Addr {
    /// The eight 16-bit segments, most significant first.
    pub segments: [u16; 8],
}

impl View for Ipv4Addr {
    type V = Seq<u8>;

    open spec fn view(&self) -> Seq<u8> {
        self.octets@
    }
}

impl View for Ipv6Addr {
    type V = Seq<u16>;

    open spec fn view(&self) -> Seq<u16> {
        self.segments@
    }
}

// ---------------------------------------------------------------------------
// IPv4
// ---------------------------------------------------------------------------

/// Whether `s` writes an octet: one to three digits, at most 255, without a leading zero.
pub open spec fn is_octet(s: Seq<char>) -> bool {
    &&& digits::is_number(s)
    &&& s.len() <= 3
    &&& s[0] == '0' ==> s.len() == 1
    &&& digits::number(s) <= 255
}

/// The four octets that `s` writes, with a dot between each two of them.
pub open spec fn ipv4_of(s: Seq<char>) -> Option<Seq<u8>> {
    let parts = text::fields(s, '.');
    if parts.len() == 4 && forall|i: int| 0 <= i < 4 ==> is_octet(#[trigger] parts[i]) {
        Some(parts.map_values(|p: Seq<char>| digits::number(p) as u8))
    } else {
        None
    }
}

/// The dotted form of four octets.
pub open spec fn ipv4_text(octets: Seq<u8>) -> Seq<char> {
    text::joined(octets.map_values(|o: u8| digits::decimal(o as nat)), seq!['.'])
}

/// Reads one octet.
fn parse_octet(s: &str) -> (r: Option<u8>)
    ensures
        match r {
            Some(o) => is_octet(s@) && o == digits::number(s@),
            None => !is_octet(s@),
        },
{
    let v = text::to_chars(s);
    assert(v@.skip(0) == v@);
    if v.len() > 3 || (v.len() > 1 && v[0] == '0') {
        return None;
    }
    match digits::read_number(&v, 0, 255) {
        Some(n) => Some(n as u8),
        None => None,
    }
}

impl Ipv4Addr {
    /// The address with the octets `a`, `b`, `c` and `d`.
    pub fn new(a: u8, b: u8, c: u8, d: u8) -> (r: Ipv4Addr)
        ensures
            r@ == seq![a, b, c, d],
    {
        let r = Ipv4Addr { octets: [a, b, c, d] };
        assert(r@ == seq![a, b, c, d]);
        r
    }

    /// Reads the dotted form.
    pub fn parse(s: &str) -> (r: Option<Ipv4Addr>)
        ensures
            match r {
                Some(ip) => ipv4_of(s@) == Some(ip@),
                None => ipv4_of(s@) is None,
            },
    {
        let parts = text::split(s, '.');
        let ghost fields = text::fields(s@, '.');
        assert(fields.len() == parts@.len());
        if parts.len() != 4 {
            return None;
        }
        assert(forall|i: int| 0 <= i < 4 ==> fields[i] == parts@[i]@);
        match (
            parse_octet(&parts[0]),
            parse_octet(&parts[1]),
            parse_octet(&parts[2]),
            parse_octet(&parts[3]),
        ) {
            (Some(a), Some(b), Some(c), Some(d)) => {
                let ip = Ipv4Addr::new(a, b, c, d);
                assert(ip@ == fields.map_values(|p: Seq<char>| digits::number(p) as u8));
                Some(ip)
            },
            _ => {
                assert(!is_octet(fields[0]) || !is_octet(fields[1]) || !is_octet(fields[2])
                    || !is_octet(fields[3]));
                None
            },
        }
    }

    /// The dotted form.
    pub fn to_text(&self) -> (r: String)
        ensures
            r@ == ipv4_text(self@),
    {
        let mut parts: Vec<String> = Vec::new();
        let mut i: usize = 0;
        let ghost all = self@.map_values(|o: u8| digits::decimal(o as nat));
        while i < 4
            invariant
                i <= 4,
                all == self@.map_values(|o: u8| digits::decimal(o as nat)),
                text::views(parts@) == all.take(i as int),
            decreases 4 - i,
        {
            let ghost before = text::views(parts@);
            parts.push(digits::decimal_text(self.octets[i] as u64));
            assert(text::views(parts@) == before.push(parts@.last()@));
            assert(all.take(i + 1) == all.take(i as int).push(all[i as int]));
            i += 1;
        }
        assert(all.take(4) == all);
        proof {
            reveal_strlit(".");
        }
        assert("."@ == seq!['.']);
        text::join(&parts, ".")
    }
}

// ---------------------------------------------------------------------------
// IPv6
// ---------------------------------------------------------------------------

/// The value of a hexadecimal digit.
pub open spec fn hex_digit(c: char) -> Option<nat> {
    if '0' <= c <= '9' {
        Some((c as u32 - 48) as nat)
    } else if 'a' <= c <= 'f' {
        Some((c as u32 - 87) as nat)
    } else if 'A' <= c <= 'F' {
        Some((c as u32 - 55) as nat)
    } else {
        None
    }
}

/// Whether `s` writes a segment: one to four hexadecimal digits.
pub open spec fn is_segment(s: Seq<char>) -> bool {
    1 <= s.len() <= 4 && forall|i: int| 0 <= i < s.len() ==> hex_digit(#[trigger] s[i]) is Some
}

/// The number that the hexadecimal digits `s` write.
pub open spec fn hex_number(s: Seq<char>) -> nat
    decreases s.len(),
{
    if s.len() == 0 {
        0
    } else {
        hex_number(s.drop_last()) * 16 + hex_digit(s.last()).unwrap()
    }
}

/// Whether each of `parts` writes a segment.
pub open spec fn all_segments(parts: Seq<Seq<char>>) -> bool {
    forall|i: int| 0 <= i < parts.len() ==> is_segment(#[trigger] parts[i])
}

/// The segments that `parts` write.
pub open spec fn segments_of(parts: Seq<Seq<char>>) -> Seq<u16> {
    parts.map_values(|p: Seq<char>| hex_number(p) as u16)
}

/// The two segments that four octets make.
pub open spec fn octet_segments(o: Seq<u8>) -> Seq<u16> {
    seq![(o[0] * 256 + o[1]) as u16, (o[2] * 256 + o[3]) as u16]
}

/// The segments that `s` writes, with a colon between each two of them; where `ipv4` holds, the
/// last two may be written as an IPv4 address.
pub open spec fn run_of(s: Seq<char>, ipv4: bool) -> Option<Seq<u16>> {
    let parts = text::fields(s, ':');
    if s.len() == 0 {
        Some(Seq::<u16>::empty())
    } else if all_segments(parts) {
        Some(segments_of(parts))
    } else if ipv4 && all_segments(parts.drop_last()) && ipv4_of(parts.last()) is Some {
        Some(segments_of(parts.drop_last()) + octet_segments(ipv4_of(parts.last()).unwrap()))
    } else {
        None
    }
}

/// Whether a double colon stands at position `i` of `s`.
pub open spec fn gap_at(s: Seq<char>, i: int) -> bool {
    0 <= i && i + 1 < s.len() && s[i] == ':' && s[i + 1] == ':'
}

/// The position of the first double colon in `s`.
pub open spec fn first_gap(s: Seq<char>, from: int) -> Option<int>
    decreases s.len() - from,
{
    if from >= s.len() {
        None
    } else if gap_at(s, from) {
        Some(from)
    } else {
        first_gap(s, from + 1)
    }
}

/// `n` zero segments.
pub open spec fn zeros(n: nat) -> Seq<u16> {
    Seq::new(n, |i: int| 0u16)
}

/// The eight segments that `s` writes. The first double colon stands for one or more zero segments.
pub open spec fn ipv6_of(s: Seq<char>) -> Option<Seq<u16>> {
    match first_gap(s, 0) {
        Some(i) => match (run_of(s.take(i), false), run_of(s.skip(i + 2), true)) {
            (Some(head), Some(tail)) => if head.len() + tail.len() <= 7 {
                Some(head + zeros((8 - head.len() - tail.len()) as nat) + tail)
            } else {
                None
            },
            _ => None,
        },
        None => match run_of(s, true) {
            Some(all) => if all.len() == 8 {
                Some(all)
            } else {
                None
            },
            None => None,
        },
    }
}

/// Reads one hexadecimal digit.
fn parse_hex_digit(c: char) -> (r: Option<u16>)
    ensures
        match r {
            Some(d) => hex_digit(c) == Some(d as nat) && d < 16,
            None => hex_digit(c) is None,
        },
{
    if '0' <= c && c <= '9' {
        Some((c as u32 - 48) as u16)
    } else if 'a' <= c && c <= 'f' {
        Some((c as u32 - 87) as u16)
    } else if 'A' <= c && c <= 'F' {
        Some((c as u32 - 55) as u16)
    } else {
        None
    }
}

/// Reads one segment.
fn parse_segment(s: &str) -> (r: Option<u16>)
    ensures
        match r {
            Some(n) => is_segment(s@) && n == hex_number(s@),
            None => !is_segment(s@),
        },
{
    let v = text::to_chars(s);
    if v.len() == 0 || v.len() > 4 {
        return None;
    }
    let mut n: u32 = 0;
    let mut bound: u32 = 1;
    let mut i: usize = 0;
    assert(v@.take(0) == Seq::<char>::empty());
    while i < v.len()
        invariant
            i <= v@.len() <= 4,
            v@ == s@,
            n == hex_number(v@.take(i as int)),
            n < bound,
            bound == (if i == 0 { 1int } else if i == 1 { 16 } else if i == 2 { 256 } else if i == 3 { 4096 } else { 65536 }),
            forall|k: int| 0 <= k < i ==> hex_digit(#[trigger] v@[k]) is Some,
        decreases v@.len() - i,
    {
        assert(v@.take(i + 1).drop_last() == v@.take(i as int));
        match parse_hex_digit(v[i]) {
            Some(d) => {
                n = n * 16 + d as u32;
                bound = bound * 16;
            },
            None => {
                return None;
            },
        }
        i += 1;
    }
    assert(v@.take(v@.len() as int) == v@);
    Some(n as u16)
}

/// Reads a run of segments.
fn parse_run(s: &str, ipv4: bool) -> (r: Option<Vec<u16>>)
    ensures
        match r {
            Some(segments) => run_of(s@, ipv4) == Some(segments@),
            None => run_of(s@, ipv4) is None,
        },
{
    let mut out: Vec<u16> = Vec::new();
    if s.is_empty() {
        return Some(out);
    }
    let parts = text::split(s, ':');
    let ghost fields = text::fields(s@, ':');
    assert(fields.len() == parts@.len());
    assert(forall|k: int| 0 <= k < fields.len() ==> fields[k] == parts@[k]@);
    let n: usize = parts.len();
    let mut i: usize = 0;
    while i < n
        invariant
            i <= n,
            n == parts@.len(),
            s@.len() > 0,
            fields == text::fields(s@, ':'),
            fields.len() == parts@.len(),
            forall|k: int| 0 <= k < fields.len() ==> fields[k] == parts@[k]@,
            forall|k: int| 0 <= k < i ==> is_segment(#[trigger] fields[k]),
            out@ == segments_of(fields.take(i as int)),
        decreases n - i,
    {
        match parse_segment(&parts[i]) {
            Some(g) => {
                let ghost before = out@;
                out.push(g);
                assert(fields.take(i + 1) == fields.take(i as int).push(fields[i as int]));
                assert(segments_of(fields.take(i + 1)) == before.push(g));
            },
            None => {
                assert(!is_segment(fields[i as int]));
                if ipv4 && i == n - 1 {
                    assert(fields.drop_last() == fields.take(i as int));
                    match Ipv4Addr::parse(&parts[i]) {
                        Some(ip) => {
                            let a: u16 = ip.octets[0] as u16 * 256 + ip.octets[1] as u16;
                            let b: u16 = ip.octets[2] as u16 * 256 + ip.octets[3] as u16;
                            let ghost before = out@;
                            out.push(a);
                            out.push(b);
                            assert(out@ == before + octet_segments(ip@));
                            return Some(out);
                        },
                        None => {
                            return None;
                        },
                    }
                }
                assert(ipv4 ==> !all_segments(fields.drop_last())) by {
                    if ipv4 {
                        assert(fields.drop_last()[i as int] == fields[i as int]);
                    }
                }
                return None;
            },
        }
        i += 1;
    }
    assert(fields.take(n as int) == fields);
    Some(out)
}

/// The position of the first double colon.
fn find_gap(v: &[char]) -> (r: Option<usize>)
    ensures
        match r {
            Some(i) => first_gap(v@, 0) == Some(i as int) && i + 1 < v@.len(),
            None => first_gap(v@, 0) is None,
        },
{
    let mut i: usize = 0;
    while i < v.len()
        invariant
            i <= v@.len(),
            first_gap(v@, 0) == first_gap(v@, i as int),
        decreases v@.len() - i,
    {
        if i < v.len() - 1 && v[i] == ':' && v[i + 1] == ':' {
            return Some(i);
        }
        i += 1;
    }
    None
}

/// The length of the run of zero segments that starts at position `i`.
pub open spec fn zero_run(s: Seq<u16>, i: int) -> int
    decreases s.len() - i,
{
    if 0 <= i < s.len() && s[i] == 0 {
        1 + zero_run(s, i + 1)
    } else {
        0
    }
}

/// The first of the positions below `n` where the longest run of zero segments starts.
pub open spec fn longest_zero_run(s: Seq<u16>, n: int) -> int
    decreases n,
{
    if n <= 1 {
        0
    } else {
        let best = longest_zero_run(s, n - 1);
        if zero_run(s, n - 1) > zero_run(s, best) {
            n - 1
        } else {
            best
        }
    }
}

/// The character of a hexadecimal digit, in lower case.
pub open spec fn hex_char(d: nat) -> char
    recommends
        d < 16,
{
    if d < 10 {
        ((48 + d) as u8) as char
    } else {
        ((87 + d) as u8) as char
    }
}

/// The hexadecimal digits of `n`, in lower case, without leading zeros.
pub open spec fn hexadecimal(n: nat) -> Seq<char>
    decreases n,
{
    if n < 16 {
        seq![hex_char(n)]
    } else {
        hexadecimal(n / 16).push(hex_char(n % 16))
    }
}

/// The segments `s` in hexadecimal, with a colon between each two of them.
pub open spec fn run_text(s: Seq<u16>) -> Seq<char> {
    text::joined(s.map_values(|g: u16| hexadecimal(g as nat)), seq![':'])
}

/// Whether the segments hold an IPv4 address: five zero segments, one of ones, and two more.
pub open spec fn is_mapped(s: Seq<u16>) -> bool {
    s[0] == 0 && s[1] == 0 && s[2] == 0 && s[3] == 0 && s[4] == 0 && s[5] == 0xffff
}

/// The canonical form of eight segments: the first longest run of two or more zero segments is
/// written as a double colon, and an IPv4-mapped address ends in the dotted form.
pub open spec fn ipv6_text(s: Seq<u16>) -> Seq<char> {
    if is_mapped(s) {
        "::ffff:"@ + ipv4_text(
            seq![(s[6] / 256) as u8, (s[6] % 256) as u8, (s[7] / 256) as u8, (s[7] % 256) as u8],
        )
    } else {
        let start = longest_zero_run(s, 8);
        let len = zero_run(s, start);
        if len >= 2 {
            run_text(s.take(start)) + "::"@ + run_text(s.skip(start + len))
        } else {
            run_text(s)
        }
    }
}

/// The hexadecimal digits of `n`.
fn hexadecimal_text(n: u16) -> (r: String)
    ensures
        r@ == hexadecimal(n as nat),
    decreases n,
{
    let d: u8 = (n % 16) as u8;
    let c: char = if d < 10 {
        (48 + d) as char
    } else {
        (87 + d) as char
    };
    if n < 16 {
        let mut s = String::new();
        s.push(c);
        assert(s@ == seq![hex_char(n as nat)]);
        s
    } else {
        let mut s = hexadecimal_text(n / 16);
        s.push(c);
        s
    }
}

/// The segments of `s` from `from` up to `to` in hexadecimal.
fn run_to_text(s: &[u16], from: usize, to: usize) -> (r: String)
    requires
        from <= to <= s@.len(),
    ensures
        r@ == run_text(s@.subrange(from as int, to as int)),
{
    let ghost all = s@.subrange(from as int, to as int).map_values(|g: u16| hexadecimal(g as nat));
    let mut parts: Vec<String> = Vec::new();
    let mut i: usize = from;
    while i < to
        invariant
            from <= i <= to <= s@.len(),
            all == s@.subrange(from as int, to as int).map_values(
                |g: u16| hexadecimal(g as nat),
            ),
            text::views(parts@) == all.take(i - from),
        decreases to - i,
    {
        let ghost before = text::views(parts@);
        parts.push(hexadecimal_text(s[i]));
        assert(text::views(parts@) == before.push(parts@.last()@));
        assert(all.take(i + 1 - from) == all.take(i - from).push(all[i - from]));
        i += 1;
    }
    assert(all.take(to - from) == all);
    proof {
        reveal_strlit(":");
    }
    assert(":"@ == seq![':']);
    text::join(&parts, ":")
}

/// The length of the run of zero segments that starts at position `i`.
fn zero_run_at(s: &[u16], i: usize) -> (r: usize)
    requires
        i <= s@.len(),
    ensures
        r == zero_run(s@, i as int),
        i + r <= s@.len(),
    decreases s@.len() - i,
{
    if i < s.len() && s[i] == 0 {
        1 + zero_run_at(s, i + 1)
    } else {
        0
    }
}

impl Ipv6Addr {
    /// Reads an IPv6 address.
    pub fn parse(s: &str) -> (r: Option<Ipv6Addr>)
        ensures
            match r {
                Some(ip) => ipv6_of(s@) == Some(ip@),
                None => ipv6_of(s@) is None,
            },
    {
        let v = text::to_chars(s);
        let n: usize = v.len();
        match find_gap(&v) {
            Some(i) => {
                let head_text = text::from_chars(&v.as_slice()[0..i]);
                let tail_text = text::from_chars(&v.as_slice()[i + 2..n]);
                assert(head_text@ == s@.take(i as int));
                assert(tail_text@ == s@.skip(i + 2));
                match (parse_run(&head_text, false), parse_run(&tail_text, true)) {
                    (Some(head), Some(tail)) => {
                        if head.len() > 7 || tail.len() > 7 - head.len() {
                            return None;
                        }
                        let mut segments: [u16; 8] = [0, 0, 0, 0, 0, 0, 0, 0];
                        let mut k: usize = 0;
                        while k < head.len()
                            invariant
                                k <= head@.len() <= 7,
                                forall|j: int| 0 <= j < k ==> segments@[j] == head@[j],
                                forall|j: int| k <= j < 8 ==> segments@[j] == 0,
                            decreases head@.len() - k,
                        {
                            segments[k] = head[k];
                            k += 1;
                        }
                        let base: usize = 8 - tail.len();
                        let mut m: usize = 0;
                        while m < tail.len()
                            invariant
                                m <= tail@.len(),
                                base == 8 - tail@.len(),
                                head@.len() + tail@.len() <= 7,
                                forall|j: int| 0 <= j < head@.len() ==> segments@[j] == head@[j],
                                forall|j: int|
                                    head@.len() <= j < base ==> segments@[j] == 0,
                                forall|j: int|
                                    base <= j < base + m ==> segments@[j] == tail@[j - base],
                            decreases tail@.len() - m,
                        {
                            segments[base + m] = tail[m];
                            m += 1;
                        }
                        let ip = Ipv6Addr { segments };
                        assert(ip@ == head@ + zeros((8 - head@.len() - tail@.len()) as nat)
                            + tail@);
                        Some(ip)
                    },
                    _ => None,
                }
            },
            None => {
                match parse_run(s, true) {
                    Some(all) => {
                        if all.len() != 8 {
                            return None;
                        }
                        let ip = Ipv6Addr {
                            segments: [
                                all[0],
                                all[1],
                                all[2],
                                all[3],
                                all[4],
                                all[5],
                                all[6],
                                all[7],
                            ],
                        };
                        assert(ip@ == all@);
                        Some(ip)
                    },
                    None => None,
                }
            },
        }
    }

    /// The canonical form.
    pub fn to_text(&self) -> (r: String)
        ensures
            r@ == ipv6_text(self@),
    {
        let s = self.segments.as_slice();
        if s[0] == 0 && s[1] == 0 && s[2] == 0 && s[3] == 0 && s[4] == 0 && s[5] == 0xffff {
            let ip = Ipv4Addr::new(
                (s[6] / 256) as u8,
                (s[6] % 256) as u8,
                (s[7] / 256) as u8,
                (s[7] % 256) as u8,
            );
            return text::concat("::ffff:", &ip.to_text());
        }
        let mut best: usize = 0;
        let mut i: usize = 1;
        while i < 8
            invariant
                1 <= i <= 8,
                s@.len() == 8,
                best < 8,
                best == longest_zero_run(s@, i as int),
            decreases 8 - i,
        {
            if zero_run_at(s, i) > zero_run_at(s, best) {
                best = i;
            }
            i += 1;
        }
        let len: usize = zero_run_at(s, best);
        if len >= 2 {
            let mut out = run_to_text(s, 0, best);
            out.push_str("::");
            assert(s@.subrange(0, best as int) == s@.take(best as int));
            assert(s@.subrange(best + len, 8) == s@.skip(best + len));
            out.push_str(&run_to_text(s, best + len, 8));
            out
        } else {
            assert(s@.subrange(0, 8) == s@);
            run_to_text(s, 0, 8)
        }
    }
}

} // verus!

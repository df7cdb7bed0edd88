//! How IPv6 addresses are written and read.
use crate::addr;
use crate::laws::addr as addr_laws;
use crate::laws::names;
use crate::text;
use vstd::prelude::*;

verus! {

// ---------------------------------------------------------------------------
// Writing
// ---------------------------------------------------------------------------

/// Whether the `n` segments from position `i` on are zero.
pub open spec fn are_zeros(s: Seq<u16>, i: int, n: int) -> bool {
    0 <= i && 0 <= n && i + n <= s.len() && forall|k: int| i <= k < i + n ==> #[trigger] s[k] == 0
}

/// Whether the `n` segments from position `i` on are the first of the longest runs of zero segments.
pub open spec fn is_longest(s: Seq<u16>, i: int, n: int) -> bool {
    are_zeros(s, i, n) && forall|j: int, m: int| #[trigger]
        are_zeros(s, j, m) ==> m < n || (m == n && i <= j) || m == 0
}

/// A run of zero segments goes on to the first that is not zero.
proof fn lemma_zero_run_means(s: Seq<u16>, i: int)
    requires
        0 <= i <= s.len(),
    ensures
        ({
            let n = addr::zero_run(s, i);
            are_zeros(s, i, n) && forall|m: int| #[trigger] are_zeros(s, i, m) ==> m <= n
        }),
    decreases s.len() - i,
{
    let n = addr::zero_run(s, i);
    if i < s.len() && s[i] == 0 {
        lemma_zero_run_means(s, i + 1);
        assert forall|k: int| i <= k < i + n implies #[trigger] s[k] == 0 by {}
        assert forall|m: int| #[trigger] are_zeros(s, i, m) implies m <= n by {
            if m > 0 {
                assert(are_zeros(s, i + 1, m - 1));
            }
        }
    } else {
        assert forall|m: int| #[trigger] are_zeros(s, i, m) implies m <= n by {
            if m > 0 {
                assert(s[i] == 0);
            }
        }
    }
}

/// The first of the longest runs among the first positions.
proof fn lemma_longest_means(s: Seq<u16>, n: int)
    requires
        1 <= n <= s.len(),
    ensures
        ({
            let best = addr::longest_zero_run(s, n);
            &&& 0 <= best < n
            &&& forall|j: int|
                0 <= j < n ==> #[trigger] addr::zero_run(s, j) <= addr::zero_run(s, best)
            &&& forall|j: int|
                0 <= j < best ==> #[trigger] addr::zero_run(s, j) < addr::zero_run(s, best)
        }),
    decreases n,
{
    if n > 1 {
        lemma_longest_means(s, n - 1);
    }
}

/// The first of the longest runs of two or more zero segments is left out and written as a double colon;
/// an address without such a run is written in full. An address that holds an IPv4 address ends in its
/// dotted form.
pub proof fn lemma_shortened(s: Seq<u16>)
    requires
        s.len() == 8,
    ensures
        ({
            let mapped = s.take(5) == seq![0u16, 0u16, 0u16, 0u16, 0u16] && s[5] == 0xffff;
            &&& mapped ==> addr::ipv6_text(s) == "::ffff:"@ + addr::ipv4_text(
                seq![
                    (s[6] / 256) as u8,
                    (s[6] % 256) as u8,
                    (s[7] / 256) as u8,
                    (s[7] % 256) as u8,
                ],
            )
            &&& !mapped && (exists|i: int| are_zeros(s, i, 2)) ==> exists|i: int, n: int|
                {
                    &&& n >= 2
                    &&& #[trigger] is_longest(s, i, n)
                    &&& addr::ipv6_text(s) == addr::run_text(s.take(i)) + seq![':', ':']
                        + addr::run_text(s.skip(i + n))
                }
            &&& !mapped && (forall|i: int| !are_zeros(s, i, 2)) ==> addr::ipv6_text(s)
                == addr::run_text(s)
        }),
{
    reveal_strlit("::");
    assert("::"@ =~= seq![':', ':']);
    let mapped = s.take(5) == seq![0u16, 0u16, 0u16, 0u16, 0u16] && s[5] == 0xffff;
    if mapped {
        let five = seq![0u16, 0u16, 0u16, 0u16, 0u16];
        assert(s[0] == five[0] && s[1] == five[1] && s[2] == five[2] && s[3] == five[3] && s[4]
            == five[4]);
    }
    if addr::is_mapped(s) {
        assert(s.take(5) =~= seq![0u16, 0u16, 0u16, 0u16, 0u16]);
    }
    assert(mapped == addr::is_mapped(s));
    let start = addr::longest_zero_run(s, 8);
    let len = addr::zero_run(s, start);
    lemma_longest_means(s, 8);
    lemma_zero_run_means(s, start);
    assert forall|j: int, m: int| #[trigger] are_zeros(s, j, m) implies m < len || (m == len
        && start <= j) || m == 0 by {
        if m > 0 {
            lemma_zero_run_means(s, j);
            assert(m <= addr::zero_run(s, j));
            assert(addr::zero_run(s, j) <= addr::zero_run(s, start));
            if j < start {
                assert(addr::zero_run(s, j) < addr::zero_run(s, start));
            }
        }
    }
    assert(is_longest(s, start, len));
    if exists|i: int| are_zeros(s, i, 2) {
        let i = choose|i: int| are_zeros(s, i, 2);
        lemma_zero_run_means(s, i);
        assert(addr::zero_run(s, i) >= 2);
    }
    if len >= 2 {
        assert(are_zeros(s, start, 2)) by {
            assert forall|k: int| start <= k < start + 2 implies #[trigger] s[k] == 0 by {}
        }
    }
}

/// A segment is written in lower-case hexadecimal digits, without zeros at its start.
pub proof fn lemma_segment_means(n: nat)
    ensures
        ({
            let t = addr::hexadecimal(n);
            &&& t.len() > 0
            &&& t[0] == '0' ==> n == 0 && t.len() == 1
            &&& forall|i: int|
                0 <= i < t.len() ==> ('0' <= #[trigger] t[i] && t[i] <= '9') || ('a' <= t[i] && t[i]
                    <= 'f')
            &&& addr::hex_number(t) == n
        }),
    decreases n,
{
    addr_laws::lemma_hexadecimal_roundtrip(n);
    if n >= 16 {
        lemma_segment_means(n / 16);
        let init = addr::hexadecimal(n / 16);
        let t = addr::hexadecimal(n);
        assert(t == init.push(addr::hex_char(n % 16)));
        assert(t[0] == init[0]);
        assert forall|i: int| 0 <= i < t.len() implies ('0' <= #[trigger] t[i] && t[i] <= '9') || (
        'a' <= t[i] && t[i] <= 'f') by {
            if i < init.len() {
                assert(t[i] == init[i]);
            }
        }
    }
}

// ---------------------------------------------------------------------------
// Reading
// ---------------------------------------------------------------------------

/// A hexadecimal digit behind a number counts ones, and the number before it sixteens; letters count
/// from ten on, in either case.
pub proof fn lemma_hex_by_digits(s: Seq<char>, c: char)
    ensures
        addr::hex_number(Seq::<char>::empty()) == 0,
        '0' <= c <= '9' ==> addr::hex_number(s.push(c)) == 16 * addr::hex_number(s) + (c as int
            - '0' as int),
        'a' <= c <= 'f' ==> addr::hex_number(s.push(c)) == 16 * addr::hex_number(s) + 10 + (c as int
            - 'a' as int),
        'A' <= c <= 'F' ==> addr::hex_number(s.push(c)) == 16 * addr::hex_number(s) + 10 + (c as int
            - 'A' as int),
{
    assert(s.push(c).drop_last() =~= s);
}

/// The text of segments holds no double colon and neither starts nor ends with a colon.
proof fn lemma_segments_shape(parts: Seq<Seq<char>>)
    requires
        parts.len() > 0,
        addr::all_segments(parts),
    ensures
        ({
            let t = text::joined(parts, seq![':']);
            &&& t.len() > 0
            &&& addr_laws::no_gap(t)
            &&& t[0] != ':'
            &&& t.last() != ':'
        }),
    decreases parts.len(),
{
    let t = text::joined(parts, seq![':']);
    let last = parts[parts.len() - 1];
    assert(addr::is_segment(last));
    assert forall|i: int| 0 <= i < last.len() implies #[trigger] last[i] != ':' by {
        assert(addr::hex_digit(last[i]) is Some);
    }
    if parts.len() == 1 {
        assert(t == last);
        assert forall|i: int| !#[trigger] addr::gap_at(t, i) by {
            if 0 <= i < t.len() {
                assert(t[i] != ':');
            }
        }
    } else {
        let init = parts.drop_last();
        assert forall|i: int| 0 <= i < init.len() implies addr::is_segment(#[trigger] init[i]) by {
            assert(init[i] == parts[i]);
        }
        lemma_segments_shape(init);
        let head = text::joined(init, seq![':']);
        assert(t == head + seq![':'] + last);
        assert(t[0] == head[0]);
        assert(t.last() == last[last.len() - 1]);
        assert forall|i: int| !#[trigger] addr::gap_at(t, i) by {
            if 0 <= i && i + 1 < t.len() {
                if i + 1 < head.len() {
                    assert(!addr::gap_at(head, i));
                    assert(t[i] == head[i] && t[i + 1] == head[i + 1]);
                } else if i + 1 == head.len() {
                    assert(t[i] == head.last());
                } else if i == head.len() {
                    assert(t[i + 1] == last[0]);
                } else {
                    assert(t[i] == last[i - head.len() - 1]);
                    assert(last[i - head.len() - 1] != ':');
                }
            }
        }
    }
}

/// The text of segments is read as their numbers.
proof fn lemma_run_means(parts: Seq<Seq<char>>, ipv4: bool)
    requires
        addr::all_segments(parts),
    ensures
        addr::run_of(text::joined(parts, seq![':']), ipv4) == Some(addr::segments_of(parts)),
{
    if parts.len() == 0 {
        assert(addr::segments_of(parts) =~= Seq::<u16>::empty());
    } else {
        lemma_segments_shape(parts);
        assert forall|i: int| 0 <= i < parts.len() implies names::free_of(
            #[trigger] parts[i],
            ':',
        ) by {
            let p = parts[i];
            assert(addr::is_segment(p));
            assert forall|k: int| 0 <= k < p.len() implies #[trigger] p[k] != ':' by {
                assert(addr::hex_digit(p[k]) is Some);
            }
        }
        names::lemma_fields_joined(parts, ':');
    }
}

/// Eight segments with colons between them are read as their numbers; any other number of segments is
/// refused.
pub proof fn lemma_full_address(parts: Seq<Seq<char>>)
    requires
        addr::all_segments(parts),
    ensures
        addr::ipv6_of(text::joined(parts, seq![':'])) == if parts.len() == 8 {
            Some(addr::segments_of(parts))
        } else {
            None
        },
{
    let t = text::joined(parts, seq![':']);
    lemma_run_means(parts, true);
    if parts.len() > 0 {
        lemma_segments_shape(parts);
    } else {
        assert(t =~= Seq::<char>::empty());
        assert forall|i: int| !#[trigger] addr::gap_at(t, i) by {}
    }
    addr_laws::lemma_no_first_gap(t, 0);
    assert(addr::segments_of(parts).len() == parts.len());
}

/// A double colon between segments stands for as many zero segments as make up eight, at least one; with
/// eight or more segments around it the text is refused.
pub proof fn lemma_gapped_address(head: Seq<Seq<char>>, tail: Seq<Seq<char>>)
    requires
        addr::all_segments(head),
        addr::all_segments(tail),
    ensures
        ({
            let s = text::joined(head, seq![':']) + seq![':', ':'] + text::joined(
                tail,
                seq![':'],
            );
            match addr::ipv6_of(s) {
                Some(g) => {
                    &&& head.len() + tail.len() <= 7
                    &&& g.len() == 8
                    &&& g.take(head.len() as int) == addr::segments_of(head)
                    &&& g.skip(8 - tail.len()) == addr::segments_of(tail)
                    &&& forall|i: int| head.len() <= i < 8 - tail.len() ==> #[trigger] g[i] == 0
                },
                None => head.len() + tail.len() > 7,
            }
        }),
{
    let h = text::joined(head, seq![':']);
    let t = text::joined(tail, seq![':']);
    let s = h + seq![':', ':'] + t;
    let at = h.len() as int;
    if head.len() > 0 {
        lemma_segments_shape(head);
    }
    assert(s[at] == ':' && s[at + 1] == ':');
    assert(addr::gap_at(s, at));
    assert forall|i: int| 0 <= i < at implies !#[trigger] addr::gap_at(s, i) by {
        if i + 1 < at {
            assert(!addr::gap_at(h, i));
            assert(s[i] == h[i] && s[i + 1] == h[i + 1]);
        } else {
            assert(s[i] == h.last());
        }
    }
    addr_laws::lemma_first_gap(s, 0, at);
    assert(s.take(at) =~= h);
    assert(s.skip(at + 2) =~= t);
    lemma_run_means(head, false);
    lemma_run_means(tail, true);
    let (a, b) = (addr::segments_of(head), addr::segments_of(tail));
    if head.len() + tail.len() <= 7 {
        let g = a + addr::zeros((8 - a.len() - b.len()) as nat) + b;
        assert(addr::ipv6_of(s) == Some(g));
        assert(g.take(head.len() as int) =~= a);
        assert(g.skip(8 - tail.len()) =~= b);
    }
}

} // verus!

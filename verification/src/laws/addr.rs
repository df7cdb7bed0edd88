//! Laws of numbers and addresses in text form.
use crate::addr;
use crate::digits;
use crate::laws::names;
use crate::text;
use vstd::prelude::*;

verus! {

// ---------------------------------------------------------------------------
// Decimal numbers
// ---------------------------------------------------------------------------

/// Whether `s` holds decimal digits only.
pub open spec fn all_digits(s: Seq<char>) -> bool {
    forall|i: int| 0 <= i < s.len() ==> digits::is_digit(#[trigger] s[i])
}

/// A decimal text holds digits only, starts with a zero only where it writes zero, and reads back as
/// the number that it writes.
pub proof fn lemma_decimal_roundtrip(n: nat)
    ensures
        digits::is_number(digits::decimal(n)),
        all_digits(digits::decimal(n)),
        digits::number(digits::decimal(n)) == n,
        digits::decimal(n)[0] == '0' <==> n == 0,
        digits::decimal(n).len() == 1 <==> n < 10,
    decreases n,
{
    let s = digits::decimal(n);
    if n < 10 {
        assert(s.drop_last() == Seq::<char>::empty());
        assert(digits::number(s.drop_last()) == 0);
        assert(s.last() == digits::digit_char(n));
        assert forall|i: int| 0 <= i < s.len() implies digits::is_digit(#[trigger] s[i]) by {}
    } else {
        let init = digits::decimal(n / 10);
        lemma_decimal_roundtrip(n / 10);
        assert(s.drop_last() == init);
        assert(s[0] == init[0]);
        assert forall|i: int| 0 <= i < s.len() implies digits::is_digit(#[trigger] s[i]) by {
            if i < init.len() {
                assert(s[i] == init[i]);
            }
        }
    }
}

/// The decimal text of a number below 1000 has at most three digits.
pub proof fn lemma_decimal_len(n: nat)
    requires
        n < 1000,
    ensures
        digits::decimal(n).len() <= 3,
{
    reveal_with_fuel(digits::decimal, 4);
}

/// A number reads back from its decimal text, where the limit allows it.
pub proof fn lemma_unsigned_roundtrip(n: nat, max: nat)
    requires
        n <= max,
    ensures
        digits::unsigned(digits::decimal(n), max) == Some(n),
{
    lemma_decimal_roundtrip(n);
    assert(digits::is_digit(digits::decimal(n)[0]));
}

/// A number that is not negative reads back from its decimal text.
pub proof fn lemma_signed_roundtrip(n: i64)
    requires
        n >= 0,
    ensures
        digits::signed(digits::signed_decimal(n as int)) == Some(n as int),
{
    lemma_decimal_roundtrip(n as nat);
    assert(digits::is_digit(digits::decimal(n as nat)[0]));
    lemma_unsigned_roundtrip(n as nat, 0x7fff_ffff_ffff_ffff);
}

// ---------------------------------------------------------------------------
// IPv4
// ---------------------------------------------------------------------------

/// The decimal texts of octets are octets without dots.
proof fn lemma_octet_text(o: u8)
    ensures
        addr::is_octet(digits::decimal(o as nat)),
        names::free_of(digits::decimal(o as nat), '.'),
        names::free_of(digits::decimal(o as nat), ':'),
{
    let s = digits::decimal(o as nat);
    lemma_decimal_roundtrip(o as nat);
    lemma_decimal_len(o as nat);
    assert forall|i: int| 0 <= i < s.len() implies #[trigger] s[i] != '.' && s[i] != ':' by {
        assert(digits::is_digit(s[i]));
    }
}

/// An IPv4 address reads back from its text.
pub proof fn lemma_ipv4_roundtrip(octets: Seq<u8>)
    requires
        octets.len() == 4,
    ensures
        addr::ipv4_of(addr::ipv4_text(octets)) == Some(octets),
{
    let parts = octets.map_values(|o: u8| digits::decimal(o as nat));
    assert forall|i: int| 0 <= i < parts.len() implies names::free_of(#[trigger] parts[i], '.')
        && addr::is_octet(parts[i]) && digits::number(parts[i]) == octets[i] by {
        lemma_octet_text(octets[i]);
        lemma_decimal_roundtrip(octets[i] as nat);
    }
    names::lemma_fields_joined(parts, '.');
    assert(parts.map_values(|p: Seq<char>| digits::number(p) as u8) =~= octets);
}

/// Whether each character of `s` is a decimal digit or a dot.
pub open spec fn is_dotted_digits(s: Seq<char>) -> bool {
    forall|i: int| 0 <= i < s.len() ==> digits::is_digit(#[trigger] s[i]) || s[i] == '.'
}

/// Joined texts of digits hold digits and dots.
proof fn lemma_joined_digits(parts: Seq<Seq<char>>)
    requires
        forall|i: int| 0 <= i < parts.len() ==> all_digits(#[trigger] parts[i]),
    ensures
        is_dotted_digits(text::joined(parts, seq!['.'])),
    decreases parts.len(),
{
    if parts.len() > 1 {
        let init = parts.drop_last();
        assert forall|i: int| 0 <= i < init.len() implies all_digits(#[trigger] init[i]) by {
            assert(init[i] == parts[i]);
        }
        lemma_joined_digits(init);
        assert(all_digits(parts[parts.len() - 1]));
        let s = text::joined(parts, seq!['.']);
        let head = text::joined(init, seq!['.']);
        assert forall|i: int| 0 <= i < s.len() implies digits::is_digit(#[trigger] s[i]) || s[i]
            == '.' by {
            if i < head.len() {
                assert(s[i] == head[i]);
            } else if i > head.len() {
                assert(s[i] == parts.last()[i - head.len() - 1]);
            }
        }
    } else if parts.len() == 1 {
        assert(all_digits(parts[0]));
    }
}

/// The text of an IPv4 address holds digits and dots, and starts and ends with a digit.
pub proof fn lemma_ipv4_text_shape(octets: Seq<u8>)
    requires
        octets.len() == 4,
    ensures
        is_dotted_digits(addr::ipv4_text(octets)),
        addr::ipv4_text(octets).len() > 0,
        names::is_trimmed(addr::ipv4_text(octets)),
        addr::ipv4_text(octets).contains('.'),
{
    let parts = octets.map_values(|o: u8| digits::decimal(o as nat));
    let s = addr::ipv4_text(octets);
    assert forall|i: int| 0 <= i < parts.len() implies all_digits(#[trigger] parts[i]) by {
        lemma_decimal_roundtrip(octets[i] as nat);
    }
    lemma_joined_digits(parts);
    let init = parts.drop_last();
    let head = text::joined(init, seq!['.']);
    assert(s == head + seq!['.'] + parts.last());
    assert(s[head.len() as int] == '.');
    assert(digits::is_digit(s[0]) || s[0] == '.');
    assert(digits::is_digit(s[s.len() - 1]) || s[s.len() - 1] == '.');
}

// ---------------------------------------------------------------------------
// IPv6
// ---------------------------------------------------------------------------

/// A hexadecimal text holds digits only and reads back as the number that it writes.
pub proof fn lemma_hexadecimal_roundtrip(n: nat)
    ensures
        addr::hexadecimal(n).len() > 0,
        forall|i: int|
            0 <= i < addr::hexadecimal(n).len() ==> addr::hex_digit(
                #[trigger] addr::hexadecimal(n)[i],
            ) is Some,
        addr::hex_number(addr::hexadecimal(n)) == n,
    decreases n,
{
    let s = addr::hexadecimal(n);
    if n < 16 {
        assert(s.drop_last() == Seq::<char>::empty());
        assert(addr::hex_number(s.drop_last()) == 0);
        assert(addr::hex_digit(addr::hex_char(n)) == Some(n));
    } else {
        let init = addr::hexadecimal(n / 16);
        lemma_hexadecimal_roundtrip(n / 16);
        assert(s.drop_last() == init);
        assert(addr::hex_digit(addr::hex_char(n % 16)) == Some(n % 16));
        assert forall|i: int| 0 <= i < s.len() implies addr::hex_digit(#[trigger] s[i]) is Some by {
            if i < init.len() {
                assert(s[i] == init[i]);
            }
        }
    }
}

/// The hexadecimal text of a segment is a segment without colons and dots.
proof fn lemma_segment_text(g: u16)
    ensures
        addr::is_segment(addr::hexadecimal(g as nat)),
        addr::hex_number(addr::hexadecimal(g as nat)) == g,
        names::free_of(addr::hexadecimal(g as nat), ':'),
        names::free_of(addr::hexadecimal(g as nat), '.'),
{
    let s = addr::hexadecimal(g as nat);
    lemma_hexadecimal_roundtrip(g as nat);
    reveal_with_fuel(addr::hexadecimal, 5);
    assert(s.len() <= 4);
    assert forall|i: int| 0 <= i < s.len() implies #[trigger] s[i] != ':' && s[i] != '.' by {
        assert(addr::hex_digit(s[i]) is Some);
    }
}

/// The texts of segments.
pub open spec fn segment_texts(s: Seq<u16>) -> Seq<Seq<char>> {
    s.map_values(|g: u16| addr::hexadecimal(g as nat))
}

/// A run of segments reads back from its text.
pub proof fn lemma_run_roundtrip(s: Seq<u16>, ipv4: bool)
    ensures
        addr::run_of(addr::run_text(s), ipv4) == Some(s),
{
    let parts = segment_texts(s);
    assert(addr::run_text(s) == text::joined(parts, seq![':']));
    assert forall|i: int| 0 <= i < parts.len() implies names::free_of(#[trigger] parts[i], ':')
        && addr::is_segment(parts[i]) && addr::hex_number(parts[i]) == s[i] by {
        lemma_segment_text(s[i]);
    }
    if s.len() == 0 {
        assert(s == Seq::<u16>::empty());
    } else {
        names::lemma_fields_joined(parts, ':');
        lemma_run_text_shape(s);
        assert(addr::segments_of(parts) =~= s);
    }
}

/// Whether `s` holds no double colon.
pub open spec fn no_gap(s: Seq<char>) -> bool {
    forall|i: int| !#[trigger] addr::gap_at(s, i)
}

/// The text of a run of segments holds no double colon, and neither starts nor ends with a colon.
proof fn lemma_run_text_shape(s: Seq<u16>)
    requires
        s.len() > 0,
    ensures
        addr::run_text(s).len() > 0,
        no_gap(addr::run_text(s)),
        addr::run_text(s)[0] != ':',
        addr::run_text(s).last() != ':',
        names::free_of(addr::run_text(s), '.'),
    decreases s.len(),
{
    let parts = segment_texts(s);
    let t = addr::run_text(s);
    lemma_segment_text(s.last());
    let last = parts.last();
    assert(last == addr::hexadecimal(s.last() as nat));
    assert(last.len() > 0 && last[0] != ':' && last[last.len() - 1] != ':');
    if s.len() == 1 {
        assert(t == last);
        assert forall|i: int| !#[trigger] addr::gap_at(t, i) by {
            if 0 <= i < t.len() {
                assert(t[i] != ':');
            }
        }
    } else {
        let init = s.drop_last();
        lemma_run_text_shape(init);
        assert(segment_texts(init) =~= parts.drop_last());
        let head = addr::run_text(init);
        assert(t == head + seq![':'] + last);
        assert(t[0] == head[0]);
        assert(t.last() == last.last());
        assert(last.last() == last[last.len() - 1]);
        assert forall|i: int| !#[trigger] addr::gap_at(t, i) by {
            if 0 <= i && i + 1 < t.len() {
                if i + 1 < head.len() {
                    assert(!addr::gap_at(head, i));
                    assert(t[i] == head[i] && t[i + 1] == head[i + 1]);
                } else if i + 1 == head.len() {
                    assert(t[i] == head.last());
                } else if i == head.len() {
                    assert(t[i + 1] == last[0]);
                } else {
                    assert(t[i] == last[i - head.len() - 1]);
                    assert(last[i - head.len() - 1] != ':');
                }
            }
        }
        assert forall|i: int| 0 <= i < t.len() implies #[trigger] t[i] != '.' by {
            if i < head.len() {
                assert(t[i] == head[i]);
            } else if i > head.len() {
                assert(t[i] == last[i - head.len() - 1]);
            }
        }
    }
}

/// The first double colon stands where it first can.
pub proof fn lemma_first_gap(s: Seq<char>, from: int, at: int)
    requires
        0 <= from <= at,
        addr::gap_at(s, at),
        forall|i: int| from <= i < at ==> !#[trigger] addr::gap_at(s, i),
    ensures
        addr::first_gap(s, from) == Some(at),
    decreases at - from,
{
    if from < at {
        assert(!addr::gap_at(s, from));
        lemma_first_gap(s, from + 1, at);
    }
}

/// A text without a double colon has no first one.
pub proof fn lemma_no_first_gap(s: Seq<char>, from: int)
    requires
        no_gap(s),
    ensures
        addr::first_gap(s, from) is None,
    decreases s.len() - from,
{
    if from < s.len() {
        assert(!addr::gap_at(s, from));
        lemma_no_first_gap(s, from + 1);
    }
}

/// A run of zero segments holds zeros and ends within the segments.
proof fn lemma_zero_run(s: Seq<u16>, i: int)
    requires
        0 <= i <= s.len(),
    ensures
        0 <= addr::zero_run(s, i),
        i + addr::zero_run(s, i) <= s.len(),
        forall|k: int| i <= k < i + addr::zero_run(s, i) ==> #[trigger] s[k] == 0,
    decreases s.len() - i,
{
    if i < s.len() && s[i] == 0 {
        lemma_zero_run(s, i + 1);
    }
}

/// The longest run starts at one of the positions.
proof fn lemma_longest_zero_run(s: Seq<u16>, n: int)
    ensures
        0 <= addr::longest_zero_run(s, n),
        n >= 1 ==> addr::longest_zero_run(s, n) < n,
    decreases n,
{
    if n > 1 {
        lemma_longest_zero_run(s, n - 1);
    }
}

/// The text of an address with a double colon between two runs of segments.
proof fn lemma_gapped_roundtrip(head: Seq<u16>, tail: Seq<u16>)
    requires
        head.len() + tail.len() <= 7,
    ensures
        addr::ipv6_of(addr::run_text(head) + "::"@ + addr::run_text(tail)) == Some(
            head + addr::zeros((8 - head.len() - tail.len()) as nat) + tail,
        ),
{
    reveal_strlit("::");
    let h = addr::run_text(head);
    let t = addr::run_text(tail);
    let s = h + "::"@ + t;
    let at = h.len() as int;
    if head.len() > 0 {
        lemma_run_text_shape(head);
    } else {
        assert(segment_texts(head).len() == 0);
        assert(h == Seq::<char>::empty());
    }
    assert(addr::gap_at(s, at)) by {
        assert(s[at] == "::"@[0]);
        assert(s[at + 1] == "::"@[1]);
    }
    assert forall|i: int| 0 <= i < at implies !#[trigger] addr::gap_at(s, i) by {
        if i + 1 < at {
            assert(!addr::gap_at(h, i));
            assert(s[i] == h[i] && s[i + 1] == h[i + 1]);
        } else {
            assert(s[i] == h.last());
        }
    }
    lemma_first_gap(s, 0, at);
    assert(s.take(at) =~= h);
    assert(s.skip(at + 2) =~= t);
    lemma_run_roundtrip(head, false);
    lemma_run_roundtrip(tail, true);
}

/// The text of an IPv4-mapped address reads back.
proof fn lemma_mapped_roundtrip(s: Seq<u16>)
    requires
        s.len() == 8,
        addr::is_mapped(s),
    ensures
        addr::ipv6_of(addr::ipv6_text(s)) == Some(s),
{
    reveal_strlit("::ffff:");
    reveal_strlit("ffff");
    let octets = seq![
        (s[6] / 256) as u8,
        (s[6] % 256) as u8,
        (s[7] / 256) as u8,
        (s[7] % 256) as u8,
    ];
    let dotted = addr::ipv4_text(octets);
    let t = addr::ipv6_text(s);
    let ones = "ffff"@;
    lemma_ipv4_text_shape(octets);
    lemma_ipv4_roundtrip(octets);
    assert(addr::gap_at(t, 0));
    assert(addr::first_gap(t, 0) == Some(0int));
    assert(t.take(0) == Seq::<char>::empty());
    let rest = t.skip(2);
    assert(rest =~= ones.push(':') + dotted);
    assert(names::free_of(ones, ':'));
    assert forall|i: int| 0 <= i < dotted.len() implies #[trigger] dotted[i] != ':' by {
        assert(digits::is_digit(dotted[i]) || dotted[i] == '.');
    }
    names::lemma_single_field(ones, ':');
    names::lemma_fields_append(ones, dotted, ':');
    let parts = text::fields(rest, ':');
    assert(parts =~= seq![ones, dotted]);
    assert(!addr::is_segment(parts[1])) by {
        let k = choose|k: int| 0 <= k < dotted.len() && dotted[k] == '.';
        assert(addr::hex_digit(dotted[k]) is None);
    }
    assert(!addr::all_segments(parts));
    assert(parts.drop_last() =~= seq![ones]);
    assert(addr::is_segment(ones));
    assert(addr::hex_number(ones) == 0xffff) by {
        reveal_with_fuel(addr::hex_number, 5);
        assert(ones.drop_last() =~= seq!['f', 'f', 'f']);
        assert(ones.drop_last().drop_last() =~= seq!['f', 'f']);
        assert(ones.drop_last().drop_last().drop_last() =~= seq!['f']);
    }
    assert(addr::segments_of(seq![ones]) =~= seq![0xffffu16]);
    assert(addr::octet_segments(octets) =~= seq![s[6], s[7]]);
    let tail = seq![0xffffu16] + seq![s[6], s[7]];
    assert(addr::run_of(rest, true) == Some(tail));
    assert(Seq::<u16>::empty() + addr::zeros(5) + tail =~= s);
}

/// An IPv6 address reads back from its text.
pub proof fn lemma_ipv6_roundtrip(s: Seq<u16>)
    requires
        s.len() == 8,
    ensures
        addr::ipv6_of(addr::ipv6_text(s)) == Some(s),
{
    let start = addr::longest_zero_run(s, 8);
    let len = addr::zero_run(s, start);
    lemma_longest_zero_run(s, 8);
    lemma_zero_run(s, start);
    if addr::is_mapped(s) {
        lemma_mapped_roundtrip(s);
    } else if len >= 2 {
        let head = s.take(start);
        let tail = s.skip(start + len);
        lemma_gapped_roundtrip(head, tail);
        assert(head + addr::zeros(len as nat) + tail =~= s);
    } else {
        lemma_run_text_shape(s);
        lemma_no_first_gap(addr::run_text(s), 0);
        lemma_run_roundtrip(s, true);
    }
}

/// Whether each character of `s` is a hexadecimal digit, a colon or a dot.
pub open spec fn is_address_text(s: Seq<char>) -> bool {
    forall|i: int|
        0 <= i < s.len() ==> addr::hex_digit(#[trigger] s[i]) is Some || s[i] == ':' || s[i] == '.'
}

/// The text of a run of segments holds digits and colons.
proof fn lemma_run_text_chars(s: Seq<u16>)
    ensures
        is_address_text(addr::run_text(s)),
    decreases s.len(),
{
    let parts = segment_texts(s);
    let t = addr::run_text(s);
    if s.len() > 0 {
        let last = addr::hexadecimal(s.last() as nat);
        lemma_hexadecimal_roundtrip(s.last() as nat);
        assert(parts.last() == last);
        if s.len() == 1 {
            assert(t == last);
        } else {
            let init = s.drop_last();
            lemma_run_text_chars(init);
            assert(segment_texts(init) =~= parts.drop_last());
            let head = addr::run_text(init);
            assert(t == head + seq![':'] + last);
            assert forall|i: int| 0 <= i < t.len() implies addr::hex_digit(
                #[trigger] t[i],
            ) is Some || t[i] == ':' || t[i] == '.' by {
                if i < head.len() {
                    assert(t[i] == head[i]);
                } else if i > head.len() {
                    assert(t[i] == last[i - head.len() - 1]);
                }
            }
        }
    }
}

/// The text of an IPv6 address holds digits, colons and dots, and so no white space.
pub proof fn lemma_ipv6_text_shape(s: Seq<u16>)
    requires
        s.len() == 8,
    ensures
        is_address_text(addr::ipv6_text(s)),
        addr::ipv6_text(s).len() > 0,
        names::is_trimmed(addr::ipv6_text(s)),
{
    reveal_strlit("::ffff:");
    reveal_strlit("::");
    let t = addr::ipv6_text(s);
    if addr::is_mapped(s) {
        let octets = seq![
            (s[6] / 256) as u8,
            (s[6] % 256) as u8,
            (s[7] / 256) as u8,
            (s[7] % 256) as u8,
        ];
        let dotted = addr::ipv4_text(octets);
        lemma_ipv4_text_shape(octets);
        assert forall|i: int| 0 <= i < t.len() implies addr::hex_digit(#[trigger] t[i]) is Some
            || t[i] == ':' || t[i] == '.' by {
            if i < 7 {
                assert(t[i] == "::ffff:"@[i]);
            } else {
                assert(t[i] == dotted[i - 7]);
                assert(digits::is_digit(dotted[i - 7]) || dotted[i - 7] == '.');
            }
        }
    } else {
        let start = addr::longest_zero_run(s, 8);
        let len = addr::zero_run(s, start);
        if len >= 2 {
            let head = addr::run_text(s.take(start));
            let tail = addr::run_text(s.skip(start + len));
            lemma_run_text_chars(s.take(start));
            lemma_run_text_chars(s.skip(start + len));
            assert forall|i: int| 0 <= i < t.len() implies addr::hex_digit(
                #[trigger] t[i],
            ) is Some || t[i] == ':' || t[i] == '.' by {
                if i < head.len() {
                    assert(t[i] == head[i]);
                } else if i >= head.len() + 2 {
                    assert(t[i] == tail[i - head.len() - 2]);
                } else {
                    assert(t[i] == "::"@[i - head.len()]);
                }
            }
        } else {
            lemma_run_text_chars(s);
            lemma_run_text_shape(s);
        }
    }
    assert(addr::hex_digit(t[0]) is Some || t[0] == ':' || t[0] == '.');
    assert(addr::hex_digit(t[t.len() - 1]) is Some || t[t.len() - 1] == ':' || t[t.len() - 1]
        == '.');
}

/// An IPv6 address has eight segments.
pub proof fn lemma_ipv6_len(s: Seq<char>)
    ensures
        addr::ipv6_of(s) matches Some(ip) ==> ip.len() == 8,
{
}

} // verus!

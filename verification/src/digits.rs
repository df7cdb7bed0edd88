//! Decimal and hexadecimal numbers as text.
use crate::text;
use vstd::prelude::*;

verus! {

// ---------------------------------------------------------------------------
// Writing
// ---------------------------------------------------------------------------

/// The character of a decimal digit.
pub open spec fn digit_char(d: nat) -> char
    recommends
        d < 10,
{
    ((48 + d) as u8) as char
}

/// The decimal digits of `n`, without leading zeros.
pub open spec fn decimal(n: nat) -> Seq<char>
    decreases n,
{
    if n < 10 {
        seq![digit_char(n)]
    } else {
        decimal(n / 10).push(digit_char(n % 10))
    }
}

/// The decimal digits of `n`, after a minus sign where `n` is negative.
pub open spec fn signed_decimal(n: int) -> Seq<char> {
    if n < 0 {
        seq!['-'] + decimal((-n) as nat)
    } else {
        decimal(n as nat)
    }
}

/// The decimal digits of `n`.
pub fn decimal_text(n: u64) -> (r: String)
    ensures
        r@ == decimal(n as nat),
    decreases n,
{
    let d: u8 = (n % 10) as u8;
    let c: char = (48 + d) as char;
    if n < 10 {
        let mut s = String::new();
        s.push(c);
        assert(s@ == seq![digit_char(n as nat)]);
        s
    } else {
        let mut s = decimal_text(n / 10);
        s.push(c);
        s
    }
}

/// The decimal digits of `n`, after a minus sign where `n` is negative.
pub fn signed_decimal_text(n: i64) -> (r: String)
    ensures
        r@ == signed_decimal(n as int),
{
    if n < 0 {
        let mut s = String::new();
        s.push('-');
        let magnitude: u64 = (-(n + 1)) as u64 + 1;
        s.push_str(&decimal_text(magnitude));
        assert(s@ == seq!['-'] + decimal((-n) as nat));
        s
    } else {
        decimal_text(n as u64)
    }
}

// ---------------------------------------------------------------------------
// Reading
// ---------------------------------------------------------------------------

/// Whether `c` is a decimal digit.
pub open spec fn is_digit(c: char) -> bool {
    '0' <= c <= '9'
}

/// Whether `s` holds decimal digits only, and at least one.
pub open spec fn is_number(s: Seq<char>) -> bool {
    s.len() > 0 && forall|i: int| 0 <= i < s.len() ==> #[trigger] is_digit(s[i])
}

/// The number that the decimal digits `s` write.
pub open spec fn number(s: Seq<char>) -> nat
    decreases s.len(),
{
    if s.len() == 0 {
        0
    } else {
        number(s.drop_last()) * 10 + (s.last() as u32 - 48) as nat
    }
}

/// `s` without one plus sign at its start.
pub open spec fn without_plus(s: Seq<char>) -> Seq<char> {
    if s.len() > 0 && s[0] == '+' {
        s.drop_first()
    } else {
        s
    }
}

/// The number from 0 to `max` that `s` writes: decimal digits, after an optional plus sign.
pub open spec fn unsigned(s: Seq<char>, max: nat) -> Option<nat> {
    let digits = without_plus(s);
    if is_number(digits) && number(digits) <= max {
        Some(number(digits))
    } else {
        None
    }
}

/// The 64-bit number that `s` writes: decimal digits, after an optional sign.
pub open spec fn signed(s: Seq<char>) -> Option<int> {
    if s.len() > 0 && s[0] == '-' {
        let digits = s.drop_first();
        if is_number(digits) && number(digits) <= 0x8000_0000_0000_0000 {
            Some(-number(digits))
        } else {
            None
        }
    } else {
        match unsigned(s, 0x7fff_ffff_ffff_ffff) {
            Some(n) => Some(n as int),
            None => None,
        }
    }
}

/// The number of a prefix is at most the number of the digits.
proof fn lemma_number_grows(s: Seq<char>, k: int)
    requires
        0 <= k <= s.len(),
        forall|i: int| 0 <= i < s.len() ==> #[trigger] is_digit(s[i]),
    ensures
        number(s.take(k)) <= number(s),
    decreases s.len() - k,
{
    if k < s.len() {
        assert(s.take(k + 1).drop_last() == s.take(k));
        assert(is_digit(s[k]));
        lemma_number_grows(s, k + 1);
    } else {
        assert(s.take(k) == s);
    }
}

/// Reads the decimal digits `v` from position `from` on, as a number up to `max`.
pub fn read_number(v: &[char], from: usize, max: u64) -> (r: Option<u64>)
    requires
        from <= v@.len(),
    ensures
        match r {
            Some(n) => is_number(v@.skip(from as int)) && n == number(v@.skip(from as int)) && n
                <= max,
            None => !is_number(v@.skip(from as int)) || number(v@.skip(from as int)) > max,
        },
{
    let ghost s = v@.skip(from as int);
    if from >= v.len() {
        return None;
    }
    // First all characters, then the value.
    let mut i: usize = from;
    while i < v.len()
        invariant
            from <= i <= v@.len(),
            s == v@.skip(from as int),
            forall|k: int| 0 <= k < i - from ==> #[trigger] is_digit(s[k]),
        decreases v@.len() - i,
    {
        if v[i] < '0' || v[i] > '9' {
            assert(!is_digit(s[i - from]));
            return None;
        }
        i += 1;
    }
    let mut n: u64 = 0;
    let mut j: usize = from;
    assert(s.take(0) == Seq::<char>::empty());
    while j < v.len()
        invariant
            from <= j <= v@.len(),
            s == v@.skip(from as int),
            forall|k: int| 0 <= k < s.len() ==> #[trigger] is_digit(s[k]),
            n == number(s.take(j - from)),
            n <= max,
        decreases v@.len() - j,
    {
        let ghost k = j - from;
        assert(is_digit(s[k]));
        assert(s.take(k + 1).drop_last() == s.take(k));
        let d: u64 = (v[j] as u32 - 48) as u64;
        if d > max || n > (max - d) / 10 {
            proof {
                lemma_number_grows(s, k + 1);
            }
            return None;
        }
        n = n * 10 + d;
        j += 1;
    }
    assert(s.take(s.len() as int) == s);
    Some(n)
}

/// Reads a number from 0 to `max`.
pub fn parse_unsigned(s: &str, max: u64) -> (r: Option<u64>)
    ensures
        match r {
            Some(n) => unsigned(s@, max as nat) == Some(n as nat) && n <= max,
            None => unsigned(s@, max as nat) is None,
        },
{
    let v = text::to_chars(s);
    assert(v@.skip(0) == v@);
    if v.len() > 0 && v[0] == '+' {
        assert(v@.skip(1) == v@.drop_first());
        read_number(&v, 1, max)
    } else {
        read_number(&v, 0, max)
    }
}

/// Reads a signed 64-bit number.
pub fn parse_signed(s: &str) -> (r: Option<i64>)
    ensures
        match r {
            Some(n) => signed(s@) == Some(n as int),
            None => signed(s@) is None,
        },
{
    let v = text::to_chars(s);
    if v.len() > 0 && v[0] == '-' {
        assert(v@.skip(1) == v@.drop_first());
        match read_number(&v, 1, 0x8000_0000_0000_0000) {
            Some(n) => {
                if n == 0x8000_0000_0000_0000 {
                    Some(i64::MIN)
                } else {
                    Some(-(n as i64))
                }
            },
            None => None,
        }
    } else {
        match parse_unsigned(s, 0x7fff_ffff_ffff_ffff) {
            Some(n) => Some(n as i64),
            None => None,
        }
    }
}

} // verus!

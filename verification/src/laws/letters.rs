//! What the text operations do, character by character.
use crate::config;
use crate::digits;
use crate::laws::names;
use crate::text;
use vstd::prelude::*;

verus! {

// ---------------------------------------------------------------------------
// Case
// ---------------------------------------------------------------------------

/// Whether `c` is the lower-case form of `d`: 32 more for the letters A to Z, otherwise `d` itself.
pub open spec fn is_lower_of(c: char, d: char) -> bool {
    if 'A' <= d <= 'Z' {
        c as int == d as int + 32
    } else {
        c == d
    }
}

/// Whether two characters are the same apart from the case of ASCII letters.
pub open spec fn same_letter(c: char, d: char) -> bool {
    c == d || ('a' <= c <= 'z' && d as int == c as int - 32) || ('A' <= c <= 'Z' && d as int
        == c as int + 32)
}

/// Whether two texts are the same apart from the case of ASCII letters.
pub open spec fn same_letters(a: Seq<char>, b: Seq<char>) -> bool {
    a.len() == b.len() && forall|i: int| 0 <= i < a.len() ==> same_letter(#[trigger] a[i], b[i])
}

/// Lower case is lower case character by character.
pub proof fn lemma_lowered_means(s: Seq<char>)
    ensures
        text::lowered(s).len() == s.len(),
        forall|i: int| 0 <= i < s.len() ==> is_lower_of(#[trigger] text::lowered(s)[i], s[i]),
{
}

/// Upper case undoes it: the lower-case form of the upper case of a text is that of the text, and the
/// upper case of a text holds no letter from a to z.
pub proof fn lemma_uppered_means(s: Seq<char>)
    ensures
        text::uppered(s).len() == s.len(),
        same_letters(text::uppered(s), s),
        forall|i: int| 0 <= i < s.len() ==> !('a' <= #[trigger] text::uppered(s)[i] <= 'z'),
{
    assert forall|i: int| 0 <= i < s.len() implies same_letter(
        #[trigger] text::uppered(s)[i],
        s[i],
    ) && !('a' <= text::uppered(s)[i] <= 'z') by {
        let c = s[i];
        let u = text::upper_char(c);
        assert(text::uppered(s)[i] == u);
        if 'a' <= c <= 'z' {
            assert(u as int == c as int - 32);
        }
    }
}

/// Two texts have the same upper case if and only if they are the same apart from case.
pub proof fn lemma_same_upper(a: Seq<char>, b: Seq<char>)
    ensures
        text::uppered(a) == text::uppered(b) <==> same_letters(a, b),
{
    let ua = text::uppered(a);
    let ub = text::uppered(b);
    if ua == ub {
        assert(ua.len() == a.len() && ub.len() == b.len());
        assert forall|i: int| 0 <= i < a.len() implies same_letter(#[trigger] a[i], b[i]) by {
            assert(ua[i] == text::upper_char(a[i]));
            assert(ub[i] == text::upper_char(b[i]));
            lemma_upper_char_same(a[i], b[i]);
        }
    }
    if same_letters(a, b) {
        assert forall|i: int| 0 <= i < a.len() implies ua[i] == ub[i] by {
            assert(same_letter(a[i], b[i]));
            lemma_upper_char_same(a[i], b[i]);
        }
        assert(ua =~= ub);
    }
}

/// Two texts have the same lower case if and only if they are the same apart from case.
pub proof fn lemma_same_lower(a: Seq<char>, b: Seq<char>)
    ensures
        text::lowered(a) == text::lowered(b) <==> same_letters(a, b),
{
    let la = text::lowered(a);
    let lb = text::lowered(b);
    if la == lb {
        assert(la.len() == a.len() && lb.len() == b.len());
        assert forall|i: int| 0 <= i < a.len() implies same_letter(#[trigger] a[i], b[i]) by {
            assert(la[i] == text::lower_char(a[i]));
            assert(lb[i] == text::lower_char(b[i]));
            lemma_lower_char_same(a[i], b[i]);
        }
    }
    if same_letters(a, b) {
        assert forall|i: int| 0 <= i < a.len() implies la[i] == lb[i] by {
            assert(same_letter(a[i], b[i]));
            lemma_lower_char_same(a[i], b[i]);
        }
        assert(la =~= lb);
    }
}

/// Two characters have the same lower case if and only if they are the same letter.
proof fn lemma_lower_char_same(c: char, d: char)
    ensures
        text::lower_char(c) == text::lower_char(d) <==> same_letter(c, d),
{
    let u = text::lower_char(c);
    let v = text::lower_char(d);
    if 'A' <= c <= 'Z' {
        assert(u as int == c as int + 32);
    }
    if 'A' <= d <= 'Z' {
        assert(v as int == d as int + 32);
    }
}

/// Two characters have the same upper case if and only if they are the same letter.
proof fn lemma_upper_char_same(c: char, d: char)
    ensures
        text::upper_char(c) == text::upper_char(d) <==> same_letter(c, d),
{
    let u = text::upper_char(c);
    let v = text::upper_char(d);
    if 'a' <= c <= 'z' {
        assert(u as int == c as int - 32);
    }
    if 'a' <= d <= 'z' {
        assert(v as int == d as int - 32);
    }
}

// ---------------------------------------------------------------------------
// White space
// ---------------------------------------------------------------------------

/// Whether `s` holds nothing but white space.
pub open spec fn is_blank(s: Seq<char>) -> bool {
    forall|i: int| 0 <= i < s.len() ==> text::is_space(#[trigger] s[i])
}

/// Trimming takes white space from both ends and no more: the text is blank, the trimmed text and blank
/// again, and the trimmed text starts and ends without white space.
pub proof fn lemma_trimmed_means(s: Seq<char>)
    ensures
        names::is_trimmed(text::trimmed(s)),
        exists|a: Seq<char>, b: Seq<char>|
            is_blank(a) && is_blank(b) && s == #[trigger] (a + text::trimmed(s) + b),
{
    names::lemma_trimmed_is_trimmed(s);
    lemma_start(s);
    let t = text::trimmed_start(s);
    let a = choose|a: Seq<char>| is_blank(a) && s == #[trigger] (a + t);
    lemma_end(t);
    let b = choose|b: Seq<char>| is_blank(b) && t == #[trigger] (text::trimmed(s) + b);
    assert(s =~= a + text::trimmed(s) + b);
}

/// White space at the start goes.
proof fn lemma_start(s: Seq<char>)
    ensures
        exists|a: Seq<char>| is_blank(a) && s == #[trigger] (a + text::trimmed_start(s)),
    decreases s.len(),
{
    if s.len() > 0 && text::is_space(s[0]) {
        let rest = s.drop_first();
        lemma_start(rest);
        let t = text::trimmed_start(rest);
        let a = choose|a: Seq<char>| is_blank(a) && rest == #[trigger] (a + t);
        let more = seq![s[0]] + a;
        assert forall|i: int| 0 <= i < more.len() implies text::is_space(#[trigger] more[i]) by {
            if i > 0 {
                assert(more[i] == a[i - 1]);
            }
        }
        assert forall|i: int| 0 <= i < s.len() implies s[i] == (more + t)[i] by {
            if i > 0 {
                assert(rest[i - 1] == s[i]);
                assert((a + t)[i - 1] == (more + t)[i]);
            }
        }
        assert(s =~= more + text::trimmed_start(s));
    } else {
        let none = Seq::<char>::empty();
        assert(s =~= none + text::trimmed_start(s));
    }
}

/// White space at the end goes.
proof fn lemma_end(s: Seq<char>)
    ensures
        exists|b: Seq<char>| is_blank(b) && s == #[trigger] (text::trimmed_end(s) + b),
    decreases s.len(),
{
    if s.len() > 0 && text::is_space(s.last()) {
        let rest = s.drop_last();
        lemma_end(rest);
        let t = text::trimmed_end(rest);
        let b = choose|b: Seq<char>| is_blank(b) && rest == #[trigger] (t + b);
        let more = b.push(s.last());
        assert forall|i: int| 0 <= i < more.len() implies text::is_space(#[trigger] more[i]) by {
            if i < b.len() {
                assert(more[i] == b[i]);
            }
        }
        assert forall|i: int| 0 <= i < s.len() implies s[i] == (t + more)[i] by {
            if i < rest.len() {
                assert(rest[i] == s[i]);
                assert((t + b)[i] == (t + more)[i]);
            }
        }
        assert(s =~= text::trimmed_end(s) + more);
    } else {
        let none = Seq::<char>::empty();
        assert(s =~= text::trimmed_end(s) + none);
    }
}

// ---------------------------------------------------------------------------
// Names
// ---------------------------------------------------------------------------

/// Whether `s` holds nothing but dots.
pub open spec fn is_dots(s: Seq<char>) -> bool {
    forall|i: int| 0 <= i < s.len() ==> #[trigger] s[i] == '.'
}

/// A canonical name is the name in lower case, without white space around it and without the dots at
/// its end.
pub proof fn lemma_canonical_means(name: Seq<char>)
    ensures
        exists|body: Seq<char>, dots: Seq<char>|
            {
                &&& text::trimmed(name) == #[trigger] (body + dots)
                &&& is_dots(dots)
                &&& body.len() > 0 ==> body.last() != '.'
                &&& config::canonical(name).len() == body.len()
                &&& forall|i: int|
                    0 <= i < body.len() ==> is_lower_of(
                        #[trigger] config::canonical(name)[i],
                        body[i],
                    )
            },
{
    let t = text::trimmed(name);
    let body = text::trimmed_end_of(t, '.');
    names::lemma_trimmed_end_of(t, '.');
    lemma_dots_end(t);
    let dots = choose|dots: Seq<char>| is_dots(dots) && t == #[trigger] (body + dots);
    lemma_lowered_means(body);
    assert(t == body + dots);
}

/// Only dots go from the end.
proof fn lemma_dots_end(s: Seq<char>)
    ensures
        exists|dots: Seq<char>|
            is_dots(dots) && s == #[trigger] (text::trimmed_end_of(s, '.') + dots),
    decreases s.len(),
{
    if s.len() > 0 && s.last() == '.' {
        let rest = s.drop_last();
        lemma_dots_end(rest);
        let t = text::trimmed_end_of(rest, '.');
        let dots = choose|dots: Seq<char>| is_dots(dots) && rest == #[trigger] (t + dots);
        let more = dots.push('.');
        assert forall|i: int| 0 <= i < more.len() implies #[trigger] more[i] == '.' by {
            if i < dots.len() {
                assert(more[i] == dots[i]);
            }
        }
        assert forall|i: int| 0 <= i < s.len() implies s[i] == (t + more)[i] by {
            if i < rest.len() {
                assert(rest[i] == s[i]);
                assert((t + dots)[i] == (t + more)[i]);
            }
        }
        assert(s =~= text::trimmed_end_of(s, '.') + more);
    } else {
        let none = Seq::<char>::empty();
        assert(s =~= text::trimmed_end_of(s, '.') + none);
    }
}

// ---------------------------------------------------------------------------
// Numbers
// ---------------------------------------------------------------------------

/// Decimal digits write a number position by position: a digit behind a number counts ones, and the
/// number before it tens.
pub proof fn lemma_number_by_digits(s: Seq<char>, c: char)
    requires
        '0' <= c <= '9',
    ensures
        digits::number(Seq::<char>::empty()) == 0,
        digits::number(s.push(c)) == 10 * digits::number(s) + (c as int - '0' as int),
{
    assert(s.push(c).drop_last() =~= s);
}

/// A number is read if and only if it is written in digits, behind at most one plus sign, and does not
/// exceed the limit.
pub proof fn lemma_unsigned_means(s: Seq<char>, max: nat)
    ensures
        match digits::unsigned(s, max) {
            Some(n) => n <= max && exists|d: Seq<char>|
                (s == d || s == seq!['+'] + d) && is_digits(d) && #[trigger] digits::number(d)
                    == n,
            None => forall|d: Seq<char>|
                (s == d || s == seq!['+'] + d) && is_digits(d) ==> #[trigger] digits::number(d)
                    > max,
        },
{
    let d = digits::without_plus(s);
    if s.len() > 0 && s[0] == '+' {
        assert(s =~= seq!['+'] + d);
    }
    lemma_digits(d);
    if digits::unsigned(s, max) is None {
        assert forall|e: Seq<char>|
            (s == e || s == seq!['+'] + e) && is_digits(e) implies #[trigger] digits::number(e)
            > max by {
            lemma_digits(e);
            if s == e {
                assert(is_digit_at(e, 0));
                assert(d == e);
            } else {
                assert(d =~= e);
            }
        }
    } else {
        assert(digits::number(d) == digits::unsigned(s, max).unwrap());
    }
}

/// Whether the character at `i` is a digit from 0 to 9.
pub open spec fn is_digit_at(s: Seq<char>, i: int) -> bool {
    '0' <= s[i] <= '9'
}

/// Whether `s` is one or more digits from 0 to 9.
pub open spec fn is_digits(s: Seq<char>) -> bool {
    s.len() > 0 && forall|i: int| 0 <= i < s.len() ==> #[trigger] is_digit_at(s, i)
}

/// A number is digits.
pub proof fn lemma_digits(s: Seq<char>)
    ensures
        digits::is_number(s) <==> is_digits(s),
{
    if is_digits(s) {
        assert forall|i: int| 0 <= i < s.len() implies #[trigger] digits::is_digit(s[i]) by {
            assert(is_digit_at(s, i));
        }
    }
    if digits::is_number(s) {
        assert forall|i: int| 0 <= i < s.len() implies #[trigger] is_digit_at(s, i) by {
            assert(digits::is_digit(s[i]));
        }
    }
}

/// Digits without a leading zero are the decimal text of their number.
pub proof fn lemma_decimal_of_number(s: Seq<char>)
    requires
        digits::is_number(s),
        s[0] == '0' ==> s.len() == 1,
    ensures
        digits::decimal(digits::number(s)) == s,
        s.len() > 1 ==> digits::number(s) >= 10,
        s.len() == 1 ==> digits::number(s) < 10,
    decreases s.len(),
{
    let c = s[s.len() - 1];
    assert(digits::is_digit(c));
    let v = (c as u32 - 48) as nat;
    assert(digits::digit_char(v) == c);
    let init = s.drop_last();
    if s.len() == 1 {
        assert(digits::number(init) == 0);
        assert(digits::number(s) == v);
        assert(seq![c] =~= s);
    } else {
        assert forall|i: int| 0 <= i < init.len() implies #[trigger] digits::is_digit(init[i]) by {
            assert(digits::is_digit(s[i]));
        }
        lemma_decimal_of_number(init);
        assert(digits::is_digit(s[0]));
        if init.len() == 1 {
            assert(digits::number(init) != 0) by {
                assert(init[0] == s[0]);
                assert(init.drop_last() =~= Seq::<char>::empty());
            }
        }
        let n = digits::number(init);
        assert(digits::number(s) == n * 10 + v);
        assert((n * 10 + v) / 10 == n && (n * 10 + v) % 10 == v);
        assert(init.push(c) =~= s);
    }
}

/// A negative number is written as a minus sign and its amount; the amount of a number that is not is
/// written as it is.
pub proof fn lemma_signed_decimal_means(n: int)
    ensures
        n >= 0 ==> digits::signed_decimal(n) == digits::decimal(n as nat),
        n < 0 ==> digits::signed_decimal(n) == seq!['-'] + digits::decimal((0 - n) as nat),
{
}

/// A number with a sign is digits, behind a plus or a minus sign or none; it has at most 63 bits, and
/// with a minus sign it may be one more.
pub proof fn lemma_signed_means(d: Seq<char>)
    requires
        is_digits(d),
    ensures
        digits::signed(d) == if digits::number(d) <= 0x7fff_ffff_ffff_ffff {
            Some(digits::number(d) as int)
        } else {
            None
        },
        digits::signed(seq!['+'] + d) == digits::signed(d),
        digits::signed(seq!['-'] + d) == if digits::number(d) <= 0x8000_0000_0000_0000 {
            Some(0 - digits::number(d))
        } else {
            None
        },
{
    lemma_digits(d);
    assert(is_digit_at(d, 0));
    assert((seq!['+'] + d).drop_first() =~= d);
    assert((seq!['-'] + d).drop_first() =~= d);
}

} // verus!

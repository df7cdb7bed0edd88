//! How texts fall into pieces: words, fields, lines and replaced parts.
use crate::laws::letters;
use crate::laws::names;
use crate::laws::served;
use crate::text;
use vstd::prelude::*;

verus! {

// ---------------------------------------------------------------------------
// Parts around a character
// ---------------------------------------------------------------------------

/// What stands before the first `c` holds no `c`; with `c` and what follows it makes up the text.
pub proof fn lemma_around_first(s: Seq<char>, c: char)
    ensures
        names::free_of(text::before_first(s, c), c),
        match text::after_first(s, c) {
            Some(rest) => s == text::before_first(s, c) + seq![c] + rest,
            None => s == text::before_first(s, c),
        },
    decreases s.len(),
{
    if s.len() > 0 {
        let rest = s.drop_first();
        if s[0] == c {
            assert(s =~= Seq::<char>::empty() + seq![c] + rest);
        } else {
            lemma_around_first(rest, c);
            let before = text::before_first(rest, c);
            let all = seq![s[0]] + before;
            assert forall|i: int| 0 <= i < all.len() implies #[trigger] all[i] != c by {
                if i > 0 {
                    assert(all[i] == before[i - 1]);
                }
            }
            assert(s =~= seq![s[0]] + rest);
            match text::after_first(rest, c) {
                Some(t) => {
                    assert(s =~= all + seq![c] + t);
                },
                None => {
                    assert(s =~= all);
                },
            }
        }
    } else {
        assert(s =~= Seq::<char>::empty());
    }
}

/// Behind a text without `c` the first `c` parts the text; a text without `c` has nothing behind it.
pub proof fn lemma_first_of(a: Seq<char>, b: Seq<char>, c: char)
    requires
        names::free_of(a, c),
    ensures
        text::before_first(a + seq![c] + b, c) == a,
        text::after_first(a + seq![c] + b, c) == Some(b),
        text::before_first(a, c) == a,
        text::after_first(a, c) is None,
    decreases a.len(),
{
    let s = a + seq![c] + b;
    if a.len() == 0 {
        assert(s[0] == c);
        assert(s.drop_first() =~= b);
        assert(a =~= Seq::<char>::empty());
    } else {
        let rest = a.drop_first();
        assert(s[0] == a[0]);
        assert forall|i: int| 0 <= i < rest.len() implies #[trigger] rest[i] != c by {
            assert(rest[i] == a[i + 1]);
        }
        lemma_first_of(rest, b, c);
        assert(s.drop_first() =~= rest + seq![c] + b);
        assert(seq![a[0]] + rest =~= a);
    }
}

// ---------------------------------------------------------------------------
// Fields
// ---------------------------------------------------------------------------

/// A field in front: a text without separators, a separator and a text have that text as their first
/// field, and then the fields of the rest.
pub proof fn lemma_fields_front(a: Seq<char>, b: Seq<char>, sep: char)
    requires
        names::free_of(a, sep),
    ensures
        text::fields(a + seq![sep] + b, sep) == seq![a] + text::fields(b, sep),
        text::fields(a, sep) == seq![a],
    decreases b.len(),
{
    names::lemma_single_field(a, sep);
    let s = a + seq![sep] + b;
    if b.len() == 0 {
        assert(s =~= a.push(sep));
        assert(s.drop_last() =~= a);
        assert(text::fields(s, sep) =~= seq![a] + text::fields(b, sep));
    } else {
        let init = b.drop_last();
        lemma_fields_front(a, init, sep);
        assert(s.drop_last() =~= a + seq![sep] + init);
        assert(s.last() == b.last());
        let before = text::fields(init, sep);
        lemma_some_field(init, sep);
        assert((seq![a] + before).last() == before.last());
        assert((seq![a] + before).drop_last() =~= seq![a] + before.drop_last());
        assert(text::fields(s, sep) =~= seq![a] + text::fields(b, sep));
    }
}

/// Every text has a field.
pub proof fn lemma_some_field(s: Seq<char>, sep: char)
    ensures
        text::fields(s, sep).len() > 0,
    decreases s.len(),
{
    if s.len() > 0 {
        lemma_some_field(s.drop_last(), sep);
    }
}

// ---------------------------------------------------------------------------
// Lines
// ---------------------------------------------------------------------------

/// A line feed ends a line, and a carriage return before it belongs to the ending. What stands behind
/// the last line feed is a line where it is not empty.
pub proof fn lemma_lines_front(a: Seq<char>, b: Seq<char>)
    requires
        names::free_of(a, '\n'),
    ensures
        a.len() > 0 && a.last() == '\r' ==> text::lines_of(a + seq!['\n'] + b) == seq![
            a.drop_last(),
        ] + text::lines_of(b),
        a.len() == 0 || a.last() != '\r' ==> text::lines_of(a + seq!['\n'] + b) == seq![a]
            + text::lines_of(b),
        text::lines_of(a) == if a.len() > 0 {
            seq![a]
        } else {
            Seq::<Seq<char>>::empty()
        },
{
    let s = a + seq!['\n'] + b;
    lemma_fields_front(a, b, '\n');
    lemma_some_field(b, '\n');
    let rest = text::fields(b, '\n');
    let parts = text::fields(s, '\n');
    assert(parts == seq![a] + rest);
    assert(parts.last() == rest.last());
    assert(parts.drop_last() =~= seq![a] + rest.drop_last());
    let f = |p: Seq<char>| text::without_cr(p);
    assert(parts.drop_last().map_values(f) =~= seq![text::without_cr(a)]
        + rest.drop_last().map_values(f));
    assert(text::lines_of(s) =~= seq![text::without_cr(a)] + text::lines_of(b));
    assert(text::fields(a, '\n') == seq![a]);
    assert(seq![a].drop_last().map_values(f) =~= Seq::<Seq<char>>::empty());
    if a.len() > 0 {
        assert(text::lines_of(a) =~= seq![a]);
    }
}

// ---------------------------------------------------------------------------
// Words
// ---------------------------------------------------------------------------

/// White space parts words, however much of it there is.
pub proof fn lemma_words_around_space(a: Seq<char>, space: Seq<char>, b: Seq<char>)
    requires
        space.len() > 0,
        letters::is_blank(space),
    ensures
        text::words_of(a + space + b) == text::words_of(a) + text::words_of(b),
    decreases b.len(),
{
    lemma_scan_around_space(a, space, b);
    let (done, current) = text::word_scan(b);
    if current.len() > 0 {
        assert((text::words_of(a) + done).push(current) =~= text::words_of(a) + done.push(current));
    }
}

/// The scan behind white space starts over.
proof fn lemma_scan_around_space(a: Seq<char>, space: Seq<char>, b: Seq<char>)
    requires
        space.len() > 0,
        letters::is_blank(space),
    ensures
        text::word_scan(a + space + b) == (
            text::words_of(a) + text::word_scan(b).0,
            text::word_scan(b).1,
        ),
    decreases b.len(),
{
    let s = a + space + b;
    if b.len() > 0 {
        lemma_scan_around_space(a, space, b.drop_last());
        assert(s.drop_last() =~= a + space + b.drop_last());
        assert(s.last() == b.last());
        let (done, current) = text::word_scan(b.drop_last());
        assert((text::words_of(a) + done).push(current) =~= text::words_of(a) + done.push(current));
    } else {
        assert(s =~= a + space);
        lemma_scan_blank(a, space);
        assert(text::words_of(a) + Seq::<Seq<char>>::empty() =~= text::words_of(a));
    }
}

/// The scan over white space ends the open word.
proof fn lemma_scan_blank(a: Seq<char>, space: Seq<char>)
    requires
        space.len() > 0,
        letters::is_blank(space),
    ensures
        text::word_scan(a + space) == (text::words_of(a), Seq::<char>::empty()),
    decreases space.len(),
{
    let s = a + space;
    let init = space.drop_last();
    assert(text::is_space(space[space.len() - 1]));
    assert(s.last() == space.last());
    assert(s.drop_last() =~= a + init);
    if init.len() == 0 {
        assert(a + init =~= a);
    } else {
        assert forall|i: int| 0 <= i < init.len() implies text::is_space(#[trigger] init[i]) by {
            assert(init[i] == space[i]);
        }
        lemma_scan_blank(a, init);
    }
}

/// A blank text has no words, and a text without white space is its only word.
pub proof fn lemma_words_base(s: Seq<char>)
    ensures
        letters::is_blank(s) ==> text::words_of(s).len() == 0,
        served::is_word(s) ==> text::words_of(s) == seq![s],
    decreases s.len(),
{
    if served::is_word(s) {
        served::lemma_single_word(s);
    }
    if letters::is_blank(s) && s.len() > 0 {
        let none = Seq::<char>::empty();
        assert(s =~= none + s);
        lemma_scan_blank(none, s);
    }
}

// ---------------------------------------------------------------------------
// Replaced parts
// ---------------------------------------------------------------------------

/// Whether `pat` stands in `s` at position `i`.
pub open spec fn stands_at(s: Seq<char>, pat: Seq<char>, i: int) -> bool {
    0 <= i && i + pat.len() <= s.len() && forall|j: int|
        0 <= j < pat.len() ==> s[i + j] == #[trigger] pat[j]
}

/// A pattern stands at the start of what it is a prefix of.
proof fn lemma_prefix_means(s: Seq<char>, pat: Seq<char>)
    ensures
        pat.is_prefix_of(s) <==> stands_at(s, pat, 0),
{
    if pat.is_prefix_of(s) {
        assert(pat == s.subrange(0, pat.len() as int));
        assert forall|j: int| 0 <= j < pat.len() implies s[0 + j] == #[trigger] pat[j] by {}
    }
    if stands_at(s, pat, 0) {
        assert forall|j: int| 0 <= j < pat.len() implies s[j] == pat[j] by {
            assert(s[0 + j] == pat[j]);
        }
        assert(pat =~= s.subrange(0, pat.len() as int));
    }
}

/// Up to its first occurrence a pattern changes nothing; it is replaced there, and the replacement goes
/// on behind it. A text that does not hold the pattern stays as it is.
pub proof fn lemma_replaced_means(
    a: Seq<char>,
    b: Seq<char>,
    pat: Seq<char>,
    with: Seq<char>,
)
    requires
        pat.len() > 0,
    ensures
        (forall|i: int| 0 <= i < a.len() ==> !#[trigger] stands_at(a + pat + b, pat, i))
            ==> text::replaced(a + pat + b, pat, with) == a + with + text::replaced(b, pat, with),
        (forall|i: int| 0 <= i < b.len() ==> !#[trigger] stands_at(b, pat, i)) ==> text::replaced(
            b,
            pat,
            with,
        ) == b,
    decreases a.len() + b.len(),
{
    let s = a + pat + b;
    if a.len() == 0 {
        assert(s =~= pat + b);
        assert forall|j: int| 0 <= j < pat.len() implies s[0 + j] == #[trigger] pat[j] by {}
        lemma_prefix_means(s, pat);
        assert(s.skip(pat.len() as int) =~= b);
        assert(a + with =~= with);
    } else if forall|i: int| 0 <= i < a.len() ==> !#[trigger] stands_at(s, pat, i) {
        let rest = a.drop_first();
        let tail = rest + pat + b;
        assert(s.drop_first() =~= tail);
        assert(!stands_at(s, pat, 0));
        lemma_prefix_means(s, pat);
        assert forall|i: int| 0 <= i < rest.len() implies !#[trigger] stands_at(tail, pat, i) by {
            assert(!stands_at(s, pat, i + 1));
            if stands_at(tail, pat, i) {
                assert forall|j: int| 0 <= j < pat.len() implies s[i + 1 + j]
                    == #[trigger] pat[j] by {
                    assert(tail[i + j] == pat[j]);
                    assert(s[i + 1 + j] == tail[i + j]);
                }
            }
        }
        lemma_replaced_means(rest, b, pat, with);
        assert(text::replaced(s, pat, with) =~= a + with + text::replaced(b, pat, with));
    }
    if b.len() > 0 && (forall|i: int| 0 <= i < b.len() ==> !#[trigger] stands_at(b, pat, i)) {
        let rest = b.drop_first();
        assert(!stands_at(b, pat, 0));
        lemma_prefix_means(b, pat);
        assert forall|i: int| 0 <= i < rest.len() implies !#[trigger] stands_at(rest, pat, i) by {
            assert(!stands_at(b, pat, i + 1));
            if stands_at(rest, pat, i) {
                assert forall|j: int| 0 <= j < pat.len() implies b[i + 1 + j]
                    == #[trigger] pat[j] by {
                    assert(rest[i + j] == pat[j]);
                    assert(b[i + 1 + j] == rest[i + j]);
                }
            }
        }
        lemma_replaced_means(Seq::<char>::empty(), rest, pat, with);
        assert(b =~= seq![b[0]] + rest);
    }
}

// ---------------------------------------------------------------------------
// Joined texts
// ---------------------------------------------------------------------------

/// Joined texts stand in their order with the separator between each two of them.
pub proof fn lemma_joined_means(parts: Seq<Seq<char>>, last: Seq<char>, sep: Seq<char>)
    ensures
        text::joined(Seq::<Seq<char>>::empty(), sep).len() == 0,
        text::joined(seq![last], sep) == last,
        parts.len() > 0 ==> text::joined(parts.push(last), sep) == text::joined(parts, sep) + sep
            + last,
{
    assert(parts.push(last).drop_last() =~= parts);
}

} // verus!

//! Laws of texts and names.
use crate::config;
use crate::text;
use vstd::prelude::*;

verus! {

// ---------------------------------------------------------------------------
// Splitting and joining
// ---------------------------------------------------------------------------

/// Joining the fields of a text gives the text back.
pub proof fn lemma_joined_fields(s: Seq<char>, sep: char)
    ensures
        text::joined(text::fields(s, sep), seq![sep]) == s,
    decreases s.len(),
{
    let parts = text::fields(s, sep);
    if s.len() == 0 {
        assert(parts[0] == s);
    } else {
        let init = s.drop_last();
        let before = text::fields(init, sep);
        lemma_joined_fields(init, sep);
        text::lemma_fields_nonempty(init, sep);
        if s.last() == sep {
            assert(parts.drop_last() == before);
            assert(parts == before.push(Seq::<char>::empty()));
            assert(text::joined(parts, seq![sep]) == init + seq![sep] + Seq::<char>::empty());
            assert(init + seq![sep] + Seq::<char>::empty() == s);
        } else {
            let last = before.last().push(s.last());
            assert(parts == before.drop_last().push(last));
            assert(parts.drop_last() == before.drop_last());
            if before.len() == 1 {
                assert(parts[0] == before[0].push(s.last()));
                assert(before[0] == init);
                assert(parts[0] == s);
            } else {
                assert(init == text::joined(before.drop_last(), seq![sep]) + seq![sep]
                    + before.last());
                assert(text::joined(parts, seq![sep]) == text::joined(
                    before.drop_last(),
                    seq![sep],
                ) + seq![sep] + last);
                assert(text::joined(parts, seq![sep]) == init.push(s.last()));
                assert(init.push(s.last()) == s);
            }
        }
    }
}

/// Whether `c` does not occur in `s`.
pub open spec fn free_of(s: Seq<char>, c: char) -> bool {
    forall|i: int| 0 <= i < s.len() ==> #[trigger] s[i] != c
}

/// A text without separators is its only field.
pub proof fn lemma_single_field(s: Seq<char>, sep: char)
    requires
        free_of(s, sep),
    ensures
        text::fields(s, sep) == seq![s],
    decreases s.len(),
{
    if s.len() > 0 {
        lemma_single_field(s.drop_last(), sep);
        assert(text::fields(s.drop_last(), sep) == seq![s.drop_last()]);
        assert(s.last() != sep);
        assert(s.drop_last().push(s.last()) == s);
        assert(seq![s.drop_last()].drop_last().push(s) == seq![s]);
    } else {
        assert(s == Seq::<char>::empty());
    }
}

/// The fields of a text, a separator and a text without separators: those of the first, and the
/// second.
pub proof fn lemma_fields_append(a: Seq<char>, b: Seq<char>, sep: char)
    requires
        free_of(b, sep),
    ensures
        text::fields(a.push(sep) + b, sep) == text::fields(a, sep).push(b),
    decreases b.len(),
{
    let whole = a.push(sep) + b;
    if b.len() == 0 {
        assert(whole == a.push(sep));
        assert(a.push(sep).drop_last() == a);
        assert(b == Seq::<char>::empty());
    } else {
        let init = b.drop_last();
        assert forall|i: int| 0 <= i < init.len() implies #[trigger] init[i] != sep by {
            assert(b[i] != sep);
        }
        lemma_fields_append(a, init, sep);
        assert(whole.drop_last() == a.push(sep) + init);
        assert(whole.last() == b.last());
        assert(b[b.len() - 1] != sep);
        let before = text::fields(a, sep).push(init);
        assert(before.drop_last() == text::fields(a, sep));
        assert(init.push(b.last()) == b);
    }
}

/// The fields of joined texts without separators are the texts.
pub proof fn lemma_fields_joined(parts: Seq<Seq<char>>, sep: char)
    requires
        parts.len() > 0,
        forall|i: int| 0 <= i < parts.len() ==> free_of(#[trigger] parts[i], sep),
    ensures
        text::fields(text::joined(parts, seq![sep]), sep) == parts,
    decreases parts.len(),
{
    assert(free_of(parts[parts.len() - 1], sep));
    if parts.len() == 1 {
        lemma_single_field(parts[0], sep);
        assert(seq![parts[0]] == parts);
    } else {
        let init = parts.drop_last();
        assert forall|i: int| 0 <= i < init.len() implies free_of(#[trigger] init[i], sep) by {
            assert(init[i] == parts[i]);
        }
        lemma_fields_joined(init, sep);
        let head = text::joined(init, seq![sep]);
        assert(head + seq![sep] + parts.last() == head.push(sep) + parts.last());
        lemma_fields_append(head, parts.last(), sep);
        assert(init.push(parts.last()) == parts);
    }
}

// ---------------------------------------------------------------------------
// Trimming
// ---------------------------------------------------------------------------

/// Whether `s` starts and ends without white space.
pub open spec fn is_trimmed(s: Seq<char>) -> bool {
    s.len() > 0 ==> !text::is_space(s[0]) && !text::is_space(s.last())
}

/// A trimmed start is a suffix of the text that starts without white space.
pub proof fn lemma_trimmed_start(s: Seq<char>)
    ensures
        text::trimmed_start(s).is_suffix_of(s),
        text::trimmed_start(s).len() > 0 ==> !text::is_space(text::trimmed_start(s)[0]),
    decreases s.len(),
{
    if s.len() > 0 && text::is_space(s[0]) {
        lemma_trimmed_start(s.drop_first());
        let t = text::trimmed_start(s.drop_first());
        assert(s.subrange(s.len() - t.len(), s.len() as int) == s.drop_first().subrange(
            s.len() - 1 - t.len(),
            s.len() - 1,
        ));
    } else {
        assert(s.subrange(0, s.len() as int) == s);
    }
}

/// A trimmed end is a prefix of the text that ends without white space.
pub proof fn lemma_trimmed_end(s: Seq<char>)
    ensures
        text::trimmed_end(s).is_prefix_of(s),
        text::trimmed_end(s).len() > 0 ==> !text::is_space(text::trimmed_end(s).last()),
    decreases s.len(),
{
    if s.len() > 0 && text::is_space(s.last()) {
        lemma_trimmed_end(s.drop_last());
        let t = text::trimmed_end(s.drop_last());
        assert(s.subrange(0, t.len() as int) == s.drop_last().subrange(0, t.len() as int));
    } else {
        assert(s.subrange(0, s.len() as int) == s);
    }
}

/// Trimming leaves a text without white space at its ends.
pub proof fn lemma_trimmed_is_trimmed(s: Seq<char>)
    ensures
        is_trimmed(text::trimmed(s)),
{
    let a = text::trimmed_start(s);
    lemma_trimmed_start(s);
    lemma_trimmed_end(a);
    let t = text::trimmed_end(a);
    assert(t == a.subrange(0, t.len() as int));
    if t.len() > 0 {
        assert(t[0] == a[0]);
    }
}

/// Trimming leaves a text without white space at its ends as it is.
pub proof fn lemma_trim_trimmed(s: Seq<char>)
    requires
        is_trimmed(s),
    ensures
        text::trimmed(s) == s,
{
}

/// Trimming twice is trimming once.
pub proof fn lemma_trim_idempotent(s: Seq<char>)
    ensures
        text::trimmed(text::trimmed(s)) == text::trimmed(s),
{
    lemma_trimmed_is_trimmed(s);
    lemma_trim_trimmed(text::trimmed(s));
}

// ---------------------------------------------------------------------------
// Case
// ---------------------------------------------------------------------------

/// Lower case twice is lower case once.
pub proof fn lemma_lower_idempotent(s: Seq<char>)
    ensures
        text::lowered(text::lowered(s)) == text::lowered(s),
{
    assert(text::lowered(text::lowered(s)) =~= text::lowered(s));
}

/// Upper case twice is upper case once.
pub proof fn lemma_upper_idempotent(s: Seq<char>)
    ensures
        text::uppered(text::uppered(s)) == text::uppered(s),
{
    assert(text::uppered(text::uppered(s)) =~= text::uppered(s));
}

/// Lower case does not change white space and dots.
pub proof fn lemma_lower_keeps(c: char)
    ensures
        text::is_space(text::lower_char(c)) == text::is_space(c),
        text::lower_char(c) == '.' <==> c == '.',
{
}

// ---------------------------------------------------------------------------
// Canonical names
// ---------------------------------------------------------------------------

/// Dots at the end go, and no more than dots.
pub proof fn lemma_trimmed_end_of(s: Seq<char>, c: char)
    ensures
        text::trimmed_end_of(s, c).is_prefix_of(s),
        text::trimmed_end_of(s, c).len() > 0 ==> text::trimmed_end_of(s, c).last() != c,
    decreases s.len(),
{
    if s.len() > 0 && s.last() == c {
        lemma_trimmed_end_of(s.drop_last(), c);
        let t = text::trimmed_end_of(s.drop_last(), c);
        assert(s.subrange(0, t.len() as int) == s.drop_last().subrange(0, t.len() as int));
    } else {
        assert(s.subrange(0, s.len() as int) == s);
    }
}

/// A canonical name holds no upper-case letter, starts without white space and does not end in a
/// dot.
pub proof fn lemma_canonical_shape(name: Seq<char>)
    ensures
        ({
            let n = config::canonical(name);
            &&& text::lowered(n) == n
            &&& n.len() > 0 ==> n.last() != '.' && !text::is_space(n[0])
        }),
{
    let t = text::trimmed(name);
    let d = text::trimmed_end_of(t, '.');
    lemma_trimmed_is_trimmed(name);
    lemma_trimmed_end_of(t, '.');
    lemma_lower_idempotent(d);
    if d.len() > 0 {
        assert(d == t.subrange(0, d.len() as int));
        assert(d[0] == t[0]);
        lemma_lower_keeps(d[0]);
        lemma_lower_keeps(d.last());
        assert(text::lowered(d).last() == text::lower_char(d.last()));
    }
}

/// Normalizing a name twice is normalizing it once, unless removing the dots at its end uncovers
/// white space.
pub proof fn lemma_canonical_idempotent(name: Seq<char>)
    requires
        config::canonical(name).len() > 0 ==> !text::is_space(config::canonical(name).last()),
    ensures
        config::canonical(config::canonical(name)) == config::canonical(name),
{
    let n = config::canonical(name);
    lemma_canonical_shape(name);
    lemma_trim_trimmed(n);
    assert(text::trimmed_end_of(n, '.') == n);
}

/// A name in lower case, without white space at its ends and without a dot at its end, is canonical.
pub proof fn lemma_canonical_fixed(name: Seq<char>)
    requires
        is_trimmed(name),
        name.len() > 0 ==> name.last() != '.',
        text::lowered(name) == name,
    ensures
        config::canonical(name) == name,
{
    lemma_trim_trimmed(name);
}

// ---------------------------------------------------------------------------
// Zones
// ---------------------------------------------------------------------------

/// A name lies within itself.
pub proof fn lemma_within_reflexive(name: Seq<char>)
    ensures
        config::is_within(name, name),
{
}

/// What lies within a name that lies within a zone lies within the zone.
pub proof fn lemma_within_transitive(a: Seq<char>, b: Seq<char>, c: Seq<char>)
    requires
        config::is_within(a, b),
        config::is_within(b, c),
    ensures
        config::is_within(a, c),
{
    if a != b && b != c {
        let bb = seq!['.'] + b;
        let cc = seq!['.'] + c;
        assert(a.subrange(a.len() - bb.len(), a.len() as int) == bb);
        assert(b.subrange(b.len() - cc.len(), b.len() as int) == cc);
        assert(a.subrange(a.len() - cc.len(), a.len() as int) =~= cc) by {
            assert forall|i: int| 0 <= i < cc.len() implies a.subrange(
                a.len() - cc.len(),
                a.len() as int,
            )[i] == cc[i] by {
                let k = b.len() - cc.len() + i;
                assert(b.subrange(b.len() - cc.len(), b.len() as int)[i] == b[k]);
                assert(bb[k + 1] == b[k]);
                assert(a.subrange(a.len() - bb.len(), a.len() as int)[k + 1] == a[a.len()
                    - bb.len() + k + 1]);
            }
        }
    }
}

} // verus!

//! Orders on strings and a stable sort.
use crate::text;
use vstd::prelude::*;

verus! {

/// Whether `a` comes before `b`, or equals it, in the lexicographic order of their characters.
pub open spec fn lex_le(a: Seq<char>, b: Seq<char>) -> bool
    decreases a.len(),
{
    if a.len() == 0 {
        true
    } else if b.len() == 0 {
        false
    } else if a[0] == b[0] {
        lex_le(a.drop_first(), b.drop_first())
    } else {
        a[0] < b[0]
    }
}

/// Whether `a` comes before `b`, or equals it.
pub fn str_le(a: &str, b: &str) -> (r: bool)
    ensures
        r == lex_le(a@, b@),
{
    let x = text::to_chars(a);
    let y = text::to_chars(b);
    let mut i: usize = 0;
    assert(x@.skip(0) == x@);
    assert(y@.skip(0) == y@);
    while i < x.len()
        invariant
            i <= x@.len(),
            i <= y@.len(),
            x@ == a@,
            y@ == b@,
            lex_le(a@, b@) == lex_le(x@.skip(i as int), y@.skip(i as int)),
        decreases x@.len() - i,
    {
        if i >= y.len() {
            return false;
        }
        if x[i] != y[i] {
            return x[i] < y[i];
        }
        assert(x@.skip(i as int).drop_first() == x@.skip(i + 1));
        assert(y@.skip(i as int).drop_first() == y@.skip(i + 1));
        i += 1;
    }
    true
}

/// An order in which a list can be sorted.
pub trait Order {
    /// What is ordered.
    type Item: View;

    /// Whether `a` may stand before `b`.
    spec fn le(a: <Self::Item as View>::V, b: <Self::Item as View>::V) -> bool;

    /// Whether `a` may stand before `b`.
    fn not_after(a: &Self::Item, b: &Self::Item) -> (r: bool)
        ensures
            r == Self::le(a@, b@),
    ;
}

/// The models of the items of a list.
pub open spec fn models<T: View>(s: Seq<T>) -> Seq<T::V> {
    s.map_values(|x: T| x@)
}

/// The sorted list `s` with `x` behind the last item that may stand before it.
pub open spec fn inserted<O: Order>(
    s: Seq<<O::Item as View>::V>,
    x: <O::Item as View>::V,
) -> Seq<<O::Item as View>::V>
    decreases s.len(),
{
    if s.len() == 0 || O::le(s.last(), x) {
        s.push(x)
    } else {
        inserted::<O>(s.drop_last(), x).push(s.last())
    }
}

/// The items of `s` in order; items that are equal in the order keep their places among each other.
pub open spec fn sorted<O: Order>(s: Seq<<O::Item as View>::V>) -> Seq<<O::Item as View>::V>
    decreases s.len(),
{
    if s.len() == 0 {
        s
    } else {
        inserted::<O>(sorted::<O>(s.drop_last()), s.last())
    }
}

/// Puts `x` into the sorted list `v`.
fn insert<O: Order>(v: &mut Vec<O::Item>, x: O::Item)
    ensures
        models(final(v)@) == inserted::<O>(models(old(v)@), x@),
{
    let ghost s = models(v@);
    let mut j: usize = v.len();
    assert(s.take(j as int) == s);
    assert(inserted::<O>(s, x@) + s.skip(j as int) == inserted::<O>(s, x@));
    while j > 0 && !O::not_after(&v[j - 1], &x)
        invariant
            j <= v@.len(),
            s == models(v@),
            inserted::<O>(s, x@) == inserted::<O>(s.take(j as int), x@) + s.skip(j as int),
        decreases j,
    {
        let ghost head = s.take(j as int);
        assert(head.drop_last() == s.take(j - 1));
        assert(head.last() == v@[j - 1]@);
        assert(inserted::<O>(head, x@) == inserted::<O>(s.take(j - 1), x@).push(head.last()));
        assert(inserted::<O>(s.take(j - 1), x@).push(head.last()) + s.skip(j as int)
            == inserted::<O>(s.take(j - 1), x@) + s.skip(j - 1));
        j -= 1;
    }
    let ghost xv = x@;
    assert(j > 0 ==> s.take(j as int).last() == v@[j - 1]@);
    assert(inserted::<O>(s.take(j as int), xv) == s.take(j as int).push(xv));
    v.insert(j, x);
    assert(models(v@) == s.take(j as int).push(xv) + s.skip(j as int));
}

/// Sorts `v`; the sort is stable.
pub fn sort<O: Order>(v: &mut Vec<O::Item>)
    ensures
        models(final(v)@) == sorted::<O>(models(old(v)@)),
{
    let ghost all = models(v@);
    let mut out: Vec<O::Item> = Vec::new();
    let ghost mut k: int = 0;
    assert(models(out@) == all.take(0));
    while v.len() > 0
        invariant
            0 <= k <= all.len(),
            models(v@) == all.skip(k),
            models(out@) == sorted::<O>(all.take(k)),
        decreases v@.len(),
    {
        let ghost before = v@;
        let x = v.remove(0);
        proof {
            assert(models(before)[0] == x@);
            assert(all.skip(k).len() == models(before).len());
            assert(x@ == all.skip(k)[0]);
            assert(models(v@) == models(before).drop_first());
            assert(all.skip(k).drop_first() == all.skip(k + 1));
            assert(all.take(k + 1).drop_last() == all.take(k));
            k = k + 1;
        }
        insert::<O>(&mut out, x);
    }
    assert(models(v@).len() == 0);
    assert(all.take(k) == all);
    *v = out;
}

// ---------------------------------------------------------------------------
// Properties
// ---------------------------------------------------------------------------

/// The lexicographic order is total.
pub proof fn lemma_lex_total(a: Seq<char>, b: Seq<char>)
    ensures
        lex_le(a, b) || lex_le(b, a),
    decreases a.len(),
{
    if a.len() > 0 && b.len() > 0 && a[0] == b[0] {
        lemma_lex_total(a.drop_first(), b.drop_first());
    }
}

/// The lexicographic order is transitive.
pub proof fn lemma_lex_transitive(a: Seq<char>, b: Seq<char>, c: Seq<char>)
    requires
        lex_le(a, b),
        lex_le(b, c),
    ensures
        lex_le(a, c),
    decreases a.len(),
{
    if a.len() > 0 && b.len() > 0 && c.len() > 0 && a[0] == b[0] && b[0] == c[0] {
        lemma_lex_transitive(a.drop_first(), b.drop_first(), c.drop_first());
    }
}

/// Two texts that each come before the other are the same.
pub proof fn lemma_lex_antisymmetric(a: Seq<char>, b: Seq<char>)
    requires
        lex_le(a, b),
        lex_le(b, a),
    ensures
        a == b,
    decreases a.len(),
{
    if a.len() > 0 && b.len() > 0 {
        assert(a[0] == b[0]);
        let x = a.drop_first();
        let y = b.drop_first();
        lemma_lex_antisymmetric(x, y);
        assert forall|i: int| 0 <= i < a.len() implies a[i] == b[i] by {
            if i > 0 {
                assert(x[i - 1] == a[i]);
                assert(y[i - 1] == b[i]);
            }
        }
    }
    assert(a =~= b);
}

/// Whether `O` compares any two items, and consistently.
pub open spec fn is_total_preorder<O: Order>() -> bool {
    &&& forall|a: <O::Item as View>::V, b: <O::Item as View>::V|
        #![trigger O::le(a, b)]
        O::le(a, b) || O::le(b, a)
    &&& forall|
        a: <O::Item as View>::V,
        b: <O::Item as View>::V,
        c: <O::Item as View>::V,
    |
        #![trigger O::le(a, b), O::le(b, c)]
        O::le(a, b) && O::le(b, c) ==> O::le(a, c)
}

/// Whether each item of `s` may stand before each later one.
pub open spec fn in_order<O: Order>(s: Seq<<O::Item as View>::V>) -> bool {
    forall|i: int, j: int| 0 <= i < j < s.len() ==> O::le(#[trigger] s[i], #[trigger] s[j])
}

/// Insertion adds one item and takes none away.
pub proof fn lemma_inserted_multiset<O: Order>(
    s: Seq<<O::Item as View>::V>,
    x: <O::Item as View>::V,
)
    ensures
        inserted::<O>(s, x).len() == s.len() + 1,
        inserted::<O>(s, x).to_multiset() == s.to_multiset().insert(x),
    decreases s.len(),
{
    broadcast use vstd::seq_lib::group_to_multiset_ensures;

    if s.len() > 0 && !O::le(s.last(), x) {
        let init = s.drop_last();
        lemma_inserted_multiset::<O>(init, x);
        assert(s == init.push(s.last()));
        assert(inserted::<O>(s, x).to_multiset() == init.to_multiset().insert(x).insert(s.last()));
        assert(init.to_multiset().insert(x).insert(s.last()) =~= init.to_multiset().insert(
            s.last(),
        ).insert(x));
    }
}

/// Sorting permutes the items.
pub proof fn lemma_sorted_permutes<O: Order>(s: Seq<<O::Item as View>::V>)
    ensures
        sorted::<O>(s).len() == s.len(),
        sorted::<O>(s).to_multiset() == s.to_multiset(),
    decreases s.len(),
{
    broadcast use vstd::seq_lib::group_to_multiset_ensures;

    if s.len() > 0 {
        let init = s.drop_last();
        lemma_sorted_permutes::<O>(init);
        lemma_inserted_multiset::<O>(sorted::<O>(init), s.last());
        assert(s == init.push(s.last()));
    }
}

/// Insertion keeps a list in order.
pub proof fn lemma_inserted_in_order<O: Order>(
    s: Seq<<O::Item as View>::V>,
    x: <O::Item as View>::V,
)
    requires
        is_total_preorder::<O>(),
        in_order::<O>(s),
    ensures
        in_order::<O>(inserted::<O>(s, x)),
        forall|y: <O::Item as View>::V|
            #![trigger O::le(x, y)]
            O::le(x, y) && (forall|i: int| 0 <= i < s.len() ==> O::le(#[trigger] s[i], y))
                ==> forall|i: int|
                0 <= i < inserted::<O>(s, x).len() ==> O::le(#[trigger] inserted::<O>(s, x)[i], y),
    decreases s.len(),
{
    let out = inserted::<O>(s, x);
    if s.len() == 0 {
        assert(out == seq![x]);
    } else if O::le(s.last(), x) {
        assert forall|i: int, j: int| 0 <= i < j < out.len() implies O::le(
            #[trigger] out[i],
            #[trigger] out[j],
        ) by {
            if j == s.len() {
                if i < s.len() - 1 {
                    assert(O::le(s[i], s.last()));
                }
            }
        }
    } else {
        let init = s.drop_last();
        let last = s.last();
        lemma_inserted_in_order::<O>(init, x);
        assert(O::le(x, last));
        assert forall|i: int| 0 <= i < init.len() implies O::le(#[trigger] init[i], last) by {
            assert(O::le(s[i], s[s.len() - 1]));
        }
        let head = inserted::<O>(init, x);
        lemma_inserted_multiset::<O>(init, x);
        assert(out == head.push(last));
        assert forall|i: int, j: int| 0 <= i < j < out.len() implies O::le(
            #[trigger] out[i],
            #[trigger] out[j],
        ) by {
            if j == head.len() {
                assert(O::le(head[i], last));
            } else {
                assert(O::le(head[i], head[j]));
            }
        }
        assert forall|y: <O::Item as View>::V|
            #![trigger O::le(x, y)]
            O::le(x, y) && (forall|i: int| 0 <= i < s.len() ==> O::le(#[trigger] s[i], y)) implies (
        forall|i: int| 0 <= i < out.len() ==> O::le(#[trigger] out[i], y)) by {
            assert forall|i: int| 0 <= i < init.len() implies O::le(#[trigger] init[i], y) by {
                assert(O::le(s[i], y));
            }
            assert forall|i: int| 0 <= i < out.len() implies O::le(#[trigger] out[i], y) by {
                if i < head.len() {
                    assert(O::le(head[i], y));
                } else {
                    assert(O::le(s[s.len() - 1], y));
                }
            }
        }
    }
}

/// Sorting puts the items in order.
pub proof fn lemma_sorted_in_order<O: Order>(s: Seq<<O::Item as View>::V>)
    requires
        is_total_preorder::<O>(),
    ensures
        in_order::<O>(sorted::<O>(s)),
    decreases s.len(),
{
    if s.len() > 0 {
        lemma_sorted_in_order::<O>(s.drop_last());
        lemma_inserted_in_order::<O>(sorted::<O>(s.drop_last()), s.last());
    }
}

/// Insertion keeps items that are equal in the order in their places: `p` picks such items.
proof fn lemma_inserted_stable<O: Order>(
    s: Seq<<O::Item as View>::V>,
    x: <O::Item as View>::V,
    p: spec_fn(<O::Item as View>::V) -> bool,
)
    requires
        forall|a: <O::Item as View>::V, b: <O::Item as View>::V|
            #![trigger O::le(a, b)]
            p(a) && p(b) ==> O::le(a, b),
    ensures
        inserted::<O>(s, x).filter(p) == s.push(x).filter(p),
    decreases s.len(),
{
    reveal(Seq::filter);
    if s.len() > 0 && !O::le(s.last(), x) {
        let init = s.drop_last();
        lemma_inserted_stable::<O>(init, x, p);
        assert(inserted::<O>(s, x).drop_last() == inserted::<O>(init, x));
        assert(s.push(x).drop_last() == s);
        assert(init.push(x).drop_last() == init);
        assert(s.push(x).filter(p) == if p(x) {
            s.filter(p).push(x)
        } else {
            s.filter(p)
        });
    }
}

/// Sorting is stable: items that are equal in the order keep their places among each other. `p` picks
/// such items.
pub proof fn lemma_sorted_stable<O: Order>(
    s: Seq<<O::Item as View>::V>,
    p: spec_fn(<O::Item as View>::V) -> bool,
)
    requires
        forall|a: <O::Item as View>::V, b: <O::Item as View>::V|
            #![trigger O::le(a, b)]
            p(a) && p(b) ==> O::le(a, b),
    ensures
        sorted::<O>(s).filter(p) == s.filter(p),
    decreases s.len(),
{
    reveal(Seq::filter);
    if s.len() > 0 {
        let init = s.drop_last();
        lemma_sorted_stable::<O>(init, p);
        lemma_inserted_stable::<O>(sorted::<O>(init), s.last(), p);
        assert(sorted::<O>(init).push(s.last()).drop_last() == sorted::<O>(init));
    }
}

/// Whether `part` is `whole` with some items left out.
pub open spec fn is_subsequence<A>(part: Seq<A>, whole: Seq<A>) -> bool
    decreases whole.len(),
{
    if whole.len() == 0 {
        part.len() == 0
    } else {
        ||| is_subsequence(part, whole.drop_last())
        ||| part.len() > 0 && part.last() == whole.last() && is_subsequence(
            part.drop_last(),
            whole.drop_last(),
        )
    }
}

} // verus!

//! What is in the result of filtering and flattening a sequence.

use vstd::prelude::*;

verus! {

/// What `filter_map` keeps comes from some element.
pub(crate) proof fn lemma_filter_map_source<A, B>(
    s: Seq<A>,
    f: spec_fn(A) -> Option<B>,
    k: int,
) -> (i: int)
    requires
        0 <= k < s.filter_map(f).len(),
    ensures
        0 <= i < s.len(),
        f(s[i]) == Some(s.filter_map(f)[k]),
    decreases s.len(),
{
    let rest = s.drop_last();
    if k < rest.filter_map(f).len() {
        let i = lemma_filter_map_source(rest, f, k);
        assert(rest[i] == s[i]);
        i
    } else {
        s.len() - 1
    }
}

/// `filter_map` keeps what every element gives.
pub(crate) proof fn lemma_filter_map_target<A, B>(
    s: Seq<A>,
    f: spec_fn(A) -> Option<B>,
    i: int,
) -> (k: int)
    requires
        0 <= i < s.len(),
        f(s[i]) is Some,
    ensures
        0 <= k < s.filter_map(f).len(),
        f(s[i]) == Some(s.filter_map(f)[k]),
    decreases s.len(),
{
    let rest = s.drop_last();
    if i < rest.len() {
        assert(rest[i] == s[i]);
        lemma_filter_map_target(rest, f, i)
    } else {
        rest.filter_map(f).len() as int
    }
}

/// The first element that gives something gives the first that `filter_map` keeps.
pub(crate) proof fn lemma_filter_map_first<A, B>(s: Seq<A>, f: spec_fn(A) -> Option<B>, i: int)
    requires
        0 <= i < s.len(),
        f(s[i]) is Some,
        forall|j: int| 0 <= j < i ==> f(#[trigger] s[j]) is None,
    ensures
        s.filter_map(f).len() > 0,
        s.filter_map(f)[0] == f(s[i])->0,
    decreases s.len(),
{
    let rest = s.drop_last();
    if i < rest.len() {
        assert forall|j: int| 0 <= j < i implies f(#[trigger] rest[j]) is None by {
            assert(rest[j] == s[j]);
        }
        assert(rest[i] == s[i]);
        lemma_filter_map_first(rest, f, i);
    } else {
        if rest.filter_map(f).len() > 0 {
            let j = lemma_filter_map_source(rest, f, 0);
            assert(f(s[j]) is None);
            assert(rest[j] == s[j]);
        }
    }
}

/// Every element of a `flat_map` comes from some element.
pub(crate) proof fn lemma_flat_map_source<A, B>(
    s: Seq<A>,
    f: spec_fn(A) -> Seq<B>,
    k: int,
) -> (r: (int, int))
    requires
        0 <= k < s.flat_map(f).len(),
    ensures
        0 <= r.0 < s.len(),
        0 <= r.1 < f(s[r.0]).len(),
        f(s[r.0])[r.1] == s.flat_map(f)[k],
    decreases s.len(),
{
    if s.len() == 0 {
        assert(s.flat_map(f) =~= Seq::<B>::empty());
        (0, 0)
    } else {
        let rest = s.drop_last();
        rest.lemma_flat_map_push(f, s.last());
        assert(rest.push(s.last()) =~= s);
        if k < rest.flat_map(f).len() {
            let r = lemma_flat_map_source(rest, f, k);
            assert(rest[r.0] == s[r.0]);
            r
        } else {
            (s.len() - 1, k - rest.flat_map(f).len())
        }
    }
}

/// A `flat_map` holds all that every element gives.
pub(crate) proof fn lemma_flat_map_target<A, B>(
    s: Seq<A>,
    f: spec_fn(A) -> Seq<B>,
    i: int,
    j: int,
) -> (k: int)
    requires
        0 <= i < s.len(),
        0 <= j < f(s[i]).len(),
    ensures
        0 <= k < s.flat_map(f).len(),
        f(s[i])[j] == s.flat_map(f)[k],
    decreases s.len(),
{
    let rest = s.drop_last();
    rest.lemma_flat_map_push(f, s.last());
    assert(rest.push(s.last()) =~= s);
    if i < rest.len() {
        assert(rest[i] == s[i]);
        lemma_flat_map_target(rest, f, i, j)
    } else {
        rest.flat_map(f).len() + j
    }
}

/// `filter_map` of two sequences, one behind the other.
pub(crate) proof fn lemma_filter_map_add<A, B>(a: Seq<A>, b: Seq<A>, f: spec_fn(A) -> Option<B>)
    ensures
        (a + b).filter_map(f) == a.filter_map(f) + b.filter_map(f),
    decreases b.len(),
{
    if b.len() == 0 {
        assert(a + b =~= a);
    } else {
        lemma_filter_map_add(a, b.drop_last(), f);
        assert((a + b).drop_last() =~= a + b.drop_last());
        assert((a + b).filter_map(f) =~= a.filter_map(f) + b.filter_map(f));
    }
}

/// `flat_map` of two sequences, one behind the other.
pub(crate) proof fn lemma_flat_map_add<A, B>(a: Seq<A>, b: Seq<A>, f: spec_fn(A) -> Seq<B>)
    ensures
        (a + b).flat_map(f) == a.flat_map(f) + b.flat_map(f),
    decreases b.len(),
{
    if b.len() == 0 {
        assert(a + b =~= a);
        assert(b.flat_map(f) =~= Seq::<B>::empty());
    } else {
        let rest = b.drop_last();
        lemma_flat_map_add(a, rest, f);
        rest.lemma_flat_map_push(f, b.last());
        (a + rest).lemma_flat_map_push(f, b.last());
        assert(rest.push(b.last()) =~= b);
        assert((a + rest).push(b.last()) =~= a + b);
        assert((a + b).flat_map(f) =~= a.flat_map(f) + b.flat_map(f));
    }
}

/// Two functions whose results `g` takes to each other give `filter_map`s that it
/// takes to each other.
pub(crate) proof fn lemma_filter_map_mapped<A, B>(
    s: Seq<A>,
    f: spec_fn(A) -> Option<B>,
    h: spec_fn(A) -> Option<B>,
    g: spec_fn(B) -> B,
)
    requires
        forall|i: int|
            0 <= i < s.len() ==> h(#[trigger] s[i]) == match f(s[i]) {
                Some(x) => Some(g(x)),
                None => None,
            },
    ensures
        s.filter_map(h) == s.filter_map(f).map_values(g),
    decreases s.len(),
{
    if s.len() > 0 {
        let rest = s.drop_last();
        assert forall|i: int| 0 <= i < rest.len() implies h(#[trigger] rest[i]) == match f(rest[i]) {
            Some(x) => Some(g(x)),
            None => None,
        } by {
            assert(rest[i] == s[i]);
        }
        lemma_filter_map_mapped(rest, f, h, g);
        assert(h(s[s.len() - 1]) is Some == f(s[s.len() - 1]) is Some);
    }
    assert(s.filter_map(h) =~= s.filter_map(f).map_values(g));
}

/// Two functions whose results `g` takes to each other give `flat_map`s that it takes
/// to each other.
pub(crate) proof fn lemma_flat_map_mapped<A, B>(
    s: Seq<A>,
    f: spec_fn(A) -> Seq<B>,
    h: spec_fn(A) -> Seq<B>,
    g: spec_fn(B) -> B,
)
    requires
        forall|i: int| 0 <= i < s.len() ==> h(#[trigger] s[i]) == f(s[i]).map_values(g),
    ensures
        s.flat_map(h) == s.flat_map(f).map_values(g),
    decreases s.len(),
{
    if s.len() > 0 {
        let rest = s.drop_last();
        assert forall|i: int| 0 <= i < rest.len() implies h(#[trigger] rest[i]) == f(
            rest[i],
        ).map_values(g) by {
            assert(rest[i] == s[i]);
        }
        lemma_flat_map_mapped(rest, f, h, g);
        rest.lemma_flat_map_push(f, s.last());
        rest.lemma_flat_map_push(h, s.last());
        assert(rest.push(s.last()) =~= s);
        assert(h(s[s.len() - 1]) == f(s[s.len() - 1]).map_values(g));
    }
    assert(s.flat_map(h) =~= s.flat_map(f).map_values(g));
}

/// Two functions whose results filter to the same give `flat_map`s that filter to the
/// same.
pub(crate) proof fn lemma_flat_map_filtered<A, B>(
    s: Seq<A>,
    f: spec_fn(A) -> Seq<B>,
    p: spec_fn(B) -> bool,
    h: spec_fn(A) -> Seq<B>,
    q: spec_fn(B) -> bool,
)
    requires
        forall|i: int| 0 <= i < s.len() ==> f(#[trigger] s[i]).filter(p) == h(s[i]).filter(q),
    ensures
        s.flat_map(f).filter(p) == s.flat_map(h).filter(q),
    decreases s.len(),
{
    if s.len() == 0 {
        reveal(Seq::filter);
        assert(s.flat_map(f) =~= Seq::<B>::empty());
        assert(s.flat_map(h) =~= Seq::<B>::empty());
    } else {
        let rest = s.drop_last();
        assert forall|i: int| 0 <= i < rest.len() implies f(#[trigger] rest[i]).filter(p) == h(
            rest[i],
        ).filter(q) by {
            assert(rest[i] == s[i]);
        }
        lemma_flat_map_filtered(rest, f, p, h, q);
        rest.lemma_flat_map_push(f, s.last());
        rest.lemma_flat_map_push(h, s.last());
        assert(rest.push(s.last()) =~= s);
        Seq::filter_distributes_over_add(rest.flat_map(f), f(s.last()), p);
        Seq::filter_distributes_over_add(rest.flat_map(h), h(s.last()), q);
        assert(f(s[s.len() - 1]).filter(p) == h(s[s.len() - 1]).filter(q));
    }
}

/// A filter that holds of every element keeps the sequence; one that holds of none
/// leaves nothing.
pub(crate) proof fn lemma_filter_all_or_none<A>(s: Seq<A>, p: spec_fn(A) -> bool)
    ensures
        (forall|i: int| 0 <= i < s.len() ==> p(#[trigger] s[i])) ==> s.filter(p) == s,
        (forall|i: int| 0 <= i < s.len() ==> !p(#[trigger] s[i])) ==> s.filter(p) == Seq::<
            A,
        >::empty(),
    decreases s.len(),
{
    reveal(Seq::filter);
    if s.len() == 0 {
        assert(s.filter(p) =~= s);
        assert(s =~= Seq::<A>::empty());
    } else {
        let rest = s.drop_last();
        lemma_filter_all_or_none(rest, p);
        assert(forall|i: int| 0 <= i < rest.len() ==> #[trigger] rest[i] == s[i]);
        assert(s[s.len() - 1] == s.last());
        assert(rest.push(s.last()) =~= s);
    }
}

/// The last element that a filter keeps is the last one that it holds of.
pub(crate) proof fn lemma_filter_last<A>(s: Seq<A>, p: spec_fn(A) -> bool) -> (i: int)
    requires
        s.filter(p).len() > 0,
    ensures
        0 <= i < s.len(),
        p(s[i]),
        s[i] == s.filter(p).last(),
        forall|j: int| i < j < s.len() ==> !p(#[trigger] s[j]),
    decreases s.len(),
{
    reveal(Seq::filter);
    if p(s.last()) {
        s.len() - 1
    } else {
        let rest = s.drop_last();
        let i = lemma_filter_last(rest, p);
        assert forall|j: int| i < j < s.len() implies !p(#[trigger] s[j]) by {
            if j < rest.len() {
                assert(rest[j] == s[j]);
            }
        }
        i
    }
}

} // verus!

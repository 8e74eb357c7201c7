//! Facts about sequences.

use vstd::prelude::*;

verus! {

/// `filter_map` works on the two halves of a sequence by themselves.
pub proof fn lemma_filter_map_concat<A, B>(a: Seq<A>, b: Seq<A>, f: spec_fn(A) -> Option<B>)
    ensures
        (a + b).filter_map(f) == a.filter_map(f) + b.filter_map(f),
    decreases b.len(),
{
    if b.len() == 0 {
        assert(a + b =~= a);
        assert(b.filter_map(f) =~= Seq::empty());
    } else {
        assert((a + b).drop_last() =~= a + b.drop_last());
        lemma_filter_map_concat(a, b.drop_last(), f);
    }
}

/// What `filter_map` makes of an element is in the result.
pub proof fn lemma_filter_map_has<A, B>(s: Seq<A>, f: spec_fn(A) -> Option<B>, i: int)
    requires
        0 <= i < s.len(),
        f(s[i]) is Some,
    ensures
        s.filter_map(f).contains(f(s[i])->0),
    decreases s.len(),
{
    let front = s.drop_last();
    if i == s.len() - 1 {
        let r = s.filter_map(f);
        assert(r == front.filter_map(f) + seq![f(s[i])->0]);
        assert(r[r.len() - 1] == f(s[i])->0);
    } else {
        lemma_filter_map_has(front, f, i);
        let x = f(s[i])->0;
        let j = choose|j: int| 0 <= j < front.filter_map(f).len() && front.filter_map(f)[j] == x;
        assert(s.filter_map(f)[j] == x);
    }
}

/// `filter_map` keeps the order: what comes earlier in the result comes from an
/// earlier element.
pub proof fn lemma_filter_map_order<A, B>(
    s: Seq<A>,
    f: spec_fn(A) -> Option<B>,
    x: int,
    y: int,
) -> (at: (int, int))
    requires
        0 <= x < y < s.filter_map(f).len(),
    ensures
        0 <= at.0 < at.1 < s.len(),
        f(s[at.0]) == Some(s.filter_map(f)[x]),
        f(s[at.1]) == Some(s.filter_map(f)[y]),
    decreases s.len(),
{
    let front = s.drop_last();
    let before = front.filter_map(f);
    if y < before.len() {
        let at = lemma_filter_map_order(front, f, x, y);
        at
    } else {
        assert(s.filter_map(f) == before + seq![f(s.last())->0]);
        let i = lemma_filter_map_source(front, f, x);
        (i, s.len() - 1)
    }
}

/// What stands in the result of `filter_map` comes from an element.
pub proof fn lemma_filter_map_source<A, B>(s: Seq<A>, f: spec_fn(A) -> Option<B>, x: int) -> (i:
    int)
    requires
        0 <= x < s.filter_map(f).len(),
    ensures
        0 <= i < s.len(),
        f(s[i]) == Some(s.filter_map(f)[x]),
    decreases s.len(),
{
    let front = s.drop_last();
    let before = front.filter_map(f);
    if x < before.len() {
        let i = lemma_filter_map_source(front, f, x);
        i
    } else {
        assert(s.filter_map(f) == before + seq![f(s.last())->0]);
        s.len() - 1
    }
}

/// `filter_map` makes one item of each element that it makes one of.
pub proof fn lemma_filter_map_count<A, B>(
    s: Seq<A>,
    f: spec_fn(A) -> Option<B>,
    p: spec_fn(A) -> bool,
)
    requires
        forall|i: int| 0 <= i < s.len() ==> (f(#[trigger] s[i]) is Some <==> p(s[i])),
    ensures
        s.filter_map(f).len() == s.filter(p).len(),
    decreases s.len(),
{
    reveal(Seq::filter);
    if s.len() > 0 {
        let front = s.drop_last();
        assert(forall|i: int| 0 <= i < front.len() ==> #[trigger] front[i] == s[i]);
        assert(f(s[s.len() - 1]) is Some <==> p(s[s.len() - 1]));
        lemma_filter_map_count(front, f, p);
    }
}

} // verus!

//! Facts about sequences that are built item by item.
use crate::models::all_views;
use vstd::prelude::*;

verus! {

/// `filter_map` over one more item.
pub proof fn lemma_filter_map_next<A, B>(s: Seq<A>, f: spec_fn(A) -> Option<B>, i: int)
    requires
        0 <= i < s.len(),
    ensures
        s.take(i + 1).filter_map(f) == match f(s[i]) {
            Some(b) => s.take(i).filter_map(f).push(b),
            None => s.take(i).filter_map(f),
        },
{
    assert(s.take(i + 1).drop_last() == s.take(i));
    assert(s.take(i + 1).last() == s[i]);
}

/// `filter_map` over one more item in front.
pub proof fn lemma_filter_map_first<A, B>(a: A, s: Seq<A>, f: spec_fn(A) -> Option<B>)
    ensures
        (seq![a] + s).filter_map(f) == match f(a) {
            Some(b) => seq![b] + s.filter_map(f),
            None => s.filter_map(f),
        },
    decreases s.len(),
{
    let all = seq![a] + s;
    let none = Seq::<A>::empty();
    assert(none.filter_map(f) =~= Seq::<B>::empty());
    if s.len() == 0 {
        assert(s =~= none);
        assert(all.drop_last() =~= none);
        assert(all.last() == a);
    } else {
        lemma_filter_map_first(a, s.drop_last(), f);
        assert(all.drop_last() =~= seq![a] + s.drop_last());
        assert(all.last() == s.last());
        if let (Some(b), Some(c)) = (f(a), f(s.last())) {
            let init = s.drop_last().filter_map(f);
            assert((seq![b] + init).push(c) =~= seq![b] + init.push(c));
        }
    }
}

/// `filter_map` takes the items that it keeps, in their order, each for its image.
pub proof fn lemma_filter_map_is<A, B>(
    s: Seq<A>,
    f: spec_fn(A) -> Option<B>,
    keep: spec_fn(A) -> bool,
    image: spec_fn(A) -> B,
)
    requires
        forall|a: A| #[trigger]
            f(a) == if keep(a) {
                Some(image(a))
            } else {
                None
            },
    ensures
        s.filter_map(f) == s.filter(keep).map_values(image),
    decreases s.len(),
{
    reveal(Seq::filter);
    if s.len() == 0 {
        assert(s.filter_map(f) =~= s.filter(keep).map_values(image));
    } else {
        let init = s.drop_last();
        lemma_filter_map_is(init, f, keep, image);
        assert(f(s.last()) == if keep(s.last()) {
            Some(image(s.last()))
        } else {
            None
        });
        if keep(s.last()) {
            assert(init.filter(keep).push(s.last()).map_values(image) =~= init.filter(
                keep,
            ).map_values(image).push(image(s.last())));
        }
    }
}

/// `filter` over one more item.
pub proof fn lemma_filter_next<A>(s: Seq<A>, f: spec_fn(A) -> bool, i: int)
    requires
        0 <= i < s.len(),
    ensures
        s.take(i + 1).filter(f) == if f(s[i]) {
            s.take(i).filter(f).push(s[i])
        } else {
            s.take(i).filter(f)
        },
{
    reveal(Seq::filter);
    assert(s.take(i + 1).drop_last() == s.take(i));
    assert(s.take(i + 1).last() == s[i]);
}

/// `map_values` over one more item.
pub proof fn lemma_map_next<A, B>(s: Seq<A>, f: spec_fn(A) -> B, i: int)
    requires
        0 <= i < s.len(),
    ensures
        s.take(i + 1).map_values(f) == s.take(i).map_values(f).push(f(s[i])),
{
    assert(s.take(i + 1).map_values(f) =~= s.take(i).map_values(f).push(f(s[i])));
}

/// The whole of a sequence.
pub proof fn lemma_take_all<A>(s: Seq<A>)
    ensures
        s.take(s.len() as int) == s,
{
    assert(s.take(s.len() as int) =~= s);
}

/// The views of one more item.
pub proof fn lemma_views_push<T: View>(s: Seq<T>, x: T)
    ensures
        all_views(s.push(x)) == all_views(s).push(x@),
{
    assert(all_views(s.push(x)) =~= all_views(s).push(x@));
}

} // verus!

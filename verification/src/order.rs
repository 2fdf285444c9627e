//! Sorting, and the order of texts.
use crate::text::{chars_of, same_text, texts};
use vstd::prelude::*;
use vstd::string::*;

verus! {

// ---------------------------------------------------------------------------
// The order of texts
// ---------------------------------------------------------------------------

/// Whether `a` comes before `b`: at the first character in which they differ it
/// has the smaller code point, or it is the shorter one and the other goes on
/// from it.
pub open spec fn text_before(a: Seq<char>, b: Seq<char>) -> bool
    decreases a.len(),
{
    if b.len() == 0 {
        false
    } else if a.len() == 0 {
        true
    } else if a[0] == b[0] {
        text_before(a.skip(1), b.skip(1))
    } else {
        a[0] < b[0]
    }
}

/// Whether `a` comes before `b`.
pub fn comes_before(a: &[char], b: &[char]) -> (r: bool)
    ensures
        r == text_before(a@, b@),
{
    let mut i: usize = 0;
    proof {
        assert(a@.skip(0) =~= a@);
        assert(b@.skip(0) =~= b@);
    }
    while i < a.len() && i < b.len() && a[i] == b[i]
        invariant
            i <= a@.len(),
            i <= b@.len(),
            text_before(a@, b@) == text_before(a@.skip(i as int), b@.skip(i as int)),
        decreases a@.len() - i,
    {
        proof {
            assert(a@.skip(i as int).skip(1) =~= a@.skip(i + 1));
            assert(b@.skip(i as int).skip(1) =~= b@.skip(i + 1));
        }
        i = i + 1;
    }
    if i < b.len() {
        i == a.len() || a[i] < b[i]
    } else {
        false
    }
}

/// No text comes before itself.
pub proof fn lemma_text_irreflexive(a: Seq<char>)
    ensures
        !text_before(a, a),
    decreases a.len(),
{
    if a.len() > 0 {
        lemma_text_irreflexive(a.skip(1));
    }
}

/// Of two different texts one comes before the other.
pub proof fn lemma_text_total(a: Seq<char>, b: Seq<char>)
    ensures
        a == b || text_before(a, b) || text_before(b, a),
    decreases a.len(),
{
    if a.len() > 0 && b.len() > 0 {
        if a[0] == b[0] {
            lemma_text_total(a.skip(1), b.skip(1));
            if a.skip(1) == b.skip(1) {
                assert(a =~= seq![a[0]] + a.skip(1));
                assert(b =~= seq![b[0]] + b.skip(1));
            }
        }
    } else if a.len() == 0 && b.len() == 0 {
        assert(a =~= b);
    }
}

/// What comes before a text that comes before a third comes before the third.
pub proof fn lemma_text_transitive(a: Seq<char>, b: Seq<char>, c: Seq<char>)
    requires
        text_before(a, b),
        text_before(b, c),
    ensures
        text_before(a, c),
    decreases a.len(),
{
    if a.len() > 0 && a[0] == b[0] && b[0] == c[0] {
        lemma_text_transitive(a.skip(1), b.skip(1), c.skip(1));
    }
}

// ---------------------------------------------------------------------------
// Sorting
// ---------------------------------------------------------------------------

/// `s` with `x` put in behind all items that it does not come before, counted
/// from the end.
pub open spec fn inserted<T>(s: Seq<T>, x: T, before: spec_fn(T, T) -> bool) -> Seq<T>
    decreases s.len(),
{
    if s.len() > 0 && before(x, s.last()) {
        inserted(s.drop_last(), x, before).push(s.last())
    } else {
        s.push(x)
    }
}

/// `s` in order, items of equal rank staying in the order in which they stand.
pub open spec fn sorted_of<T>(s: Seq<T>, before: spec_fn(T, T) -> bool) -> Seq<T>
    decreases s.len(),
{
    if s.len() == 0 {
        s
    } else {
        inserted(sorted_of(s.drop_last(), before), s.last(), before)
    }
}

/// Whether no item comes before one that stands ahead of it.
pub open spec fn in_order<T>(s: Seq<T>, before: spec_fn(T, T) -> bool) -> bool {
    forall|i: int, j: int| 0 <= i < j < s.len() ==> !before(#[trigger] s[j], #[trigger] s[i])
}

/// Whether `before` orders items by rank: what comes before another comes, of
/// any third, before it or not after the other.
pub open spec fn ranks<T>(before: spec_fn(T, T) -> bool) -> bool {
    &&& forall|a: T| !#[trigger] before(a, a)
    &&& forall|a: T, b: T| #[trigger] before(a, b) ==> !before(b, a)
    &&& forall|a: T, b: T, c: T| #[trigger]
        before(a, b) ==> #[trigger] before(a, c) || before(c, b)
}

/// Sorting keeps the items.
pub proof fn lemma_sorted_permutes<T>(s: Seq<T>, before: spec_fn(T, T) -> bool)
    ensures
        sorted_of(s, before).to_multiset() == s.to_multiset(),
        sorted_of(s, before).len() == s.len(),
    decreases s.len(),
{
    broadcast use vstd::seq_lib::group_to_multiset_ensures;

    if s.len() > 0 {
        lemma_sorted_permutes(s.drop_last(), before);
        lemma_inserted_permutes(sorted_of(s.drop_last(), before), s.last(), before);
        assert(s =~= s.drop_last().push(s.last()));
    }
}

/// Putting an item in adds it and nothing else.
proof fn lemma_inserted_permutes<T>(s: Seq<T>, x: T, before: spec_fn(T, T) -> bool)
    ensures
        inserted(s, x, before).to_multiset() == s.to_multiset().insert(x),
        inserted(s, x, before).len() == s.len() + 1,
    decreases s.len(),
{
    broadcast use vstd::seq_lib::group_to_multiset_ensures;

    if s.len() > 0 && before(x, s.last()) {
        lemma_inserted_permutes(s.drop_last(), x, before);
        assert(s =~= s.drop_last().push(s.last()));
        assert(inserted(s, x, before).to_multiset() =~= s.to_multiset().insert(x));
    }
}

/// Whether `y` comes before none of the items.
spec fn before_none<T>(y: T, s: Seq<T>, before: spec_fn(T, T) -> bool) -> bool {
    forall|i: int| 0 <= i < s.len() ==> !before(y, #[trigger] s[i])
}

/// What comes before no item and not before the one that is put in comes before
/// none afterwards.
proof fn lemma_inserted_behind<T>(s: Seq<T>, x: T, before: spec_fn(T, T) -> bool, y: T)
    requires
        before_none(y, s, before),
        !before(y, x),
    ensures
        before_none(y, inserted(s, x, before), before),
    decreases s.len(),
{
    let r = inserted(s, x, before);
    if s.len() > 0 && before(x, s.last()) {
        let init = s.drop_last();
        assert forall|i: int| 0 <= i < init.len() implies !before(y, #[trigger] init[i]) by {
            assert(init[i] == s[i]);
        }
        lemma_inserted_behind(init, x, before, y);
        let q = inserted(init, x, before);
        assert forall|i: int| 0 <= i < r.len() implies !before(y, #[trigger] r[i]) by {
            if i < q.len() {
                assert(r[i] == q[i]);
            } else {
                assert(r[i] == s[s.len() - 1]);
            }
        }
    } else {
        assert forall|i: int| 0 <= i < r.len() implies !before(y, #[trigger] r[i]) by {
            if i < s.len() {
                assert(r[i] == s[i]);
            }
        }
    }
}

/// What is put in goes into order.
proof fn lemma_inserted_in_order<T>(s: Seq<T>, x: T, before: spec_fn(T, T) -> bool)
    requires
        ranks(before),
        in_order(s, before),
    ensures
        in_order(inserted(s, x, before), before),
    decreases s.len(),
{
    let r = inserted(s, x, before);
    if s.len() > 0 && before(x, s.last()) {
        let init = s.drop_last();
        lemma_inserted_in_order(init, x, before);
        let q = inserted(init, x, before);
        assert forall|i: int| 0 <= i < init.len() implies !before(s.last(), #[trigger] init[i]) by {
            assert(init[i] == s[i]);
        }
        lemma_inserted_behind(init, x, before, s.last());
        assert forall|i: int, j: int| 0 <= i < j < r.len() implies !before(
            #[trigger] r[j],
            #[trigger] r[i],
        ) by {
            assert(r[i] == q[i]);
            if j < q.len() {
                assert(r[j] == q[j]);
            }
        }
    } else {
        assert forall|i: int, j: int| 0 <= i < j < r.len() implies !before(
            #[trigger] r[j],
            #[trigger] r[i],
        ) by {
            assert(r[i] == s[i]);
            if j == s.len() {
                assert(r[j] == x);
                if i < s.len() - 1 {
                    assert(!before(s[s.len() - 1], s[i]));
                    if before(x, s[i]) {
                        assert(before(x, s.last()) || before(s.last(), s[i]));
                    }
                }
            } else {
                assert(r[j] == s[j]);
            }
        }
    }
}

/// What was sorted is in order.
pub proof fn lemma_sorted_in_order<T>(s: Seq<T>, before: spec_fn(T, T) -> bool)
    requires
        ranks(before),
    ensures
        in_order(sorted_of(s, before), before),
    decreases s.len(),
{
    if s.len() > 0 {
        lemma_sorted_in_order(s.drop_last(), before);
        lemma_inserted_in_order(sorted_of(s.drop_last(), before), s.last(), before);
    }
}

/// Putting an item in leaves those of its own rank in their order, ahead of it.
proof fn lemma_inserted_stable<T>(
    s: Seq<T>,
    x: T,
    before: spec_fn(T, T) -> bool,
    same: spec_fn(T) -> bool,
)
    requires
        forall|a: T, b: T| same(a) && same(b) ==> !#[trigger] before(a, b),
    ensures
        inserted(s, x, before).filter(same) == s.push(x).filter(same),
    decreases s.len(),
{
    reveal(Seq::filter);
    assert(s.push(x).drop_last() =~= s);
    if s.len() > 0 && before(x, s.last()) {
        let init = s.drop_last();
        lemma_inserted_stable(init, x, before, same);
        let q = inserted(init, x, before);
        assert(init.push(x).drop_last() =~= init);
        assert(q.push(s.last()).drop_last() =~= q);
        assert(!(same(x) && same(s.last())));
        assert(init.push(x).filter(same) == if same(x) {
            init.filter(same).push(x)
        } else {
            init.filter(same)
        });
        assert(s.filter(same) == if same(s.last()) {
            init.filter(same).push(s.last())
        } else {
            init.filter(same)
        });
        assert(s.push(x).filter(same) == if same(x) {
            s.filter(same).push(x)
        } else {
            s.filter(same)
        });
        assert(q.push(s.last()).filter(same) == if same(s.last()) {
            q.filter(same).push(s.last())
        } else {
            q.filter(same)
        });
    }
}

/// Sorting leaves items of one rank in the order in which they stood.
pub proof fn lemma_sorted_stable<T>(
    s: Seq<T>,
    before: spec_fn(T, T) -> bool,
    same: spec_fn(T) -> bool,
)
    requires
        forall|a: T, b: T| same(a) && same(b) ==> !#[trigger] before(a, b),
    ensures
        sorted_of(s, before).filter(same) == s.filter(same),
    decreases s.len(),
{
    reveal(Seq::filter);
    if s.len() > 0 {
        lemma_sorted_stable(s.drop_last(), before, same);
        lemma_inserted_stable(sorted_of(s.drop_last(), before), s.last(), before, same);
        assert(sorted_of(s.drop_last(), before).push(s.last()).drop_last() =~= sorted_of(
            s.drop_last(),
            before,
        ));
    }
}

// ---------------------------------------------------------------------------
// Sorted texts without repetition
// ---------------------------------------------------------------------------

/// Whether one text comes before another.
pub open spec fn text_order() -> spec_fn(Seq<char>, Seq<char>) -> bool {
    |a: Seq<char>, b: Seq<char>| text_before(a, b)
}

/// The order of texts is an order by rank.
pub proof fn lemma_texts_ranked()
    ensures
        ranks(text_order()),
{
    let before = text_order();
    assert forall|a: Seq<char>| !#[trigger] before(a, a) by {
        lemma_text_irreflexive(a);
    }
    assert forall|a: Seq<char>, b: Seq<char>| #[trigger] before(a, b) implies !before(b, a) by {
        if before(b, a) {
            lemma_text_transitive(a, b, a);
            lemma_text_irreflexive(a);
        }
    }
    assert forall|a: Seq<char>, b: Seq<char>, c: Seq<char>| #[trigger]
        before(a, b) implies #[trigger] before(a, c) || before(c, b) by {
        lemma_text_total(a, c);
        if text_before(c, a) {
            lemma_text_transitive(c, a, b);
        }
    }
}

/// `s` with each run of equal texts reduced to one.
pub open spec fn runs_merged(s: Seq<Seq<char>>) -> Seq<Seq<char>>
    decreases s.len(),
{
    if s.len() <= 1 {
        s
    } else if s[s.len() - 1] == s[s.len() - 2] {
        runs_merged(s.drop_last())
    } else {
        runs_merged(s.drop_last()).push(s.last())
    }
}

/// Some texts in order, each once.
pub open spec fn unique_sorted(s: Seq<Seq<char>>) -> Seq<Seq<char>> {
    runs_merged(sorted_of(s, text_order()))
}

/// Merging runs keeps the last text and all texts, and makes an ordered list
/// strictly ascending.
proof fn lemma_runs_merged(s: Seq<Seq<char>>)
    requires
        in_order(s, text_order()),
    ensures
        s.len() > 0 ==> runs_merged(s).len() > 0 && runs_merged(s).last() == s.last(),
        forall|i: int, j: int|
            0 <= i < j < runs_merged(s).len() ==> text_before(
                #[trigger] runs_merged(s)[i],
                #[trigger] runs_merged(s)[j],
            ),
        forall|x: Seq<char>| #[trigger] runs_merged(s).contains(x) <==> s.contains(x),
    decreases s.len(),
{
    if s.len() > 1 {
        let init = s.drop_last();
        assert forall|i: int, j: int| 0 <= i < j < init.len() implies !(text_order())(
            #[trigger] init[j],
            #[trigger] init[i],
        ) by {
            assert(init[i] == s[i]);
            assert(init[j] == s[j]);
        }
        lemma_runs_merged(init);
        let m = runs_merged(init);
        let r = runs_merged(s);
        let last = s[s.len() - 1];
        let prev = s[s.len() - 2];
        assert(init.last() == prev);
        assert(s =~= init.push(last));
        if last == prev {
            assert forall|x: Seq<char>| #[trigger] r.contains(x) <==> s.contains(x) by {
                if s.contains(x) {
                    let k = choose|k: int| 0 <= k < s.len() && s[k] == x;
                    if k < init.len() {
                        assert(init[k] == x);
                    } else {
                        assert(init[init.len() - 1] == x);
                    }
                    assert(init.contains(x));
                }
                if r.contains(x) {
                    let k = choose|k: int| 0 <= k < init.len() && init[k] == x;
                    assert(s[k] == x);
                }
            }
        } else {
            assert(!text_before(last, prev)) by {
                assert(!(text_order())(s[s.len() - 1], s[s.len() - 2]));
            }
            lemma_text_total(last, prev);
            assert forall|i: int, j: int| 0 <= i < j < r.len() implies text_before(
                #[trigger] r[i],
                #[trigger] r[j],
            ) by {
                if j == m.len() {
                    if i < m.len() - 1 {
                        assert(text_before(m[i], m[m.len() - 1]));
                        lemma_text_transitive(m[i], prev, last);
                    }
                }
            }
            assert forall|x: Seq<char>| #[trigger] r.contains(x) <==> s.contains(x) by {
                if s.contains(x) {
                    let k = choose|k: int| 0 <= k < s.len() && s[k] == x;
                    if k < init.len() {
                        assert(init[k] == x);
                        assert(m.contains(x));
                        let l = choose|l: int| 0 <= l < m.len() && m[l] == x;
                        assert(r[l] == x);
                    } else {
                        assert(r[m.len() as int] == x);
                    }
                }
                if r.contains(x) {
                    let k = choose|k: int| 0 <= k < r.len() && r[k] == x;
                    if k < m.len() {
                        assert(m[k] == x);
                        assert(m.contains(x));
                        let l = choose|l: int| 0 <= l < init.len() && init[l] == x;
                        assert(s[l] == x);
                    } else {
                        assert(s[s.len() - 1] == x);
                    }
                }
            }
        }
    }
}

/// Sorting texts and keeping each once gives a strictly ascending list of the
/// same texts.
pub proof fn lemma_unique_sorted(s: Seq<Seq<char>>)
    ensures
        forall|i: int, j: int|
            0 <= i < j < unique_sorted(s).len() ==> text_before(
                #[trigger] unique_sorted(s)[i],
                #[trigger] unique_sorted(s)[j],
            ),
        forall|x: Seq<char>| #[trigger] unique_sorted(s).contains(x) <==> s.contains(x),
{
    broadcast use vstd::seq_lib::group_to_multiset_ensures;

    lemma_texts_ranked();
    lemma_sorted_in_order(s, text_order());
    lemma_sorted_permutes(s, text_order());
    lemma_runs_merged(sorted_of(s, text_order()));
    assert forall|x: Seq<char>| #[trigger] unique_sorted(s).contains(x) <==> s.contains(x) by {
        let t = sorted_of(s, text_order());
        assert(s.contains(x) <==> s.to_multiset().count(x) > 0);
        assert(t.contains(x) <==> t.to_multiset().count(x) > 0);
    }
}

/// What is put in at a position that the order allows stands where it belongs.
pub proof fn lemma_inserted_at<T>(s: Seq<T>, x: T, before: spec_fn(T, T) -> bool, at: int)
    requires
        0 <= at <= s.len(),
        forall|j: int| at <= j < s.len() ==> before(x, #[trigger] s[j]),
        at > 0 ==> !before(x, s[at - 1]),
    ensures
        inserted(s, x, before) == s.insert(at, x),
    decreases s.len(),
{
    if at < s.len() {
        let init = s.drop_last();
        assert forall|j: int| at <= j < init.len() implies before(x, #[trigger] init[j]) by {
            assert(init[j] == s[j]);
        }
        if at > 0 {
            assert(init[at - 1] == s[at - 1]);
        }
        lemma_inserted_at(init, x, before, at);
        assert(s.last() == s[s.len() - 1]);
        assert(init.insert(at, x).push(s.last()) =~= s.insert(at, x));
    } else {
        assert(s.insert(at, x) =~= s.push(x));
    }
}

/// Some texts in order.
fn sort_texts(v: &[String]) -> (r: Vec<String>)
    ensures
        texts(r@) == sorted_of(texts(v@), text_order()),
{
    let ghost all = texts(v@);
    let mut out: Vec<String> = Vec::new();
    proof {
        assert(texts(out@) =~= sorted_of(all.take(0), text_order()));
    }
    for i in 0..v.len()
        invariant
            all == texts(v@),
            texts(out@) == sorted_of(all.take(i as int), text_order()),
    {
        let ghost s = texts(out@);
        let ghost x = v@[i as int]@;
        let cs = chars_of(v[i].as_str());
        let mut at: usize = out.len();
        while at > 0 && comes_before(&cs, &chars_of(out[at - 1].as_str()))
            invariant
                at <= out@.len(),
                s == texts(out@),
                cs@ == x,
                forall|j: int| at <= j < s.len() ==> (text_order())(x, #[trigger] s[j]),
            decreases at,
        {
            proof {
                assert(s[at - 1] == out@[at - 1]@);
            }
            at = at - 1;
        }
        proof {
            if at > 0 {
                assert(s[at - 1] == out@[at - 1]@);
            }
            lemma_inserted_at(s, x, text_order(), at as int);
            assert(all.take(i + 1).drop_last() =~= all.take(i as int));
            assert(all.take(i + 1).last() == x);
        }
        out.insert(at, v[i].clone());
        proof {
            assert(texts(out@) =~= s.insert(at as int, x));
        }
    }
    proof {
        assert(all.take(all.len() as int) =~= all);
    }
    out
}

/// Some texts in order, each once.
pub fn sort_unique(v: &[String]) -> (r: Vec<String>)
    ensures
        texts(r@) == unique_sorted(texts(v@)),
{
    let sorted = sort_texts(v);
    let ghost all = texts(sorted@);
    let mut out: Vec<String> = Vec::new();
    proof {
        assert(texts(out@) =~= runs_merged(all.take(0)));
    }
    for i in 0..sorted.len()
        invariant
            all == texts(sorted@),
            texts(out@) == runs_merged(all.take(i as int)),
    {
        let ghost before = out@;
        let ghost next = all.take(i + 1);
        proof {
            assert(next.drop_last() =~= all.take(i as int));
            assert(next[next.len() - 1] == sorted@[i as int]@);
            if i > 0 {
                assert(next[next.len() - 2] == sorted@[i - 1]@);
            }
        }
        if i == 0 || !same_text(sorted[i].as_str(), sorted[i - 1].as_str()) {
            out.push(sorted[i].clone());
            proof {
                assert(texts(out@) =~= texts(before).push(sorted@[i as int]@));
                if i == 0 {
                    assert(texts(out@) =~= next);
                }
            }
        }
    }
    proof {
        assert(all.take(all.len() as int) =~= all);
    }
    out
}

/// Of two texts the one comes first that is a start of the other, or that has the smaller
/// character where they first differ.
pub proof fn lemma_text_order_told(
    start: Seq<char>,
    x: char,
    a: Seq<char>,
    y: char,
    b: Seq<char>,
)
    ensures
        text_before(start, start + seq![x] + a),
        !text_before(start + seq![x] + a, start),
        x < y ==> text_before(start + seq![x] + a, start + seq![y] + b) && !text_before(
            start + seq![y] + b,
            start + seq![x] + a,
        ),
    decreases start.len(),
{
    let s = start + seq![x] + a;
    let t = start + seq![y] + b;
    if start.len() > 0 {
        let rest = start.skip(1);
        lemma_text_order_told(rest, x, a, y, b);
        assert(s.skip(1) =~= rest + seq![x] + a);
        assert(t.skip(1) =~= rest + seq![y] + b);
        assert(s[0] == start[0] && t[0] == start[0]);
    } else {
        assert(s[0] == x && t[0] == y);
    }
}

} // verus!

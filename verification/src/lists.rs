//! Places and parts of sequences.
use vstd::prelude::*;

verus! {

/// The place of the first item with a property.
pub open spec fn first_index<A>(s: Seq<A>, p: spec_fn(A) -> bool) -> Option<int>
    decreases s.len(),
{
    if s.len() == 0 {
        None
    } else if p(s[0]) {
        Some(0)
    } else {
        match first_index(s.skip(1), p) {
            Some(i) => Some(i + 1),
            None => None,
        }
    }
}

/// The first item with a property.
pub open spec fn first_where<A>(s: Seq<A>, p: spec_fn(A) -> bool) -> Option<A> {
    match first_index(s, p) {
        Some(i) => Some(s[i]),
        None => None,
    }
}

/// `first_index` is the first place with the property, and there is one exactly where some item
/// has it.
pub proof fn lemma_first_index<A>(s: Seq<A>, p: spec_fn(A) -> bool)
    ensures
        match first_index(s, p) {
            Some(i) => 0 <= i < s.len() && p(s[i]) && forall|j: int| 0 <= j < i ==> !p(#[trigger] s[j]),
            None => forall|j: int| 0 <= j < s.len() ==> !p(#[trigger] s[j]),
        },
    decreases s.len(),
{
    if s.len() > 0 && !p(s[0]) {
        let t = s.skip(1);
        lemma_first_index(t, p);
        match first_index(t, p) {
            Some(i) => {
                assert forall|j: int| 0 <= j < i + 1 implies !p(#[trigger] s[j]) by {
                    if j > 0 {
                        assert(t[j - 1] == s[j]);
                    }
                }
            },
            None => {
                assert forall|j: int| 0 <= j < s.len() implies !p(#[trigger] s[j]) by {
                    if j > 0 {
                        assert(t[j - 1] == s[j]);
                    }
                }
            },
        }
    }
}

/// A place with the property, and none before it, is the first.
pub proof fn lemma_first_is<A>(s: Seq<A>, p: spec_fn(A) -> bool, k: int)
    requires
        0 <= k < s.len(),
        p(s[k]),
        forall|j: int| 0 <= j < k ==> !p(#[trigger] s[j]),
    ensures
        first_index(s, p) == Some(k),
{
    lemma_first_index(s, p);
}

/// Where no item has the property there is no first one.
pub proof fn lemma_first_none<A>(s: Seq<A>, p: spec_fn(A) -> bool)
    requires
        forall|j: int| 0 <= j < s.len() ==> !p(#[trigger] s[j]),
    ensures
        first_index(s, p) is None,
{
    lemma_first_index(s, p);
}

/// Filtering one item more.
pub proof fn lemma_filter_step<A>(s: Seq<A>, i: int, p: spec_fn(A) -> bool)
    requires
        0 <= i < s.len(),
    ensures
        s.take(i + 1).filter(p) == if p(s[i]) {
            s.take(i).filter(p).push(s[i])
        } else {
            s.take(i).filter(p)
        },
{
    assert(s.take(i + 1) =~= s.take(i).push(s[i]));
    s.take(i).lemma_filter_push(s[i], p);
}

/// Mapping one item more.
pub proof fn lemma_filter_map_step<A, B>(s: Seq<A>, i: int, f: spec_fn(A) -> Option<B>)
    requires
        0 <= i < s.len(),
    ensures
        s.take(i + 1).filter_map(f) == match f(s[i]) {
            Some(b) => s.take(i).filter_map(f).push(b),
            None => s.take(i).filter_map(f),
        },
{
    let t = s.take(i + 1);
    assert(t.drop_last() =~= s.take(i));
    assert(t.last() == s[i]);
    match f(s[i]) {
        Some(b) => {
            assert(s.take(i).filter_map(f) + seq![b] =~= s.take(i).filter_map(f).push(b));
        },
        None => {},
    }
}

/// Filtering keeps an item with the property as often as it was there, and no other.
pub proof fn lemma_filter_count<A>(s: Seq<A>, p: spec_fn(A) -> bool, x: A)
    ensures
        s.filter(p).to_multiset().count(x) == (if p(x) {
            s.to_multiset().count(x)
        } else {
            0nat
        }),
    decreases s.len(),
{
    broadcast use vstd::multiset::group_multiset_axioms;

    reveal(Seq::filter);
    if s.len() == 0 {
        s.to_multiset_ensures();
        s.filter(p).to_multiset_ensures();
    } else {
        let t = s.drop_last();
        lemma_filter_count(t, p, x);
        assert(s =~= t.push(s.last()));
        t.to_multiset_ensures();
        t.filter(p).to_multiset_ensures();
    }
}

/// Filtering keeps exactly the items with the property.
pub proof fn lemma_filter_members<A>(s: Seq<A>, p: spec_fn(A) -> bool)
    ensures
        forall|x: A| #[trigger] s.filter(p).contains(x) <==> s.contains(x) && p(x),
    decreases s.len(),
{
    reveal(Seq::filter);
    if s.len() > 0 {
        let t = s.drop_last();
        lemma_filter_members(t, p);
        assert forall|x: A| #[trigger] s.filter(p).contains(x) <==> s.contains(x) && p(x) by {
            if s.contains(x) && p(x) {
                let k = choose|k: int| 0 <= k < s.len() && s[k] == x;
                if k < t.len() {
                    assert(t[k] == x);
                    assert(t.contains(x));
                    assert(t.filter(p).contains(x));
                    let m = choose|m: int| 0 <= m < t.filter(p).len() && t.filter(p)[m] == x;
                    assert(s.filter(p)[m] == x);
                } else {
                    assert(s.filter(p)[t.filter(p).len() as int] == x);
                }
            }
            if s.filter(p).contains(x) {
                let m = choose|m: int| 0 <= m < s.filter(p).len() && s.filter(p)[m] == x;
                if m < t.filter(p).len() {
                    assert(t.filter(p)[m] == x);
                    assert(t.filter(p).contains(x));
                    assert(t.contains(x));
                    let k = choose|k: int| 0 <= k < t.len() && t[k] == x;
                    assert(s[k] == x);
                } else {
                    assert(s[s.len() - 1] == x);
                }
            }
        }
    }
}

/// A sequence without the repeats of items met earlier.
pub open spec fn distinct<A>(s: Seq<A>) -> Seq<A>
    decreases s.len(),
{
    if s.len() == 0 {
        s
    } else {
        let init = distinct(s.drop_last());
        if init.contains(s.last()) {
            init
        } else {
            init.push(s.last())
        }
    }
}

/// `distinct` drops repeats and nothing else.
pub proof fn lemma_distinct<A>(s: Seq<A>)
    ensures
        distinct(s).no_duplicates(),
        forall|x: A| #[trigger] distinct(s).contains(x) <==> s.contains(x),
    decreases s.len(),
{
    if s.len() > 0 {
        let init = distinct(s.drop_last());
        lemma_distinct(s.drop_last());
        assert forall|x: A| #[trigger] distinct(s).contains(x) <==> s.contains(x) by {
            if s.contains(x) {
                let k = choose|k: int| 0 <= k < s.len() && s[k] == x;
                if k < s.len() - 1 {
                    assert(s.drop_last()[k] == x);
                    assert(s.drop_last().contains(x));
                    assert(init.contains(x));
                    let j = choose|j: int| 0 <= j < init.len() && init[j] == x;
                    if !init.contains(s.last()) {
                        assert(distinct(s)[j] == x);
                    }
                } else if !init.contains(s.last()) {
                    assert(distinct(s)[init.len() as int] == x);
                }
            }
            if distinct(s).contains(x) {
                if init.contains(x) {
                    assert(s.drop_last().contains(x));
                    let k = choose|k: int| 0 <= k < s.drop_last().len() && s.drop_last()[k] == x;
                    assert(s[k] == x);
                } else {
                    assert(s[s.len() - 1] == x);
                }
            }
        }
    }
}

/// What is picked from two lists in a row is what is picked from one and then from the other.
pub proof fn lemma_filter_map_add<A, B>(a: Seq<A>, b: Seq<A>, f: spec_fn(A) -> Option<B>)
    ensures
        (a + b).filter_map(f) == a.filter_map(f) + b.filter_map(f),
    decreases b.len(),
{
    reveal(Seq::filter_map);
    if b.len() == 0 {
        assert(a + b =~= a);
        assert(a.filter_map(f) + b.filter_map(f) =~= a.filter_map(f));
    } else {
        let n = b.len() - 1;
        let init = b.take(n);
        lemma_filter_map_add(a, init, f);
        lemma_filter_map_step(b, n, f);
        lemma_filter_map_step(a + b, a.len() + n, f);
        assert((a + b).take(a.len() + n) =~= a + init);
        assert((a + b).take(a.len() + n + 1) =~= a + b);
        assert(b.take(n + 1) =~= b);
        assert((a + b).filter_map(f) =~= a.filter_map(f) + b.filter_map(f));
    }
}

/// What is picked from a list is exactly what some item of it gives.
pub proof fn lemma_picked<A, B>(s: Seq<A>, f: spec_fn(A) -> Option<B>, b: B)
    ensures
        s.filter_map(f).contains(b) <==> exists|k: int|
            0 <= k < s.len() && f(#[trigger] s[k]) == Some(b),
    decreases s.len(),
{
    reveal(Seq::filter_map);
    if s.len() > 0 {
        let n = s.len() - 1;
        let init = s.take(n);
        lemma_filter_map_step(s, n, f);
        assert(s.take(n + 1) =~= s);
        lemma_picked(init, f, b);
        let all = s.filter_map(f);
        let before = init.filter_map(f);
        if all.contains(b) {
            let m = choose|m: int| 0 <= m < all.len() && all[m] == b;
            if m < before.len() {
                assert(before[m] == b);
                assert(before.contains(b));
                let k = choose|k: int| 0 <= k < init.len() && f(#[trigger] init[k]) == Some(b);
                assert(f(s[k]) == Some(b));
            } else {
                assert(f(s[n]) == Some(b));
            }
        }
        if exists|k: int| 0 <= k < s.len() && f(#[trigger] s[k]) == Some(b) {
            let k = choose|k: int| 0 <= k < s.len() && f(#[trigger] s[k]) == Some(b);
            if k < n {
                assert(f(init[k]) == Some(b));
                assert(before.contains(b));
                let m = choose|m: int| 0 <= m < before.len() && before[m] == b;
                assert(all[m] == b);
            } else {
                assert(all[all.len() - 1] == b);
            }
        }
    }
}

/// Nothing is picked from a list whose items give nothing.
pub proof fn lemma_none_picked<A, B>(s: Seq<A>, f: spec_fn(A) -> Option<B>)
    requires
        forall|k: int| 0 <= k < s.len() ==> f(#[trigger] s[k]) is None,
    ensures
        s.filter_map(f).len() == 0,
{
    if s.filter_map(f).len() > 0 {
        let b = s.filter_map(f)[0];
        lemma_picked(s, f, b);
        assert(s.filter_map(f).contains(b));
    }
}

/// The first thing picked from a list is what the first item that gives anything gives.
pub proof fn lemma_first_picked<A, B>(s: Seq<A>, f: spec_fn(A) -> Option<B>, k: int)
    requires
        0 <= k < s.len(),
        f(s[k]) is Some,
        forall|j: int| 0 <= j < k ==> f(#[trigger] s[j]) is None,
    ensures
        s.filter_map(f).len() > 0,
        s.filter_map(f)[0] == f(s[k])->0,
{
    let head = s.take(k);
    let rest = s.skip(k + 1);
    lemma_none_picked(head, f);
    lemma_filter_map_step(s, k, f);
    lemma_filter_map_add(s.take(k + 1), rest, f);
    assert(s.take(k + 1) + rest =~= s);
    assert(s.take(k + 1).filter_map(f) =~= seq![f(s[k])->0]);
}

/// Where every item gives something, as many things are picked as there are items, in their order.
pub proof fn lemma_all_picked<A, B>(s: Seq<A>, f: spec_fn(A) -> Option<B>)
    requires
        forall|k: int| 0 <= k < s.len() ==> f(#[trigger] s[k]) is Some,
    ensures
        s.filter_map(f).len() == s.len(),
        forall|k: int| 0 <= k < s.len() ==> f(#[trigger] s[k]) == Some(s.filter_map(f)[k]),
    decreases s.len(),
{
    reveal(Seq::filter_map);
    if s.len() > 0 {
        let n = s.len() - 1;
        let init = s.take(n);
        lemma_filter_map_step(s, n, f);
        assert(s.take(n + 1) =~= s);
        assert forall|k: int| 0 <= k < init.len() implies f(#[trigger] init[k]) is Some by {
            assert(f(s[k]) is Some);
        }
        lemma_all_picked(init, f);
        assert(f(s[n]) is Some);
        assert forall|k: int| 0 <= k < s.len() implies f(#[trigger] s[k]) == Some(
            s.filter_map(f)[k],
        ) by {
            if k < n {
                assert(f(init[k]) == Some(init.filter_map(f)[k]));
            }
        }
    }
}

/// The first of something in a list is there, and nothing before it is of the kind; there is none
/// only where no item is.
pub proof fn the_first_is_found<A>(s: Seq<A>, p: spec_fn(A) -> bool)
    ensures
        match first_where(s, p) {
            Some(x) => exists|k: int|
                0 <= k < s.len() && x == #[trigger] s[k] && p(x) && forall|j: int|
                    0 <= j < k ==> !p(#[trigger] s[j]),
            None => forall|j: int| 0 <= j < s.len() ==> !p(#[trigger] s[j]),
        },
{
    lemma_first_index(s, p);
}

} // verus!

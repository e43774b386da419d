//! Stable sorting, and the order of texts.
use vstd::prelude::*;
use crate::text::chars_of;

verus! {

/// Texts in the order of their characters' code points, a shorter one before what it begins.
pub open spec fn text_le(a: Seq<char>, b: Seq<char>) -> bool
    decreases a.len(),
{
    if a.len() == 0 {
        true
    } else if b.len() == 0 {
        false
    } else if a[0] != b[0] {
        a[0] < b[0]
    } else {
        text_le(a.skip(1), b.skip(1))
    }
}

/// Whether one text comes no later than another.
pub fn no_later(a: &str, b: &str) -> (r: bool)
    ensures
        r == text_le(a@, b@),
{
    let a = chars_of(a);
    let b = chars_of(b);
    let mut i: usize = 0;
    assert(a@.skip(0) =~= a@);
    assert(b@.skip(0) =~= b@);
    while i < a.len() && i < b.len() && a[i] == b[i]
        invariant
            i <= a.len(),
            i <= b.len(),
            text_le(a@.skip(i as int), b@.skip(i as int)) == text_le(a@, b@),
        decreases a.len() - i,
    {
        assert(a@.skip(i as int).skip(1) =~= a@.skip(i + 1));
        assert(b@.skip(i as int).skip(1) =~= b@.skip(i + 1));
        i = i + 1;
    }
    if i == a.len() {
        true
    } else if i == b.len() {
        false
    } else {
        a[i] < b[i]
    }
}

/// Of two texts one comes no later than the other.
pub proof fn text_le_total(a: Seq<char>, b: Seq<char>)
    ensures
        text_le(a, b) || text_le(b, a),
    decreases a.len(),
{
    if a.len() > 0 && b.len() > 0 && a[0] == b[0] {
        text_le_total(a.skip(1), b.skip(1));
    }
}

/// The order of texts is transitive.
pub proof fn text_le_transitive(a: Seq<char>, b: Seq<char>, c: Seq<char>)
    requires
        text_le(a, b),
        text_le(b, c),
    ensures
        text_le(a, c),
    decreases a.len(),
{
    if a.len() > 0 && b.len() > 0 && c.len() > 0 && a[0] == b[0] && b[0] == c[0] {
        text_le_transitive(a.skip(1), b.skip(1), c.skip(1));
    }
}

/// Two texts that come no later than each other are the same.
pub proof fn text_le_antisymmetric(a: Seq<char>, b: Seq<char>)
    requires
        text_le(a, b),
        text_le(b, a),
    ensures
        a == b,
    decreases a.len(),
{
    if a.len() == 0 || b.len() == 0 {
        assert(a =~= b);
    } else {
        text_le_antisymmetric(a.skip(1), b.skip(1));
        assert(a =~= seq![a[0]] + a.skip(1));
        assert(b =~= seq![b[0]] + b.skip(1));
    }
}

/// A sequence with one more item, in front of the first that it comes no later than.
pub open spec fn placed<V>(s: Seq<V>, x: V, le: spec_fn(V, V) -> bool) -> Seq<V>
    decreases s.len(),
{
    if s.len() == 0 {
        seq![x]
    } else if le(x, s[0]) {
        seq![x] + s
    } else {
        seq![s[0]] + placed(s.skip(1), x, le)
    }
}

/// A sequence in order; items of equal rank keep the order they had.
pub open spec fn sorted<V>(s: Seq<V>, le: spec_fn(V, V) -> bool) -> Seq<V>
    decreases s.len(),
{
    if s.len() == 0 {
        s
    } else {
        placed(sorted(s.skip(1), le), s[0], le)
    }
}

/// Each item comes no later than those after it.
pub open spec fn in_order<V>(s: Seq<V>, le: spec_fn(V, V) -> bool) -> bool {
    forall|i: int, j: int| 0 <= i < j < s.len() ==> le(#[trigger] s[i], #[trigger] s[j])
}

/// Items can be ranked: of two, one comes no later than the other, and rank is transitive.
pub open spec fn ranks<V>(le: spec_fn(V, V) -> bool) -> bool {
    &&& forall|a: V, b: V| #[trigger] le(a, b) || le(b, a)
    &&& forall|a: V, b: V, c: V| #[trigger] le(a, b) && #[trigger] le(b, c) ==> le(a, c)
}

proof fn lemma_placed_at<V>(s: Seq<V>, x: V, le: spec_fn(V, V) -> bool, k: int)
    requires
        0 <= k <= s.len(),
        forall|j: int| 0 <= j < k ==> !le(x, #[trigger] s[j]),
        k < s.len() ==> le(x, s[k]),
    ensures
        placed(s, x, le) == s.insert(k, x),
    decreases s.len(),
{
    if s.len() == 0 {
        assert(placed(s, x, le) =~= s.insert(k, x));
    } else if k == 0 {
        assert(seq![x] + s =~= s.insert(0, x));
    } else {
        let t = s.skip(1);
        assert forall|j: int| 0 <= j < k - 1 implies !le(x, #[trigger] t[j]) by {
            assert(t[j] == s[j + 1]);
        }
        assert(!le(x, s[0]));
        lemma_placed_at(t, x, le, k - 1);
        assert(seq![s[0]] + t.insert(k - 1, x) =~= s.insert(k, x));
    }
}

proof fn lemma_prepend<V>(x: V, s: Seq<V>)
    ensures
        (seq![x] + s).to_multiset() == s.to_multiset().insert(x),
{
    broadcast use vstd::multiset::group_multiset_axioms;

    let t = seq![x] + s;
    t.to_multiset_ensures();
    assert(t.remove(0) =~= s);
    assert(t[0] == x);
    assert(t.contains(x));
    assert(t.to_multiset() =~= t.to_multiset().remove(x).insert(x));
}

proof fn lemma_placed<V>(s: Seq<V>, x: V, le: spec_fn(V, V) -> bool)
    ensures
        placed(s, x, le).to_multiset() == s.to_multiset().insert(x),
        placed(s, x, le).len() == s.len() + 1,
        ranks(le) && in_order(s, le) ==> in_order(placed(s, x, le), le),
    decreases s.len(),
{
    broadcast use vstd::multiset::group_multiset_axioms;

    let p = placed(s, x, le);
    if s.len() == 0 {
        s.to_multiset_ensures();
        assert(p =~= s.push(x));
    } else if le(x, s[0]) {
        lemma_prepend(x, s);
        if ranks(le) && in_order(s, le) {
            assert forall|i: int, j: int| 0 <= i < j < p.len() implies le(
                #[trigger] p[i],
                #[trigger] p[j],
            ) by {
                if i == 0 && j > 1 {
                    assert(le(s[0], s[j - 1]));
                }
                if i > 0 {
                    assert(le(s[i - 1], s[j - 1]));
                }
            }
        }
    } else {
        let t = s.skip(1);
        let q = placed(t, x, le);
        lemma_placed(t, x, le);
        assert(s =~= seq![s[0]] + t);
        lemma_prepend(s[0], t);
        lemma_prepend(s[0], q);
        assert(p.to_multiset() =~= s.to_multiset().insert(x));
        if ranks(le) && in_order(s, le) {
            assert forall|i: int, j: int| 0 <= i < j < t.len() implies le(
                #[trigger] t[i],
                #[trigger] t[j],
            ) by {
                assert(le(s[i + 1], s[j + 1]));
            }
            assert forall|i: int, j: int| 0 <= i < j < p.len() implies le(
                #[trigger] p[i],
                #[trigger] p[j],
            ) by {
                if i > 0 {
                    assert(le(q[i - 1], q[j - 1]));
                } else {
                    q.to_multiset_ensures();
                    t.to_multiset_ensures();
                    assert(q.to_multiset().contains(q[j - 1]));
                    if q[j - 1] == x {
                        assert(le(x, s[0]) || le(s[0], x));
                    } else {
                        assert(t.to_multiset().contains(q[j - 1]));
                        let k = choose|k: int| 0 <= k < t.len() && t[k] == q[j - 1];
                        assert(le(s[0], s[k + 1]));
                    }
                }
            }
        }
    }
}

/// Sorting keeps every item, adds none, and puts them in order.
pub proof fn sorting_orders<V>(s: Seq<V>, le: spec_fn(V, V) -> bool)
    requires
        ranks(le),
    ensures
        sorted(s, le).to_multiset() == s.to_multiset(),
        sorted(s, le).len() == s.len(),
        in_order(sorted(s, le), le),
    decreases s.len(),
{
    if s.len() > 0 {
        let t = s.skip(1);
        sorting_orders(t, le);
        lemma_placed(sorted(t, le), s[0], le);
        assert(s =~= seq![s[0]] + t);
        lemma_prepend(s[0], t);
    }
}

proof fn lemma_placed_class<V>(s: Seq<V>, x: V, y: V, le: spec_fn(V, V) -> bool)
    requires
        ranks(le),
        in_order(s, le),
    ensures
        ({
            let class = |z: V| le(y, z) && le(z, y);
            placed(s, x, le).filter(class) == if class(x) {
                seq![x] + s.filter(class)
            } else {
                s.filter(class)
            }
        }),
    decreases s.len(),
{
    broadcast use Seq::lemma_filter_prepend;

    let class = |z: V| le(y, z) && le(z, y);
    if s.len() == 0 {
        assert(seq![x] =~= seq![x] + s);
        s.lemma_filter_prepend(x, class);
    } else if le(x, s[0]) {
        assert((seq![x] + s).filter(class) =~= if class(x) {
            seq![x] + s.filter(class)
        } else {
            s.filter(class)
        });
    } else {
        let t = s.skip(1);
        assert forall|i: int, j: int| 0 <= i < j < t.len() implies le(
            #[trigger] t[i],
            #[trigger] t[j],
        ) by {
            assert(le(s[i + 1], s[j + 1]));
        }
        lemma_placed_class(t, x, y, le);
        assert(s =~= seq![s[0]] + t);
        assert(s.filter(class) =~= if class(s[0]) {
            seq![s[0]] + t.filter(class)
        } else {
            t.filter(class)
        });
        assert((seq![s[0]] + placed(t, x, le)).filter(class) =~= if class(s[0]) {
            seq![s[0]] + placed(t, x, le).filter(class)
        } else {
            placed(t, x, le).filter(class)
        });
        if class(s[0]) && class(x) {
            assert(le(x, y) && le(y, s[0]));
            assert(le(x, s[0]));
        }
    }
}

/// Sorting is stable: the items of one rank stay in the order they were in.
pub proof fn sorting_is_stable<V>(s: Seq<V>, y: V, le: spec_fn(V, V) -> bool)
    requires
        ranks(le),
    ensures
        sorted(s, le).filter(|z: V| le(y, z) && le(z, y)) == s.filter(
            |z: V| le(y, z) && le(z, y),
        ),
    decreases s.len(),
{
    broadcast use Seq::lemma_filter_prepend;

    let class = |z: V| le(y, z) && le(z, y);
    if s.len() > 0 {
        let t = s.skip(1);
        sorting_is_stable(t, y, le);
        sorting_orders(t, le);
        lemma_placed_class(sorted(t, le), s[0], y, le);
        assert(s =~= seq![s[0]] + t);
        assert(s.filter(class) =~= if class(s[0]) {
            seq![s[0]] + t.filter(class)
        } else {
            t.filter(class)
        });
    }
}

/// Items that differ in something still do in another order.
pub proof fn items_stay_apart<V, K>(
    s: Seq<V>,
    t: Seq<V>,
    key: spec_fn(V) -> K,
    i: int,
    j: int,
)
    requires
        s.to_multiset() == t.to_multiset(),
        forall|i: int, j: int|
            0 <= i < j < s.len() ==> key(#[trigger] s[i]) != key(#[trigger] s[j]),
        0 <= i < j < t.len(),
    ensures
        key(t[i]) != key(t[j]),
{
    assert(s.no_duplicates());
    s.lemma_multiset_has_no_duplicates();
    t.lemma_multiset_has_no_duplicates_conv();
    s.to_multiset_ensures();
    t.to_multiset_ensures();
    assert(t.to_multiset().count(t[i]) > 0 && t.to_multiset().count(t[j]) > 0) by {
        assert(t.contains(t[i]) && t.contains(t[j]));
    }
    let a = choose|a: int| 0 <= a < s.len() && s[a] == t[i];
    let b = choose|b: int| 0 <= b < s.len() && s[b] == t[j];
    assert(s[a] == t[i] && s[b] == t[j]);
}

/// A type whose values have a rank.
pub trait Ranked: DeepView + Sized {
    /// Whether one value comes no later than another.
    spec fn le(a: Self::V, b: Self::V) -> bool;

    /// Whether this value comes no later than another.
    fn at_most(&self, other: &Self) -> (r: bool)
        ensures
            r == Self::le(self.deep_view(), other.deep_view()),
    ;
}

/// The values of a list in the order of their rank.
pub open spec fn by_rank<T: Ranked>(s: Seq<T::V>) -> Seq<T::V> {
    sorted(s, |a: T::V, b: T::V| T::le(a, b))
}

/// Sorts a list by rank, keeping the order of equals.
pub fn sort<T: Ranked>(list: Vec<T>) -> (r: Vec<T>)
    ensures
        r.deep_view() == by_rank::<T>(list.deep_view()),
{
    let mut rest: Vec<T> = list;
    let mut out: Vec<T> = Vec::new();
    let ghost all = list.deep_view();
    let ghost le = |a: T::V, b: T::V| T::le(a, b);
    assert(all.skip(rest.len() as int) =~= Seq::empty());
    assert(rest.deep_view() =~= all.take(rest.len() as int));
    assert(out.deep_view() =~= sorted(all.skip(rest.len() as int), le));
    loop
        invariant
            rest.len() <= all.len(),
            rest.deep_view() == all.take(rest.len() as int),
            out.deep_view() == sorted(all.skip(rest.len() as int), le),
            le == (|a: T::V, b: T::V| T::le(a, b)),
        ensures
            rest.len() == 0,
            out.deep_view() == sorted(all.skip(0), le),
        decreases rest.len(),
    {
        let ghost n = rest.len() as int;
        let ghost before = rest.deep_view();
        match rest.pop() {
            None => {
                break;
            },
            Some(x) => {
                let mut k: usize = 0;
                let ghost done = out.deep_view();
                assert(before[n - 1] == x.deep_view());
                while k < out.len() && !x.at_most(&out[k])
                    invariant
                        k <= out.len(),
                        done == out.deep_view(),
                        forall|j: int| 0 <= j < k ==> !T::le(x.deep_view(), #[trigger] done[j]),
                    ensures
                        k <= out.len(),
                        forall|j: int| 0 <= j < k ==> !T::le(x.deep_view(), #[trigger] done[j]),
                        k < out.len() ==> T::le(x.deep_view(), done[k as int]),
                    decreases out.len() - k,
                {
                    k = k + 1;
                }
                proof {
                    lemma_placed_at(done, x.deep_view(), le, k as int);
                    let tail = all.skip(n - 1);
                    assert(tail.skip(1) =~= all.skip(n));
                    assert(tail[0] == x.deep_view());
                }
                let ghost item = x.deep_view();
                out.insert(k, x);
                assert(out.deep_view() =~= done.insert(k as int, item));
                assert(rest.deep_view() =~= all.take(n - 1));
            },
        }
    }
    assert(all.skip(0) =~= all);
    out
}

impl Ranked for String {
    open spec fn le(a: Seq<char>, b: Seq<char>) -> bool {
        text_le(a, b)
    }

    fn at_most(&self, other: &String) -> (r: bool) {
        no_later(self, other)
    }
}

/// Texts can be ranked: of two one comes no later, and the order is transitive.
pub proof fn texts_can_be_ranked()
    ensures
        ranks(|a: Seq<char>, b: Seq<char>| <String as Ranked>::le(a, b)),
{
    let le = |a: Seq<char>, b: Seq<char>| <String as Ranked>::le(a, b);
    assert forall|a: Seq<char>, b: Seq<char>| #[trigger] le(a, b) || le(b, a) by {
        text_le_total(a, b);
    }
    assert forall|a: Seq<char>, b: Seq<char>, c: Seq<char>|
        #[trigger] le(a, b) && #[trigger] le(b, c) implies le(a, c) by {
        text_le_transitive(a, b, c);
    }
}

/// The first difference decides between two texts, by the code points of the characters, and a text comes
/// before what it begins.
pub proof fn the_first_difference_decides(
    head: Seq<char>,
    a: char,
    b: char,
    rest: Seq<char>,
    other: Seq<char>,
)
    ensures
        (a as int) < (b as int) ==> text_le(head.push(a) + rest, head.push(b) + other),
        (a as int) < (b as int) ==> !text_le(head.push(b) + other, head.push(a) + rest),
        text_le(head, head + rest),
        rest.len() > 0 ==> !text_le(head + rest, head),
    decreases head.len(),
{
    let x = head.push(a) + rest;
    let y = head.push(b) + other;
    if head.len() > 0 {
        let tail = head.skip(1);
        the_first_difference_decides(tail, a, b, rest, other);
        assert(x[0] == head[0] && y[0] == head[0]);
        assert(x.skip(1) =~= tail.push(a) + rest);
        assert(y.skip(1) =~= tail.push(b) + other);
        assert((head + rest).skip(1) =~= tail + rest);
        assert((head + rest)[0] == head[0]);
    } else {
        assert(x[0] == a && y[0] == b);
    }
}

/// Two items that are out of order are exchanged, and two that are in order are left.
pub proof fn two_items_are_put_in_order<V>(a: V, b: V, le: spec_fn(V, V) -> bool)
    ensures
        le(a, b) ==> sorted(seq![a, b], le) == seq![a, b],
        !le(a, b) ==> sorted(seq![a, b], le) == seq![b, a],
{
    reveal_with_fuel(sorted, 3);
    reveal_with_fuel(placed, 3);
    assert(seq![a, b].skip(1) =~= seq![b]);
    assert(seq![b].skip(1) =~= Seq::empty());
    assert(seq![a] + seq![b] =~= seq![a, b]);
    assert(seq![b] + seq![a] =~= seq![b, a]);
}

} // verus!

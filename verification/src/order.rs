//! Putting lists in order.

use crate::text;
use vstd::prelude::*;

verus! {

// ---------------------------------------------------------------------------
// Texts
// ---------------------------------------------------------------------------

/// An ordered list of texts with `x` in its place.
pub open spec fn text_placed(s: Seq<Seq<char>>, x: Seq<char>) -> Seq<Seq<char>>
    decreases s.len(),
{
    if s.len() > 0 && text::precedes(x, s.last()) {
        text_placed(s.drop_last(), x).push(s.last())
    } else {
        s.push(x)
    }
}

/// The texts in the order of code points.
pub open spec fn sorted_texts(s: Seq<Seq<char>>) -> Seq<Seq<char>>
    decreases s.len(),
{
    if s.len() == 0 {
        s
    } else {
        text_placed(sorted_texts(s.drop_last()), s.last())
    }
}

/// No text stands behind one that it precedes.
pub open spec fn texts_ordered(s: Seq<Seq<char>>) -> bool {
    forall|i: int, j: int| 0 <= i < j < s.len() ==> !text::precedes(#[trigger] s[j], #[trigger] s[i])
}

/// Placing a text keeps the order and adds just that text.
pub proof fn text_placed_keeps_order(s: Seq<Seq<char>>, x: Seq<char>)
    requires
        texts_ordered(s),
    ensures
        texts_ordered(text_placed(s, x)),
        text_placed(s, x).to_multiset() == s.to_multiset().insert(x),
        forall|i: int|
            0 <= i < text_placed(s, x).len() ==> #[trigger] text_placed(s, x)[i] == x
                || s.contains(text_placed(s, x)[i]),
    decreases s.len(),
{
    broadcast use vstd::seq_lib::group_to_multiset_ensures;

    let r = text_placed(s, x);
    if s.len() > 0 && text::precedes(x, s.last()) {
        let d = s.drop_last();
        let w = text_placed(d, x);
        assert(texts_ordered(d)) by {
            assert forall|i: int, j: int| 0 <= i < j < d.len() implies !text::precedes(
                #[trigger] d[j],
                #[trigger] d[i],
            ) by {
                assert(!text::precedes(s[j], s[i]));
            }
        }
        text_placed_keeps_order(d, x);
        assert(s =~= d.push(s.last()));
        assert(r.to_multiset() =~= s.to_multiset().insert(x));
        assert forall|i: int, j: int| 0 <= i < j < r.len() implies !text::precedes(
            #[trigger] r[j],
            #[trigger] r[i],
        ) by {
            if j < w.len() {
                assert(!text::precedes(w[j], w[i]));
            } else {
                assert(r[i] == w[i]);
                if w[i] == x {
                    text::precedes_total(x, s.last());
                } else {
                    assert(d.contains(w[i]));
                    let m = choose|m: int| 0 <= m < d.len() && d[m] == w[i];
                    assert(!text::precedes(s[s.len() - 1], s[m]));
                }
            }
        }
        assert forall|i: int| 0 <= i < r.len() implies #[trigger] r[i] == x || s.contains(
            r[i],
        ) by {
            if i < w.len() {
                assert(r[i] == w[i]);
                if w[i] != x {
                    let m = choose|m: int| 0 <= m < d.len() && d[m] == w[i];
                    assert(s[m] == w[i]);
                }
            } else {
                assert(s[s.len() - 1] == r[i]);
            }
        }
    } else {
        assert forall|i: int, j: int| 0 <= i < j < r.len() implies !text::precedes(
            #[trigger] r[j],
            #[trigger] r[i],
        ) by {
            if j < s.len() {
                assert(!text::precedes(s[j], s[i]));
            } else {
                if i < s.len() - 1 {
                    assert(!text::precedes(s[s.len() - 1], s[i]));
                }
                text::precedes_total(s[i], s.last());
                text::precedes_total(s.last(), x);
                text::precedes_total(s[i], x);
                if text::precedes(x, s[i]) {
                    if s[i] != s.last() {
                        text::precedes_transitive(x, s[i], s.last());
                    }
                }
            }
        }
        assert forall|i: int| 0 <= i < r.len() implies #[trigger] r[i] == x || s.contains(
            r[i],
        ) by {
            if i < s.len() {
                assert(s[i] == r[i]);
            }
        }
    }
}

/// Sorting gives the same texts in order.
pub proof fn sorted_texts_are_ordered(s: Seq<Seq<char>>)
    ensures
        texts_ordered(sorted_texts(s)),
        sorted_texts(s).to_multiset() == s.to_multiset(),
    decreases s.len(),
{
    broadcast use vstd::seq_lib::group_to_multiset_ensures;

    if s.len() > 0 {
        sorted_texts_are_ordered(s.drop_last());
        text_placed_keeps_order(sorted_texts(s.drop_last()), s.last());
        assert(s =~= s.drop_last().push(s.last()));
    }
}

/// Puts `x` in its place.
fn place_text(v: &mut Vec<String>, x: String)
    ensures
        final(v).deep_view() == text_placed(old(v).deep_view(), x@),
{
    let ghost s = v.deep_view();
    let ghost y = x@;
    let mut i: usize = v.len();
    assert(s.take(i as int) =~= s);
    assert(s.skip(i as int) =~= Seq::<Seq<char>>::empty());
    assert(text_placed(s, y) + Seq::<Seq<char>>::empty() =~= text_placed(s, y));
    while i > 0 && text::before(&x, &v[i - 1])
        invariant
            i <= v@.len(),
            s == v.deep_view(),
            y == x@,
            text_placed(s, y) == text_placed(s.take(i as int), y) + s.skip(i as int),
        decreases i,
    {
        proof {
            let t = s.take(i as int);
            assert(t.last() == v@[i - 1]@);
            assert(t.drop_last() =~= s.take(i - 1));
            assert(text_placed(t.drop_last(), y).push(t.last()) + s.skip(i as int)
                =~= text_placed(s.take(i - 1), y) + s.skip(i - 1));
        }
        i = i - 1;
    }
    proof {
        let t = s.take(i as int);
        if i > 0 {
            assert(t.last() == v@[i - 1]@);
        }
        assert(text_placed(t, y) == t.push(y));
    }
    v.insert(i, x);
    assert(v.deep_view() =~= s.take(i as int).push(y) + s.skip(i as int));
}

/// The texts in the order of code points.
pub fn sort_texts(v: &Vec<String>) -> (r: Vec<String>)
    ensures
        r.deep_view() == sorted_texts(v.deep_view()),
{
    let ghost s = v.deep_view();
    let mut out: Vec<String> = Vec::new();
    let mut i: usize = 0;
    assert(out.deep_view() =~= sorted_texts(s.take(0)));
    while i < v.len()
        invariant
            i <= v@.len(),
            s == v.deep_view(),
            out.deep_view() == sorted_texts(s.take(i as int)),
        decreases v@.len() - i,
    {
        proof {
            assert(s.take(i + 1).drop_last() =~= s.take(i as int));
            assert(s.take(i + 1).last() == v@[i as int]@);
        }
        place_text(&mut out, text::own(&v[i]));
        i = i + 1;
    }
    assert(s.take(i as int) =~= s);
    out
}

/// The texts without those that stand before in the list.
pub open spec fn distinct(s: Seq<Seq<char>>) -> Seq<Seq<char>>
    decreases s.len(),
{
    if s.len() == 0 {
        s
    } else {
        let d = distinct(s.drop_last());
        if d.contains(s.last()) {
            d
        } else {
            d.push(s.last())
        }
    }
}

/// The texts without those that stand before in the list.
pub fn dedup(v: &Vec<String>) -> (r: Vec<String>)
    ensures
        r.deep_view() == distinct(v.deep_view()),
{
    let ghost s = v.deep_view();
    let mut out: Vec<String> = Vec::new();
    let mut i: usize = 0;
    assert(out.deep_view() =~= distinct(s.take(0)));
    while i < v.len()
        invariant
            i <= v@.len(),
            s == v.deep_view(),
            out.deep_view() == distinct(s.take(i as int)),
        decreases v@.len() - i,
    {
        proof {
            assert(s.take(i + 1).drop_last() =~= s.take(i as int));
            assert(s.take(i + 1).last() == v@[i as int]@);
        }
        if !text::listed(&out, &v[i]) {
            text::push_text(&mut out, text::own(&v[i]));
        }
        i = i + 1;
    }
    assert(s.take(i as int) =~= s);
    out
}

/// The distinct texts of a list are each listed once, and they are those of
/// the list.
pub proof fn distinct_lists_each_once(s: Seq<Seq<char>>)
    ensures
        forall|i: int, j: int|
            0 <= i < j < distinct(s).len() ==> #[trigger] distinct(s)[i] != #[trigger] distinct(s)[j],
        forall|x: Seq<char>| s.contains(x) <==> #[trigger] distinct(s).contains(x),
    decreases s.len(),
{
    if s.len() > 0 {
        let t = s.drop_last();
        let d = distinct(t);
        distinct_lists_each_once(t);
        let r = distinct(s);
        assert forall|i: int, j: int| 0 <= i < j < r.len() implies #[trigger] r[i]
            != #[trigger] r[j] by {
            assert(r[i] == d[i]);
            if j < d.len() {
                assert(r[j] == d[j]);
            }
        }
        assert forall|x: Seq<char>| s.contains(x) <==> #[trigger] r.contains(x) by {
            assert(t.contains(x) <==> d.contains(x));
            if s.contains(x) {
                let k = choose|k: int| 0 <= k < s.len() && s[k] == x;
                if k < t.len() {
                    assert(t[k] == x);
                    let m = choose|m: int| 0 <= m < d.len() && d[m] == x;
                    assert(r[m] == x);
                } else if d.contains(x) {
                    assert(r == d);
                } else {
                    assert(r[r.len() - 1] == x);
                }
            }
            if r.contains(x) {
                let m = choose|m: int| 0 <= m < r.len() && r[m] == x;
                if m < d.len() {
                    assert(d[m] == x);
                    let k = choose|k: int| 0 <= k < t.len() && t[k] == x;
                    assert(s[k] == x);
                } else {
                    assert(s[s.len() - 1] == x);
                }
            }
        }
    } else {
        assert(distinct(s) =~= s);
    }
}

// ---------------------------------------------------------------------------
// Pairs of texts
// ---------------------------------------------------------------------------

/// `a` comes before `b`: by the first texts, then by the second.
pub open spec fn pair_precedes(a: (Seq<char>, Seq<char>), b: (Seq<char>, Seq<char>)) -> bool {
    if a.0 != b.0 {
        text::precedes(a.0, b.0)
    } else {
        text::precedes(a.1, b.1)
    }
}

/// An ordered list of pairs with `x` in its place.
pub open spec fn pair_placed(
    s: Seq<(Seq<char>, Seq<char>)>,
    x: (Seq<char>, Seq<char>),
) -> Seq<(Seq<char>, Seq<char>)>
    decreases s.len(),
{
    if s.len() > 0 && pair_precedes(x, s.last()) {
        pair_placed(s.drop_last(), x).push(s.last())
    } else {
        s.push(x)
    }
}

/// Whether `a` comes before `b`.
fn pair_before(a: &(String, String), b: &(String, String)) -> (r: bool)
    ensures
        r == pair_precedes(a.deep_view(), b.deep_view()),
{
    if !text::same(&a.0, &b.0) {
        text::before(&a.0, &b.0)
    } else {
        text::before(&a.1, &b.1)
    }
}

/// Puts `x` in its place.
pub fn place_pair(v: &mut Vec<(String, String)>, x: (String, String))
    ensures
        final(v).deep_view() == pair_placed(old(v).deep_view(), x.deep_view()),
{
    let ghost s = v.deep_view();
    let ghost y = x.deep_view();
    let mut i: usize = v.len();
    assert(s.take(i as int) =~= s);
    assert(s.skip(i as int) =~= Seq::<(Seq<char>, Seq<char>)>::empty());
    assert(pair_placed(s, y) + Seq::<(Seq<char>, Seq<char>)>::empty() =~= pair_placed(s, y));
    while i > 0 && pair_before(&x, &v[i - 1])
        invariant
            i <= v@.len(),
            s == v.deep_view(),
            y == x.deep_view(),
            pair_placed(s, y) == pair_placed(s.take(i as int), y) + s.skip(i as int),
        decreases i,
    {
        proof {
            let t = s.take(i as int);
            assert(t.last() == v@[i - 1].deep_view());
            assert(t.drop_last() =~= s.take(i - 1));
            assert(pair_placed(t.drop_last(), y).push(t.last()) + s.skip(i as int)
                =~= pair_placed(s.take(i - 1), y) + s.skip(i - 1));
        }
        i = i - 1;
    }
    proof {
        let t = s.take(i as int);
        if i > 0 {
            assert(t.last() == v@[i - 1].deep_view());
        }
        assert(pair_placed(t, y) == t.push(y));
    }
    v.insert(i, x);
    assert(v.deep_view() =~= s.take(i as int).push(y) + s.skip(i as int));
}

/// No pair stands behind one that it comes before.
pub open spec fn pairs_ordered(s: Seq<(Seq<char>, Seq<char>)>) -> bool {
    forall|i: int, j: int|
        0 <= i < j < s.len() ==> !pair_precedes(#[trigger] s[j], #[trigger] s[i])
}

/// The order of pairs on three of them.
proof fn pair_order_of_three(
    a: (Seq<char>, Seq<char>),
    b: (Seq<char>, Seq<char>),
    c: (Seq<char>, Seq<char>),
)
    ensures
        pair_precedes(a, b) ==> !pair_precedes(b, a),
        !pair_precedes(b, a) && !pair_precedes(c, b) ==> !pair_precedes(c, a),
{
    text::precedes_total(a.0, b.0);
    text::precedes_total(b.0, c.0);
    text::precedes_total(a.0, c.0);
    text::precedes_total(a.1, b.1);
    text::precedes_total(b.1, c.1);
    text::precedes_total(a.1, c.1);
    if text::precedes(a.0, b.0) && text::precedes(b.0, c.0) {
        text::precedes_transitive(a.0, b.0, c.0);
    }
    if text::precedes(a.1, b.1) && text::precedes(b.1, c.1) {
        text::precedes_transitive(a.1, b.1, c.1);
    }
}

/// Placing a pair keeps the order and adds just that pair.
pub proof fn pair_placed_keeps_order(s: Seq<(Seq<char>, Seq<char>)>, x: (Seq<char>, Seq<char>))
    requires
        pairs_ordered(s),
    ensures
        pairs_ordered(pair_placed(s, x)),
        pair_placed(s, x).to_multiset() == s.to_multiset().insert(x),
        forall|i: int|
            0 <= i < pair_placed(s, x).len() ==> #[trigger] pair_placed(s, x)[i] == x
                || s.contains(pair_placed(s, x)[i]),
    decreases s.len(),
{
    broadcast use vstd::seq_lib::group_to_multiset_ensures;

    let r = pair_placed(s, x);
    if s.len() > 0 && pair_precedes(x, s.last()) {
        let d = s.drop_last();
        let w = pair_placed(d, x);
        assert(pairs_ordered(d)) by {
            assert forall|i: int, j: int| 0 <= i < j < d.len() implies !pair_precedes(
                #[trigger] d[j],
                #[trigger] d[i],
            ) by {
                assert(!pair_precedes(s[j], s[i]));
            }
        }
        pair_placed_keeps_order(d, x);
        assert(s =~= d.push(s.last()));
        assert(r.to_multiset() =~= s.to_multiset().insert(x));
        assert forall|i: int, j: int| 0 <= i < j < r.len() implies !pair_precedes(
            #[trigger] r[j],
            #[trigger] r[i],
        ) by {
            if j < w.len() {
                assert(!pair_precedes(w[j], w[i]));
            } else {
                assert(r[i] == w[i]);
                if w[i] == x {
                    pair_order_of_three(x, s.last(), x);
                } else {
                    assert(d.contains(w[i]));
                    let m = choose|m: int| 0 <= m < d.len() && d[m] == w[i];
                    assert(!pair_precedes(s[s.len() - 1], s[m]));
                }
            }
        }
        assert forall|i: int| 0 <= i < r.len() implies #[trigger] r[i] == x || s.contains(
            r[i],
        ) by {
            if i < w.len() {
                assert(r[i] == w[i]);
                if w[i] != x {
                    let m = choose|m: int| 0 <= m < d.len() && d[m] == w[i];
                    assert(s[m] == w[i]);
                }
            } else {
                assert(s[s.len() - 1] == r[i]);
            }
        }
    } else {
        assert forall|i: int, j: int| 0 <= i < j < r.len() implies !pair_precedes(
            #[trigger] r[j],
            #[trigger] r[i],
        ) by {
            if j < s.len() {
                assert(!pair_precedes(s[j], s[i]));
            } else if i < s.len() - 1 {
                assert(!pair_precedes(s[s.len() - 1], s[i]));
                pair_order_of_three(s[i], s.last(), x);
            }
        }
        assert forall|i: int| 0 <= i < r.len() implies #[trigger] r[i] == x || s.contains(
            r[i],
        ) by {
            if i < s.len() {
                assert(s[i] == r[i]);
            }
        }
    }
}

// ---------------------------------------------------------------------------
// Items with a rank
// ---------------------------------------------------------------------------

/// What can be put in order.
pub trait Ranked: Sized {
    /// This one stands before the other.
    spec fn below(&self, other: &Self) -> bool;

    /// Whether this one stands before the other.
    fn is_below(&self, other: &Self) -> (r: bool)
        ensures
            r == self.below(other),
    ;

    /// Nothing stands before itself, and the items fall into ranks, one before
    /// the other.
    proof fn below_ranks(a: &Self, b: &Self, c: &Self)
        ensures
            !a.below(a),
            a.below(b) && b.below(c) ==> a.below(c),
            !a.below(b) && !b.below(c) ==> !a.below(c),
    ;
}

/// An ordered list with `x` behind everything of the same rank.
pub open spec fn rank_placed<T: Ranked>(s: Seq<T>, x: T) -> Seq<T>
    decreases s.len(),
{
    if s.len() > 0 && x.below(&s.last()) {
        rank_placed(s.drop_last(), x).push(s.last())
    } else {
        s.push(x)
    }
}

/// The items by their ranks, those of the same rank as they stood.
pub open spec fn by_rank<T: Ranked>(s: Seq<T>) -> Seq<T>
    decreases s.len(),
{
    if s.len() == 0 {
        s
    } else {
        rank_placed(by_rank(s.drop_last()), s.last())
    }
}

/// No item stands behind one that it belongs before.
pub open spec fn ranks_rise<T: Ranked>(s: Seq<T>) -> bool {
    forall|i: int, j: int|
        #![trigger s[i], s[j]]
        0 <= i < j < s.len() ==> !s[j].below(&s[i])
}

/// Placing an item keeps the ranks in order and adds just that item.
pub proof fn rank_placed_keeps_order<T: Ranked>(s: Seq<T>, x: T)
    requires
        ranks_rise(s),
    ensures
        ranks_rise(rank_placed(s, x)),
        rank_placed(s, x).to_multiset() == s.to_multiset().insert(x),
        forall|i: int|
            0 <= i < rank_placed(s, x).len() ==> #[trigger] rank_placed(s, x)[i] == x
                || s.contains(rank_placed(s, x)[i]),
    decreases s.len(),
{
    broadcast use vstd::seq_lib::group_to_multiset_ensures;

    let r = rank_placed(s, x);
    if s.len() > 0 && x.below(&s.last()) {
        let d = s.drop_last();
        let w = rank_placed(d, x);
        assert(ranks_rise(d)) by {
            assert forall|i: int, j: int|
            #![trigger d[i], d[j]]
            0 <= i < j < d.len() implies !d[j].below(&d[i]) by {
                assert(!s[j].below(&s[i]));
            }
        }
        rank_placed_keeps_order(d, x);
        assert(s =~= d.push(s.last()));
        assert(r.to_multiset() =~= s.to_multiset().insert(x));
        assert forall|i: int, j: int|
            #![trigger r[i], r[j]]
            0 <= i < j < r.len() implies !r[j].below(&r[i]) by {
            if j < w.len() {
                assert(!w[j].below(&w[i]));
            } else {
                assert(r[i] == w[i]);
                if w[i] != x {
                    assert(d.contains(w[i]));
                    let m = choose|m: int| 0 <= m < d.len() && d[m] == w[i];
                    assert(!s[s.len() - 1].below(&s[m]));
                } else {
                    T::below_ranks(&x, &s.last(), &x);
                }
            }
        }
        assert forall|i: int| 0 <= i < r.len() implies #[trigger] r[i] == x || s.contains(
            r[i],
        ) by {
            if i < w.len() {
                assert(r[i] == w[i]);
                if w[i] != x {
                    let m = choose|m: int| 0 <= m < d.len() && d[m] == w[i];
                    assert(s[m] == w[i]);
                }
            } else {
                assert(s[s.len() - 1] == r[i]);
            }
        }
    } else {
        assert forall|i: int, j: int|
            #![trigger r[i], r[j]]
            0 <= i < j < r.len() implies !r[j].below(&r[i]) by {
            if j < s.len() {
                assert(!s[j].below(&s[i]));
            } else if i < s.len() - 1 {
                assert(!s[s.len() - 1].below(&s[i]));
                T::below_ranks(&x, &s.last(), &s[i]);
            }
        }
        assert forall|i: int| 0 <= i < r.len() implies #[trigger] r[i] == x || s.contains(
            r[i],
        ) by {
            if i < s.len() {
                assert(s[i] == r[i]);
            }
        }
    }
}

/// Sorting by rank gives the same items with their ranks in order.
pub proof fn by_rank_is_ordered<T: Ranked>(s: Seq<T>)
    ensures
        ranks_rise(by_rank(s)),
        by_rank(s).to_multiset() == s.to_multiset(),
    decreases s.len(),
{
    broadcast use vstd::seq_lib::group_to_multiset_ensures;

    if s.len() > 0 {
        by_rank_is_ordered(s.drop_last());
        rank_placed_keeps_order(by_rank(s.drop_last()), s.last());
        assert(s =~= s.drop_last().push(s.last()));
    }
}

/// Puts `x` behind everything of the same rank.
fn place_ranked<T: Ranked>(v: &mut Vec<T>, x: T)
    ensures
        final(v)@ == rank_placed(old(v)@, x),
{
    let ghost s = v@;
    let mut i: usize = v.len();
    assert(s.take(i as int) =~= s);
    assert(s.skip(i as int) =~= Seq::<T>::empty());
    assert(rank_placed(s, x) + Seq::<T>::empty() =~= rank_placed(s, x));
    while i > 0 && x.is_below(&v[i - 1])
        invariant
            i <= v@.len(),
            s == v@,
            rank_placed(s, x) == rank_placed(s.take(i as int), x) + s.skip(i as int),
        decreases i,
    {
        proof {
            let t = s.take(i as int);
            assert(t.last() == v@[i - 1]);
            assert(t.drop_last() =~= s.take(i - 1));
            assert(rank_placed(t.drop_last(), x).push(t.last()) + s.skip(i as int)
                =~= rank_placed(s.take(i - 1), x) + s.skip(i - 1));
        }
        i = i - 1;
    }
    proof {
        let t = s.take(i as int);
        if i > 0 {
            assert(t.last() == v@[i - 1]);
        }
        assert(rank_placed(t, x) == t.push(x));
    }
    v.insert(i, x);
    assert(v@ =~= s.take(i as int).push(x) + s.skip(i as int));
}

/// The items by their ranks, those of the same rank as they stood.
pub fn sort_by_rank<T: Ranked>(v: Vec<T>) -> (r: Vec<T>)
    ensures
        r@ == by_rank(v@),
{
    let ghost s = v@;
    let mut rest: Vec<T> = v;
    let mut back: Vec<T> = Vec::new();
    while rest.len() > 0
        invariant
            rest@ + back@.reverse() == s,
        decreases rest@.len(),
    {
        let ghost r0 = rest@;
        let ghost b0 = back@;
        if let Some(x) = rest.pop() {
            back.push(x);
            assert(rest@ + back@.reverse() =~= r0 + b0.reverse());
        }
    }
    assert(back@.reverse() =~= s);
    let mut out: Vec<T> = Vec::new();
    assert(out@ =~= by_rank(s.take(0)));
    while back.len() > 0
        invariant
            back@.len() <= s.len(),
            back@.reverse() == s.skip(s.len() - back@.len()),
            out@ == by_rank(s.take(s.len() - back@.len())),
        decreases back@.len(),
    {
        let ghost b0 = back@;
        let ghost k = s.len() - b0.len();
        if let Some(x) = back.pop() {
            proof {
                assert(b0.reverse()[0] == x);
                assert(s[k] == x);
                assert forall|i: int| 0 <= i < back@.len() implies #[trigger] back@.reverse()[i]
                    == s.skip(k + 1)[i] by {
                    assert(b0.reverse()[i + 1] == s.skip(k)[i + 1]);
                }
                assert(back@.reverse() =~= s.skip(k + 1));
                assert(s.take(k + 1).drop_last() =~= s.take(k));
                assert(s.take(k + 1).last() == x);
            }
            place_ranked(&mut out, x);
        }
    }
    assert(s.take(s.len() as int) =~= s);
    out
}

/// Pairs come in the order of their first texts, and those with the same first
/// in the order of their second.
pub proof fn first_text_decides(a: (Seq<char>, Seq<char>), b: (Seq<char>, Seq<char>))
    ensures
        text::precedes(a.0, b.0) ==> pair_precedes(a, b) && !pair_precedes(b, a),
        a.0 == b.0 ==> pair_precedes(a, b) == text::precedes(a.1, b.1),
{
    text::precedes_total(a.0, b.0);
}

} // verus!

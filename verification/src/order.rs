//! Lists that are kept in order or free of duplicates by a key of their items.

use vstd::prelude::*;

use crate::text;
use crate::text::is_text_before;
use crate::value;
use crate::value::Value;

verus! {

/// A value with a key by which it is ordered and told apart from others.
pub trait Keyed: Value {
    /// Whether the key of `a` stands before the key of `b`.
    spec fn before(a: Self::V, b: Self::V) -> bool;

    /// Whether `a` and `b` have the same key.
    spec fn same_key(a: Self::V, b: Self::V) -> bool;

    /// Two values have the same key when neither stands before the other.
    proof fn law_total(a: Self::V, b: Self::V)
        ensures
            Self::same_key(a, b) == (!Self::before(a, b) && !Self::before(b, a)),
            !(Self::before(a, b) && Self::before(b, a)),
    ;

    /// The order is transitive.
    proof fn law_transitive(a: Self::V, b: Self::V, c: Self::V)
        requires
            Self::before(a, b),
            Self::before(b, c),
        ensures
            Self::before(a, c),
    ;

    /// Values of the same key stand in the same place of the order.
    proof fn law_same_key(a: Self::V, b: Self::V, c: Self::V)
        requires
            Self::same_key(a, b),
        ensures
            Self::before(a, c) == Self::before(b, c),
            Self::before(c, a) == Self::before(c, b),
    ;

    fn is_before(&self, other: &Self) -> (res: bool)
        ensures
            res == Self::before(self.deep_view(), other.deep_view()),
    ;

    fn has_same_key(&self, other: &Self) -> (res: bool)
        ensures
            res == Self::same_key(self.deep_view(), other.deep_view()),
    ;
}

/// The first position at or after `i` whose item `x` stands before, or the
/// length.
pub open spec fn place_from<T: Keyed>(s: Seq<T::V>, x: T::V, i: int) -> int
    decreases s.len() - i,
{
    if i < 0 || i >= s.len() {
        s.len() as int
    } else if T::before(x, s[i]) {
        i
    } else {
        place_from::<T>(s, x, i + 1)
    }
}

/// `s` with `x` in its place.
pub open spec fn placed<T: Keyed>(s: Seq<T::V>, x: T::V) -> Seq<T::V> {
    s.insert(place_from::<T>(s, x, 0), x)
}

/// `acc` with every item of `s` from `i` on in its place.
pub open spec fn sorted_from<T: Keyed>(s: Seq<T::V>, i: int, acc: Seq<T::V>) -> Seq<T::V>
    decreases s.len() - i,
{
    if i < 0 || i >= s.len() {
        acc
    } else {
        sorted_from::<T>(s, i + 1, placed::<T>(acc, s[i]))
    }
}

/// The items of `s` in order; items of the same key keep theirs.
pub open spec fn sorted<T: Keyed>(s: Seq<T::V>) -> Seq<T::V> {
    sorted_from::<T>(s, 0, Seq::empty())
}

/// Whether no item of `s` stands after one that it should stand before.
pub open spec fn in_order<T: Keyed>(s: Seq<T::V>) -> bool {
    forall|i: int, j: int| 0 <= i < j < s.len() ==> !T::before(#[trigger] s[j], #[trigger] s[i])
}

/// Whether `s` holds an item with the key of `x`.
pub open spec fn has_key<T: Keyed>(s: Seq<T::V>, x: T::V) -> bool {
    exists|i: int| 0 <= i < s.len() && T::same_key(#[trigger] s[i], x)
}

/// The set `s` with `x`, unless it already holds an item of that key.
pub open spec fn with_item<T: Keyed>(s: Seq<T::V>, x: T::V) -> Seq<T::V> {
    if has_key::<T>(s, x) {
        s
    } else {
        s.push(x)
    }
}

/// The set `acc` with every item of `s` from `i` on.
pub open spec fn with_items_from<T: Keyed>(s: Seq<T::V>, i: int, acc: Seq<T::V>) -> Seq<T::V>
    decreases s.len() - i,
{
    if i < 0 || i >= s.len() {
        acc
    } else {
        with_items_from::<T>(s, i + 1, with_item::<T>(acc, s[i]))
    }
}

/// Whether no two items of `s` have the same key.
pub open spec fn distinct<T: Keyed>(s: Seq<T::V>) -> bool {
    forall|i: int, j: int| 0 <= i < j < s.len() ==> !T::same_key(#[trigger] s[i], #[trigger] s[j])
}

/// `acc` with the items of `s` from `i` on that have another key than the one
/// they would follow.
pub open spec fn dedup_from<T: Keyed>(s: Seq<T::V>, i: int, acc: Seq<T::V>) -> Seq<T::V>
    decreases s.len() - i,
{
    if i < 0 || i >= s.len() {
        acc
    } else if acc.len() > 0 && T::same_key(acc.last(), s[i]) {
        dedup_from::<T>(s, i + 1, acc)
    } else {
        dedup_from::<T>(s, i + 1, acc.push(s[i]))
    }
}

/// `s` with only the first of every run of items with the same key.
pub open spec fn dedup<T: Keyed>(s: Seq<T::V>) -> Seq<T::V> {
    dedup_from::<T>(s, 0, Seq::empty())
}

/// Puts `x` into its place.
pub fn place<T: Keyed>(items: &mut Vec<T>, x: T)
    ensures
        final(items).deep_view() == placed::<T>(old(items).deep_view(), x.deep_view()),
        final(items).len() == old(items).len() + 1,
{
    let ghost views = items.deep_view();
    let mut i: usize = 0;
    while i < items.len()
        invariant
            i <= items.len(),
            views == items.deep_view(),
            views == old(items).deep_view(),
            *items == *old(items),
            place_from::<T>(views, x.deep_view(), 0) == place_from::<T>(
                views,
                x.deep_view(),
                i as int,
            ),
        decreases items.len() - i,
    {
        assert(views[i as int] == items[i as int].deep_view());
        if x.is_before(&items[i]) {
            let ghost before = *items;
            let ghost y = x;
            items.insert(i, x);
            proof {
                value::lemma_deep_insert(before, *items, i as int, y);
            }
            return ;
        }
        i = i + 1;
    }
    let ghost before = *items;
    let ghost y = x;
    items.insert(i, x);
    proof {
        value::lemma_deep_insert(before, *items, i as int, y);
    }
}

/// The items in order.
pub fn sort<T: Keyed>(items: &Vec<T>) -> (res: Vec<T>)
    ensures
        res.deep_view() == sorted::<T>(items.deep_view()),
        res.len() == items.len(),
{
    let ghost views = items.deep_view();
    let mut res: Vec<T> = Vec::new();
    assert(res.deep_view() =~= Seq::<T::V>::empty());
    let mut i: usize = 0;
    while i < items.len()
        invariant
            i <= items.len(),
            res.len() == i,
            views == items.deep_view(),
            sorted::<T>(views) == sorted_from::<T>(views, i as int, res.deep_view()),
        decreases items.len() - i,
    {
        assert(views[i as int] == items[i as int].deep_view());
        place(&mut res, items[i].dup());
        i = i + 1;
    }
    res
}

/// Whether the items hold one with the key of `x`.
pub fn contains_key<T: Keyed>(items: &Vec<T>, x: &T) -> (res: bool)
    ensures
        res == has_key::<T>(items.deep_view(), x.deep_view()),
{
    let ghost views = items.deep_view();
    let mut i: usize = 0;
    while i < items.len()
        invariant
            i <= items.len(),
            views == items.deep_view(),
            forall|j: int| 0 <= j < i ==> !T::same_key(#[trigger] views[j], x.deep_view()),
        decreases items.len() - i,
    {
        assert(views[i as int] == items[i as int].deep_view());
        if items[i].has_same_key(x) {
            return true;
        }
        i = i + 1;
    }
    false
}

/// Adds `x` to the set, unless it already holds an item of that key.
pub fn insert_item<T: Keyed>(items: &mut Vec<T>, x: T)
    ensures
        final(items).deep_view() == with_item::<T>(old(items).deep_view(), x.deep_view()),
{
    if !contains_key(items, &x) {
        let ghost before = *items;
        let ghost y = x;
        items.push(x);
        proof {
            value::lemma_deep_push(before, *items, y);
        }
    }
}

/// Only the first of every run of items with the same key.
pub fn remove_runs<T: Keyed>(items: &Vec<T>) -> (res: Vec<T>)
    ensures
        res.deep_view() == dedup::<T>(items.deep_view()),
{
    let ghost views = items.deep_view();
    let mut res: Vec<T> = Vec::new();
    assert(res.deep_view() =~= Seq::<T::V>::empty());
    let mut i: usize = 0;
    while i < items.len()
        invariant
            i <= items.len(),
            views == items.deep_view(),
            dedup::<T>(views) == dedup_from::<T>(views, i as int, res.deep_view()),
        decreases items.len() - i,
    {
        assert(views[i as int] == items[i as int].deep_view());
        assert(res.deep_view().len() == res.len());
        if res.len() > 0 {
            assert(res.deep_view().last() == res[res.len() - 1].deep_view());
        }
        if res.len() == 0 || !res[res.len() - 1].has_same_key(&items[i]) {
            let ghost before = res;
            let x = items[i].dup();
            let ghost y = x;
            res.push(x);
            proof {
                value::lemma_deep_push(before, res, y);
            }
        }
        i = i + 1;
    }
    res
}

/// Everything before the place of `x` does not stand after it.
proof fn lemma_place<T: Keyed>(s: Seq<T::V>, x: T::V, i: int)
    requires
        0 <= i <= s.len(),
    ensures
        i <= place_from::<T>(s, x, i) <= s.len(),
        forall|j: int| i <= j < place_from::<T>(s, x, i) ==> !T::before(x, #[trigger] s[j]),
        place_from::<T>(s, x, i) < s.len() ==> T::before(x, s[place_from::<T>(s, x, i)]),
    decreases s.len() - i,
{
    if i < s.len() && !T::before(x, s[i]) {
        lemma_place::<T>(s, x, i + 1);
    }
}

/// Putting an item into its place keeps the order and adds that item only.
proof fn lemma_placed<T: Keyed>(s: Seq<T::V>, x: T::V)
    requires
        in_order::<T>(s),
    ensures
        in_order::<T>(placed::<T>(s, x)),
        placed::<T>(s, x).to_multiset() == s.to_multiset().insert(x),
{
    lemma_place::<T>(s, x, 0);
    let k = place_from::<T>(s, x, 0);
    let t = placed::<T>(s, x);
    assert forall|i: int, j: int| 0 <= i < j < t.len() implies !T::before(
        #[trigger] t[j],
        #[trigger] t[i],
    ) by {
        if i < k && j > k {
            assert(t[i] == s[i] && t[j] == s[j - 1]);
        } else if i < k && j == k {
            assert(t[i] == s[i]);
        } else if i == k {
            assert(t[j] == s[j - 1]);
            T::law_total(x, s[j - 1]);
            if j - 1 > k {
                if T::before(s[j - 1], x) {
                    T::law_transitive(s[j - 1], x, s[k]);
                    assert(!T::before(s[j - 1], s[k]));
                }
            }
        } else if i > k {
            assert(t[i] == s[i - 1] && t[j] == s[j - 1]);
        } else {
            assert(t[i] == s[i] && t[j] == s[j]);
        }
    }
    s.to_multiset_ensures();
    vstd::seq_lib::to_multiset_insert(s, k, x);
}

/// Sorting keeps the order of what is sorted already and adds every item.
proof fn lemma_sorted_from<T: Keyed>(s: Seq<T::V>, i: int, acc: Seq<T::V>)
    requires
        0 <= i <= s.len(),
        in_order::<T>(acc),
    ensures
        in_order::<T>(sorted_from::<T>(s, i, acc)),
        sorted_from::<T>(s, i, acc).to_multiset() == acc.to_multiset().add(
            s.subrange(i, s.len() as int).to_multiset(),
        ),
    decreases s.len() - i,
{
    let rest = s.subrange(i, s.len() as int);
    if i == s.len() {
        assert(rest =~= Seq::<T::V>::empty());
        assert(rest.to_multiset() =~= vstd::multiset::Multiset::<T::V>::empty()) by {
            rest.to_multiset_ensures();
        }
        assert(acc.to_multiset().add(rest.to_multiset()) =~= acc.to_multiset());
    } else {
        lemma_placed::<T>(acc, s[i]);
        lemma_sorted_from::<T>(s, i + 1, placed::<T>(acc, s[i]));
        let tail = s.subrange(i + 1, s.len() as int);
        assert(rest =~= seq![s[i]] + tail);
        assert(tail.insert(0, s[i]) =~= rest);
        vstd::seq_lib::to_multiset_insert(tail, 0, s[i]);
        assert(acc.to_multiset().insert(s[i]).add(tail.to_multiset()) =~= acc.to_multiset().add(
            tail.to_multiset().insert(s[i]),
        ));
    }
}

/// Sorting puts the items in order, loses none and adds none.
pub proof fn law_sorted<T: Keyed>(s: Seq<T::V>)
    ensures
        in_order::<T>(sorted::<T>(s)),
        sorted::<T>(s).to_multiset() == s.to_multiset(),
{
    lemma_sorted_from::<T>(s, 0, Seq::empty());
    assert(s.subrange(0, s.len() as int) =~= s);
    let none = Seq::<T::V>::empty();
    none.to_multiset_ensures();
    assert(none.to_multiset().add(s.to_multiset()) =~= s.to_multiset());
}

/// A set stays free of duplicates when an item is added, and holds the key of
/// that item afterwards.
pub proof fn law_with_item<T: Keyed>(s: Seq<T::V>, x: T::V)
    requires
        distinct::<T>(s),
    ensures
        distinct::<T>(with_item::<T>(s, x)),
        has_key::<T>(with_item::<T>(s, x), x),
        with_item::<T>(s, x).len() <= s.len() + 1,
{
    let t = with_item::<T>(s, x);
    if !has_key::<T>(s, x) {
        T::law_total(x, x);
        assert(T::same_key(t[s.len() as int], x));
        assert forall|i: int, j: int| 0 <= i < j < t.len() implies !T::same_key(
            #[trigger] t[i],
            #[trigger] t[j],
        ) by {
            assert(t[i] == s[i]);
        }
    }
}

impl Keyed for String {
    open spec fn before(a: Seq<char>, b: Seq<char>) -> bool {
        text::text_before(a, b)
    }

    open spec fn same_key(a: Seq<char>, b: Seq<char>) -> bool {
        a == b
    }

    proof fn law_total(a: Seq<char>, b: Seq<char>) {
        text::lemma_text_before_total(a, b, 0);
    }

    proof fn law_transitive(a: Seq<char>, b: Seq<char>, c: Seq<char>) {
        text::lemma_text_before_transitive(a, b, c, 0);
    }

    proof fn law_same_key(a: Seq<char>, b: Seq<char>, c: Seq<char>) {
    }

    fn is_before(&self, other: &Self) -> (res: bool) {
        is_text_before(self.as_str(), other.as_str())
    }

    fn has_same_key(&self, other: &Self) -> (res: bool) {
        *self == *other
    }
}

/// Adding an item to a set keeps every item that it holds, and what the set
/// holds afterwards was there or is the item.
pub proof fn law_with_item_keeps<T: Keyed>(s: Seq<T::V>, x: T::V, y: T::V)
    ensures
        s.contains(y) ==> with_item::<T>(s, x).contains(y),
        has_key::<T>(s, y) ==> has_key::<T>(with_item::<T>(s, x), y),
        with_item::<T>(s, x).contains(y) ==> s.contains(y) || y == x,
        has_key::<T>(with_item::<T>(s, x), x),
{
    let t = with_item::<T>(s, x);
    T::law_total(x, x);
    if !has_key::<T>(s, x) {
        assert(T::same_key(t[s.len() as int], x));
        if s.contains(y) {
            let i = s.index_of(y);
            assert(t[i] == y);
        }
        if has_key::<T>(s, y) {
            let i = choose|i: int| 0 <= i < s.len() && T::same_key(#[trigger] s[i], y);
            assert(T::same_key(t[i], y));
        }
        if t.contains(y) {
            let i = t.index_of(y);
            if i < s.len() {
                assert(s[i] == y);
            }
        }
    }
}

/// Sorting keeps items of different keys apart.
proof fn lemma_sorted_distinct<T: Keyed>(s: Seq<T::V>, i: int, acc: Seq<T::V>)
    requires
        0 <= i <= s.len(),
        distinct::<T>(acc),
        distinct::<T>(s),
        forall|a: int, j: int|
            0 <= a < acc.len() && i <= j < s.len() ==> !T::same_key(
                #[trigger] acc[a],
                #[trigger] s[j],
            ),
    ensures
        distinct::<T>(sorted_from::<T>(s, i, acc)),
    decreases s.len() - i,
{
    if i < s.len() {
        let next = placed::<T>(acc, s[i]);
        lemma_place_within::<T>(acc, s[i], 0);
        let k = place_from::<T>(acc, s[i], 0);
        assert forall|a: int, b: int| 0 <= a < b < next.len() implies !T::same_key(
            #[trigger] next[a],
            #[trigger] next[b],
        ) by {
            if a == k {
                assert(next[b] == acc[b - 1]);
                assert(!T::same_key(acc[b - 1], s[i]));
                T::law_total(next[a], next[b]);
                T::law_total(next[b], next[a]);
            } else if b == k {
                assert(next[a] == acc[a]);
            } else {
                let c = if a < k { a } else { a - 1 };
                let d = if b < k { b } else { b - 1 };
                assert(next[a] == acc[c] && next[b] == acc[d]);
            }
        }
        assert forall|a: int, j: int| 0 <= a < next.len() && i + 1 <= j < s.len() implies
            !T::same_key(#[trigger] next[a], #[trigger] s[j]) by {
            if a == k {
                assert(!T::same_key(s[i], s[j]));
            } else {
                let c = if a < k { a } else { a - 1 };
                assert(next[a] == acc[c]);
            }
        }
        lemma_sorted_distinct::<T>(s, i + 1, next);
    }
}

/// A place is within the list or at its end.
pub proof fn lemma_place_within<T: Keyed>(s: Seq<T::V>, x: T::V, i: int)
    requires
        0 <= i <= s.len(),
    ensures
        i <= place_from::<T>(s, x, i) <= s.len(),
    decreases s.len() - i,
{
    if i < s.len() && !T::before(x, s[i]) {
        lemma_place_within::<T>(s, x, i + 1);
    }
}

/// A sorted list holds the items and keys of the list that was sorted, and
/// keeps them apart.
pub proof fn law_sorted_items<T: Keyed>(s: Seq<T::V>, x: T::V)
    ensures
        sorted::<T>(s).contains(x) == s.contains(x),
        has_key::<T>(sorted::<T>(s), x) == has_key::<T>(s, x),
        distinct::<T>(s) ==> distinct::<T>(sorted::<T>(s)),
{
    let t = sorted::<T>(s);
    law_sorted::<T>(s);
    s.to_multiset_ensures();
    t.to_multiset_ensures();
    assert(forall|y: T::V| #![auto] t.contains(y) == s.contains(y)) by {
        assert forall|y: T::V| #![auto] t.contains(y) == s.contains(y) by {
            assert(t.contains(y) == (t.to_multiset().count(y) > 0));
            assert(s.contains(y) == (s.to_multiset().count(y) > 0));
        }
    }
    if has_key::<T>(t, x) {
        let i = choose|i: int| 0 <= i < t.len() && T::same_key(#[trigger] t[i], x);
        assert(t.contains(t[i]));
        assert(s.contains(t[i]));
        let j = s.index_of(t[i]);
        assert(T::same_key(s[j], x));
    }
    if has_key::<T>(s, x) {
        let i = choose|i: int| 0 <= i < s.len() && T::same_key(#[trigger] s[i], x);
        assert(s.contains(s[i]));
        assert(t.contains(s[i]));
        let j = t.index_of(s[i]);
        assert(T::same_key(t[j], x));
    }
    if distinct::<T>(s) {
        lemma_sorted_distinct::<T>(s, 0, Seq::empty());
    }
}

/// Putting items into their places keeps how many `p` holds of.
pub proof fn lemma_sorted_count<T: Keyed>(
    s: Seq<T::V>,
    p: spec_fn(T::V) -> bool,
    i: int,
    acc: Seq<T::V>,
)
    requires
        0 <= i <= s.len(),
    ensures
        value::count_from(sorted_from::<T>(s, i, acc), p, 0) == value::count_from(acc, p, 0)
            + value::count_from(s, p, i),
    decreases s.len() - i,
{
    if i < s.len() {
        let k = place_from::<T>(acc, s[i], 0);
        lemma_place_within::<T>(acc, s[i], 0);
        value::lemma_count_insert(acc, p, k, s[i]);
        lemma_sorted_count::<T>(s, p, i + 1, placed::<T>(acc, s[i]));
    }
}

/// Removing repeated keys loses no key.
pub proof fn law_dedup<T: Keyed>(s: Seq<T::V>, i: int, acc: Seq<T::V>, x: T::V)
    requires
        0 <= i <= s.len(),
    ensures
        has_key::<T>(acc, x) ==> has_key::<T>(dedup_from::<T>(s, i, acc), x),
        (exists|j: int| i <= j < s.len() && T::same_key(#[trigger] s[j], x)) ==> has_key::<T>(
            dedup_from::<T>(s, i, acc),
            x,
        ),
    decreases s.len() - i,
{
    if i < s.len() {
        let last = acc.len() - 1;
        if acc.len() > 0 && T::same_key(acc.last(), s[i]) {
            law_dedup::<T>(s, i + 1, acc, x);
            if T::same_key(s[i], x) {
                T::law_total(acc.last(), s[i]);
                T::law_total(acc.last(), x);
                T::law_same_key(acc.last(), s[i], x);
                T::law_total(s[i], x);
                assert(T::same_key(acc[last], x));
            }
        } else {
            let next = acc.push(s[i]);
            law_dedup::<T>(s, i + 1, next, x);
            if has_key::<T>(acc, x) {
                let k = choose|k: int| 0 <= k < acc.len() && T::same_key(#[trigger] acc[k], x);
                assert(T::same_key(next[k], x));
            }
            if T::same_key(s[i], x) {
                assert(T::same_key(next[acc.len() as int], x));
            }
        }
    }
}

/// Whether every item of `acc` stands before the next one, and none after an
/// item of `s` from `i` on.
pub open spec fn is_rising<T: Keyed>(s: Seq<T::V>, i: int, acc: Seq<T::V>) -> bool {
    &&& forall|a: int, b: int|
        0 <= a < b < acc.len() ==> T::before(#[trigger] acc[a], #[trigger] acc[b])
    &&& forall|a: int, j: int|
        0 <= a < acc.len() && i <= j < s.len() ==> !T::before(#[trigger] s[j], #[trigger] acc[a])
}

/// Removing runs from a list in order leaves a rising one.
proof fn lemma_dedup_rising<T: Keyed>(s: Seq<T::V>, i: int, acc: Seq<T::V>)
    requires
        0 <= i <= s.len(),
        in_order::<T>(s),
        is_rising::<T>(s, i, acc),
    ensures
        is_rising::<T>(s, s.len() as int, dedup_from::<T>(s, i, acc)),
    decreases s.len() - i,
{
    if i < s.len() {
        if acc.len() > 0 && T::same_key(acc.last(), s[i]) {
            lemma_dedup_rising::<T>(s, i + 1, acc);
        } else {
            let next = acc.push(s[i]);
            assert forall|a: int, b: int| 0 <= a < b < next.len() implies T::before(
                #[trigger] next[a],
                #[trigger] next[b],
            ) by {
                if b == acc.len() {
                    let last = acc.len() - 1;
                    assert(!T::before(s[i], acc[last]));
                    T::law_total(acc[last], s[i]);
                    if a < last {
                        T::law_transitive(acc[a], acc[last], s[i]);
                    }
                }
            }
            assert forall|a: int, j: int|
                0 <= a < next.len() && i + 1 <= j < s.len() implies !T::before(
                #[trigger] s[j],
                #[trigger] next[a],
            ) by {
                if a < acc.len() {
                    assert(!T::before(s[j], acc[a]));
                } else {
                    assert(!T::before(s[j], s[i]));
                }
            }
            lemma_dedup_rising::<T>(s, i + 1, next);
        }
    }
}

/// A list in order without runs holds every key once, and stays in order.
pub proof fn law_dedup_distinct<T: Keyed>(s: Seq<T::V>)
    requires
        in_order::<T>(s),
    ensures
        distinct::<T>(dedup::<T>(s)),
        in_order::<T>(dedup::<T>(s)),
{
    let t = dedup::<T>(s);
    lemma_dedup_rising::<T>(s, 0, Seq::empty());
    assert forall|i: int, j: int| 0 <= i < j < t.len() implies !T::same_key(
        #[trigger] t[i],
        #[trigger] t[j],
    ) && !T::before(t[j], t[i]) by {
        assert(T::before(t[i], t[j]));
        T::law_total(t[i], t[j]);
    }
}

/// Adding the items of a list to a set keeps the set free of duplicates and
/// adds the key of every item.
pub proof fn law_with_items<T: Keyed>(s: Seq<T::V>, i: int, acc: Seq<T::V>, x: T::V)
    requires
        0 <= i <= s.len(),
        distinct::<T>(acc),
    ensures
        distinct::<T>(with_items_from::<T>(s, i, acc)),
        has_key::<T>(acc, x) ==> has_key::<T>(with_items_from::<T>(s, i, acc), x),
        forall|j: int|
            i <= j < s.len() ==> has_key::<T>(with_items_from::<T>(s, i, acc), #[trigger] s[j]),
        with_items_from::<T>(s, i, acc).contains(x) ==> acc.contains(x) || s.contains(x),
    decreases s.len() - i,
{
    if i < s.len() {
        let next = with_item::<T>(acc, s[i]);
        law_with_item::<T>(acc, s[i]);
        law_with_item_keeps::<T>(acc, s[i], x);
        law_with_items::<T>(s, i + 1, next, s[i]);
        law_with_items::<T>(s, i + 1, next, x);
    }
}

/// Removing repeated keys adds no item.
pub proof fn law_dedup_items<T: Keyed>(s: Seq<T::V>, i: int, acc: Seq<T::V>, x: T::V)
    requires
        0 <= i <= s.len(),
        dedup_from::<T>(s, i, acc).contains(x),
    ensures
        acc.contains(x) || s.contains(x),
    decreases s.len() - i,
{
    if i < s.len() {
        if acc.len() > 0 && T::same_key(acc.last(), s[i]) {
            law_dedup_items::<T>(s, i + 1, acc, x);
        } else {
            let next = acc.push(s[i]);
            law_dedup_items::<T>(s, i + 1, next, x);
            if next.contains(x) && s[i] != x {
                assert(acc[next.index_of(x)] == x);
            }
        }
    }
}

} // verus!

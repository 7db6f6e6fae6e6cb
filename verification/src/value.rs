//! Copying and comparing by deep view.

use vstd::prelude::*;

verus! {

/// A type whose values are copied and compared by what they stand for.
pub trait Value: DeepView + Sized {
    /// A copy with the same deep view.
    fn dup(&self) -> (res: Self)
        ensures
            res.deep_view() == self.deep_view(),
    ;

    /// Whether both values have the same deep view.
    fn same(&self, other: &Self) -> (res: bool)
        ensures
            res == (self.deep_view() == other.deep_view()),
    ;
}

impl Value for bool {
    fn dup(&self) -> (res: Self) {
        *self
    }

    fn same(&self, other: &Self) -> (res: bool) {
        *self == *other
    }
}

impl Value for u8 {
    fn dup(&self) -> (res: Self) {
        *self
    }

    fn same(&self, other: &Self) -> (res: bool) {
        *self == *other
    }
}

impl Value for u16 {
    fn dup(&self) -> (res: Self) {
        *self
    }

    fn same(&self, other: &Self) -> (res: bool) {
        *self == *other
    }
}

impl Value for u32 {
    fn dup(&self) -> (res: Self) {
        *self
    }

    fn same(&self, other: &Self) -> (res: bool) {
        *self == *other
    }
}

impl Value for u64 {
    fn dup(&self) -> (res: Self) {
        *self
    }

    fn same(&self, other: &Self) -> (res: bool) {
        *self == *other
    }
}

impl Value for i64 {
    fn dup(&self) -> (res: Self) {
        *self
    }

    fn same(&self, other: &Self) -> (res: bool) {
        *self == *other
    }
}

impl Value for usize {
    fn dup(&self) -> (res: Self) {
        *self
    }

    fn same(&self, other: &Self) -> (res: bool) {
        *self == *other
    }
}

impl Value for String {
    fn dup(&self) -> (res: Self) {
        self.clone()
    }

    fn same(&self, other: &Self) -> (res: bool) {
        *self == *other
    }
}

impl<T: Value> Value for Option<T> {
    fn dup(&self) -> (res: Self) {
        match self {
            Some(value) => Some(value.dup()),
            None => None,
        }
    }

    fn same(&self, other: &Self) -> (res: bool) {
        match (self, other) {
            (Some(a), Some(b)) => a.same(b),
            (None, None) => true,
            _ => false,
        }
    }
}

impl<A: Value, B: Value> Value for (A, B) {
    fn dup(&self) -> (res: Self) {
        (self.0.dup(), self.1.dup())
    }

    fn same(&self, other: &Self) -> (res: bool) {
        self.0.same(&other.0) && self.1.same(&other.1)
    }
}

impl<T: Value> Value for Vec<T> {
    fn dup(&self) -> (res: Self) {
        let mut res: Vec<T> = Vec::new();
        let mut i: usize = 0;
        while i < self.len()
            invariant
                i <= self.len(),
                res.len() == i,
                forall|j: int| 0 <= j < i ==> #[trigger] res[j].deep_view() == self[j].deep_view(),
            decreases self.len() - i,
        {
            res.push(self[i].dup());
            i = i + 1;
        }
        assert(res.deep_view() =~= self.deep_view());
        res
    }

    fn same(&self, other: &Self) -> (res: bool) {
        if self.len() != other.len() {
            assert(self.deep_view().len() != other.deep_view().len());
            return false;
        }
        let mut i: usize = 0;
        while i < self.len()
            invariant
                i <= self.len(),
                self.len() == other.len(),
                forall|j: int|
                    0 <= j < i ==> #[trigger] self[j].deep_view() == other[j].deep_view(),
            decreases self.len() - i,
        {
            if !self[i].same(&other[i]) {
                assert(self.deep_view()[i as int] != other.deep_view()[i as int]);
                return false;
            }
            i = i + 1;
        }
        assert(self.deep_view() =~= other.deep_view());
        true
    }
}

/// Pushing onto a vector pushes onto its deep view.
pub broadcast proof fn lemma_deep_push<T: DeepView>(old_vec: Vec<T>, new_vec: Vec<T>, x: T)
    requires
        old_vec@.push(x) == new_vec@,
    ensures
        #![trigger old_vec@.push(x), new_vec.deep_view()]
        new_vec.deep_view() == old_vec.deep_view().push(x.deep_view()),
{
    assert(new_vec.deep_view() =~= old_vec.deep_view().push(x.deep_view()));
}

/// Inserting into a vector inserts into its deep view.
pub proof fn lemma_deep_insert<T: DeepView>(old_vec: Vec<T>, new_vec: Vec<T>, i: int, x: T)
    requires
        0 <= i <= old_vec@.len(),
        new_vec@ == old_vec@.insert(i, x),
    ensures
        new_vec.deep_view() == old_vec.deep_view().insert(i, x.deep_view()),
{
    assert(new_vec.deep_view() =~= old_vec.deep_view().insert(i, x.deep_view()));
}

/// Removing from a vector removes from its deep view.
pub proof fn lemma_deep_remove<T: DeepView>(old_vec: Vec<T>, new_vec: Vec<T>, i: int)
    requires
        0 <= i < old_vec@.len(),
        new_vec@ == old_vec@.remove(i),
    ensures
        new_vec.deep_view() == old_vec.deep_view().remove(i),
{
    assert(new_vec.deep_view() =~= old_vec.deep_view().remove(i));
}

/// Replacing an element of a vector replaces it in its deep view.
pub proof fn lemma_deep_update<T: DeepView>(old_vec: Vec<T>, new_vec: Vec<T>, i: int, x: T)
    requires
        0 <= i < old_vec@.len(),
        new_vec@ == old_vec@.update(i, x),
    ensures
        new_vec.deep_view() == old_vec.deep_view().update(i, x.deep_view()),
{
    assert(new_vec.deep_view() =~= old_vec.deep_view().update(i, x.deep_view()));
}

/// Appends `x`.
pub fn push<T: DeepView>(items: &mut Vec<T>, x: T)
    ensures
        final(items).deep_view() == old(items).deep_view().push(x.deep_view()),
        final(items).len() == old(items).len() + 1,
{
    let ghost before = *items;
    let ghost y = x;
    items.push(x);
    proof {
        lemma_deep_push(before, *items, y);
    }
}

/// The list without items.
pub fn empty_list<T: DeepView>() -> (res: Vec<T>)
    ensures
        res.deep_view() == Seq::<T::V>::empty(),
        res.len() == 0,
{
    let res: Vec<T> = Vec::new();
    assert(res.deep_view() =~= Seq::<T::V>::empty());
    res
}

/// Whether one of the items is `x`.
pub fn contains<T: Value>(items: &Vec<T>, x: &T) -> (res: bool)
    ensures
        res == items.deep_view().contains(x.deep_view()),
{
    let ghost views = items.deep_view();
    let mut i: usize = 0;
    while i < items.len()
        invariant
            i <= items.len(),
            views == items.deep_view(),
            forall|j: int| 0 <= j < i ==> views[j] != x.deep_view(),
        decreases items.len() - i,
    {
        assert(views[i as int] == items[i as int].deep_view());
        if items[i].same(x) {
            return true;
        }
        i = i + 1;
    }
    false
}

/// The first value that is defined.
pub open spec fn or<T>(a: Option<T>, b: Option<T>) -> Option<T> {
    if a is Some {
        a
    } else {
        b
    }
}

/// Whether `new` is defined and differs from `current`.
pub open spec fn changes<T>(new: Option<T>, current: Option<T>) -> bool {
    new is Some && new != current
}

/// `new` where it differs from `current`.
pub open spec fn change<T>(new: Option<T>, current: Option<T>) -> Option<T> {
    if changes(new, current) {
        new
    } else {
        None
    }
}

/// A copy of the first value that is defined.
pub fn or_dup<T: Value>(a: &Option<T>, b: &Option<T>) -> (res: Option<T>)
    ensures
        res.deep_view() == or(a.deep_view(), b.deep_view()),
{
    if a.is_some() {
        a.dup()
    } else {
        b.dup()
    }
}

/// Whether `new` is defined and differs from `current`.
pub fn is_change<T: Value>(new: &Option<T>, current: &Option<T>) -> (res: bool)
    ensures
        res == changes(new.deep_view(), current.deep_view()),
{
    new.is_some() && !new.same(current)
}

/// A copy of `new` where it differs from `current`.
pub fn change_dup<T: Value>(new: &Option<T>, current: &Option<T>) -> (res: Option<T>)
    ensures
        res.deep_view() == change(new.deep_view(), current.deep_view()),
{
    if is_change(new, current) {
        new.dup()
    } else {
        None
    }
}

/// The number of items from `i` on that `p` holds of.
pub open spec fn count_from<A>(s: Seq<A>, p: spec_fn(A) -> bool, i: int) -> nat
    decreases s.len() - i,
{
    if i < 0 || i >= s.len() {
        0
    } else if p(s[i]) {
        1 + count_from(s, p, i + 1)
    } else {
        count_from(s, p, i + 1)
    }
}

/// Lists that are the same from `i` on have the same number there.
pub proof fn lemma_count_same<A>(a: Seq<A>, b: Seq<A>, p: spec_fn(A) -> bool, i: int)
    requires
        0 <= i,
        a.len() == b.len(),
        forall|j: int| i <= j < a.len() ==> (#[trigger] a[j]) == b[j],
    ensures
        count_from(a, p, i) == count_from(b, p, i),
    decreases a.len() - i,
{
    if i < a.len() {
        assert(a[i] == b[i]);
        lemma_count_same(a, b, p, i + 1);
    }
}

/// What follows a list is counted by itself.
proof fn lemma_count_rest<A>(a: Seq<A>, b: Seq<A>, p: spec_fn(A) -> bool, j: int)
    requires
        0 <= j <= b.len(),
    ensures
        count_from(a + b, p, a.len() + j) == count_from(b, p, j),
    decreases b.len() - j,
{
    if j < b.len() {
        assert((a + b)[a.len() + j] == b[j]);
        lemma_count_rest(a, b, p, j + 1);
    }
}

/// Two lists are counted one after the other.
proof fn lemma_count_both<A>(a: Seq<A>, b: Seq<A>, p: spec_fn(A) -> bool, i: int)
    requires
        0 <= i <= a.len(),
    ensures
        count_from(a + b, p, i) == count_from(a, p, i) + count_from(b, p, 0),
    decreases a.len() - i,
{
    if i < a.len() {
        assert((a + b)[i] == a[i]);
        lemma_count_both(a, b, p, i + 1);
    } else {
        lemma_count_rest(a, b, p, 0);
    }
}

/// One more item counts once where `p` holds of it, wherever it is put.
pub proof fn lemma_count_insert<A>(s: Seq<A>, p: spec_fn(A) -> bool, k: int, x: A)
    requires
        0 <= k <= s.len(),
    ensures
        count_from(s.insert(k, x), p, 0) == count_from(s, p, 0) + (if p(x) {
            1nat
        } else {
            0
        }),
        count_from(s.push(x), p, 0) == count_from(s.insert(k, x), p, 0),
{
    let one = seq![x];
    let (a, b) = (s.subrange(0, k), s.subrange(k, s.len() as int));
    assert(one[0] == x);
    assert(count_from(one, p, 1) == 0);
    assert(s.insert(k, x) =~= a + (one + b));
    assert(s =~= a + b);
    assert(s.push(x) =~= s + one);
    lemma_count_both(a, one + b, p, 0);
    lemma_count_both(one, b, p, 0);
    lemma_count_both(a, b, p, 0);
    lemma_count_both(s, one, p, 0);
}

} // verus!

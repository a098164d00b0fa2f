//! Sorting.
use vstd::prelude::*;
use vstd::relations::*;
use vstd::seq_lib::*;

verus! {

/// Values with a total order.
pub trait Ordered: Copy {
    /// Whether `self` comes before `other` or is equal to it.
    spec fn le(self, other: Self) -> bool;

    fn is_le(self, other: Self) -> (r: bool)
        ensures
            r == self.le(other),
    ;

    proof fn le_is_total_order()
        ensures
            total_ordering(|a: Self, b: Self| a.le(b)),
    ;
}

impl Ordered for i64 {
    open spec fn le(self, other: Self) -> bool {
        self <= other
    }

    fn is_le(self, other: Self) -> (r: bool) {
        self <= other
    }

    proof fn le_is_total_order() {
    }
}

/// A place in a sequence, with the two numbers that the sequence is sorted by.
#[derive(Clone, Copy, Debug, PartialEq, Eq, Structural)]
pub struct Rank {
    pub first: i64,
    pub second: i64,
    pub place: usize,
}

impl Ordered for Rank {
    open spec fn le(self, other: Self) -> bool {
        self.first < other.first || (self.first == other.first && (self.second < other.second || (
        self.second == other.second && self.place <= other.place)))
    }

    fn is_le(self, other: Self) -> (r: bool) {
        self.first < other.first || (self.first == other.first && (self.second < other.second || (
        self.second == other.second && self.place <= other.place)))
    }

    proof fn le_is_total_order() {
    }
}

/// `items` in their order.
pub open spec fn in_order<T: Ordered>(items: Seq<T>) -> Seq<T> {
    items.sort_by(|a: T, b: T| a.le(b))
}

/// Whether no item comes before an earlier one.
pub open spec fn sorted<T: Ordered>(items: Seq<T>) -> bool {
    forall|i: int, j: int| 0 <= i < j < items.len() ==> (#[trigger] items[i]).le(#[trigger] items[j])
}

proof fn le_laws<T: Ordered>(a: T, b: T, c: T)
    ensures
        a.le(a),
        a.le(b) || b.le(a),
        a.le(b) && b.le(c) ==> a.le(c),
{
    T::le_is_total_order();
    let leq = |x: T, y: T| x.le(y);
    assert(leq(a, a));
    assert(leq(a, b) || leq(b, a));
    assert(leq(a, b) && leq(b, c) ==> leq(a, c));
}

/// One more item of a sequence is one more item of its multiset.
pub proof fn push_adds_one<T>(s: Seq<T>, n: int)
    requires
        0 <= n < s.len(),
    ensures
        s.take(n + 1).to_multiset() == s.take(n).to_multiset().insert(s[n]),
{
    broadcast use group_to_multiset_ensures;

    assert(s.take(n + 1) =~= s.take(n).push(s[n]));
}

fn merge<T: Ordered>(a: &Vec<T>, b: &Vec<T>) -> (r: Vec<T>)
    requires
        sorted(a@),
        sorted(b@),
    ensures
        sorted(r@),
        r@.to_multiset() == a@.to_multiset().add(b@.to_multiset()),
{
    broadcast use group_to_multiset_ensures;

    let mut r: Vec<T> = Vec::new();
    let mut i: usize = 0;
    let mut j: usize = 0;
    assert(a@.take(0) =~= Seq::<T>::empty());
    assert(b@.take(0) =~= Seq::<T>::empty());
    assert(r@.to_multiset() =~= a@.take(0).to_multiset().add(b@.take(0).to_multiset()));
    while i < a.len() || j < b.len()
        invariant
            i <= a@.len(),
            j <= b@.len(),
            sorted(a@),
            sorted(b@),
            sorted(r@),
            r@.to_multiset() == a@.take(i as int).to_multiset().add(
                b@.take(j as int).to_multiset(),
            ),
            forall|k: int, l: int|
                0 <= k < r@.len() && i <= l < a@.len() ==> (#[trigger] r@[k]).le(#[trigger] a@[l]),
            forall|k: int, l: int|
                0 <= k < r@.len() && j <= l < b@.len() ==> (#[trigger] r@[k]).le(#[trigger] b@[l]),
        decreases a@.len() - i + b@.len() - j,
    {
        let ghost before = r@;
        if j >= b.len() || (i < a.len() && a[i].is_le(b[j])) {
            let x = a[i];
            r.push(x);
            proof {
                broadcast use group_to_multiset_ensures;

                push_adds_one(a@, i as int);
                assert(r@ == before.push(x));
                assert(r@.to_multiset() =~= a@.take(i + 1).to_multiset().add(
                    b@.take(j as int).to_multiset(),
                ));
                assert forall|l: int| i <= l < a@.len() implies x.le(#[trigger] a@[l]) by {
                    le_laws(x, x, x);
                }
                assert forall|l: int| j <= l < b@.len() implies x.le(#[trigger] b@[l]) by {
                    le_laws(x, b@[j as int], b@[l]);
                    le_laws(b@[j as int], b@[l], x);
                }
            }
            i = i + 1;
        } else {
            let x = b[j];
            r.push(x);
            proof {
                broadcast use group_to_multiset_ensures;

                push_adds_one(b@, j as int);
                assert(r@ == before.push(x));
                assert(r@.to_multiset() =~= a@.take(i as int).to_multiset().add(
                    b@.take(j + 1).to_multiset(),
                ));
                assert forall|l: int| j <= l < b@.len() implies x.le(#[trigger] b@[l]) by {
                    le_laws(x, x, x);
                }
                assert forall|l: int| i <= l < a@.len() implies x.le(#[trigger] a@[l]) by {
                    le_laws(x, a@[i as int], a@[l]);
                    le_laws(a@[i as int], x, a@[l]);
                    le_laws(a@[i as int], a@[i as int], a@[l]);
                }
            }
            j = j + 1;
        }
    }
    assert(a@.take(i as int) =~= a@);
    assert(b@.take(j as int) =~= b@);
    r
}

fn merge_sort<T: Ordered>(items: &Vec<T>, from: usize, to: usize) -> (r: Vec<T>)
    requires
        from <= to <= items@.len(),
    ensures
        sorted(r@),
        r@.to_multiset() == items@.subrange(from as int, to as int).to_multiset(),
    decreases to - from,
{
    if to - from <= 1 {
        let mut r: Vec<T> = Vec::new();
        if from < to {
            r.push(items[from]);
        }
        assert(r@ =~= items@.subrange(from as int, to as int));
        r
    } else {
        let middle: usize = from + (to - from) / 2;
        let left = merge_sort(items, from, middle);
        let right = merge_sort(items, middle, to);
        proof {
            lemma_multiset_commutative(
                items@.subrange(from as int, middle as int),
                items@.subrange(middle as int, to as int),
            );
            assert(items@.subrange(from as int, middle as int) + items@.subrange(
                middle as int,
                to as int,
            ) =~= items@.subrange(from as int, to as int));
        }
        merge(&left, &right)
    }
}

/// Sorts `items`.
pub fn sort<T: Ordered>(items: &Vec<T>) -> (r: Vec<T>)
    ensures
        r@ == in_order(items@),
        sorted(r@),
        r@.to_multiset() == items@.to_multiset(),
        r@.len() == items@.len(),
{
    broadcast use group_to_multiset_ensures;

    let r = merge_sort(items, 0, items.len());
    proof {
        let leq = |a: T, b: T| a.le(b);
        assert(items@.subrange(0, items@.len() as int) =~= items@);
        T::le_is_total_order();
        items@.lemma_sort_by_ensures(leq);
        assert(sorted_by(r@, leq)) by {
            assert forall|i: int, j: int| 0 <= i < j < r@.len() implies #[trigger] leq(
                r@[i],
                r@[j],
            ) by {}
        }
        lemma_sorted_unique(r@, items@.sort_by(leq), leq);
        assert(r@.to_multiset().len() == items@.to_multiset().len());
    }
    r
}

} // verus!

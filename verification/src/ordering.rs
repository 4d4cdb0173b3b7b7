//! Stable sorting by weight, heaviest first.

use vstd::prelude::*;

verus! {

/// Something that is ranked by a natural number and can be copied.
pub trait Weighted: Sized {
    /// The number the item is ranked by.
    spec fn weight(&self) -> nat;

    /// The weight, computed.
    fn weigh(&self) -> (w: u128)
        ensures
            w == self.weight(),
    ;

    /// An item equal to this one.
    fn replica(&self) -> (copy: Self)
        ensures
            copy == *self,
    ;
}

/// Whether an item has weight `w`.
pub open spec fn has_weight<T: Weighted>(w: nat) -> spec_fn(T) -> bool {
    |item: T| item.weight() == w
}

/// The items of weight `w`, in the order in which they stand in `items`.
pub open spec fn of_weight<T: Weighted>(items: Seq<T>, w: nat) -> Seq<T> {
    items.filter(has_weight(w))
}

/// No item stands before a heavier one.
pub open spec fn descending<T: Weighted>(items: Seq<T>) -> bool {
    forall|i: int, j: int| 0 <= i < j < items.len() ==> items[i].weight() >= items[j].weight()
}

/// `output` holds the items of `input` heaviest first, and items of equal
/// weight stand in it as they stood in `input`.
pub open spec fn stable_descending<T: Weighted>(input: Seq<T>, output: Seq<T>) -> bool {
    &&& output.len() == input.len()
    &&& descending(output)
    &&& forall|w: nat| #[trigger] of_weight(output, w) == of_weight(input, w)
}

/// Adding an item at the end adds it to the items of its own weight, at the
/// end, and to no others.
pub proof fn lemma_of_weight_push<T: Weighted>(items: Seq<T>, item: T, w: nat)
    ensures
        of_weight(items.push(item), w) == if item.weight() == w {
            of_weight(items, w).push(item)
        } else {
            of_weight(items, w)
        },
{
    items.lemma_filter_push(item, has_weight(w));
}

/// Where no item has weight `w`, the items of weight `w` are none.
pub proof fn lemma_of_weight_none<T: Weighted>(items: Seq<T>, w: nat)
    requires
        forall|k: int| 0 <= k < items.len() ==> items[k].weight() != w,
    ensures
        of_weight(items, w) == Seq::<T>::empty(),
{
    let pred = has_weight::<T>(w);
    assert(items.all(|x: T| !pred(x)));
    items.lemma_all_neg_filter_empty(pred);
    assert(of_weight(items, w) =~= Seq::<T>::empty());
}

/// Two items that pass a filter stand behind it in the order they had
/// before.
pub proof fn lemma_filter_places<T>(items: Seq<T>, keep: spec_fn(T) -> bool, i: int, j: int)
    requires
        0 <= i < j < items.len(),
        keep(items[i]),
        keep(items[j]),
    ensures
        exists|p: int, q: int|
            #![trigger items.filter(keep)[p], items.filter(keep)[q]]
            0 <= p < q < items.filter(keep).len() && items.filter(keep)[p] == items[i]
                && items.filter(keep)[q] == items[j],
    decreases items.len(),
{
    let rest = items.drop_last();
    let last = items.last();
    assert(items =~= rest.push(last));
    rest.lemma_filter_push(last, keep);
    let kept = rest.filter(keep);
    if j < items.len() - 1 {
        lemma_filter_places(rest, keep, i, j);
        let (p, q) = choose|p: int, q: int|
            #![trigger kept[p], kept[q]]
            0 <= p < q < kept.len() && kept[p] == rest[i] && kept[q] == rest[j];
        assert(items.filter(keep)[p] == items[i] && items.filter(keep)[q] == items[j]);
    } else {
        rest.lemma_filter_contains(keep, i);
        let p = choose|p: int| 0 <= p < kept.len() && kept[p] == rest[i];
        let q = kept.len() as int;
        assert(items.filter(keep)[p] == items[i] && items.filter(keep)[q] == items[j]);
    }
}

/// Two items behind a filter stood in the same order before it.
pub proof fn lemma_filter_keeps_order<T>(items: Seq<T>, keep: spec_fn(T) -> bool, p: int, q: int)
    requires
        0 <= p < q < items.filter(keep).len(),
    ensures
        exists|i: int, j: int|
            #![trigger items[i], items[j]]
            0 <= i < j < items.len() && items[i] == items.filter(keep)[p] && items[j]
                == items.filter(keep)[q],
    decreases items.len(),
{
    items.lemma_filter_len(keep);
    let rest = items.drop_last();
    let last = items.last();
    assert(items =~= rest.push(last));
    rest.lemma_filter_push(last, keep);
    let kept = rest.filter(keep);
    if q < kept.len() {
        lemma_filter_keeps_order(rest, keep, p, q);
        let (i, j) = choose|i: int, j: int|
            #![trigger rest[i], rest[j]]
            0 <= i < j < rest.len() && rest[i] == kept[p] && rest[j] == kept[q];
        assert(items[i] == kept[p] && items[j] == kept[q]);
    } else {
        assert(kept.contains(kept[p]));
        rest.lemma_filter_contains_rev(keep, kept[p]);
        let i = choose|i: int| 0 <= i < rest.len() && rest[i] == kept[p];
        let j = items.len() - 1;
        assert(items[i] == items.filter(keep)[p] && items[j] == items.filter(keep)[q]);
    }
}

/// Merges two runs, each heaviest first, into one; among items of equal
/// weight those of `left` come first.
fn merge<T: Weighted>(left: &Vec<T>, right: &Vec<T>) -> (merged: Vec<T>)
    requires
        descending(left@),
        descending(right@),
        left.len() + right.len() <= usize::MAX,
    ensures
        merged.len() == left.len() + right.len(),
        descending(merged@),
        forall|w: nat| #[trigger]
            of_weight(merged@, w) == of_weight(left@, w) + of_weight(right@, w),
        merged@.to_multiset() == left@.to_multiset().add(right@.to_multiset()),
{
    broadcast use vstd::multiset::group_multiset_axioms;

    let mut merged: Vec<T> = Vec::new();
    let mut i: usize = 0;
    let mut j: usize = 0;
    proof {
        assert(left@.take(0) =~= Seq::<T>::empty());
        assert(right@.take(0) =~= Seq::<T>::empty());
        assert forall|w: nat| #[trigger]
            of_weight(merged@, w) == of_weight(left@.take(0), w) + of_weight(
                right@.take(0),
                w,
            ) by {
            lemma_of_weight_none(Seq::<T>::empty(), w);
        }
        Seq::<T>::empty().to_multiset_ensures();
        assert(merged@.to_multiset() =~= left@.take(0).to_multiset().add(
            right@.take(0).to_multiset(),
        ));
    }
    while i < left.len() || j < right.len()
        invariant
            i <= left.len(),
            j <= right.len(),
            merged.len() == i + j,
            left.len() + right.len() <= usize::MAX,
            descending(left@),
            descending(right@),
            descending(merged@),
            forall|k: int|
                0 <= k < merged.len() && i < left.len() ==> #[trigger] merged[k].weight()
                    >= left[i as int].weight(),
            forall|k: int|
                0 <= k < merged.len() && j < right.len() ==> #[trigger] merged[k].weight()
                    >= right[j as int].weight(),
            forall|k: int|
                0 <= k < j && i < left.len() ==> #[trigger] right[k].weight()
                    > left[i as int].weight(),
            forall|w: nat| #[trigger]
                of_weight(merged@, w) == of_weight(left@.take(i as int), w) + of_weight(
                    right@.take(j as int),
                    w,
                ),
            merged@.to_multiset() == left@.take(i as int).to_multiset().add(
                right@.take(j as int).to_multiset(),
            ),
        decreases left.len() - i + right.len() - j,
    {
        let from_left = if j == right.len() {
            true
        } else if i == left.len() {
            false
        } else {
            left[i].weigh() >= right[j].weigh()
        };
        let ghost before = merged@;
        if from_left {
            let item = left[i].replica();
            merged.push(item);
            proof {
                assert(left@.take(i + 1) =~= left@.take(i as int).push(item));
                assert forall|w: nat| #[trigger]
                    of_weight(merged@, w) == of_weight(left@.take(i + 1), w) + of_weight(
                        right@.take(j as int),
                        w,
                    ) by {
                    lemma_of_weight_push(before, item, w);
                    lemma_of_weight_push(left@.take(i as int), item, w);
                    if item.weight() == w {
                        lemma_of_weight_none(right@.take(j as int), w);
                        assert(of_weight(left@.take(i as int), w).push(item) + Seq::<T>::empty()
                            =~= (of_weight(left@.take(i as int), w) + Seq::<T>::empty()).push(
                            item,
                        ));
                    }
                }
                vstd::seq_lib::to_multiset_build(before, item);
                vstd::seq_lib::to_multiset_build(left@.take(i as int), item);
                assert(merged@.to_multiset() =~= left@.take(i + 1).to_multiset().add(
                    right@.take(j as int).to_multiset(),
                ));
            }
            i += 1;
        } else {
            let item = right[j].replica();
            merged.push(item);
            proof {
                assert(right@.take(j + 1) =~= right@.take(j as int).push(item));
                assert forall|w: nat| #[trigger]
                    of_weight(merged@, w) == of_weight(left@.take(i as int), w) + of_weight(
                        right@.take(j + 1),
                        w,
                    ) by {
                    lemma_of_weight_push(before, item, w);
                    lemma_of_weight_push(right@.take(j as int), item, w);
                    if item.weight() == w {
                        assert(of_weight(left@.take(i as int), w) + of_weight(
                            right@.take(j as int),
                            w,
                        ).push(item) =~= (of_weight(left@.take(i as int), w) + of_weight(
                            right@.take(j as int),
                            w,
                        )).push(item));
                    }
                }
                vstd::seq_lib::to_multiset_build(before, item);
                vstd::seq_lib::to_multiset_build(right@.take(j as int), item);
                assert(merged@.to_multiset() =~= left@.take(i as int).to_multiset().add(
                    right@.take(j + 1).to_multiset(),
                ));
            }
            j += 1;
        }
    }
    proof {
        assert(left@.take(i as int) =~= left@);
        assert(right@.take(j as int) =~= right@);
    }
    merged
}

/// The items of `items[from..to]`, sorted.
fn sort_run<T: Weighted>(items: &Vec<T>, from: usize, to: usize) -> (sorted: Vec<T>)
    requires
        from <= to <= items.len(),
    ensures
        stable_descending(items@.subrange(from as int, to as int), sorted@),
        sorted@.to_multiset() == items@.subrange(from as int, to as int).to_multiset(),
    decreases to - from,
{
    let ghost run = items@.subrange(from as int, to as int);
    if to - from == 0 {
        let sorted: Vec<T> = Vec::new();
        assert(sorted@ =~= run);
        sorted
    } else if to - from == 1 {
        let mut sorted: Vec<T> = Vec::new();
        sorted.push(items[from].replica());
        assert(sorted@ =~= run);
        sorted
    } else {
        let middle: usize = from + (to - from) / 2;
        let left = sort_run(items, from, middle);
        let right = sort_run(items, middle, to);
        let sorted = merge(&left, &right);
        proof {
            let first = items@.subrange(from as int, middle as int);
            let second = items@.subrange(middle as int, to as int);
            assert(run =~= first + second);
            assert forall|w: nat| #[trigger] of_weight(sorted@, w) == of_weight(run, w) by {
                Seq::filter_distributes_over_add(first, second, has_weight(w));
            }
            vstd::seq_lib::lemma_multiset_commutative(first, second);
        }
        sorted
    }
}

/// A copy of `items` sorted heaviest first; items of equal weight keep the
/// order they had.
pub fn sort_descending<T: Weighted>(items: &Vec<T>) -> (sorted: Vec<T>)
    ensures
        stable_descending(items@, sorted@),
        sorted@.to_multiset() == items@.to_multiset(),
{
    assert(items@.subrange(0, items.len() as int) =~= items@);
    sort_run(items, 0, items.len())
}

} // verus!

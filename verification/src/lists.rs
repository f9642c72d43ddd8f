//! Facts about lists that the laws of several modules share.

use vstd::prelude::*;

verus! {

/// The items from position `i` on that pass, by what happens to the first of them.
pub proof fn lemma_filter_from<T>(items: Seq<T>, i: int, pass: spec_fn(T) -> bool)
    requires
        0 <= i <= items.len(),
    ensures
        i < items.len() ==> items.skip(i).filter(pass) == (if pass(items[i]) {
            seq![items[i]]
        } else {
            Seq::empty()
        }) + items.skip(i + 1).filter(pass),
        i == items.len() ==> items.skip(i).filter(pass) == Seq::<T>::empty(),
{
    reveal_with_fuel(Seq::filter, 2);
    if i < items.len() {
        let first = seq![items[i]];
        assert(items.skip(i) =~= first + items.skip(i + 1));
        Seq::filter_distributes_over_add(first, items.skip(i + 1), pass);
        assert(first.drop_last() =~= Seq::empty());
        assert(first.last() == items[i]);
        assert(first.filter(pass) =~= (if pass(items[i]) {
            seq![items[i]]
        } else {
            Seq::empty()
        }));
    }
}

/// Where nothing passes from position `i` on, nothing is left.
pub proof fn lemma_filter_none<T>(items: Seq<T>, i: int, pass: spec_fn(T) -> bool)
    requires
        0 <= i <= items.len(),
        forall|k: int| i <= k < items.len() ==> !pass(#[trigger] items[k]),
    ensures
        items.skip(i).filter(pass) == Seq::<T>::empty(),
    decreases items.len() - i,
{
    lemma_filter_from(items, i, pass);
    if i < items.len() {
        assert(!pass(items[i]));
        lemma_filter_none(items, i + 1, pass);
        assert(Seq::<T>::empty() + Seq::<T>::empty() =~= Seq::<T>::empty());
    }
}

/// What is left stood in the list and passes.
pub proof fn lemma_filtered_from<T>(items: Seq<T>, pass: spec_fn(T) -> bool, at: int)
    requires
        0 <= at < items.filter(pass).len(),
    ensures
        pass(items.filter(pass)[at]),
        exists|j: int| 0 <= j < items.len() && items[j] == items.filter(pass)[at],
    decreases items.len(),
{
    reveal(Seq::filter);
    if items.len() > 0 {
        let front = items.drop_last();
        if at < front.filter(pass).len() {
            lemma_filtered_from(front, pass, at);
            let j = choose|j: int| 0 <= j < front.len() && front[j] == front.filter(pass)[at];
            assert(items[j] == items.filter(pass)[at]);
        } else {
            assert(items[items.len() - 1] == items.filter(pass)[at]);
        }
    }
}

/// What passes is left.
pub proof fn lemma_filter_keeps<T>(items: Seq<T>, pass: spec_fn(T) -> bool, i: int) -> (at: int)
    requires
        0 <= i < items.len(),
        pass(items[i]),
    ensures
        0 <= at < items.filter(pass).len(),
        items.filter(pass)[at] == items[i],
    decreases items.len(),
{
    reveal(Seq::filter);
    let front = items.drop_last();
    if i < front.len() {
        let at = lemma_filter_keeps(front, pass, i);
        assert(items.filter(pass)[at] == front.filter(pass)[at]);
        at
    } else {
        items.filter(pass).len() - 1
    }
}

/// What is left stands in the order of the list.
pub proof fn lemma_filter_places<T>(items: Seq<T>, pass: spec_fn(T) -> bool) -> (at: Seq<int>)
    ensures
        at.len() == items.filter(pass).len(),
        forall|k: int|
            #![trigger at[k]]
            0 <= k < at.len() ==> 0 <= at[k] < items.len() && items[at[k]] == items.filter(pass)[k]
                && pass(items[at[k]]),
        forall|k: int, l: int| 0 <= k < l < at.len() ==> #[trigger] at[k] < #[trigger] at[l],
    decreases items.len(),
{
    reveal(Seq::filter);
    if items.len() > 0 {
        let front = items.drop_last();
        let before = lemma_filter_places(front, pass);
        let at = if pass(items.last()) {
            before.push(items.len() - 1)
        } else {
            before
        };
        assert forall|k: int| #![trigger at[k]] 0 <= k < at.len() implies 0 <= at[k] < items.len()
            && items[at[k]] == items.filter(pass)[k] && pass(items[at[k]]) by {
            if k < before.len() {
                assert(0 <= before[k] < front.len());
                assert(items[before[k]] == front[before[k]]);
            }
        }
        assert forall|k: int, l: int| 0 <= k < l < at.len() implies #[trigger] at[k]
            < #[trigger] at[l] by {
            assert(0 <= before[k] < front.len());
        }
        at
    } else {
        Seq::empty()
    }
}

} // verus!

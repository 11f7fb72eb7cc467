//! Sorting that leaves equal items in their order.
use vstd::prelude::*;

verus! {

/// Items that have an order.
pub trait Ordered: View + Sized {
    /// The item `left` belongs after the item `right`.
    spec fn behind(left: Self::V, right: Self::V) -> bool;

    fn is_behind(&self, other: &Self) -> (behind: bool)
        ensures
            behind == Self::behind(self@, other@),
    ;
}

pub open spec fn views_of<T: View>(items: Seq<T>) -> Seq<T::V> {
    Seq::new(items.len(), |i: int| items[i]@)
}

/// Sorted items with one more, which goes after those that are not behind it.
pub open spec fn with_item<T: Ordered>(sorted: Seq<T::V>, item: T::V) -> Seq<T::V>
    decreases sorted.len(),
{
    if sorted.len() == 0 || !T::behind(sorted.last(), item) {
        sorted.push(item)
    } else {
        with_item::<T>(sorted.drop_last(), item).push(sorted.last())
    }
}

/// The items in their order; of equal ones the first stays first.
pub open spec fn ordered<T: Ordered>(items: Seq<T::V>) -> Seq<T::V>
    decreases items.len(),
{
    if items.len() == 0 {
        seq![]
    } else {
        with_item::<T>(ordered::<T>(items.drop_last()), items.last())
    }
}

proof fn lemma_with_item<T: Ordered>(sorted: Seq<T::V>, item: T::V, at: int)
    requires
        0 <= at <= sorted.len(),
        forall|j: int| at <= j < sorted.len() ==> T::behind(#[trigger] sorted[j], item),
        at > 0 ==> !T::behind(sorted[at - 1], item),
    ensures
        with_item::<T>(sorted, item) == sorted.insert(at, item),
    decreases sorted.len(),
{
    if at < sorted.len() {
        lemma_with_item::<T>(sorted.drop_last(), item, at);
        assert(sorted.insert(at, item) =~= sorted.drop_last().insert(at, item).push(sorted.last()));
    } else {
        assert(sorted.insert(at, item) =~= sorted.push(item));
    }
}

/// Sorts items.
pub fn sort_items<T: Ordered>(items: Vec<T>) -> (sorted: Vec<T>)
    ensures
        views_of(sorted@) == ordered::<T>(views_of(items@)),
{
    let ghost all = views_of(items@);
    let ghost own = items@;
    let mut rest = items;
    let mut queue: Vec<T> = Vec::new();
    while rest.len() > 0
        invariant
            rest@ == own.take(rest@.len() as int),
            rest@.len() + queue@.len() == own.len(),
            forall|j: int|
                0 <= j < queue@.len() ==> #[trigger] queue@[j] == own[own.len() - 1 - j],
        decreases rest.len(),
    {
        match rest.pop() {
            Some(item) => {
                queue.push(item);
            },
            None => {},
        }
        assert(rest@ =~= own.take(rest@.len() as int));
    }
    let mut sorted: Vec<T> = Vec::new();
    assert(views_of(sorted@) =~= ordered::<T>(all.take(0)));
    while queue.len() > 0
        invariant
            all == views_of(own),
            queue@.len() + sorted@.len() == own.len(),
            forall|j: int|
                0 <= j < queue@.len() ==> #[trigger] queue@[j] == own[own.len() - 1 - j],
            views_of(sorted@) == ordered::<T>(all.take(sorted@.len() as int)),
        decreases queue.len(),
    {
        let ghost i = sorted@.len() as int;
        let ghost queued = queue@;
        let item = match queue.pop() {
            Some(item) => item,
            None => {
                return sorted;
            },
        };
        assert(item == own[i]) by {
            assert(queued[queued.len() - 1] == own[own.len() - queued.len()]);
        }
        assert forall|j: int| 0 <= j < queue@.len() implies #[trigger] queue@[j] == own[own.len()
            - 1 - j] by {
            assert(queue@[j] == queued[j]);
        }
        let mut at: usize = sorted.len();
        loop
            invariant
                at <= sorted.len(),
                forall|j: int|
                    at <= j < sorted@.len() ==> T::behind((#[trigger] sorted@[j])@, item@),
            ensures
                at > 0 ==> !T::behind(sorted@[at - 1]@, item@),
            decreases at,
        {
            if at == 0 || !sorted[at - 1].is_behind(&item) {
                break;
            }
            at -= 1;
        }
        let ghost before = sorted@;
        let ghost model = item@;
        sorted.insert(at, item);
        proof {
            let views = views_of(before);
            assert forall|j: int| at <= j < views.len() implies T::behind(
                #[trigger] views[j],
                model,
            ) by {
                assert(T::behind(before[j]@, model));
            }
            lemma_with_item::<T>(views, model, at as int);
            assert(views_of(sorted@) =~= views.insert(at as int, model));
            assert(all.take(i + 1).drop_last() =~= all.take(i));
            assert(all.take(i + 1).last() == all[i]);
        }
    }
    assert(all.take(own.len() as int) =~= all);
    sorted
}

/// Sorting keeps every item, as often as it is there.
pub proof fn law_sorting_keeps_items<T: Ordered>(items: Seq<T::V>)
    ensures
        ordered::<T>(items).to_multiset() == items.to_multiset(),
        ordered::<T>(items).len() == items.len(),
    decreases items.len(),
{
    broadcast use vstd::seq_lib::group_to_multiset_ensures;

    if items.len() > 0 {
        law_sorting_keeps_items::<T>(items.drop_last());
        lemma_with_item_multiset::<T>(ordered::<T>(items.drop_last()), items.last());
        assert(items =~= items.drop_last().push(items.last()));
    }
}

proof fn lemma_with_item_multiset<T: Ordered>(sorted: Seq<T::V>, item: T::V)
    ensures
        with_item::<T>(sorted, item).to_multiset() == sorted.to_multiset().insert(item),
        with_item::<T>(sorted, item).len() == sorted.len() + 1,
    decreases sorted.len(),
{
    broadcast use vstd::seq_lib::group_to_multiset_ensures;

    if sorted.len() > 0 && T::behind(sorted.last(), item) {
        lemma_with_item_multiset::<T>(sorted.drop_last(), item);
        assert(sorted =~= sorted.drop_last().push(sorted.last()));
        assert(with_item::<T>(sorted, item).to_multiset() =~= sorted.to_multiset().insert(item));
    }
}

/// The order is one: of two items only one can be behind the other, and what is not behind one
/// that is not behind a third is not behind the third either.
pub open spec fn is_order<T: Ordered>() -> bool {
    &&& forall|a: T::V, b: T::V| #[trigger] T::behind(a, b) ==> !T::behind(b, a)
    &&& forall|a: T::V, b: T::V, c: T::V|
        !#[trigger] T::behind(a, b) && !#[trigger] T::behind(b, c) ==> !T::behind(a, c)
}

pub open spec fn is_sorted<T: Ordered>(items: Seq<T::V>) -> bool {
    forall|i: int, j: int|
        0 <= i < j < items.len() ==> !T::behind(#[trigger] items[i], #[trigger] items[j])
}

/// No item comes before one that it belongs behind.
pub proof fn law_sorted<T: Ordered>(items: Seq<T::V>)
    requires
        is_order::<T>(),
    ensures
        is_sorted::<T>(ordered::<T>(items)),
    decreases items.len(),
{
    if items.len() > 0 {
        law_sorted::<T>(items.drop_last());
        lemma_with_item_sorted::<T>(ordered::<T>(items.drop_last()), items.last());
    }
}

proof fn lemma_with_item_sorted<T: Ordered>(sorted: Seq<T::V>, item: T::V)
    requires
        is_order::<T>(),
        is_sorted::<T>(sorted),
    ensures
        is_sorted::<T>(with_item::<T>(sorted, item)),
        forall|i: int|
            0 <= i < with_item::<T>(sorted, item).len() ==> sorted.contains(
                #[trigger] with_item::<T>(sorted, item)[i],
            ) || with_item::<T>(sorted, item)[i] == item,
    decreases sorted.len(),
{
    let all = with_item::<T>(sorted, item);
    if sorted.len() == 0 || !T::behind(sorted.last(), item) {
        assert forall|i: int, j: int| 0 <= i < j < all.len() implies !T::behind(
            #[trigger] all[i],
            #[trigger] all[j],
        ) by {
            if j == sorted.len() {
                assert(sorted.last() == sorted[sorted.len() - 1]);
                if i < sorted.len() - 1 {
                    assert(!T::behind(sorted[i], sorted[sorted.len() - 1]));
                }
            } else {
                assert(!T::behind(sorted[i], sorted[j]));
            }
        }
        assert forall|i: int| 0 <= i < all.len() implies sorted.contains(#[trigger] all[i])
            || all[i] == item by {
            if i < sorted.len() {
                assert(sorted[i] == all[i]);
            }
        }
    } else {
        let less = sorted.drop_last();
        let before = with_item::<T>(less, item);
        assert(is_sorted::<T>(less)) by {
            assert forall|i: int, j: int| 0 <= i < j < less.len() implies !T::behind(
                #[trigger] less[i],
                #[trigger] less[j],
            ) by {
                assert(!T::behind(sorted[i], sorted[j]));
            }
        }
        lemma_with_item_sorted::<T>(less, item);
        assert forall|i: int| 0 <= i < all.len() implies sorted.contains(#[trigger] all[i])
            || all[i] == item by {
            if i < before.len() {
                assert(all[i] == before[i]);
                if less.contains(before[i]) {
                    let k = choose|k: int| 0 <= k < less.len() && less[k] == before[i];
                    assert(sorted[k] == all[i]);
                }
            } else {
                assert(sorted[sorted.len() - 1] == all[i]);
            }
        }
        assert forall|i: int, j: int| 0 <= i < j < all.len() implies !T::behind(
            #[trigger] all[i],
            #[trigger] all[j],
        ) by {
            assert(all[i] == before[i]);
            if j < before.len() {
                assert(!T::behind(before[i], before[j]));
            } else if before[i] == item {
                assert(T::behind(sorted.last(), item));
            } else {
                let k = choose|k: int| 0 <= k < less.len() && less[k] == before[i];
                assert(!T::behind(sorted[k], sorted[sorted.len() - 1]));
            }
        }
    }
}

} // verus!

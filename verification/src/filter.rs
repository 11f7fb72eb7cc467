//! Lists of which only the items that match a query are shown.
use vstd::prelude::*;

use crate::loose_match::{loose_match, loose_pattern, LooseMatcher};
use crate::strings::{contains_chars, occurs};
use crate::text::chars_of;
use crate::unicode::string_texts;

verus! {

/// A query and the items that match it, by their indices in the whole list.
#[verifier::ext_equal]
pub struct FilterModel {
    pub query: Seq<char>,
    pub visible: Seq<int>,
}

/// A label matches a query loosely, or holds it where the query has only separators.
pub open spec fn label_matches(query: Seq<char>, label: Seq<char>) -> bool {
    if query.len() == 0 {
        true
    } else if loose_pattern(query).len() == 0 {
        occurs(label, query)
    } else {
        loose_match(loose_pattern(query), label)
    }
}

/// The items that match a query.
pub open spec fn matching_items(query: Seq<char>, labels: Seq<Seq<char>>) -> Seq<int>
    decreases labels.len(),
{
    if labels.len() == 0 {
        seq![]
    } else {
        let before = matching_items(query, labels.drop_last());
        if label_matches(query, labels.last()) {
            before.push(labels.len() - 1)
        } else {
            before
        }
    }
}

pub open spec fn all_items(total: int) -> Seq<int> {
    Seq::new(total as nat, |i: int| i)
}

/// Where an item is shown, or the first place.
pub open spec fn place_of(visible: Seq<int>, item: int) -> int
    decreases visible.len(),
{
    if visible.len() == 0 {
        0
    } else {
        let before = place_of(visible.drop_last(), item);
        if visible.drop_last().contains(item) {
            before
        } else if visible.last() == item {
            visible.len() - 1
        } else {
            0
        }
    }
}

/// The place of the item that was selected, in the new list.
pub open spec fn reselected(before: FilterModel, selected: int, visible: Seq<int>) -> int {
    if 0 <= selected < before.visible.len() {
        place_of(visible, before.visible[selected])
    } else {
        0
    }
}

/// The labels of the items that are shown.
pub open spec fn shown_labels(visible: Seq<int>, labels: Seq<Seq<char>>) -> Seq<Seq<char>>
    decreases visible.len(),
{
    if visible.len() == 0 {
        seq![]
    } else {
        let before = shown_labels(visible.drop_last(), labels);
        if visible.last() < labels.len() {
            before.push(labels[visible.last()])
        } else {
            before
        }
    }
}

/// The items that are shown stand in their order in the whole list, and are just those that
/// match.
pub proof fn law_matching_items(query: Seq<char>, labels: Seq<Seq<char>>)
    ensures
        forall|i: int, j: int|
            0 <= i < j < matching_items(query, labels).len() ==> #[trigger] matching_items(
                query,
                labels,
            )[i] < #[trigger] matching_items(query, labels)[j],
        forall|i: int|
            0 <= i < matching_items(query, labels).len() ==> 0 <= #[trigger] matching_items(
                query,
                labels,
            )[i] < labels.len() && label_matches(query, labels[matching_items(query, labels)[i]]),
        forall|k: int|
            0 <= k < labels.len() && label_matches(query, #[trigger] labels[k])
                ==> matching_items(query, labels).contains(k),
    decreases labels.len(),
{
    if labels.len() > 0 {
        let less = labels.drop_last();
        law_matching_items(query, less);
        let before = matching_items(query, less);
        let all = matching_items(query, labels);
        assert forall|i: int| 0 <= i < all.len() implies 0 <= #[trigger] all[i] < labels.len()
            && label_matches(query, labels[all[i]]) by {
            if i < before.len() {
                assert(all[i] == before[i]);
                assert(labels[before[i]] == less[before[i]]);
            }
        }
        assert forall|i: int, j: int| 0 <= i < j < all.len() implies #[trigger] all[i]
            < #[trigger] all[j] by {
            assert(all[i] == before[i]);
            if j < before.len() {
                assert(all[j] == before[j]);
            }
        }
        assert forall|k: int| 0 <= k < labels.len() && label_matches(query, #[trigger] labels[k])
            implies all.contains(k) by {
            if k < less.len() {
                assert(less[k] == labels[k]);
                assert(before.contains(k));
                let i = choose|i: int| 0 <= i < before.len() && before[i] == k;
                assert(all[i] == k);
            } else {
                assert(all[all.len() - 1] == k);
            }
        }
    }
}

/// A query that is empty shows everything.
pub proof fn law_empty_query(labels: Seq<Seq<char>>)
    ensures
        matching_items(seq![], labels) == all_items(labels.len() as int),
    decreases labels.len(),
{
    if labels.len() > 0 {
        law_empty_query(labels.drop_last());
    }
    assert(matching_items(seq![], labels) =~= all_items(labels.len() as int));
}

/// An item that was selected and is still shown stays selected.
pub proof fn law_selection_is_kept(before: FilterModel, selected: int, visible: Seq<int>)
    requires
        0 <= selected < before.visible.len(),
        visible.contains(before.visible[selected]),
    ensures
        0 <= reselected(before, selected, visible) < visible.len(),
        visible[reselected(before, selected, visible)] == before.visible[selected],
{
    lemma_place_of(visible, before.visible[selected]);
}

proof fn lemma_place_of(visible: Seq<int>, item: int)
    ensures
        visible.contains(item) ==> 0 <= place_of(visible, item) < visible.len() && visible[place_of(
            visible,
            item,
        )] == item,
        !visible.contains(item) ==> place_of(visible, item) == 0,
    decreases visible.len(),
{
    if visible.len() > 0 {
        let before = visible.drop_last();
        lemma_place_of(before, item);
        assert(visible[visible.len() - 1] == visible.last());
        if before.contains(item) {
            assert(visible[place_of(before, item)] == item);
        } else if visible.contains(item) {
            let i = choose|i: int| 0 <= i < visible.len() && visible[i] == item;
            if i < before.len() {
                assert(before[i] == item);
            }
        }
    }
}

pub open spec fn index_views(indices: Seq<usize>) -> Seq<int> {
    Seq::new(indices.len(), |i: int| indices[i] as int)
}

/// A list of which only the items that match a query are shown.
#[derive(Debug)]
pub struct FilteredList {
    query: String,
    visible_indices: Vec<usize>,
}

impl View for FilteredList {
    type V = FilterModel;

    closed spec fn view(&self) -> FilterModel {
        FilterModel { query: self.query@, visible: index_views(self.visible_indices@) }
    }
}

impl FilteredList {
    /// A list of which everything is shown.
    pub fn new(total: usize) -> (list: Self)
        ensures
            list@ == (FilterModel { query: seq![], visible: all_items(total as int) }),
    {
        let mut visible_indices: Vec<usize> = Vec::new();
        let mut i: usize = 0;
        while i < total
            invariant
                i <= total,
                index_views(visible_indices@) == all_items(i as int),
            decreases total - i,
        {
            let ghost before = visible_indices@;
            visible_indices.push(i);
            assert(index_views(visible_indices@) =~= index_views(before).push(i as int));
            i += 1;
            assert(index_views(visible_indices@) =~= all_items(i as int));
        }
        let list = FilteredList { query: String::new(), visible_indices };
        assert(list@ =~= (FilterModel { query: seq![], visible: all_items(total as int) }));
        list
    }

    pub fn query(&self) -> (query: &str)
        ensures
            query@ == self@.query,
    {
        self.query.as_str()
    }

    /// Whether there is a query.
    pub fn is_active(&self) -> (active: bool)
        ensures
            active == (self@.query.len() > 0),
    {
        chars_of(self.query.as_str()).len() > 0
    }

    /// The number of items that are shown.
    pub fn len(&self) -> (length: usize)
        ensures
            length == self@.visible.len(),
    {
        self.visible_indices.len()
    }

    /// The item that is shown at a place.
    pub fn original_index(&self, visible_index: usize) -> (index: Option<usize>)
        ensures
            match index {
                Some(item) => visible_index < self@.visible.len() && item
                    == self@.visible[visible_index as int],
                None => visible_index >= self@.visible.len(),
            },
    {
        if visible_index < self.visible_indices.len() {
            Some(self.visible_indices[visible_index])
        } else {
            None
        }
    }

    /// Sets the query, and says where the item that was selected is now.
    pub fn update(&mut self, query: String, labels: &[String], selected_visible: usize) -> (selected:
        usize)
        ensures
            final(self)@ == (FilterModel {
                query: query@,
                visible: matching_items(query@, string_texts(labels@)),
            }),
            selected == reselected(
                old(self)@,
                selected_visible as int,
                final(self)@.visible,
            ),
    {
        let preferred = self.original_index(selected_visible);
        self.query = query;
        self.rebuild(labels);
        match preferred {
            Some(item) => {
                self.find_item(item)
            },
            None => 0,
        }
    }

    /// Looks for the matching items again after the list has changed.
    pub fn refresh(&mut self, labels: &[String])
        ensures
            final(self)@ == (FilterModel {
                query: old(self)@.query,
                visible: matching_items(old(self)@.query, string_texts(labels@)),
            }),
    {
        self.rebuild(labels);
    }

    /// The labels of the items that are shown.
    pub fn items(&self, labels: &[String]) -> (items: Vec<String>)
        ensures
            string_texts(items@) == shown_labels(self@.visible, string_texts(labels@)),
    {
        let ghost visible = self@.visible;
        let ghost all = string_texts(labels@);
        let mut items: Vec<String> = Vec::new();
        let mut i: usize = 0;
        assert(string_texts(items@) =~= shown_labels(visible.take(0), all));
        while i < self.visible_indices.len()
            invariant
                i <= self.visible_indices.len(),
                visible == index_views(self.visible_indices@),
                all == string_texts(labels@),
                string_texts(items@) == shown_labels(visible.take(i as int), all),
            decreases self.visible_indices.len() - i,
        {
            let index: usize = self.visible_indices[i];
            assert(visible.take(i + 1).drop_last() =~= visible.take(i as int));
            assert(visible.take(i + 1).last() == index);
            if index < labels.len() {
                let ghost before = items@;
                items.push(labels[index].clone());
                assert(string_texts(items@) =~= string_texts(before).push(all[index as int]));
            }
            i += 1;
        }
        assert(visible.take(i as int) =~= visible);
        items
    }

    /// Where an item is shown, or the first place.
    fn find_item(&self, item: usize) -> (place: usize)
        ensures
            place == place_of(self@.visible, item as int),
    {
        let ghost visible = self@.visible;
        let mut i: usize = 0;
        while i < self.visible_indices.len()
            invariant
                i <= self.visible_indices.len(),
                visible == index_views(self.visible_indices@),
                visible == self@.visible,
                forall|j: int| 0 <= j < i ==> #[trigger] visible[j] != item,
            decreases self.visible_indices.len() - i,
        {
            if self.visible_indices[i] == item {
                proof {
                    assert(visible[i as int] == item);
                    lemma_first_place(visible, item as int, i as int);
                }
                return i;
            }
            i += 1;
        }
        proof {
            lemma_place_of(visible, item as int);
        }
        0
    }

    fn rebuild(&mut self, labels: &[String])
        ensures
            final(self)@ == (FilterModel {
                query: old(self)@.query,
                visible: matching_items(old(self)@.query, string_texts(labels@)),
            }),
    {
        let ghost all = string_texts(labels@);
        let ghost query = self@.query;
        let characters = chars_of(self.query.as_str());
        let matcher = LooseMatcher::new(self.query.as_str());
        let empty: bool = characters.len() == 0;
        let mut visible_indices: Vec<usize> = Vec::new();
        let mut i: usize = 0;
        assert(index_views(visible_indices@) =~= matching_items(query, all.take(0)));
        while i < labels.len()
            invariant
                i <= labels.len(),
                all == string_texts(labels@),
                query == characters@,
                matcher@ == loose_pattern(query),
                empty == (query.len() == 0),
                index_views(visible_indices@) == matching_items(query, all.take(i as int)),
            decreases labels.len() - i,
        {
            assert(all.take(i + 1).drop_last() =~= all.take(i as int));
            assert(all.take(i + 1).last() == labels@[i as int]@);
            let matches: bool = if empty {
                true
            } else if matcher.is_empty() {
                contains_chars(&chars_of(labels[i].as_str()), &characters)
            } else {
                matcher.is_match(labels[i].as_str())
            };
            if matches {
                let ghost before = visible_indices@;
                visible_indices.push(i);
                assert(index_views(visible_indices@) =~= index_views(before).push(i as int));
            }
            i += 1;
        }
        assert(all.take(i as int) =~= all);
        self.visible_indices = visible_indices;
    }
}

proof fn lemma_first_place(visible: Seq<int>, item: int, i: int)
    requires
        0 <= i < visible.len(),
        visible[i] == item,
        forall|j: int| 0 <= j < i ==> #[trigger] visible[j] != item,
    ensures
        place_of(visible, item) == i,
    decreases visible.len(),
{
    let before = visible.drop_last();
    if i < before.len() {
        lemma_first_place(before, item, i);
        assert(before[i] == item);
    } else {
        assert(!before.contains(item)) by {
            if before.contains(item) {
                let j = choose|j: int| 0 <= j < before.len() && before[j] == item;
                assert(visible[j] == item);
            }
        }
    }
}

} // verus!

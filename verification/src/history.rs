//! What was typed before.
use vstd::prelude::*;

use crate::strings::{lemma_trimmed_twice, trim_text, trimmed};
use crate::text::same_text;
use crate::unicode::string_texts;

verus! {

/// The number of inputs that are remembered.
pub const MAX_ENTRIES: usize = 100;

/// A history, as a value of the mathematical model: the inputs, the last one at the end; the
/// one that is shown; and the input that was begun before any was shown.
#[verifier::ext_equal]
pub struct HistoryModel {
    pub entries: Seq<Seq<char>>,
    pub cursor: Option<int>,
    pub draft: Seq<char>,
}

pub open spec fn no_history() -> HistoryModel {
    HistoryModel { entries: seq![], cursor: None, draft: seq![] }
}

/// No input occurs twice, none is blank or has white space around it, and there are not too
/// many.
pub open spec fn entries_valid(entries: Seq<Seq<char>>) -> bool {
    &&& entries.len() <= MAX_ENTRIES
    &&& forall|i: int, j: int|
        0 <= i < j < entries.len() ==> #[trigger] entries[i] != #[trigger] entries[j]
    &&& forall|i: int|
        0 <= i < entries.len() ==> (#[trigger] entries[i]).len() > 0 && trimmed(entries[i])
            == entries[i]
}

/// The entries but for `value`.
pub open spec fn without_entry(entries: Seq<Seq<char>>, value: Seq<char>) -> Seq<Seq<char>>
    decreases entries.len(),
{
    if entries.len() == 0 {
        seq![]
    } else if entries.last() == value {
        without_entry(entries.drop_last(), value)
    } else {
        without_entry(entries.drop_last(), value).push(entries.last())
    }
}

/// The last of the entries, as many as are remembered.
pub open spec fn remembered(entries: Seq<Seq<char>>) -> Seq<Seq<char>> {
    if entries.len() > MAX_ENTRIES {
        entries.skip(entries.len() - MAX_ENTRIES)
    } else {
        entries
    }
}

/// Whether an input is to be remembered: it is not blank, and not the last one again.
pub open spec fn is_new(entries: Seq<Seq<char>>, value: Seq<char>) -> bool {
    trimmed(value).len() > 0 && !(entries.len() > 0 && entries.last() == trimmed(value))
}

pub open spec fn recorded(history: HistoryModel, value: Seq<char>) -> HistoryModel {
    HistoryModel {
        entries: if is_new(history.entries, value) {
            remembered(without_entry(history.entries, trimmed(value)).push(trimmed(value)))
        } else {
            history.entries
        },
        cursor: None,
        draft: seq![],
    }
}

pub open spec fn all_recorded(values: Seq<Seq<char>>) -> HistoryModel
    decreases values.len(),
{
    if values.len() == 0 {
        no_history()
    } else {
        recorded(all_recorded(values.drop_last()), values.last())
    }
}

/// The history with the input before the one that is shown.
pub open spec fn gone_back(history: HistoryModel, current: Seq<char>) -> HistoryModel {
    if history.entries.len() == 0 {
        history
    } else {
        match history.cursor {
            Some(index) => HistoryModel {
                cursor: Some(
                    if index > 0 {
                        index - 1
                    } else {
                        0
                    },
                ),
                ..history
            },
            None => HistoryModel {
                cursor: Some(history.entries.len() - 1),
                draft: current,
                ..history
            },
        }
    }
}

/// The history with the input after the one that is shown.
pub open spec fn gone_forward(history: HistoryModel) -> HistoryModel {
    match history.cursor {
        Some(index) => HistoryModel {
            cursor: if index + 1 < history.entries.len() {
                Some(index + 1)
            } else {
                None
            },
            ..history
        },
        None => history,
    }
}

/// The input that is shown.
pub open spec fn shown_entry(history: HistoryModel) -> Option<Seq<char>> {
    match history.cursor {
        Some(index) => Some(history.entries[index]),
        None => None,
    }
}

/// What was typed before.
#[derive(Debug)]
pub struct InputHistory {
    entries: Vec<String>,
    cursor: Option<usize>,
    draft: String,
}

impl View for InputHistory {
    type V = HistoryModel;

    closed spec fn view(&self) -> HistoryModel {
        HistoryModel {
            entries: string_texts(self.entries@),
            cursor: match self.cursor {
                Some(index) => Some(index as int),
                None => None,
            },
            draft: self.draft@,
        }
    }
}

proof fn lemma_without_entry(entries: Seq<Seq<char>>, value: Seq<char>)
    requires
        entries_valid(entries),
    ensures
        entries_valid(without_entry(entries, value)),
        without_entry(entries, value).len() <= entries.len(),
        forall|i: int|
            0 <= i < without_entry(entries, value).len() ==> #[trigger] without_entry(
                entries,
                value,
            )[i] != value && entries.contains(without_entry(entries, value)[i]),
        !entries.contains(value) ==> without_entry(entries, value) == entries,
    decreases entries.len(),
{
    if entries.len() > 0 {
        let before = entries.drop_last();
        assert forall|i: int| 0 <= i < before.len() implies (#[trigger] before[i]).len() > 0
            && trimmed(before[i]) == before[i] by {
            assert(before[i] == entries[i]);
        }
        lemma_without_entry(before, value);
        let kept = without_entry(before, value);
        let all = without_entry(entries, value);
        assert(entries.last() == entries[entries.len() - 1]);
        assert forall|i: int| 0 <= i < all.len() implies #[trigger] all[i] != value
            && entries.contains(all[i]) by {
            if i < kept.len() {
                assert(all[i] == kept[i]);
                let j = choose|j: int| 0 <= j < before.len() && before[j] == kept[i];
                assert(entries[j] == all[i]);
            } else {
                assert(entries[entries.len() - 1] == all[i]);
            }
        }
        assert forall|i: int, j: int| 0 <= i < j < all.len() implies #[trigger] all[i]
            != #[trigger] all[j] by {
            if j < kept.len() {
                assert(kept[i] != kept[j]);
            } else {
                let k = choose|k: int| 0 <= k < before.len() && before[k] == kept[i];
                assert(kept[i] == all[i]);
                assert(entries[k] != entries[entries.len() - 1]);
            }
        }
        assert forall|i: int| 0 <= i < all.len() implies (#[trigger] all[i]).len() > 0 && trimmed(
            all[i],
        ) == all[i] by {
            if i < kept.len() {
                assert(all[i] == kept[i]);
            }
        }
        if !entries.contains(value) {
            assert(entries[entries.len() - 1] != value);
            assert(!before.contains(value)) by {
                if before.contains(value) {
                    let j = choose|j: int| 0 <= j < before.len() && before[j] == value;
                    assert(entries[j] == value);
                }
            }
            assert(all =~= entries);
        }
    }
}

/// A history stays valid whatever is recorded: no input occurs twice, and there are never more
/// than are remembered.
pub proof fn law_recording_stays_valid(history: HistoryModel, value: Seq<char>)
    requires
        entries_valid(history.entries),
    ensures
        entries_valid(recorded(history, value).entries),
{
    if is_new(history.entries, value) {
        let v = trimmed(value);
        lemma_without_entry(history.entries, v);
        lemma_trimmed_twice(value);
        let kept = without_entry(history.entries, v);
        let more = kept.push(v);
        let all = remembered(more);
        let skipped = more.len() - all.len();
        assert forall|i: int| 0 <= i < all.len() implies all[i] == #[trigger] more[i + skipped] by {
        }
        assert forall|i: int, j: int| 0 <= i < j < all.len() implies #[trigger] all[i]
            != #[trigger] all[j] by {
            assert(all[i] == more[i + skipped]);
            assert(all[j] == more[j + skipped]);
            assert(kept[i + skipped] == more[i + skipped]);
            if j + skipped < kept.len() {
                assert(kept[j + skipped] == more[j + skipped]);
            }
        }
        assert forall|i: int| 0 <= i < all.len() implies (#[trigger] all[i]).len() > 0 && trimmed(
            all[i],
        ) == all[i] by {
            assert(all[i] == more[i + skipped]);
            if i + skipped < kept.len() {
                assert(kept[i + skipped] == more[i + skipped]);
            }
        }
    }
}

/// What was recorded last is at the end, whether it was there before or not.
pub proof fn law_recorded_is_last(history: HistoryModel, value: Seq<char>)
    requires
        trimmed(value).len() > 0,
    ensures
        recorded(history, value).entries.len() > 0,
        recorded(history, value).entries.last() == trimmed(value),
{
}

/// Going back from an input that is being typed and forward again gives it back, and going
/// back and forth changes nothing of what is remembered.
pub proof fn law_back_and_forward(history: HistoryModel, current: Seq<char>)
    requires
        history.cursor is None,
        history.entries.len() > 0,
    ensures
        shown_entry(gone_back(history, current)) == Some(history.entries.last()),
        gone_forward(gone_back(history, current)) == (HistoryModel { draft: current, ..history }),
{
}

impl InputHistory {
    #[verifier::type_invariant]
    spec fn well_formed(self) -> bool {
        &&& self.cursor matches Some(index) ==> index < self.entries@.len()
        &&& entries_valid(string_texts(self.entries@))
    }

    /// A history in which the given inputs were recorded one after the other.
    pub fn new(entries: Vec<String>) -> (history: Self)
        ensures
            history@ == all_recorded(string_texts(entries@)),
    {
        let ghost all = string_texts(entries@);
        let none: Vec<String> = Vec::new();
        assert(string_texts(none@) =~= seq![]);
        let mut history = InputHistory { entries: none, cursor: None, draft: String::new() };
        assert(history@ =~= all_recorded(all.take(0)));
        let mut i: usize = 0;
        while i < entries.len()
            invariant
                i <= entries.len(),
                all == string_texts(entries@),
                history@ == all_recorded(all.take(i as int)),
            decreases entries.len() - i,
        {
            assert(all.take(i + 1).drop_last() =~= all.take(i as int));
            assert(all.take(i + 1).last() == entries@[i as int]@);
            let _ = history.record(entries[i].as_str());
            i += 1;
        }
        assert(all.take(i as int) =~= all);
        history
    }

    pub fn entries(&self) -> (entries: &[String])
        ensures
            string_texts(entries@) == self@.entries,
            entries_valid(self@.entries),
    {
        proof {
            use_type_invariant(self);
        }
        self.entries.as_slice()
    }

    /// Goes back to the input that is being typed.
    pub fn reset_navigation(&mut self)
        ensures
            final(self)@ == (HistoryModel { cursor: None, draft: seq![], ..old(self)@ }),
    {
        proof {
            use_type_invariant(&*self);
        }
        self.cursor = None;
        self.draft = String::new();
        assert(self@ =~= (HistoryModel { cursor: None, draft: seq![], ..old(self)@ }));
    }

    /// The input before the one that is shown.
    pub fn previous(&mut self, current: &str) -> (entry: Option<String>)
        ensures
            final(self)@ == gone_back(old(self)@, current@),
            crate::document::opt_text(entry) == shown_entry(final(self)@),
    {
        proof {
            use_type_invariant(&*self);
        }
        if self.entries.len() == 0 {
            return None;
        }
        let index: usize = match self.cursor {
            Some(index) => if index > 0 {
                index - 1
            } else {
                0
            },
            None => {
                self.draft = current.to_owned();
                self.entries.len() - 1
            },
        };
        self.cursor = Some(index);
        Some(self.entries[index].clone())
    }

    /// The input after the one that is shown; after the last one, what was being typed.
    pub fn next(&mut self) -> (entry: Option<String>)
        ensures
            final(self)@ == gone_forward(old(self)@),
            crate::document::opt_text(entry) == (if old(self)@.cursor is None {
                None
            } else if final(self)@.cursor is Some {
                shown_entry(final(self)@)
            } else {
                Some(old(self)@.draft)
            }),
    {
        proof {
            use_type_invariant(&*self);
        }
        match self.cursor {
            None => None,
            Some(index) => {
                if index < self.entries.len() - 1 {
                    self.cursor = Some(index + 1);
                    Some(self.entries[index + 1].clone())
                } else {
                    self.cursor = None;
                    Some(self.draft.clone())
                }
            },
        }
    }

    /// Remembers an input, and says whether that was needed.
    pub fn record(&mut self, value: &str) -> (changed: bool)
        ensures
            final(self)@ == recorded(old(self)@, value@),
            changed == is_new(old(self)@.entries, value@),
    {
        proof {
            use_type_invariant(&*self);
            law_recording_stays_valid(self@, value@);
        }
        let value = trim_text(value);
        let length: usize = self.entries.len();
        let ghost all = string_texts(self.entries@);
        assert(length > 0 ==> all.last() == self.entries@[length - 1]@);
        let blank: bool = crate::text::chars_of(value.as_str()).len() == 0;
        if blank || (length > 0 && same_text(self.entries[length - 1].as_str(), value.as_str())) {
            self.reset_navigation();
            return false;
        }
        let mut kept: Vec<String> = Vec::new();
        let mut i: usize = 0;
        assert(string_texts(kept@) =~= without_entry(all.take(0), value@));
        while i < length
            invariant
                i <= length == self.entries@.len(),
                all == string_texts(self.entries@),
                string_texts(kept@) == without_entry(all.take(i as int), value@),
            decreases length - i,
        {
            assert(all.take(i + 1).drop_last() =~= all.take(i as int));
            assert(all.take(i + 1).last() == self.entries@[i as int]@);
            if !same_text(self.entries[i].as_str(), value.as_str()) {
                let ghost before = kept@;
                kept.push(self.entries[i].clone());
                assert(string_texts(kept@) =~= string_texts(before).push(all[i as int]));
            }
            i += 1;
        }
        assert(all.take(i as int) =~= all);
        let ghost before = kept@;
        let ghost model = value@;
        kept.push(value);
        assert(string_texts(kept@) =~= string_texts(before).push(model));
        if kept.len() > MAX_ENTRIES {
            let ghost many = kept@;
            let first: usize = kept.len() - MAX_ENTRIES;
            let mut last: Vec<String> = Vec::new();
            let mut j: usize = first;
            while j < kept.len()
                invariant
                    first <= j <= kept.len(),
                    many == kept@,
                    last@.len() == j - first,
                    forall|k: int|
                        0 <= k < last@.len() ==> (#[trigger] last@[k])@ == many[first + k]@,
                decreases kept.len() - j,
            {
                last.push(kept[j].clone());
                j += 1;
            }
            assert(string_texts(last@) =~= string_texts(many).skip(first as int));
            kept = last;
        }
        self.cursor = None;
        self.entries = kept;
        self.reset_navigation();
        true
    }

    /// Forgets all.
    pub fn clear(&mut self)
        ensures
            final(self)@ == no_history(),
    {
        proof {
            use_type_invariant(&*self);
        }
        let none: Vec<String> = Vec::new();
        assert(string_texts(none@) =~= seq![]);
        self.cursor = None;
        self.entries = none;
        self.reset_navigation();
        assert(self@ =~= no_history());
    }
}

} // verus!

//! Choosing a file to read.
use vstd::prelude::*;

use crate::document::{opt_str, opt_text};
use crate::natural::Rank;
use crate::order::{
    is_order, law_sorted, law_sorting_keeps_items, ordered, sort_items, views_of, Ordered,
};
use crate::strings::{eq_ignore_ascii_case, push_text, same_ignoring_ascii_case};
use crate::text::{chars_of, string_of};
use crate::unicode::{text_lowercase, text_lowercase_of};

verus! {

/// A file or a directory that can be chosen.
#[derive(Debug, PartialEq, Eq)]
pub struct FileEntry {
    pub path: String,
    pub name: String,
    pub is_directory: bool,
    pub is_parent: bool,
}

#[verifier::ext_equal]
pub struct FileModel {
    pub path: Seq<char>,
    pub name: Seq<char>,
    pub is_directory: bool,
    pub is_parent: bool,
}

impl View for FileEntry {
    type V = FileModel;

    open spec fn view(&self) -> FileModel {
        FileModel {
            path: self.path@,
            name: self.name@,
            is_directory: self.is_directory,
            is_parent: self.is_parent,
        }
    }
}

impl Clone for FileEntry {
    fn clone(&self) -> (copy: Self)
        ensures
            copy@ == self@,
    {
        FileEntry {
            path: self.path.clone(),
            name: self.name.clone(),
            is_directory: self.is_directory,
            is_parent: self.is_parent,
        }
    }
}

/// What is shown of an entry: directories end with a slash.
pub open spec fn entry_label(entry: FileModel) -> Seq<char> {
    if entry.is_parent {
        "../"@
    } else if entry.is_directory {
        entry.name + "/"@
    } else {
        entry.name
    }
}

impl FileEntry {
    pub fn label(&self) -> (label: String)
        ensures
            label@ == entry_label(self@),
    {
        if self.is_parent {
            "../".to_owned()
        } else if self.is_directory {
            let mut label = chars_of(self.name.as_str());
            push_text(&mut label, "/");
            string_of(&label)
        } else {
            self.name.clone()
        }
    }
}

/// Files with these extensions can be read.
pub open spec fn is_supported(extension: Option<Seq<char>>) -> bool {
    match extension {
        Some(own) => {
            ||| same_ignoring_ascii_case(own, "epub"@)
            ||| same_ignoring_ascii_case(own, "txt"@)
            ||| same_ignoring_ascii_case(own, "md"@)
            ||| same_ignoring_ascii_case(own, "markdown"@)
        },
        None => false,
    }
}

/// Whether a file with the given extension can be read.
pub fn is_supported_file(extension: Option<&str>) -> (supported: bool)
    ensures
        supported == is_supported(opt_str(extension)),
{
    match extension {
        Some(own) => {
            let characters = chars_of(own);
            eq_ignore_ascii_case(&characters, &chars_of("epub")) || eq_ignore_ascii_case(
                &characters,
                &chars_of("txt"),
            ) || eq_ignore_ascii_case(&characters, &chars_of("md")) || eq_ignore_ascii_case(
                &characters,
                &chars_of("markdown"),
            )
        },
        None => false,
    }
}

/// How two texts compare, character by character.
pub open spec fn text_rank(left: Seq<char>, right: Seq<char>) -> Rank
    decreases left.len(),
{
    if left.len() == 0 && right.len() == 0 {
        Rank::Equal
    } else if left.len() == 0 {
        Rank::Less
    } else if right.len() == 0 {
        Rank::Greater
    } else if left[0] < right[0] {
        Rank::Less
    } else if left[0] > right[0] {
        Rank::Greater
    } else {
        text_rank(left.drop_first(), right.drop_first())
    }
}

/// How two texts compare, character by character.
pub fn rank_texts(left: &[char], right: &[char]) -> (rank: Rank)
    ensures
        rank == text_rank(left@, right@),
{
    let mut i: usize = 0;
    assert(left@.skip(0) =~= left@ && right@.skip(0) =~= right@);
    while i < left.len() && i < right.len()
        invariant
            i <= left.len(),
            i <= right.len(),
            text_rank(left@, right@) == text_rank(left@.skip(i as int), right@.skip(i as int)),
        decreases left.len() - i,
    {
        let a = left[i];
        let b = right[i];
        assert(left@.skip(i as int)[0] == a && right@.skip(i as int)[0] == b);
        if a < b {
            return Rank::Less;
        }
        if a > b {
            return Rank::Greater;
        }
        assert(left@.skip(i as int).drop_first() =~= left@.skip(i + 1));
        assert(right@.skip(i as int).drop_first() =~= right@.skip(i + 1));
        i += 1;
    }
    if i < left.len() {
        Rank::Greater
    } else if i < right.len() {
        Rank::Less
    } else {
        Rank::Equal
    }
}

/// The directory above comes first, then directories, then files; each by name, for which the
/// case matters only between names that are the same otherwise.
pub open spec fn entry_rank(left: FileModel, right: FileModel) -> Rank {
    if left.is_parent != right.is_parent {
        if left.is_parent {
            Rank::Less
        } else {
            Rank::Greater
        }
    } else if left.is_directory != right.is_directory {
        if left.is_directory {
            Rank::Less
        } else {
            Rank::Greater
        }
    } else {
        match text_rank(text_lowercase(left.name), text_lowercase(right.name)) {
            Rank::Equal => text_rank(left.name, right.name),
            other => other,
        }
    }
}

/// An entry with its name in lower case.
struct KeyedEntry {
    entry: FileEntry,
    name: Vec<char>,
    lower: Vec<char>,
}

impl KeyedEntry {
    #[verifier::type_invariant]
    spec fn keyed(self) -> bool {
        &&& self.name@ == self.entry@.name
        &&& self.lower@ == text_lowercase(self.entry@.name)
    }

    fn new(entry: FileEntry) -> (keyed: Self)
        ensures
            keyed@ == entry@,
    {
        let name = chars_of(entry.name.as_str());
        let lowered = text_lowercase_of(entry.name.as_str());
        let lower = chars_of(lowered.as_str());
        KeyedEntry { entry, name, lower }
    }
}

impl View for KeyedEntry {
    type V = FileModel;

    closed spec fn view(&self) -> FileModel {
        self.entry@
    }
}

/// How two entries compare.
fn compare_entries(left: &KeyedEntry, right: &KeyedEntry) -> (rank: Rank)
    ensures
        rank == entry_rank(left@, right@),
{
    proof {
        use_type_invariant(left);
        use_type_invariant(right);
    }
    if left.entry.is_parent != right.entry.is_parent {
        return if left.entry.is_parent {
            Rank::Less
        } else {
            Rank::Greater
        };
    }
    if left.entry.is_directory != right.entry.is_directory {
        return if left.entry.is_directory {
            Rank::Less
        } else {
            Rank::Greater
        };
    }
    match rank_texts(&left.lower, &right.lower) {
        Rank::Equal => rank_texts(&left.name, &right.name),
        other => other,
    }
}

impl Ordered for KeyedEntry {
    closed spec fn behind(left: FileModel, right: FileModel) -> bool {
        entry_rank(left, right) == Rank::Greater
    }

    fn is_behind(&self, other: &Self) -> (behind: bool) {
        compare_entries(self, other) == Rank::Greater
    }
}

/// Sorted entries with one more.
pub open spec fn with_file(sorted: Seq<FileModel>, entry: FileModel) -> Seq<FileModel>
    decreases sorted.len(),
{
    if sorted.len() == 0 || entry_rank(sorted.last(), entry) != Rank::Greater {
        sorted.push(entry)
    } else {
        with_file(sorted.drop_last(), entry).push(sorted.last())
    }
}

/// The entries in their order; of equal ones the first stays first.
pub open spec fn sorted_files(entries: Seq<FileModel>) -> Seq<FileModel>
    decreases entries.len(),
{
    if entries.len() == 0 {
        seq![]
    } else {
        with_file(sorted_files(entries.drop_last()), entries.last())
    }
}

/// What a directory holds, as the platform tells it.
pub struct DirectoryItem {
    pub path: String,
    pub name: String,
    pub extension: Option<String>,
    pub is_directory: bool,
    pub is_file: bool,
}

#[verifier::ext_equal]
pub struct ItemModel {
    pub path: Seq<char>,
    pub name: Seq<char>,
    pub extension: Option<Seq<char>>,
    pub is_directory: bool,
    pub is_file: bool,
}

impl View for DirectoryItem {
    type V = ItemModel;

    open spec fn view(&self) -> ItemModel {
        ItemModel {
            path: self.path@,
            name: self.name@,
            extension: opt_text(self.extension),
            is_directory: self.is_directory,
            is_file: self.is_file,
        }
    }
}

/// Directories, and files that can be read, can be chosen.
pub open spec fn can_be_chosen(item: ItemModel) -> bool {
    item.is_directory || (item.is_file && is_supported(item.extension))
}

pub open spec fn parent_entry(path: Seq<char>) -> FileModel {
    FileModel { path, name: ".."@, is_directory: true, is_parent: true }
}

/// What can be chosen, before it is sorted.
pub open spec fn listed(parent: Option<Seq<char>>, items: Seq<ItemModel>) -> Seq<FileModel>
    decreases items.len(),
{
    if items.len() == 0 {
        match parent {
            Some(path) => seq![parent_entry(path)],
            None => seq![],
        }
    } else {
        let before = listed(parent, items.drop_last());
        let item = items.last();
        if can_be_chosen(item) {
            before.push(
                FileModel {
                    path: item.path,
                    name: item.name,
                    is_directory: item.is_directory,
                    is_parent: false,
                },
            )
        } else {
            before
        }
    }
}

proof fn lemma_sorted_files(entries: Seq<FileModel>)
    ensures
        ordered::<KeyedEntry>(entries) == sorted_files(entries),
    decreases entries.len(),
{
    if entries.len() > 0 {
        lemma_sorted_files(entries.drop_last());
        lemma_with_file(sorted_files(entries.drop_last()), entries.last());
    }
}

proof fn lemma_with_file(sorted: Seq<FileModel>, entry: FileModel)
    ensures
        crate::order::with_item::<KeyedEntry>(sorted, entry) == with_file(sorted, entry),
    decreases sorted.len(),
{
    if sorted.len() > 0 && entry_rank(sorted.last(), entry) == Rank::Greater {
        lemma_with_file(sorted.drop_last(), entry);
    }
}

/// What can be chosen in a directory: the one above it, if there is one, and its directories
/// and readable files.
pub fn list_directory(parent: Option<String>, items: Vec<DirectoryItem>) -> (entries: Vec<
    FileEntry,
>)
    ensures
        views_of(entries@) == sorted_files(
            listed(opt_text(parent), views_of(items@)),
        ),
{
    let ghost all = views_of(items@);
    let ghost above = opt_text(parent);
    let mut keyed: Vec<KeyedEntry> = Vec::new();
    if let Some(path) = parent {
        let entry = FileEntry {
            path,
            name: "..".to_owned(),
            is_directory: true,
            is_parent: true,
        };
        keyed.push(KeyedEntry::new(entry));
    }
    assert(views_of(keyed@) =~= listed(above, all.take(0)));
    let mut i: usize = 0;
    while i < items.len()
        invariant
            i <= items.len(),
            all == views_of(items@),
            views_of(keyed@) == listed(above, all.take(i as int)),
        decreases items.len() - i,
    {
        assert(all.take(i + 1).drop_last() =~= all.take(i as int));
        assert(all.take(i + 1).last() == items@[i as int]@);
        let item = &items[i];
        let extension: Option<&str> = match &item.extension {
            Some(own) => Some(own.as_str()),
            None => None,
        };
        if item.is_directory || (item.is_file && is_supported_file(extension)) {
            let ghost before = keyed@;
            let entry = FileEntry {
                path: item.path.clone(),
                name: item.name.clone(),
                is_directory: item.is_directory,
                is_parent: false,
            };
            let ghost model = entry@;
            keyed.push(KeyedEntry::new(entry));
            assert(views_of(keyed@) =~= views_of(before).push(model));
        }
        i += 1;
    }
    assert(all.take(i as int) =~= all);
    let sorted = sort_items(keyed);
    proof {
        lemma_sorted_files(listed(above, all));
    }
    let mut entries: Vec<FileEntry> = Vec::new();
    let mut j: usize = 0;
    assert(views_of(entries@) =~= views_of(sorted@).take(0));
    while j < sorted.len()
        invariant
            j <= sorted.len(),
            views_of(entries@) == views_of(sorted@).take(j as int),
        decreases sorted.len() - j,
    {
        let ghost before = entries@;
        entries.push(sorted[j].entry.clone());
        assert(views_of(entries@) =~= views_of(before).push(sorted@[j as int]@));
        assert(views_of(sorted@).take(j + 1) =~= views_of(sorted@).take(j as int).push(
            sorted@[j as int]@,
        ));
        j += 1;
    }
    assert(views_of(sorted@).take(j as int) =~= views_of(sorted@));
    entries
}

proof fn lemma_rank_symmetric(left: Seq<char>, right: Seq<char>)
    ensures
        text_rank(left, right) == Rank::Less <==> text_rank(right, left) == Rank::Greater,
        text_rank(left, right) == Rank::Equal <==> left == right,
    decreases left.len(),
{
    if left.len() > 0 && right.len() > 0 {
        if left[0] == right[0] {
            lemma_rank_symmetric(left.drop_first(), right.drop_first());
            if left.drop_first() == right.drop_first() {
                assert(left =~= seq![left[0]] + left.drop_first());
                assert(right =~= seq![right[0]] + right.drop_first());
            }
        }
    } else if left.len() == 0 && right.len() == 0 {
        assert(left =~= right);
    }
}

/// Of two entries one comes first, whichever is asked for, unless they have the same kind and
/// the same name; and the directory above comes before everything else.
pub proof fn law_entry_order(left: FileModel, right: FileModel)
    ensures
        entry_rank(left, right) == Rank::Less <==> entry_rank(right, left) == Rank::Greater,
        entry_rank(left, right) == Rank::Equal <==> left.is_parent == right.is_parent
            && left.is_directory == right.is_directory && left.name == right.name,
        left.is_parent && !right.is_parent ==> entry_rank(left, right) == Rank::Less,
        left.is_parent == right.is_parent && left.is_directory && !right.is_directory
            ==> entry_rank(left, right) == Rank::Less,
{
    lemma_rank_symmetric(text_lowercase(left.name), text_lowercase(right.name));
    lemma_rank_symmetric(text_lowercase(right.name), text_lowercase(left.name));
    lemma_rank_symmetric(left.name, right.name);
    lemma_rank_symmetric(right.name, left.name);
}

proof fn lemma_rank_transitive(a: Seq<char>, b: Seq<char>, c: Seq<char>)
    requires
        text_rank(a, b) != Rank::Greater,
        text_rank(b, c) != Rank::Greater,
    ensures
        text_rank(a, c) != Rank::Greater,
        text_rank(a, c) == Rank::Equal ==> text_rank(a, b) == Rank::Equal && text_rank(b, c)
            == Rank::Equal,
    decreases a.len(),
{
    if a.len() > 0 && b.len() > 0 && c.len() > 0 && a[0] == b[0] && b[0] == c[0] {
        lemma_rank_transitive(a.drop_first(), b.drop_first(), c.drop_first());
    }
}

proof fn lemma_entries_have_an_order()
    ensures
        is_order::<KeyedEntry>(),
{
    assert forall|a: FileModel, b: FileModel| #[trigger]
        KeyedEntry::behind(a, b) implies !KeyedEntry::behind(b, a) by {
        law_entry_order(a, b);
        law_entry_order(b, a);
    }
    assert forall|a: FileModel, b: FileModel, c: FileModel|
        !#[trigger] KeyedEntry::behind(a, b) && !#[trigger] KeyedEntry::behind(
            b,
            c,
        ) implies !KeyedEntry::behind(a, c) by {
        if a.is_parent == b.is_parent && b.is_parent == c.is_parent && a.is_directory
            == b.is_directory && b.is_directory == c.is_directory {
            let (x, y, z) = (
                text_lowercase(a.name),
                text_lowercase(b.name),
                text_lowercase(c.name),
            );
            lemma_rank_transitive(x, y, z);
            if text_rank(x, z) == Rank::Equal {
                lemma_rank_transitive(a.name, b.name, c.name);
            }
        }
    }
}

/// A directory is listed in order, and nothing in it that can be chosen is left out or listed
/// twice.
pub proof fn law_listing_is_sorted(entries: Seq<FileModel>)
    ensures
        forall|i: int, j: int|
            0 <= i < j < sorted_files(entries).len() ==> entry_rank(
                #[trigger] sorted_files(entries)[i],
                #[trigger] sorted_files(entries)[j],
            ) != Rank::Greater,
        sorted_files(entries).to_multiset() == entries.to_multiset(),
{
    lemma_sorted_files(entries);
    lemma_entries_have_an_order();
    law_sorted::<KeyedEntry>(entries);
    law_sorting_keeps_items::<KeyedEntry>(entries);
    assert forall|i: int, j: int| 0 <= i < j < sorted_files(entries).len() implies entry_rank(
        #[trigger] sorted_files(entries)[i],
        #[trigger] sorted_files(entries)[j],
    ) != Rank::Greater by {
        assert(!KeyedEntry::behind(sorted_files(entries)[i], sorted_files(entries)[j]));
    }
}

/// An item of a directory as it is listed.
pub open spec fn is_listed_as(item: ItemModel, entry: FileModel) -> bool {
    &&& entry.path == item.path && entry.name == item.name
    &&& entry.is_directory == item.is_directory && !entry.is_parent
}

/// A directory, or a file whose name ends as that of a book, of Markdown or of a text does.
pub open spec fn is_of_interest(item: ItemModel) -> bool {
    item.is_directory || (item.is_file && (item.extension matches Some(own) && (
    same_ignoring_ascii_case(own, "epub"@) || same_ignoring_ascii_case(own, "txt"@)
        || same_ignoring_ascii_case(own, "md"@) || same_ignoring_ascii_case(own, "markdown"@))))
}

/// Every item of interest is listed.
pub proof fn law_items_of_interest(
    parent: Option<Seq<char>>,
    items: Seq<ItemModel>,
    k: int,
) -> (j: int)
    requires
        0 <= k < items.len(),
        is_of_interest(items[k]),
    ensures
        0 <= j < listed(parent, items).len(),
        is_listed_as(items[k], listed(parent, items)[j]),
    decreases items.len(),
{
    let before = listed(parent, items.drop_last());
    if k == items.len() - 1 {
        before.len() as int
    } else {
        let j = law_items_of_interest(parent, items.drop_last(), k);
        assert(listed(parent, items)[j] == before[j]);
        j
    }
}

/// Nothing is listed but items of interest and, first of all, the directory above, if there is
/// one.
pub proof fn law_nothing_else_is_listed(
    parent: Option<Seq<char>>,
    items: Seq<ItemModel>,
    j: int,
) -> (k: int)
    requires
        0 <= j < listed(parent, items).len(),
    ensures
        parent is Some && j == 0 ==> listed(parent, items)[j].is_parent && listed(
            parent,
            items,
        )[j].path == parent->0,
        parent is None || j > 0 ==> 0 <= k < items.len() && is_of_interest(items[k])
            && is_listed_as(items[k], listed(parent, items)[j]),
    decreases items.len(),
{
    if items.len() == 0 {
        0
    } else {
        let before = listed(parent, items.drop_last());
        lemma_parent_is_listed(parent, items.drop_last());
        if j < before.len() {
            assert(listed(parent, items)[j] == before[j]);
            law_nothing_else_is_listed(parent, items.drop_last(), j)
        } else {
            items.len() - 1
        }
    }
}

proof fn lemma_parent_is_listed(parent: Option<Seq<char>>, items: Seq<ItemModel>)
    ensures
        parent is Some ==> listed(parent, items).len() > 0,
    decreases items.len(),
{
    if items.len() > 0 {
        lemma_parent_is_listed(parent, items.drop_last());
    }
}

} // verus!

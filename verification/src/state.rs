//! What is kept between two runs: progress, bookmarks, preferences and histories.
//!
//! Files are read and written elsewhere. What was read of a file is a [`Record`]; what is to be
//! written is handed back. The fields of a file that are not known here are kept as one text.
use vstd::prelude::*;
use vstd::utf8::encode_utf8;

use crate::document::opt_text;
use crate::encoding::{blake3_hex, blake3_hex_of};
use crate::order::{
    is_order, is_sorted, law_sorted, ordered, sort_items, views_of, Ordered,
};
use crate::strings::{decimal, decimal_chars, push_text};
use crate::text::{chars_of, push_all, same_text, string_of};
use crate::theme::ThemeChoice;
use crate::unicode::{string_texts, text_lowercase, text_lowercase_of};

verus! {

pub const STATE_SCHEMA: u32 = 1;

pub const BOOKMARK_SCHEMA: u32 = 1;

pub const PREFERENCES_SCHEMA: u32 = 1;

pub const HISTORY_SCHEMA: u32 = 1;

/// The number of books that are listed at most.
pub const MAX_RECENT_BOOKS: usize = 100;

// ---------------------------------------------------------------------------------------
// Warnings and errors
// ---------------------------------------------------------------------------------------

/// Something that could not be read.
#[derive(Debug, PartialEq, Eq)]
pub struct StateWarning {
    code: String,
    message: String,
}

#[verifier::ext_equal]
pub struct StateWarningModel {
    pub code: Seq<char>,
    pub message: Seq<char>,
}

impl View for StateWarning {
    type V = StateWarningModel;

    closed spec fn view(&self) -> StateWarningModel {
        StateWarningModel { code: self.code@, message: self.message@ }
    }
}

impl StateWarning {
    pub fn new(code: &str, message: String) -> (warning: Self)
        ensures
            warning@ == (StateWarningModel { code: code@, message: message@ }),
    {
        StateWarning { code: code.to_owned(), message }
    }

    pub fn code(&self) -> (code: &str)
        ensures
            code@ == self@.code,
    {
        self.code.as_str()
    }

    pub fn message(&self) -> (message: &str)
        ensures
            message@ == self@.message,
    {
        self.message.as_str()
    }
}

impl Clone for StateWarning {
    fn clone(&self) -> (copy: Self)
        ensures
            copy@ == self@,
    {
        StateWarning { code: self.code.clone(), message: self.message.clone() }
    }
}

/// Why something could not be kept.
#[derive(Debug, PartialEq, Eq)]
pub enum StateError {
    NoStateDirectory,
    CreateDirectory { path: String, source: String },
    Write { path: String, source: String },
    Serialise(String),
    NewerSchema { path: String, found: u32, supported: u32 },
    UnreadableBookmarks { path: String, reason: String },
    UnreadableRecord { path: String, reason: String },
}

pub enum StateFault {
    NoStateDirectory,
    CreateDirectory { path: Seq<char>, source: Seq<char> },
    Write { path: Seq<char>, source: Seq<char> },
    Serialise(Seq<char>),
    NewerSchema { path: Seq<char>, found: u32, supported: u32 },
    UnreadableBookmarks { path: Seq<char>, reason: Seq<char> },
    UnreadableRecord { path: Seq<char>, reason: Seq<char> },
}

impl View for StateError {
    type V = StateFault;

    open spec fn view(&self) -> StateFault {
        match self {
            StateError::NoStateDirectory => StateFault::NoStateDirectory,
            StateError::CreateDirectory { path, source } => StateFault::CreateDirectory {
                path: path@,
                source: source@,
            },
            StateError::Write { path, source } => StateFault::Write {
                path: path@,
                source: source@,
            },
            StateError::Serialise(reason) => StateFault::Serialise(reason@),
            StateError::NewerSchema { path, found, supported } => StateFault::NewerSchema {
                path: path@,
                found: *found,
                supported: *supported,
            },
            StateError::UnreadableBookmarks { path, reason } => StateFault::UnreadableBookmarks {
                path: path@,
                reason: reason@,
            },
            StateError::UnreadableRecord { path, reason } => StateFault::UnreadableRecord {
                path: path@,
                reason: reason@,
            },
        }
    }
}

pub open spec fn state_fault_text(fault: StateFault) -> Seq<char> {
    match fault {
        StateFault::NoStateDirectory => "cannot determine the application state directory"@,
        StateFault::CreateDirectory { path, source } => "cannot create state directory "@ + path
            + ": "@ + source,
        StateFault::Write { path, source } => "cannot write state file "@ + path + ": "@ + source,
        StateFault::Serialise(reason) => "cannot serialise state: "@ + reason,
        StateFault::NewerSchema { path, found, supported } => "state file "@ + path
            + " uses schema "@ + decimal(found as nat) + ", newer than the supported schema "@
            + decimal(supported as nat) + "; it was not overwritten"@,
        StateFault::UnreadableBookmarks { path, reason } => "bookmark file "@ + path
            + " is unreadable and was not overwritten: "@ + reason,
        StateFault::UnreadableRecord { path, reason } => "state file "@ + path
            + " is unreadable and was not overwritten: "@ + reason,
    }
}

/// Appends a number in decimal digits.
fn push_u32(text: &mut Vec<char>, n: u32)
    ensures
        final(text)@ == old(text)@ + decimal(n as nat),
{
    let digits = decimal_chars(n as u128);
    push_all(text, &digits);
}

impl StateError {
    /// The message for the reader.
    pub fn message(&self) -> (message: String)
        ensures
            message@ == state_fault_text(self@),
    {
        let mut text: Vec<char> = Vec::new();
        match self {
            StateError::NoStateDirectory => {
                push_text(&mut text, "cannot determine the application state directory");
            },
            StateError::CreateDirectory { path, source } => {
                push_text(&mut text, "cannot create state directory ");
                push_text(&mut text, path.as_str());
                push_text(&mut text, ": ");
                push_text(&mut text, source.as_str());
            },
            StateError::Write { path, source } => {
                push_text(&mut text, "cannot write state file ");
                push_text(&mut text, path.as_str());
                push_text(&mut text, ": ");
                push_text(&mut text, source.as_str());
            },
            StateError::Serialise(reason) => {
                push_text(&mut text, "cannot serialise state: ");
                push_text(&mut text, reason.as_str());
            },
            StateError::NewerSchema { path, found, supported } => {
                push_text(&mut text, "state file ");
                push_text(&mut text, path.as_str());
                push_text(&mut text, " uses schema ");
                push_u32(&mut text, *found);
                push_text(&mut text, ", newer than the supported schema ");
                push_u32(&mut text, *supported);
                push_text(&mut text, "; it was not overwritten");
            },
            StateError::UnreadableBookmarks { path, reason } => {
                push_text(&mut text, "bookmark file ");
                push_text(&mut text, path.as_str());
                push_text(&mut text, " is unreadable and was not overwritten: ");
                push_text(&mut text, reason.as_str());
            },
            StateError::UnreadableRecord { path, reason } => {
                push_text(&mut text, "state file ");
                push_text(&mut text, path.as_str());
                push_text(&mut text, " is unreadable and was not overwritten: ");
                push_text(&mut text, reason.as_str());
            },
        }
        assert(text@ =~= state_fault_text(self@));
        string_of(&text)
    }
}

// ---------------------------------------------------------------------------------------
// Records
// ---------------------------------------------------------------------------------------

/// What was read of a file.
#[derive(Debug)]
pub enum Record<T> {
    Missing,
    Valid(T),
    Invalid(String),
}

pub enum RecordModel<V> {
    Missing,
    Valid(V),
    Invalid(Seq<char>),
}

impl<T: View> View for Record<T> {
    type V = RecordModel<T::V>;

    open spec fn view(&self) -> RecordModel<T::V> {
        match self {
            Record::Missing => RecordModel::Missing,
            Record::Valid(value) => RecordModel::Valid(value@),
            Record::Invalid(reason) => RecordModel::Invalid(reason@),
        }
    }
}

/// The schema of a file whose number was read, if it has one.
pub open spec fn schema_view(read: RecordModel<Option<u64>>) -> RecordModel<u32> {
    match read {
        RecordModel::Valid(Some(number)) => if number <= u32::MAX {
            RecordModel::Valid(number as u32)
        } else {
            RecordModel::Invalid("missing or invalid schema"@)
        },
        RecordModel::Valid(None) => RecordModel::Invalid("missing or invalid schema"@),
        RecordModel::Missing => RecordModel::Missing,
        RecordModel::Invalid(reason) => RecordModel::Invalid(reason),
    }
}

/// The schema of a file whose number was read, if it has one.
pub fn schema_of(read: Record<Option<u64>>) -> (schema: Record<u32>)
    ensures
        schema@ == schema_view(read@),
{
    match read {
        Record::Valid(Some(number)) => if number <= u32::MAX as u64 {
            Record::Valid(number as u32)
        } else {
            Record::Invalid("missing or invalid schema".to_owned())
        },
        Record::Valid(None) => Record::Invalid("missing or invalid schema".to_owned()),
        Record::Missing => Record::Missing,
        Record::Invalid(reason) => Record::Invalid(reason),
    }
}

/// A place in a book.
#[derive(Debug, PartialEq, Eq)]
pub struct Bookmark {
    pub position: usize,
    pub label: Option<String>,
    pub created_unix_ms: u128,
}

#[verifier::ext_equal]
pub struct BookmarkModel {
    pub position: int,
    pub label: Option<Seq<char>>,
    pub created: int,
}

impl View for Bookmark {
    type V = BookmarkModel;

    open spec fn view(&self) -> BookmarkModel {
        BookmarkModel {
            position: self.position as int,
            label: opt_text(self.label),
            created: self.created_unix_ms as int,
        }
    }
}

impl Clone for Bookmark {
    fn clone(&self) -> (copy: Self)
        ensures
            copy@ == self@,
    {
        Bookmark {
            position: self.position,
            label: crate::document::copy_opt(&self.label),
            created_unix_ms: self.created_unix_ms,
        }
    }
}

/// A bookmark in a file.
#[derive(Debug)]
pub struct StoredBookmark {
    pub bookmark: Bookmark,
    pub unknown: String,
}

#[verifier::ext_equal]
pub struct StoredModel {
    pub bookmark: BookmarkModel,
    pub unknown: Seq<char>,
}

impl View for StoredBookmark {
    type V = StoredModel;

    open spec fn view(&self) -> StoredModel {
        StoredModel { bookmark: self.bookmark@, unknown: self.unknown@ }
    }
}

/// The progress in a book.
#[derive(Debug)]
pub struct BookState {
    pub schema: u32,
    pub path: String,
    pub fingerprint: String,
    pub position: usize,
    pub updated_unix_ms: u128,
    pub unknown: String,
}

#[verifier::ext_equal]
pub struct BookStateModel {
    pub schema: u32,
    pub path: Seq<char>,
    pub fingerprint: Seq<char>,
    pub position: int,
    pub updated: int,
    pub unknown: Seq<char>,
}

impl View for BookState {
    type V = BookStateModel;

    open spec fn view(&self) -> BookStateModel {
        BookStateModel {
            schema: self.schema,
            path: self.path@,
            fingerprint: self.fingerprint@,
            position: self.position as int,
            updated: self.updated_unix_ms as int,
            unknown: self.unknown@,
        }
    }
}

impl Clone for BookState {
    fn clone(&self) -> (copy: Self)
        ensures
            copy@ == self@,
    {
        BookState {
            schema: self.schema,
            path: self.path.clone(),
            fingerprint: self.fingerprint.clone(),
            position: self.position,
            updated_unix_ms: self.updated_unix_ms,
            unknown: self.unknown.clone(),
        }
    }
}

/// The bookmarks of a book.
#[derive(Debug)]
pub struct BookmarkRecord {
    pub schema: u32,
    pub path: String,
    pub fingerprint: String,
    pub updated_unix_ms: u128,
    pub bookmarks: Vec<StoredBookmark>,
    pub unknown: String,
}

#[verifier::ext_equal]
pub struct BookmarkRecordModel {
    pub schema: u32,
    pub path: Seq<char>,
    pub fingerprint: Seq<char>,
    pub updated: int,
    pub bookmarks: Seq<StoredModel>,
    pub unknown: Seq<char>,
}

impl View for BookmarkRecord {
    type V = BookmarkRecordModel;

    open spec fn view(&self) -> BookmarkRecordModel {
        BookmarkRecordModel {
            schema: self.schema,
            path: self.path@,
            fingerprint: self.fingerprint@,
            updated: self.updated_unix_ms as int,
            bookmarks: views_of(self.bookmarks@),
            unknown: self.unknown@,
        }
    }
}

/// The file that was read last.
#[derive(Debug)]
pub struct LastOpened {
    pub schema: u32,
    pub path: String,
    pub unknown: String,
}

#[verifier::ext_equal]
pub struct LastOpenedModel {
    pub schema: u32,
    pub path: Seq<char>,
    pub unknown: Seq<char>,
}

impl View for LastOpened {
    type V = LastOpenedModel;

    open spec fn view(&self) -> LastOpenedModel {
        LastOpenedModel { schema: self.schema, path: self.path@, unknown: self.unknown@ }
    }
}

/// What the reader prefers.
#[derive(Debug)]
pub struct PreferencesRecord {
    pub schema: u32,
    pub theme: ThemeChoice,
    pub unknown: String,
}

#[verifier::ext_equal]
pub struct PreferencesModel {
    pub schema: u32,
    pub theme: ThemeChoice,
    pub unknown: Seq<char>,
}

impl View for PreferencesRecord {
    type V = PreferencesModel;

    open spec fn view(&self) -> PreferencesModel {
        PreferencesModel { schema: self.schema, theme: self.theme, unknown: self.unknown@ }
    }
}

/// What was typed.
#[derive(Debug)]
pub struct HistoryRecord {
    pub schema: u32,
    pub commands: Vec<String>,
    pub searches: Vec<String>,
    pub unknown: String,
}

#[verifier::ext_equal]
pub struct HistoryRecordModel {
    pub schema: u32,
    pub commands: Seq<Seq<char>>,
    pub searches: Seq<Seq<char>>,
    pub unknown: Seq<char>,
}

impl View for HistoryRecord {
    type V = HistoryRecordModel;

    open spec fn view(&self) -> HistoryRecordModel {
        HistoryRecordModel {
            schema: self.schema,
            commands: string_texts(self.commands@),
            searches: string_texts(self.searches@),
            unknown: self.unknown@,
        }
    }
}

// ---------------------------------------------------------------------------------------
// What is handed out
// ---------------------------------------------------------------------------------------

/// What is known of a book.
#[derive(Debug, PartialEq, Eq)]
pub struct SavedBook {
    pub position: usize,
    pub bookmarks: Vec<Bookmark>,
    pub matched_by_fingerprint: bool,
    pub warnings: Vec<StateWarning>,
}

#[verifier::ext_equal]
pub struct SavedBookModel {
    pub position: int,
    pub bookmarks: Seq<BookmarkModel>,
    pub matched_by_fingerprint: bool,
    pub warnings: Seq<StateWarningModel>,
}

impl View for SavedBook {
    type V = SavedBookModel;

    open spec fn view(&self) -> SavedBookModel {
        SavedBookModel {
            position: self.position as int,
            bookmarks: views_of(self.bookmarks@),
            matched_by_fingerprint: self.matched_by_fingerprint,
            warnings: views_of(self.warnings@),
        }
    }
}

/// A book that was read.
#[derive(Debug, PartialEq, Eq)]
pub struct RecentBook {
    pub path: String,
    pub position: usize,
    pub updated_unix_ms: u128,
}

#[verifier::ext_equal]
pub struct RecentModel {
    pub path: Seq<char>,
    pub position: int,
    pub updated: int,
}

impl View for RecentBook {
    type V = RecentModel;

    open spec fn view(&self) -> RecentModel {
        RecentModel {
            path: self.path@,
            position: self.position as int,
            updated: self.updated_unix_ms as int,
        }
    }
}

impl Clone for RecentBook {
    fn clone(&self) -> (copy: Self)
        ensures
            copy@ == self@,
    {
        RecentBook {
            path: self.path.clone(),
            position: self.position,
            updated_unix_ms: self.updated_unix_ms,
        }
    }
}

/// The books that were read, the last one first.
#[derive(Debug, PartialEq, Eq)]
pub struct RecentBooks {
    pub books: Vec<RecentBook>,
    pub warnings: Vec<StateWarning>,
}

/// What was typed.
#[derive(Debug, PartialEq, Eq)]
pub struct SavedHistory {
    pub commands: Vec<String>,
    pub searches: Vec<String>,
}

impl Default for SavedHistory {
    fn default() -> (history: Self)
        ensures
            history.commands@.len() == 0,
            history.searches@.len() == 0,
    {
        SavedHistory { commands: Vec::new(), searches: Vec::new() }
    }
}

// ---------------------------------------------------------------------------------------
// Bookmarks in order
// ---------------------------------------------------------------------------------------

impl Ordered for Bookmark {
    open spec fn behind(left: BookmarkModel, right: BookmarkModel) -> bool {
        left.position > right.position || (left.position == right.position && left.created
            > right.created)
    }

    fn is_behind(&self, other: &Self) -> (behind: bool) {
        self.position > other.position || (self.position == other.position
            && self.created_unix_ms > other.created_unix_ms)
    }
}

/// Of neighbours at the same position the last one stays.
pub open spec fn last_of_each(bookmarks: Seq<BookmarkModel>) -> Seq<BookmarkModel>
    decreases bookmarks.len(),
{
    if bookmarks.len() == 0 {
        seq![]
    } else {
        let before = last_of_each(bookmarks.drop_last());
        if before.len() > 0 && before.last().position == bookmarks.last().position {
            before.drop_last().push(bookmarks.last())
        } else {
            before.push(bookmarks.last())
        }
    }
}

/// The bookmarks by their positions, one at each: the one that was made last.
pub open spec fn normalized(bookmarks: Seq<BookmarkModel>) -> Seq<BookmarkModel> {
    last_of_each(ordered::<Bookmark>(bookmarks))
}

/// The bookmarks by their positions, one at each.
pub fn normalize_bookmarks(bookmarks: Vec<Bookmark>) -> (result: Vec<Bookmark>)
    ensures
        views_of(result@) == normalized(views_of(bookmarks@)),
{
    let sorted = sort_items(bookmarks);
    let ghost all = views_of(sorted@);
    let mut result: Vec<Bookmark> = Vec::new();
    let mut i: usize = 0;
    assert(views_of(result@) =~= last_of_each(all.take(0)));
    while i < sorted.len()
        invariant
            i <= sorted.len(),
            all == views_of(sorted@),
            views_of(result@) == last_of_each(all.take(i as int)),
        decreases sorted.len() - i,
    {
        assert(all.take(i + 1).drop_last() =~= all.take(i as int));
        assert(all.take(i + 1).last() == sorted@[i as int]@);
        let length: usize = result.len();
        let next = sorted[i].clone();
        if length > 0 && result[length - 1].position == next.position {
            let ghost before = result@;
            assert(views_of(before).last() == before[length - 1]@);
            result.set(length - 1, next);
            assert(views_of(result@) =~= views_of(before).drop_last().push(all[i as int]));
        } else {
            let ghost before = result@;
            assert(length > 0 ==> views_of(before).last() == before[length - 1]@);
            result.push(next);
            assert(views_of(result@) =~= views_of(before).push(all[i as int]));
        }
        i += 1;
    }
    assert(all.take(i as int) =~= all);
    result
}

proof fn lemma_last_of_each(bookmarks: Seq<BookmarkModel>)
    requires
        is_sorted::<Bookmark>(bookmarks),
    ensures
        bookmarks.len() > 0 ==> last_of_each(bookmarks).len() > 0 && last_of_each(bookmarks).last()
            == bookmarks.last(),
        bookmarks.len() == 0 ==> last_of_each(bookmarks).len() == 0,
        forall|i: int, j: int|
            0 <= i < j < last_of_each(bookmarks).len() ==> (#[trigger] last_of_each(
                bookmarks,
            )[i]).position < (#[trigger] last_of_each(bookmarks)[j]).position,
        forall|k: int|
            0 <= k < bookmarks.len() ==> exists|i: int|
                0 <= i < last_of_each(bookmarks).len() && (#[trigger] last_of_each(
                    bookmarks,
                )[i]).position == (#[trigger] bookmarks[k]).position && last_of_each(
                    bookmarks,
                )[i].created >= bookmarks[k].created,
    decreases bookmarks.len(),
{
    if bookmarks.len() > 0 {
        let less = bookmarks.drop_last();
        let n = less.len() as int;
        assert(is_sorted::<Bookmark>(less)) by {
            assert forall|i: int, j: int| 0 <= i < j < less.len() implies !Bookmark::behind(
                #[trigger] less[i],
                #[trigger] less[j],
            ) by {
                assert(!Bookmark::behind(bookmarks[i], bookmarks[j]));
            }
        }
        lemma_last_of_each(less);
        let before = last_of_each(less);
        let all = last_of_each(bookmarks);
        let last = bookmarks.last();
        if n > 0 {
            assert(!Bookmark::behind(bookmarks[n - 1], bookmarks[n]));
            assert(before.last() == less[n - 1]);
        }
        assert forall|i: int, j: int| 0 <= i < j < all.len() implies (#[trigger] all[i]).position
            < (#[trigger] all[j]).position by {
            assert(all[i] == before[i]);
            if j < all.len() - 1 {
                assert(all[j] == before[j]);
            } else if i < before.len() - 1 {
                assert(before[i].position < before[before.len() - 1].position);
            }
        }
        assert forall|k: int| 0 <= k < bookmarks.len() implies exists|i: int|
            0 <= i < all.len() && (#[trigger] all[i]).position == (
            #[trigger] bookmarks[k]).position && all[i].created >= bookmarks[k].created by {
            if k == n {
                assert(all[all.len() - 1] == bookmarks[k]);
            } else {
                assert(less[k] == bookmarks[k]);
                let i = choose|i: int|
                    0 <= i < before.len() && (#[trigger] before[i]).position == less[k].position
                        && before[i].created >= less[k].created;
                if i < before.len() - 1 || before.last().position != last.position {
                    assert(all[i] == before[i]);
                } else {
                    assert(all[all.len() - 1] == last);
                    assert(before[i] == less[n - 1]);
                }
            }
        }
    }
}

/// Bookmarks stand by their positions and there is one at each; where a bookmark was, there
/// still is one, and none that was made before it.
pub proof fn law_bookmarks_in_order(bookmarks: Seq<BookmarkModel>)
    ensures
        forall|i: int, j: int|
            0 <= i < j < normalized(bookmarks).len() ==> (#[trigger] normalized(
                bookmarks,
            )[i]).position < (#[trigger] normalized(bookmarks)[j]).position,
        forall|k: int|
            0 <= k < bookmarks.len() ==> exists|i: int|
                0 <= i < normalized(bookmarks).len() && (#[trigger] normalized(
                    bookmarks,
                )[i]).position == (#[trigger] bookmarks[k]).position && normalized(
                    bookmarks,
                )[i].created >= bookmarks[k].created,
{
    broadcast use vstd::seq_lib::group_to_multiset_ensures;

    assert(is_order::<Bookmark>());
    law_sorted::<Bookmark>(bookmarks);
    let sorted = ordered::<Bookmark>(bookmarks);
    lemma_last_of_each(sorted);
    crate::order::law_sorting_keeps_items::<Bookmark>(bookmarks);
    assert forall|k: int| 0 <= k < bookmarks.len() implies exists|i: int|
        0 <= i < normalized(bookmarks).len() && (#[trigger] normalized(bookmarks)[i]).position == (
        #[trigger] bookmarks[k]).position && normalized(bookmarks)[i].created
            >= bookmarks[k].created by {
        assert(bookmarks.contains(bookmarks[k]));
        assert(bookmarks.to_multiset().count(bookmarks[k]) > 0);
        assert(sorted.to_multiset().count(bookmarks[k]) > 0);
        assert(sorted.contains(bookmarks[k]));
        let m = choose|m: int| 0 <= m < sorted.len() && sorted[m] == bookmarks[k];
        assert(sorted[m] == bookmarks[k]);
    }
}

// ---------------------------------------------------------------------------------------
// The store
// ---------------------------------------------------------------------------------------

/// Where things are kept, and whether the case of paths does not matter there.
#[derive(Debug, PartialEq, Eq)]
pub struct StateStore {
    root: String,
    fold_case: bool,
}

#[verifier::ext_equal]
pub struct StoreModel {
    pub root: Seq<char>,
    pub fold_case: bool,
}

impl View for StateStore {
    type V = StoreModel;

    closed spec fn view(&self) -> StoreModel {
        StoreModel { root: self.root@, fold_case: self.fold_case }
    }
}

/// What two paths of the same file have in common.
pub open spec fn key_of_path(store: StoreModel, path: Seq<char>) -> Seq<char> {
    if store.fold_case {
        text_lowercase(path)
    } else {
        path
    }
}

/// The name of the file in which something of a book is kept.
pub open spec fn record_name(store: StoreModel, path: Seq<char>) -> Seq<char> {
    blake3_hex(encode_utf8(key_of_path(store, path))) + ".json"@
}

/// The most recent progress of a book with the given fingerprint, and of several the last.
pub open spec fn best_state(
    records: Seq<RecordModel<BookStateModel>>,
    fingerprint: Seq<char>,
) -> Option<BookStateModel>
    decreases records.len(),
{
    if records.len() == 0 {
        None
    } else {
        let before = best_state(records.drop_last(), fingerprint);
        match records.last() {
            RecordModel::Valid(state) => if state.schema == STATE_SCHEMA && state.fingerprint
                == fingerprint && !(before matches Some(best) && best.updated > state.updated) {
                Some(state)
            } else {
                before
            },
            _ => before,
        }
    }
}

/// The most recent bookmarks of a book with the given fingerprint, and of several the last.
pub open spec fn best_bookmarks(
    records: Seq<RecordModel<BookmarkRecordModel>>,
    fingerprint: Seq<char>,
) -> Option<BookmarkRecordModel>
    decreases records.len(),
{
    if records.len() == 0 {
        None
    } else {
        let before = best_bookmarks(records.drop_last(), fingerprint);
        match records.last() {
            RecordModel::Valid(state) => if state.schema == BOOKMARK_SCHEMA && state.fingerprint
                == fingerprint && !(before matches Some(best) && best.updated > state.updated) {
                Some(state)
            } else {
                before
            },
            _ => before,
        }
    }
}

pub open spec fn unsupported_text(file: Seq<char>, schema: u32) -> Seq<char> {
    file + " uses unsupported schema "@ + decimal(schema as nat)
}

pub open spec fn unreadable_text(file: Seq<char>, reason: Seq<char>) -> Seq<char> {
    "cannot read "@ + file + ": "@ + reason
}

fn unsupported_message(file: &str, schema: u32) -> (message: String)
    ensures
        message@ == unsupported_text(file@, schema),
{
    let mut text = chars_of(file);
    push_text(&mut text, " uses unsupported schema ");
    push_u32(&mut text, schema);
    string_of(&text)
}

fn unreadable_message(file: &str, reason: &str) -> (message: String)
    ensures
        message@ == unreadable_text(file@, reason@),
{
    let mut text = chars_of("cannot read ");
    push_text(&mut text, file);
    push_text(&mut text, ": ");
    push_text(&mut text, reason);
    string_of(&text)
}

/// The files that tell of a book: the one of its progress and the one of its bookmarks, under
/// their names for the reader, and those of all books.
pub struct BookFiles {
    pub progress_file: String,
    pub progress: Record<BookState>,
    pub all_progress: Vec<Record<BookState>>,
    pub bookmark_file: String,
    pub bookmarks: Record<BookmarkRecord>,
    pub all_bookmarks: Vec<Record<BookmarkRecord>>,
}

pub struct BookFilesModel {
    pub progress_file: Seq<char>,
    pub progress: RecordModel<BookStateModel>,
    pub all_progress: Seq<RecordModel<BookStateModel>>,
    pub bookmark_file: Seq<char>,
    pub bookmarks: RecordModel<BookmarkRecordModel>,
    pub all_bookmarks: Seq<RecordModel<BookmarkRecordModel>>,
}

impl View for BookFiles {
    type V = BookFilesModel;

    open spec fn view(&self) -> BookFilesModel {
        BookFilesModel {
            progress_file: self.progress_file@,
            progress: self.progress@,
            all_progress: views_of(self.all_progress@),
            bookmark_file: self.bookmark_file@,
            bookmarks: self.bookmarks@,
            all_bookmarks: views_of(self.all_bookmarks@),
        }
    }
}

/// The progress in a book: where it was read under its path, or else where a book with its
/// fingerprint was read last. What cannot be read is told.
pub open spec fn known_progress(
    store: StoreModel,
    path: Seq<char>,
    fingerprint: Seq<char>,
    files: BookFilesModel,
) -> (int, bool, Seq<StateWarningModel>) {
    let warnings = match files.progress {
        RecordModel::Valid(state) => if state.schema > STATE_SCHEMA {
            seq![
                StateWarningModel {
                    code: "state.newer_progress_schema"@,
                    message: unsupported_text(files.progress_file, state.schema),
                },
            ]
        } else {
            seq![]
        },
        RecordModel::Invalid(reason) => seq![
            StateWarningModel {
                code: "state.progress_unreadable"@,
                message: unreadable_text(files.progress_file, reason),
            },
        ],
        RecordModel::Missing => seq![],
    };
    let other = match best_state(files.all_progress, fingerprint) {
        Some(state) => (state.position, true, warnings),
        None => (0, false, warnings),
    };
    match files.progress {
        RecordModel::Valid(state) => if state.schema == STATE_SCHEMA && key_of_path(
            store,
            state.path,
        ) == key_of_path(store, path) {
            (state.position, false, seq![])
        } else {
            other
        },
        _ => other,
    }
}

pub open spec fn plain_bookmarks(stored: Seq<StoredModel>) -> Seq<BookmarkModel> {
    Seq::new(stored.len(), |i: int| stored[i].bookmark)
}

/// The bookmarks of a book: those that were kept under its path, or else the last ones of a
/// book with its fingerprint. What cannot be read, and that the file has changed, is told.
pub open spec fn known_bookmarks(
    store: StoreModel,
    path: Seq<char>,
    fingerprint: Seq<char>,
    files: BookFilesModel,
) -> (Seq<BookmarkModel>, bool, Seq<StateWarningModel>) {
    let warnings = match files.bookmarks {
        RecordModel::Valid(state) => if state.schema > BOOKMARK_SCHEMA {
            seq![
                StateWarningModel {
                    code: "state.newer_bookmark_schema"@,
                    message: unsupported_text(files.bookmark_file, state.schema),
                },
            ]
        } else {
            seq![]
        },
        RecordModel::Invalid(reason) => seq![
            StateWarningModel {
                code: "state.bookmarks_unreadable"@,
                message: unreadable_text(files.bookmark_file, reason),
            },
        ],
        RecordModel::Missing => seq![],
    };
    let other = match best_bookmarks(files.all_bookmarks, fingerprint) {
        Some(state) => (plain_bookmarks(state.bookmarks), true, warnings),
        None => (seq![], false, warnings),
    };
    match files.bookmarks {
        RecordModel::Valid(state) => if state.schema == BOOKMARK_SCHEMA && key_of_path(
            store,
            state.path,
        ) == key_of_path(store, path) {
            (
                plain_bookmarks(state.bookmarks),
                false,
                if state.fingerprint != fingerprint {
                    seq![
                        StateWarningModel {
                            code: "state.bookmarks_content_changed"@,
                            message: "the file changed since its bookmarks were saved; bookmark positions may have shifted"@,
                        },
                    ]
                } else {
                    seq![]
                },
            )
        } else {
            other
        },
        _ => other,
    }
}

/// What is known of a book.
pub open spec fn known_book(
    store: StoreModel,
    path: Seq<char>,
    fingerprint: Seq<char>,
    files: BookFilesModel,
) -> SavedBookModel {
    let (position, progress_moved, progress_warnings) = known_progress(
        store,
        path,
        fingerprint,
        files,
    );
    let (bookmarks, bookmarks_moved, bookmark_warnings) = known_bookmarks(
        store,
        path,
        fingerprint,
        files,
    );
    SavedBookModel {
        position,
        bookmarks: normalized(bookmarks),
        matched_by_fingerprint: progress_moved || bookmarks_moved,
        warnings: progress_warnings + bookmark_warnings,
    }
}

/// A file of a schema that is newer than the known one is not written over.
pub open spec fn newer_than(schema: RecordModel<u32>, supported: u32) -> Option<u32> {
    match schema {
        RecordModel::Valid(found) => if found > supported {
            Some(found)
        } else {
            None
        },
        _ => None,
    }
}

fn newer_schema(schema: &Record<u32>, supported: u32) -> (found: Option<u32>)
    ensures
        found == newer_than(schema@, supported),
{
    match schema {
        Record::Valid(found) => if *found > supported {
            Some(*found)
        } else {
            None
        },
        _ => None,
    }
}

/// The progress that is to be written, with the unknown fields of the file.
pub open spec fn progress_to_write(
    path: Seq<char>,
    fingerprint: Seq<char>,
    position: int,
    updated: int,
    previous: RecordModel<BookStateModel>,
) -> BookStateModel {
    BookStateModel {
        schema: STATE_SCHEMA,
        path,
        fingerprint,
        position,
        updated,
        unknown: match previous {
            RecordModel::Valid(state) => if state.schema == STATE_SCHEMA {
                state.unknown
            } else {
                seq![]
            },
            _ => seq![],
        },
    }
}

/// The file that was read last, if its record can be read.
pub open spec fn known_last(record: RecordModel<LastOpenedModel>) -> Option<Seq<char>> {
    match record {
        RecordModel::Valid(state) => if state.schema == STATE_SCHEMA {
            Some(state.path)
        } else {
            None
        },
        _ => None,
    }
}

/// What is to be written of the file that was read last, with the unknown fields of the file.
pub open spec fn last_to_write(
    path: Seq<char>,
    previous: RecordModel<LastOpenedModel>,
) -> LastOpenedModel {
    LastOpenedModel {
        schema: STATE_SCHEMA,
        path,
        unknown: match previous {
            RecordModel::Valid(known) => if known.schema == STATE_SCHEMA {
                known.unknown
            } else {
                seq![]
            },
            _ => seq![],
        },
    }
}

/// The theme that the reader prefers.
pub open spec fn known_theme(record: RecordModel<PreferencesModel>) -> ThemeChoice {
    match record {
        RecordModel::Valid(state) => if state.schema == PREFERENCES_SCHEMA {
            state.theme
        } else {
            ThemeChoice::Auto
        },
        _ => ThemeChoice::Auto,
    }
}

/// The preferences that are to be written, with the unknown fields of the file.
pub open spec fn preferences_to_write(
    theme: ThemeChoice,
    previous: RecordModel<PreferencesModel>,
) -> PreferencesModel {
    PreferencesModel {
        schema: PREFERENCES_SCHEMA,
        theme,
        unknown: match previous {
            RecordModel::Valid(known) => if known.schema == PREFERENCES_SCHEMA {
                known.unknown
            } else {
                seq![]
            },
            _ => seq![],
        },
    }
}

/// The commands and the searches that were typed, if their record can be read.
pub open spec fn known_history(record: RecordModel<HistoryRecordModel>) -> (
    Seq<Seq<char>>,
    Seq<Seq<char>>,
) {
    match record {
        RecordModel::Valid(state) => if state.schema == HISTORY_SCHEMA {
            (state.commands, state.searches)
        } else {
            (seq![], seq![])
        },
        _ => (seq![], seq![]),
    }
}

/// The histories that are to be written, with the unknown fields of the file.
pub open spec fn history_to_write(
    commands: Seq<Seq<char>>,
    searches: Seq<Seq<char>>,
    previous: RecordModel<HistoryRecordModel>,
) -> HistoryRecordModel {
    HistoryRecordModel {
        schema: HISTORY_SCHEMA,
        commands,
        searches,
        unknown: match previous {
            RecordModel::Valid(known) => if known.schema == HISTORY_SCHEMA {
                known.unknown
            } else {
                seq![]
            },
            _ => seq![],
        },
    }
}

/// The unknown fields of the last bookmark at a position.
pub open spec fn unknown_at(stored: Seq<StoredModel>, position: int) -> Seq<char>
    decreases stored.len(),
{
    if stored.len() == 0 {
        seq![]
    } else if stored.last().bookmark.position == position {
        stored.last().unknown
    } else {
        unknown_at(stored.drop_last(), position)
    }
}

/// The file whose unknown fields are kept when bookmarks are written.
pub open spec fn previous_bookmarks(
    previous: RecordModel<BookmarkRecordModel>,
    all: Seq<RecordModel<BookmarkRecordModel>>,
    fingerprint: Seq<char>,
) -> Option<BookmarkRecordModel> {
    match previous {
        RecordModel::Valid(state) => if state.schema == BOOKMARK_SCHEMA {
            Some(state)
        } else {
            best_bookmarks(all, fingerprint)
        },
        _ => best_bookmarks(all, fingerprint),
    }
}

/// The bookmarks that are to be written, with the unknown fields of the file and of the
/// bookmarks in it.
pub open spec fn bookmarks_to_write(
    path: Seq<char>,
    fingerprint: Seq<char>,
    bookmarks: Seq<BookmarkModel>,
    updated: int,
    kept: Option<BookmarkRecordModel>,
) -> BookmarkRecordModel {
    let stored = match kept {
        Some(state) => state.bookmarks,
        None => seq![],
    };
    BookmarkRecordModel {
        schema: BOOKMARK_SCHEMA,
        path,
        fingerprint,
        updated,
        bookmarks: Seq::new(
            normalized(bookmarks).len(),
            |i: int|
                StoredModel {
                    bookmark: normalized(bookmarks)[i],
                    unknown: unknown_at(stored, normalized(bookmarks)[i].position),
                },
        ),
        unknown: match kept {
            Some(state) => state.unknown,
            None => seq![],
        },
    }
}

/// Whether a file may be written over, or why not.
pub open spec fn refusal(schema: RecordModel<u32>, supported: u32, file: Seq<char>) -> Option<
    StateFault,
> {
    match schema {
        RecordModel::Valid(found) => if found > supported {
            Some(StateFault::NewerSchema { path: file, found, supported })
        } else {
            None
        },
        RecordModel::Invalid(reason) => Some(
            StateFault::UnreadableRecord { path: file, reason },
        ),
        RecordModel::Missing => None,
    }
}

fn refuse(schema: &Record<u32>, supported: u32, file: &str) -> (error: Option<StateError>)
    ensures
        match error {
            Some(error) => refusal(schema@, supported, file@) == Some(error@),
            None => refusal(schema@, supported, file@) is None,
        },
{
    match schema {
        Record::Valid(found) => if *found > supported {
            Some(StateError::NewerSchema { path: file.to_owned(), found: *found, supported })
        } else {
            None
        },
        Record::Invalid(reason) => Some(
            StateError::UnreadableRecord { path: file.to_owned(), reason: reason.clone() },
        ),
        Record::Missing => None,
    }
}

pub(crate) fn copy_strings(values: &[String]) -> (copy: Vec<String>)
    ensures
        string_texts(copy@) == string_texts(values@),
{
    let ghost all = string_texts(values@);
    let mut copy: Vec<String> = Vec::new();
    let mut i: usize = 0;
    assert(string_texts(copy@) =~= all.take(0));
    while i < values.len()
        invariant
            i <= values.len(),
            all == string_texts(values@),
            string_texts(copy@) == all.take(i as int),
        decreases values.len() - i,
    {
        let ghost before = copy@;
        copy.push(values[i].clone());
        assert(string_texts(copy@) =~= string_texts(before).push(all[i as int]));
        assert(all.take(i + 1) =~= all.take(i as int).push(all[i as int]));
        i += 1;
    }
    assert(all.take(i as int) =~= all);
    copy
}

fn find_best_state<'a>(records: &'a [Record<BookState>], fingerprint: &str) -> (best: Option<
    &'a BookState,
>)
    ensures
        match best {
            Some(state) => best_state(views_of(records@), fingerprint@) == Some(state@),
            None => best_state(views_of(records@), fingerprint@) is None,
        },
{
    let ghost all = views_of(records@);
    let mut best: Option<&'a BookState> = None;
    let mut i: usize = 0;
    assert(best_state(all.take(0), fingerprint@) is None);
    while i < records.len()
        invariant
            i <= records.len(),
            all == views_of(records@),
            match best {
                Some(state) => best_state(all.take(i as int), fingerprint@) == Some(state@),
                None => best_state(all.take(i as int), fingerprint@) is None,
            },
        decreases records.len() - i,
    {
        assert(all.take(i + 1).drop_last() =~= all.take(i as int));
        assert(all.take(i + 1).last() == records@[i as int]@);
        if let Record::Valid(state) = &records[i] {
            if state.schema == STATE_SCHEMA && same_text(state.fingerprint.as_str(), fingerprint) {
                let newer: bool = match best {
                    Some(known) => known.updated_unix_ms <= state.updated_unix_ms,
                    None => true,
                };
                if newer {
                    best = Some(state);
                }
            }
        }
        i += 1;
    }
    assert(all.take(i as int) =~= all);
    best
}

fn find_best_bookmarks<'a>(records: &'a [Record<BookmarkRecord>], fingerprint: &str) -> (best:
    Option<&'a BookmarkRecord>)
    ensures
        match best {
            Some(state) => best_bookmarks(views_of(records@), fingerprint@) == Some(state@),
            None => best_bookmarks(views_of(records@), fingerprint@) is None,
        },
{
    let ghost all = views_of(records@);
    let mut best: Option<&'a BookmarkRecord> = None;
    let mut i: usize = 0;
    assert(best_bookmarks(all.take(0), fingerprint@) is None);
    while i < records.len()
        invariant
            i <= records.len(),
            all == views_of(records@),
            match best {
                Some(state) => best_bookmarks(all.take(i as int), fingerprint@) == Some(state@),
                None => best_bookmarks(all.take(i as int), fingerprint@) is None,
            },
        decreases records.len() - i,
    {
        assert(all.take(i + 1).drop_last() =~= all.take(i as int));
        assert(all.take(i + 1).last() == records@[i as int]@);
        if let Record::Valid(state) = &records[i] {
            if state.schema == BOOKMARK_SCHEMA && same_text(
                state.fingerprint.as_str(),
                fingerprint,
            ) {
                let newer: bool = match best {
                    Some(known) => known.updated_unix_ms <= state.updated_unix_ms,
                    None => true,
                };
                if newer {
                    best = Some(state);
                }
            }
        }
        i += 1;
    }
    assert(all.take(i as int) =~= all);
    best
}

fn without_unknown(stored: &[StoredBookmark]) -> (bookmarks: Vec<Bookmark>)
    ensures
        views_of(bookmarks@) == plain_bookmarks(views_of(stored@)),
{
    let ghost all = plain_bookmarks(views_of(stored@));
    let mut bookmarks: Vec<Bookmark> = Vec::new();
    let mut i: usize = 0;
    assert(views_of(bookmarks@) =~= all.take(0));
    while i < stored.len()
        invariant
            i <= stored.len(),
            all == plain_bookmarks(views_of(stored@)),
            views_of(bookmarks@) == all.take(i as int),
        decreases stored.len() - i,
    {
        let ghost before = bookmarks@;
        bookmarks.push(stored[i].bookmark.clone());
        assert(views_of(bookmarks@) =~= views_of(before).push(all[i as int]));
        assert(all.take(i + 1) =~= all.take(i as int).push(all[i as int]));
        i += 1;
    }
    assert(all.take(i as int) =~= all);
    bookmarks
}

fn find_unknown(stored: &[StoredBookmark], position: usize) -> (unknown: String)
    ensures
        unknown@ == unknown_at(views_of(stored@), position as int),
{
    let ghost all = views_of(stored@);
    let mut n: usize = stored.len();
    assert(all.take(n as int) =~= all);
    while n > 0
        invariant
            n <= stored.len(),
            all == views_of(stored@),
            unknown_at(all, position as int) == unknown_at(all.take(n as int), position as int),
        decreases n,
    {
        assert(all.take(n as int).last() == stored@[n - 1]@);
        assert(all.take(n as int).drop_last() =~= all.take(n - 1));
        if stored[n - 1].bookmark.position == position {
            return stored[n - 1].unknown.clone();
        }
        n -= 1;
    }
    let none = String::new();
    assert(none@ =~= seq![]);
    none
}

impl StateStore {
    /// A store in the given directory, in which the case of paths matters or not.
    pub fn at(root: String, fold_case: bool) -> (store: Self)
        ensures
            store@ == (StoreModel { root: root@, fold_case }),
    {
        StateStore { root, fold_case }
    }

    pub fn root(&self) -> (root: &str)
        ensures
            root@ == self@.root,
    {
        self.root.as_str()
    }

    /// What two paths of the same file have in common.
    pub fn path_key(&self, path: &str) -> (key: String)
        ensures
            key@ == key_of_path(self@, path@),
    {
        if self.fold_case {
            text_lowercase_of(path)
        } else {
            path.to_owned()
        }
    }

    /// The name of the file in which something of a book is kept.
    pub fn record_file(&self, path: &str) -> (name: String)
        ensures
            name@ == record_name(self@, path@),
    {
        let key = self.path_key(path);
        let digest = blake3_hex_of(key.as_str().as_bytes());
        let mut name = chars_of(digest.as_str());
        push_text(&mut name, ".json");
        string_of(&name)
    }

    fn same_file(&self, left: &str, right: &str) -> (same: bool)
        ensures
            same == (key_of_path(self@, left@) == key_of_path(self@, right@)),
    {
        let left_key = self.path_key(left);
        let right_key = self.path_key(right);
        same_text(left_key.as_str(), right_key.as_str())
    }

    fn load_progress(&self, path: &str, fingerprint: &str, files: &BookFiles) -> (progress: (
        usize,
        bool,
        Vec<StateWarning>,
    ))
        ensures
            (progress.0 as int, progress.1, views_of(progress.2@)) == known_progress(
                self@,
                path@,
                fingerprint@,
                files@,
            ),
    {
        let mut warnings: Vec<StateWarning> = Vec::new();
        assert(views_of(warnings@) =~= seq![]);
        match &files.progress {
            Record::Valid(state) => {
                if state.schema == STATE_SCHEMA && self.same_file(state.path.as_str(), path) {
                    return (state.position, false, warnings);
                }
                if state.schema > STATE_SCHEMA {
                    let warning = StateWarning::new(
                        "state.newer_progress_schema",
                        unsupported_message(files.progress_file.as_str(), state.schema),
                    );
                    let ghost model = warning@;
                    warnings.push(warning);
                    assert(views_of(warnings@) =~= seq![model]);
                }
            },
            Record::Invalid(reason) => {
                let warning = StateWarning::new(
                    "state.progress_unreadable",
                    unreadable_message(files.progress_file.as_str(), reason.as_str()),
                );
                let ghost model = warning@;
                warnings.push(warning);
                assert(views_of(warnings@) =~= seq![model]);
            },
            Record::Missing => {},
        }
        match find_best_state(&files.all_progress, fingerprint) {
            Some(state) => (state.position, true, warnings),
            None => (0, false, warnings),
        }
    }

    fn load_bookmarks(&self, path: &str, fingerprint: &str, files: &BookFiles) -> (bookmarks: (
        Vec<Bookmark>,
        bool,
        Vec<StateWarning>,
    ))
        ensures
            (views_of(bookmarks.0@), bookmarks.1, views_of(bookmarks.2@)) == known_bookmarks(
                self@,
                path@,
                fingerprint@,
                files@,
            ),
    {
        let mut warnings: Vec<StateWarning> = Vec::new();
        assert(views_of(warnings@) =~= seq![]);
        match &files.bookmarks {
            Record::Valid(state) => {
                if state.schema == BOOKMARK_SCHEMA && self.same_file(state.path.as_str(), path) {
                    if !same_text(state.fingerprint.as_str(), fingerprint) {
                        let warning = StateWarning::new(
                            "state.bookmarks_content_changed",
                            "the file changed since its bookmarks were saved; bookmark positions may have shifted".to_owned(),
                        );
                        let ghost model = warning@;
                        warnings.push(warning);
                        assert(views_of(warnings@) =~= seq![model]);
                    }
                    return (without_unknown(&state.bookmarks), false, warnings);
                }
                if state.schema > BOOKMARK_SCHEMA {
                    let warning = StateWarning::new(
                        "state.newer_bookmark_schema",
                        unsupported_message(files.bookmark_file.as_str(), state.schema),
                    );
                    let ghost model = warning@;
                    warnings.push(warning);
                    assert(views_of(warnings@) =~= seq![model]);
                }
            },
            Record::Invalid(reason) => {
                let warning = StateWarning::new(
                    "state.bookmarks_unreadable",
                    unreadable_message(files.bookmark_file.as_str(), reason.as_str()),
                );
                let ghost model = warning@;
                warnings.push(warning);
                assert(views_of(warnings@) =~= seq![model]);
            },
            Record::Missing => {},
        }
        match find_best_bookmarks(&files.all_bookmarks, fingerprint) {
            Some(state) => (without_unknown(&state.bookmarks), true, warnings),
            None => {
                let none: Vec<Bookmark> = Vec::new();
                assert(views_of(none@) =~= seq![]);
                (none, false, warnings)
            },
        }
    }

    /// What is known of a book.
    pub fn load_book(&self, path: &str, fingerprint: &str, files: &BookFiles) -> (saved: SavedBook)
        ensures
            saved@ == known_book(self@, path@, fingerprint@, files@),
    {
        let (position, progress_moved, progress_warnings) = self.load_progress(
            path,
            fingerprint,
            files,
        );
        let (bookmarks, bookmarks_moved, bookmark_warnings) = self.load_bookmarks(
            path,
            fingerprint,
            files,
        );
        let mut warnings = progress_warnings;
        let mut more = bookmark_warnings;
        let ghost before = warnings@;
        let ghost added = more@;
        warnings.append(&mut more);
        assert(views_of(warnings@) =~= views_of(before) + views_of(added));
        SavedBook {
            position,
            bookmarks: normalize_bookmarks(bookmarks),
            matched_by_fingerprint: progress_moved || bookmarks_moved,
            warnings,
        }
    }

    /// The progress that is to be written to a file, of which the schema and the record that it
    /// holds were read.
    pub fn save_progress(
        &self,
        path: &str,
        fingerprint: &str,
        position: usize,
        updated_unix_ms: u128,
        file: &str,
        schema: &Record<u32>,
        previous: &Record<BookState>,
    ) -> (result: Result<BookState, StateError>)
        ensures
            match result {
                Ok(state) => newer_than(schema@, STATE_SCHEMA) is None && state@
                    == progress_to_write(
                    path@,
                    fingerprint@,
                    position as int,
                    updated_unix_ms as int,
                    previous@,
                ),
                Err(error) => newer_than(schema@, STATE_SCHEMA) matches Some(found) && error@
                    == (StateFault::NewerSchema { path: file@, found, supported: STATE_SCHEMA }),
            },
    {
        if let Some(found) = newer_schema(schema, STATE_SCHEMA) {
            return Err(
                StateError::NewerSchema { path: file.to_owned(), found, supported: STATE_SCHEMA },
            );
        }
        let mut unknown = String::new();
        assert(unknown@ =~= seq![]);
        if let Record::Valid(state) = previous {
            if state.schema == STATE_SCHEMA {
                unknown = state.unknown.clone();
            }
        }
        Ok(
            BookState {
                schema: STATE_SCHEMA,
                path: path.to_owned(),
                fingerprint: fingerprint.to_owned(),
                position,
                updated_unix_ms,
                unknown,
            },
        )
    }

    /// The bookmarks that are to be written to a file, of which the schema and the record that
    /// it holds were read, as were those of all books.
    pub fn save_bookmarks(
        &self,
        path: &str,
        fingerprint: &str,
        bookmarks: Vec<Bookmark>,
        updated_unix_ms: u128,
        file: &str,
        schema: &Record<u32>,
        previous: &Record<BookmarkRecord>,
        all: &[Record<BookmarkRecord>],
    ) -> (result: Result<BookmarkRecord, StateError>)
        ensures
            match schema@ {
                RecordModel::Valid(found) if found > BOOKMARK_SCHEMA => result matches Err(error)
                    && error@ == (StateFault::NewerSchema {
                    path: file@,
                    found,
                    supported: BOOKMARK_SCHEMA,
                }),
                RecordModel::Invalid(reason) => result matches Err(error) && error@
                    == (StateFault::UnreadableBookmarks { path: file@, reason }),
                _ => match previous@ {
                    RecordModel::Invalid(reason) => result matches Err(error) && error@
                        == (StateFault::UnreadableBookmarks { path: file@, reason }),
                    _ => result matches Ok(state) && state@ == bookmarks_to_write(
                        path@,
                        fingerprint@,
                        views_of(bookmarks@),
                        updated_unix_ms as int,
                        previous_bookmarks(previous@, views_of(all@), fingerprint@),
                    ),
                },
            },
    {
        match schema {
            Record::Valid(found) => {
                if *found > BOOKMARK_SCHEMA {
                    return Err(
                        StateError::NewerSchema {
                            path: file.to_owned(),
                            found: *found,
                            supported: BOOKMARK_SCHEMA,
                        },
                    );
                }
            },
            Record::Invalid(reason) => {
                return Err(
                    StateError::UnreadableBookmarks {
                        path: file.to_owned(),
                        reason: reason.clone(),
                    },
                );
            },
            Record::Missing => {},
        }
        let kept: Option<&BookmarkRecord> = match previous {
            Record::Invalid(reason) => {
                return Err(
                    StateError::UnreadableBookmarks {
                        path: file.to_owned(),
                        reason: reason.clone(),
                    },
                );
            },
            Record::Valid(state) => if state.schema == BOOKMARK_SCHEMA {
                Some(state)
            } else {
                find_best_bookmarks(all, fingerprint)
            },
            Record::Missing => find_best_bookmarks(all, fingerprint),
        };
        let ghost source = previous_bookmarks(previous@, views_of(all@), fingerprint@);
        let ghost goal = bookmarks_to_write(
            path@,
            fingerprint@,
            views_of(bookmarks@),
            updated_unix_ms as int,
            source,
        );
        let sorted = normalize_bookmarks(bookmarks);
        let ghost sorted_views = views_of(sorted@);
        let none: Vec<StoredBookmark> = Vec::new();
        assert(views_of(none@) =~= seq![]);
        let stored: &Vec<StoredBookmark> = match kept {
            Some(state) => &state.bookmarks,
            None => &none,
        };
        let mut written: Vec<StoredBookmark> = Vec::new();
        let mut i: usize = 0;
        assert(views_of(written@) =~= goal.bookmarks.take(0));
        while i < sorted.len()
            invariant
                i <= sorted.len(),
                sorted_views == views_of(sorted@),
                goal.bookmarks == Seq::new(
                    sorted_views.len(),
                    |i: int|
                        StoredModel {
                            bookmark: sorted_views[i],
                            unknown: unknown_at(views_of(stored@), sorted_views[i].position),
                        },
                ),
                views_of(written@) == goal.bookmarks.take(i as int),
            decreases sorted.len() - i,
        {
            let ghost before = written@;
            let bookmark = sorted[i].clone();
            let unknown = find_unknown(stored, bookmark.position);
            let item = StoredBookmark { bookmark, unknown };
            assert(item@ == goal.bookmarks[i as int]);
            written.push(item);
            assert(views_of(written@) =~= views_of(before).push(goal.bookmarks[i as int]));
            assert(goal.bookmarks.take(i + 1) =~= goal.bookmarks.take(i as int).push(
                goal.bookmarks[i as int],
            ));
            i += 1;
        }
        assert(goal.bookmarks.take(i as int) =~= goal.bookmarks);
        let unknown: String = match kept {
            Some(state) => state.unknown.clone(),
            None => {
                let empty = String::new();
                assert(empty@ =~= seq![]);
                empty
            },
        };
        Ok(
            BookmarkRecord {
                schema: BOOKMARK_SCHEMA,
                path: path.to_owned(),
                fingerprint: fingerprint.to_owned(),
                updated_unix_ms,
                bookmarks: written,
                unknown,
            },
        )
    }

    /// The file that was read last, if its record can be read.
    pub fn last_opened(&self, record: &Record<LastOpened>) -> (path: Option<String>)
        ensures
            opt_text(path) == known_last(record@),
    {
        match record {
            Record::Valid(state) => if state.schema == STATE_SCHEMA {
                Some(state.path.clone())
            } else {
                None
            },
            _ => None,
        }
    }

    /// What is to be written of the file that was read last.
    pub fn save_last_opened(
        &self,
        path: &str,
        file: &str,
        schema: &Record<u32>,
        previous: &Record<LastOpened>,
    ) -> (result: Result<LastOpened, StateError>)
        ensures
            match result {
                Ok(state) => newer_than(schema@, STATE_SCHEMA) is None && state@
                    == last_to_write(path@, previous@),
                Err(error) => newer_than(schema@, STATE_SCHEMA) matches Some(found) && error@
                    == (StateFault::NewerSchema { path: file@, found, supported: STATE_SCHEMA }),
            },
    {
        if let Some(found) = newer_schema(schema, STATE_SCHEMA) {
            return Err(
                StateError::NewerSchema { path: file.to_owned(), found, supported: STATE_SCHEMA },
            );
        }
        let mut unknown = String::new();
        assert(unknown@ =~= seq![]);
        if let Record::Valid(state) = previous {
            if state.schema == STATE_SCHEMA {
                unknown = state.unknown.clone();
            }
        }
        Ok(LastOpened { schema: STATE_SCHEMA, path: path.to_owned(), unknown })
    }

    /// The theme that the reader prefers.
    pub fn load_theme(&self, record: &Record<PreferencesRecord>) -> (theme: ThemeChoice)
        ensures
            theme == known_theme(record@),
    {
        match record {
            Record::Valid(state) => if state.schema == PREFERENCES_SCHEMA {
                state.theme
            } else {
                ThemeChoice::Auto
            },
            _ => ThemeChoice::Auto,
        }
    }

    /// The preferences that are to be written.
    pub fn save_theme(
        &self,
        theme: ThemeChoice,
        file: &str,
        schema: &Record<u32>,
        previous: &Record<PreferencesRecord>,
    ) -> (result: Result<PreferencesRecord, StateError>)
        ensures
            match result {
                Ok(state) => refusal(schema@, PREFERENCES_SCHEMA, file@) is None && state@
                    == preferences_to_write(theme, previous@),
                Err(error) => refusal(schema@, PREFERENCES_SCHEMA, file@) == Some(error@),
            },
    {
        if let Some(error) = refuse(schema, PREFERENCES_SCHEMA, file) {
            return Err(error);
        }
        let mut unknown = String::new();
        assert(unknown@ =~= seq![]);
        if let Record::Valid(state) = previous {
            if state.schema == PREFERENCES_SCHEMA {
                unknown = state.unknown.clone();
            }
        }
        Ok(PreferencesRecord { schema: PREFERENCES_SCHEMA, theme, unknown })
    }

    /// What was typed, if it can be read.
    pub fn load_history(&self, record: &Record<HistoryRecord>) -> (history: SavedHistory)
        ensures
            (string_texts(history.commands@), string_texts(history.searches@)) == known_history(
                record@,
            ),
    {
        match record {
            Record::Valid(state) => if state.schema == HISTORY_SCHEMA {
                return SavedHistory {
                    commands: copy_strings(&state.commands),
                    searches: copy_strings(&state.searches),
                };
            },
            _ => {},
        }
        let history = SavedHistory::default();
        assert(string_texts(history.commands@) =~= seq![]);
        assert(string_texts(history.searches@) =~= seq![]);
        history
    }

    /// The histories that are to be written.
    pub fn save_history(
        &self,
        history: &SavedHistory,
        file: &str,
        schema: &Record<u32>,
        previous: &Record<HistoryRecord>,
    ) -> (result: Result<HistoryRecord, StateError>)
        ensures
            match result {
                Ok(state) => refusal(schema@, HISTORY_SCHEMA, file@) is None && state@
                    == history_to_write(
                    string_texts(history.commands@),
                    string_texts(history.searches@),
                    previous@,
                ),
                Err(error) => refusal(schema@, HISTORY_SCHEMA, file@) == Some(error@),
            },
    {
        if let Some(error) = refuse(schema, HISTORY_SCHEMA, file) {
            return Err(error);
        }
        let mut unknown = String::new();
        assert(unknown@ =~= seq![]);
        if let Record::Valid(state) = previous {
            if state.schema == HISTORY_SCHEMA {
                unknown = state.unknown.clone();
            }
        }
        Ok(
            HistoryRecord {
                schema: HISTORY_SCHEMA,
                commands: copy_strings(&history.commands),
                searches: copy_strings(&history.searches),
                unknown,
            },
        )
    }
}

// ---------------------------------------------------------------------------------------
// Recent books
// ---------------------------------------------------------------------------------------

/// A file in the directory of the progress of all books: its name for the reader, whether it is
/// a JSON file, what was read of it, and whether the book that it tells of is still a file.
pub struct StateFile {
    pub file: String,
    pub is_json: bool,
    pub record: Record<BookState>,
    pub book_exists: bool,
}

pub struct StateFileModel {
    pub file: Seq<char>,
    pub is_json: bool,
    pub record: RecordModel<BookStateModel>,
    pub book_exists: bool,
}

impl View for StateFile {
    type V = StateFileModel;

    open spec fn view(&self) -> StateFileModel {
        StateFileModel {
            file: self.file@,
            is_json: self.is_json,
            record: self.record@,
            book_exists: self.book_exists,
        }
    }
}

impl Ordered for BookState {
    open spec fn behind(left: BookStateModel, right: BookStateModel) -> bool {
        left.updated < right.updated
    }

    fn is_behind(&self, other: &Self) -> (behind: bool) {
        self.updated_unix_ms < other.updated_unix_ms
    }
}

/// The books that can be listed, and what cannot be read of the files.
pub open spec fn book_candidates(files: Seq<StateFileModel>) -> (
    Seq<BookStateModel>,
    Seq<StateWarningModel>,
)
    decreases files.len(),
{
    if files.len() == 0 {
        (seq![], seq![])
    } else {
        let (books, warnings) = book_candidates(files.drop_last());
        let last = files.last();
        if !last.is_json {
            (books, warnings)
        } else {
            match last.record {
                RecordModel::Valid(state) => if state.schema == STATE_SCHEMA && last.book_exists {
                    (books.push(state), warnings)
                } else if state.schema > STATE_SCHEMA {
                    (
                        books,
                        warnings.push(
                            StateWarningModel {
                                code: "state.newer_progress_schema"@,
                                message: unsupported_text(last.file, state.schema),
                            },
                        ),
                    )
                } else {
                    (books, warnings)
                },
                RecordModel::Invalid(reason) => (
                    books,
                    warnings.push(
                        StateWarningModel {
                            code: "state.progress_unreadable"@,
                            message: unreadable_text(last.file, reason),
                        },
                    ),
                ),
                RecordModel::Missing => (books, warnings),
            }
        }
    }
}

/// Books of which no path and no fingerprint occurs twice, with the keys of all paths that
/// occurred. Of several books the first one stays.
#[verifier::ext_equal]
pub struct DistinctBooks {
    pub books: Seq<BookStateModel>,
    pub paths: Seq<Seq<char>>,
    pub fingerprints: Seq<Seq<char>>,
}

pub open spec fn distinct_books(store: StoreModel, books: Seq<BookStateModel>) -> DistinctBooks
    decreases books.len(),
{
    if books.len() == 0 {
        DistinctBooks { books: seq![], paths: seq![], fingerprints: seq![] }
    } else {
        let before = distinct_books(store, books.drop_last());
        let book = books.last();
        let key = key_of_path(store, book.path);
        if before.paths.contains(key) {
            before
        } else if before.fingerprints.contains(book.fingerprint) {
            DistinctBooks { paths: before.paths.push(key), ..before }
        } else {
            DistinctBooks {
                books: before.books.push(book),
                paths: before.paths.push(key),
                fingerprints: before.fingerprints.push(book.fingerprint),
            }
        }
    }
}

pub open spec fn recent_of(books: Seq<BookStateModel>) -> Seq<RecentModel> {
    Seq::new(
        books.len(),
        |i: int|
            RecentModel {
                path: books[i].path,
                position: books[i].position,
                updated: books[i].updated,
            },
    )
}

/// The first of the books.
pub open spec fn first_books(books: Seq<BookStateModel>, limit: int) -> Seq<BookStateModel> {
    let most = if limit < MAX_RECENT_BOOKS {
        limit
    } else {
        MAX_RECENT_BOOKS as int
    };
    if books.len() > most {
        books.take(most)
    } else {
        books
    }
}

/// The books that were read last, without those that are gone, each once.
pub open spec fn listed_books(
    store: StoreModel,
    files: Seq<StateFileModel>,
    limit: int,
) -> Seq<BookStateModel> {
    first_books(
        distinct_books(store, ordered::<BookState>(book_candidates(files).0)).books,
        limit,
    )
}

fn holds_text(values: &[String], value: &str) -> (found: bool)
    ensures
        found == string_texts(values@).contains(value@),
{
    let mut i: usize = 0;
    while i < values.len()
        invariant
            i <= values.len(),
            forall|j: int| 0 <= j < i ==> (#[trigger] string_texts(values@)[j]) != value@,
        decreases values.len() - i,
    {
        if same_text(values[i].as_str(), value) {
            assert(string_texts(values@)[i as int] == value@);
            return true;
        }
        i += 1;
    }
    false
}

fn collect_books(files: &[StateFile]) -> (collected: (Vec<BookState>, Vec<StateWarning>))
    ensures
        (views_of(collected.0@), views_of(collected.1@)) == book_candidates(views_of(files@)),
{
    let ghost all = views_of(files@);
    let mut books: Vec<BookState> = Vec::new();
    let mut warnings: Vec<StateWarning> = Vec::new();
    let mut i: usize = 0;
    assert(views_of(books@) =~= seq![] && views_of(warnings@) =~= seq![]);
    while i < files.len()
        invariant
            i <= files.len(),
            all == views_of(files@),
            (views_of(books@), views_of(warnings@)) == book_candidates(all.take(i as int)),
        decreases files.len() - i,
    {
        assert(all.take(i + 1).drop_last() =~= all.take(i as int));
        assert(all.take(i + 1).last() == files@[i as int]@);
        let file = &files[i];
        if file.is_json {
            match &file.record {
                Record::Valid(state) => {
                    if state.schema == STATE_SCHEMA && file.book_exists {
                        let ghost before = books@;
                        books.push(state.clone());
                        assert(views_of(books@) =~= views_of(before).push(state@));
                    } else if state.schema > STATE_SCHEMA {
                        let ghost before = warnings@;
                        let warning = StateWarning::new(
                            "state.newer_progress_schema",
                            unsupported_message(file.file.as_str(), state.schema),
                        );
                        let ghost model = warning@;
                        warnings.push(warning);
                        assert(views_of(warnings@) =~= views_of(before).push(model));
                    }
                },
                Record::Invalid(reason) => {
                    let ghost before = warnings@;
                    let warning = StateWarning::new(
                        "state.progress_unreadable",
                        unreadable_message(file.file.as_str(), reason.as_str()),
                    );
                    let ghost model = warning@;
                    warnings.push(warning);
                    assert(views_of(warnings@) =~= views_of(before).push(model));
                },
                Record::Missing => {},
            }
        }
        i += 1;
    }
    assert(all.take(i as int) =~= all);
    (books, warnings)
}

impl StateStore {
    fn distinct(&self, books: &[BookState]) -> (kept: Vec<BookState>)
        ensures
            views_of(kept@) == distinct_books(self@, views_of(books@)).books,
    {
        let ghost all = views_of(books@);
        let mut kept: Vec<BookState> = Vec::new();
        let mut paths: Vec<String> = Vec::new();
        let mut fingerprints: Vec<String> = Vec::new();
        let mut i: usize = 0;
        assert(views_of(kept@) =~= seq![] && string_texts(paths@) =~= seq![] && string_texts(
            fingerprints@,
        ) =~= seq![]);
        while i < books.len()
            invariant
                i <= books.len(),
                all == views_of(books@),
                (DistinctBooks {
                    books: views_of(kept@),
                    paths: string_texts(paths@),
                    fingerprints: string_texts(fingerprints@),
                }) == distinct_books(self@, all.take(i as int)),
            decreases books.len() - i,
        {
            assert(all.take(i + 1).drop_last() =~= all.take(i as int));
            assert(all.take(i + 1).last() == books@[i as int]@);
            let book = &books[i];
            let key = self.path_key(book.path.as_str());
            let ghost key_model = key@;
            if !holds_text(&paths, key.as_str()) {
                let ghost before_paths = paths@;
                paths.push(key);
                assert(string_texts(paths@) =~= string_texts(before_paths).push(key_model));
                if !holds_text(&fingerprints, book.fingerprint.as_str()) {
                    let ghost before = fingerprints@;
                    let ghost before_kept = kept@;
                    fingerprints.push(book.fingerprint.clone());
                    assert(string_texts(fingerprints@) =~= string_texts(before).push(
                        book.fingerprint@,
                    ));
                    kept.push(book.clone());
                    assert(views_of(kept@) =~= views_of(before_kept).push(book@));
                }
            }
            i += 1;
        }
        assert(all.take(i as int) =~= all);
        kept
    }

    /// The books that were read last. The files of a directory are handed in, or why it cannot
    /// be read.
    pub fn recent_books(
        &self,
        limit: usize,
        directory: &str,
        files: &Result<Vec<StateFile>, String>,
    ) -> (recent: RecentBooks)
        ensures
            match files {
                Ok(files) => views_of(recent.books@) == recent_of(
                    listed_books(self@, views_of(files@), limit as int),
                ) && views_of(recent.warnings@) == book_candidates(views_of(files@)).1,
                Err(reason) => recent.books@.len() == 0 && views_of(recent.warnings@) == seq![
                    StateWarningModel {
                        code: "state.recent_unreadable"@,
                        message: unreadable_text(directory@, reason@),
                    },
                ],
            },
    {
        match files {
            Err(reason) => {
                let mut warnings: Vec<StateWarning> = Vec::new();
                let warning = StateWarning::new(
                    "state.recent_unreadable",
                    unreadable_message(directory, reason.as_str()),
                );
                let ghost model = warning@;
                warnings.push(warning);
                assert(views_of(warnings@) =~= seq![model]);
                RecentBooks { books: Vec::new(), warnings }
            },
            Ok(files) => {
                let (candidates, warnings) = collect_books(files);
                let sorted = sort_items(candidates);
                let kept = self.distinct(&sorted);
                let ghost all = first_books(views_of(kept@), limit as int);
                let most: usize = if limit < MAX_RECENT_BOOKS {
                    limit
                } else {
                    MAX_RECENT_BOOKS
                };
                let count: usize = if kept.len() > most {
                    most
                } else {
                    kept.len()
                };
                let mut books: Vec<RecentBook> = Vec::new();
                let mut i: usize = 0;
                assert(views_of(books@) =~= recent_of(all).take(0));
                while i < count
                    invariant
                        i <= count <= kept@.len(),
                        count == all.len(),
                        all == views_of(kept@).take(count as int),
                        views_of(books@) == recent_of(all).take(i as int),
                    decreases count - i,
                {
                    let book = &kept[i];
                    assert(all[i as int] == book@);
                    let ghost before = books@;
                    let item = RecentBook {
                        path: book.path.clone(),
                        position: book.position,
                        updated_unix_ms: book.updated_unix_ms,
                    };
                    let ghost model = item@;
                    books.push(item);
                    assert(views_of(books@) =~= views_of(before).push(model));
                    assert(recent_of(all).take(i + 1) =~= recent_of(all).take(i as int).push(
                        model,
                    ));
                    i += 1;
                }
                assert(recent_of(all).take(i as int) =~= recent_of(all));
                RecentBooks { books, warnings }
            },
        }
    }
}

// ---------------------------------------------------------------------------------------
// Time
// ---------------------------------------------------------------------------------------

/// A time that is after the last one: the current one, or the next one after the last.
pub open spec fn next_time(current: u64, last: u64) -> u64 {
    let after: u64 = if last < u64::MAX {
        (last + 1) as u64
    } else {
        last
    };
    if current > after {
        current
    } else {
        after
    }
}

/// A time that is after the last one, which it becomes.
pub fn monotonic_unix_ms(current: u64, last: &mut u64) -> (next: u64)
    ensures
        next == next_time(current, *old(last)),
        *final(last) == next,
{
    let after: u64 = last.saturating_add(1);
    let next: u64 = if current > after {
        current
    } else {
        after
    };
    *last = next;
    next
}

/// The time of an update: the current one, as far as it can be counted, but after the last.
pub fn next_updated_unix_ms(now: u128, last: &mut u64) -> (next: u128)
    ensures
        next == next_time(
            if now <= u64::MAX {
                now as u64
            } else {
                u64::MAX
            },
            *old(last),
        ),
        *final(last) == next,
{
    let current: u64 = if now <= u64::MAX as u128 {
        now as u64
    } else {
        u64::MAX
    };
    monotonic_unix_ms(current, last) as u128
}

/// Every time is later than the one before it, until there is no later one, and never earlier
/// than the current one.
pub proof fn law_times_increase(current: u64, last: u64)
    ensures
        last < u64::MAX ==> next_time(current, last) > last,
        next_time(current, last) >= current,
        next_time(current, last) >= last,
{
}

// ---------------------------------------------------------------------------------------
// Laws
// ---------------------------------------------------------------------------------------

/// Progress that was kept for a book is found again under its path, whatever became of the
/// book, and no unknown field of the file is lost.
pub proof fn law_progress_is_found(
    store: StoreModel,
    path: Seq<char>,
    fingerprint: Seq<char>,
    later_fingerprint: Seq<char>,
    position: int,
    updated: int,
    previous: RecordModel<BookStateModel>,
    files: BookFilesModel,
)
    requires
        files.progress == RecordModel::Valid(
            progress_to_write(path, fingerprint, position, updated, previous),
        ),
    ensures
        known_progress(store, path, later_fingerprint, files) == (
            position,
            false,
            Seq::<StateWarningModel>::empty(),
        ),
        previous matches RecordModel::Valid(state) ==> state.schema == STATE_SCHEMA
            ==> progress_to_write(path, fingerprint, position, updated, previous).unknown
            == state.unknown,
{
}

/// What is kept of all books: the records of their progress and those of their bookmarks, by
/// the names of their files.
pub struct KeptModel {
    pub progress: Map<Seq<char>, RecordModel<BookStateModel>>,
    pub bookmarks: Map<Seq<char>, RecordModel<BookmarkRecordModel>>,
}

/// The record in a file, if there is one.
pub open spec fn record_in<V>(records: Map<Seq<char>, RecordModel<V>>, name: Seq<char>) -> RecordModel<
    V,
> {
    if records.dom().contains(name) {
        records[name]
    } else {
        RecordModel::Missing
    }
}

/// What is kept once the progress in a book is to be saved, where its file has the given
/// schema: the record of the book is written, unless its schema is a newer one.
pub open spec fn progress_kept(
    kept: KeptModel,
    store: StoreModel,
    path: Seq<char>,
    fingerprint: Seq<char>,
    position: int,
    updated: int,
    schema: RecordModel<u32>,
) -> KeptModel {
    let name = record_name(store, path);
    if newer_than(schema, STATE_SCHEMA) is Some {
        kept
    } else {
        KeptModel {
            progress: kept.progress.insert(
                name,
                RecordModel::Valid(
                    progress_to_write(
                        path,
                        fingerprint,
                        position,
                        updated,
                        record_in(kept.progress, name),
                    ),
                ),
            ),
            bookmarks: kept.bookmarks,
        }
    }
}

/// The files that tell of a book are those that are kept.
pub open spec fn files_are_kept(
    files: BookFilesModel,
    kept: KeptModel,
    store: StoreModel,
    path: Seq<char>,
) -> bool {
    &&& files.progress == record_in(kept.progress, record_name(store, path))
    &&& files.bookmarks == record_in(kept.bookmarks, record_name(store, path))
}

/// There is a record of the progress in a book under its own path.
pub open spec fn has_own_progress(kept: KeptModel, store: StoreModel, path: Seq<char>) -> bool {
    record_in(kept.progress, record_name(store, path)) matches RecordModel::Valid(state)
        && state.schema == STATE_SCHEMA && key_of_path(store, state.path) == key_of_path(
        store,
        path,
    )
}

/// To save the progress in a book changes its own place and nothing else. A file of a newer
/// schema is left as it is, and everything with it. Otherwise the place is found again under
/// the path of the book, whatever its fingerprint is then; another book that has a record of its
/// own is read on where it was, whatever its fingerprint; and every record of bookmarks stays.
/// The files of the two books have different names.
pub proof fn law_progress_is_of_one_book(
    kept: KeptModel,
    store: StoreModel,
    path: Seq<char>,
    fingerprint: Seq<char>,
    position: int,
    updated: int,
    schema: RecordModel<u32>,
    later_fingerprint: Seq<char>,
    files: BookFilesModel,
    other: Seq<char>,
    other_fingerprint: Seq<char>,
    files_before: BookFilesModel,
    files_after: BookFilesModel,
)
    requires
        record_name(store, other) != record_name(store, path),
        has_own_progress(kept, store, other),
        files_are_kept(files_before, kept, store, other),
        ({
            let after = progress_kept(
                kept,
                store,
                path,
                fingerprint,
                position,
                updated,
                schema,
            );
            &&& files_are_kept(files, after, store, path)
            &&& files_are_kept(files_after, after, store, other)
        }),
    ensures
        ({
            let after = progress_kept(
                kept,
                store,
                path,
                fingerprint,
                position,
                updated,
                schema,
            );
            &&& newer_than(schema, STATE_SCHEMA) is Some ==> after == kept
            &&& newer_than(schema, STATE_SCHEMA) is None ==> known_book(
                store,
                path,
                later_fingerprint,
                files,
            ).position == position
            &&& known_book(store, other, other_fingerprint, files_after).position == known_book(
                store,
                other,
                other_fingerprint,
                files_before,
            ).position
            &&& has_own_progress(after, store, other)
            &&& after.bookmarks == kept.bookmarks
            &&& forall|name: Seq<char>|
                name != record_name(store, path) ==> #[trigger] record_in(after.progress, name)
                    == record_in(kept.progress, name)
        }),
{
}

/// A book that was moved is found again by its fingerprint, with the progress that was made
/// last.
pub proof fn law_moved_book_is_found(
    records: Seq<RecordModel<BookStateModel>>,
    k: int,
    fingerprint: Seq<char>,
)
    requires
        0 <= k < records.len(),
        records[k] matches RecordModel::Valid(state) && state.schema == STATE_SCHEMA
            && state.fingerprint == fingerprint,
    ensures
        best_state(records, fingerprint) matches Some(best) && best.fingerprint == fingerprint
            && best.schema == STATE_SCHEMA && best.updated >= records[k]->Valid_0.updated
            && records.contains(RecordModel::Valid(best)),
    decreases records.len(),
{
    let before = records.drop_last();
    if k < before.len() {
        assert(before[k] == records[k]);
        law_moved_book_is_found(before, k, fingerprint);
    }
    lemma_best_state(records, fingerprint);
}

proof fn lemma_best_state(records: Seq<RecordModel<BookStateModel>>, fingerprint: Seq<char>)
    ensures
        best_state(records, fingerprint) matches Some(best) ==> best.fingerprint == fingerprint
            && best.schema == STATE_SCHEMA && records.contains(RecordModel::Valid(best)),
    decreases records.len(),
{
    if records.len() > 0 {
        let before = records.drop_last();
        lemma_best_state(before, fingerprint);
        if let Some(best) = best_state(records, fingerprint) {
            if best_state(before, fingerprint) == Some(best) && before.contains(
                RecordModel::Valid(best),
            ) {
                let i = choose|i: int|
                    0 <= i < before.len() && before[i] == RecordModel::Valid(best);
                assert(records[i] == RecordModel::Valid(best));
            } else {
                assert(records[records.len() - 1] == RecordModel::Valid(best));
            }
        }
    }
}

/// The bookmarks of a book that was moved are found again by its fingerprint, as they were kept
/// last.
pub proof fn law_moved_bookmarks_are_found(
    records: Seq<RecordModel<BookmarkRecordModel>>,
    k: int,
    fingerprint: Seq<char>,
)
    requires
        0 <= k < records.len(),
        records[k] matches RecordModel::Valid(state) && state.schema == BOOKMARK_SCHEMA
            && state.fingerprint == fingerprint,
    ensures
        best_bookmarks(records, fingerprint) matches Some(best) && best.fingerprint == fingerprint
            && best.schema == BOOKMARK_SCHEMA && best.updated >= records[k]->Valid_0.updated
            && records.contains(RecordModel::Valid(best)),
    decreases records.len(),
{
    let before = records.drop_last();
    if k < before.len() {
        assert(before[k] == records[k]);
        law_moved_bookmarks_are_found(before, k, fingerprint);
    }
    lemma_best_bookmarks(records, fingerprint);
}

proof fn lemma_best_bookmarks(
    records: Seq<RecordModel<BookmarkRecordModel>>,
    fingerprint: Seq<char>,
)
    ensures
        best_bookmarks(records, fingerprint) matches Some(best) ==> best.fingerprint == fingerprint
            && best.schema == BOOKMARK_SCHEMA && records.contains(RecordModel::Valid(best)),
    decreases records.len(),
{
    if records.len() > 0 {
        let before = records.drop_last();
        lemma_best_bookmarks(before, fingerprint);
        if let Some(best) = best_bookmarks(records, fingerprint) {
            if best_bookmarks(before, fingerprint) == Some(best) && before.contains(
                RecordModel::Valid(best),
            ) {
                let i = choose|i: int|
                    0 <= i < before.len() && before[i] == RecordModel::Valid(best);
                assert(records[i] == RecordModel::Valid(best));
            } else {
                assert(records[records.len() - 1] == RecordModel::Valid(best));
            }
        }
    }
}

/// A book at a path of which nothing is known has everything that was kept last for the same
/// bytes under any other path.
pub proof fn law_moved_book_is_whole(
    store: StoreModel,
    path: Seq<char>,
    fingerprint: Seq<char>,
    files: BookFilesModel,
    progress: BookStateModel,
    marks: BookmarkRecordModel,
)
    requires
        files.progress is Missing,
        files.bookmarks is Missing,
        best_state(files.all_progress, fingerprint) == Some(progress),
        best_bookmarks(files.all_bookmarks, fingerprint) == Some(marks),
    ensures
        known_book(store, path, fingerprint, files) == (SavedBookModel {
            position: progress.position,
            bookmarks: normalized(plain_bookmarks(marks.bookmarks)),
            matched_by_fingerprint: true,
            warnings: Seq::empty(),
        }),
{
    assert(known_book(store, path, fingerprint, files).warnings =~= Seq::empty());
}

/// Bookmarks that were kept are found again under the path of the book, in order, and no
/// unknown field of the file is lost.
pub proof fn law_bookmarks_are_found(
    store: StoreModel,
    path: Seq<char>,
    fingerprint: Seq<char>,
    bookmarks: Seq<BookmarkModel>,
    updated: int,
    kept: Option<BookmarkRecordModel>,
    files: BookFilesModel,
)
    requires
        files.bookmarks == RecordModel::Valid(
            bookmarks_to_write(path, fingerprint, bookmarks, updated, kept),
        ),
    ensures
        known_bookmarks(store, path, fingerprint, files).0 == normalized(bookmarks),
        !known_bookmarks(store, path, fingerprint, files).1,
        known_bookmarks(store, path, fingerprint, files).2.len() == 0,
        kept matches Some(state) ==> bookmarks_to_write(
            path,
            fingerprint,
            bookmarks,
            updated,
            kept,
        ).unknown == state.unknown,
{
    assert(plain_bookmarks(
        bookmarks_to_write(path, fingerprint, bookmarks, updated, kept).bookmarks,
    ) =~= normalized(bookmarks));
}

/// The file that was read last, the theme and what was typed are found again as they were kept,
/// and no unknown field of their files is lost.
pub proof fn law_settings_are_found(
    path: Seq<char>,
    last: RecordModel<LastOpenedModel>,
    theme: ThemeChoice,
    preferences: RecordModel<PreferencesModel>,
    commands: Seq<Seq<char>>,
    searches: Seq<Seq<char>>,
    history: RecordModel<HistoryRecordModel>,
)
    ensures
        known_last(RecordModel::Valid(last_to_write(path, last))) == Some(path),
        last matches RecordModel::Valid(known) ==> known.schema == STATE_SCHEMA ==> last_to_write(
            path,
            last,
        ).unknown == known.unknown,
        known_theme(RecordModel::Valid(preferences_to_write(theme, preferences))) == theme,
        preferences matches RecordModel::Valid(known) ==> known.schema == PREFERENCES_SCHEMA
            ==> preferences_to_write(theme, preferences).unknown == known.unknown,
        known_history(RecordModel::Valid(history_to_write(commands, searches, history))) == (
            commands,
            searches,
        ),
        history matches RecordModel::Valid(known) ==> known.schema == HISTORY_SCHEMA
            ==> history_to_write(commands, searches, history).unknown == known.unknown,
{
}

/// The books that are listed stand by their times, the latest first; no path and no
/// fingerprint occurs twice; and there are not too many.
pub proof fn law_recent_books(store: StoreModel, files: Seq<StateFileModel>, limit: int)
    requires
        limit >= 0,
    ensures
        listed_books(store, files, limit).len() <= MAX_RECENT_BOOKS,
        listed_books(store, files, limit).len() <= limit,
        forall|i: int, j: int|
            0 <= i < j < listed_books(store, files, limit).len() ==> {
                &&& (#[trigger] listed_books(store, files, limit)[i]).updated >= (
                #[trigger] listed_books(store, files, limit)[j]).updated
                &&& listed_books(store, files, limit)[i].fingerprint != listed_books(
                    store,
                    files,
                    limit,
                )[j].fingerprint
                &&& key_of_path(store, listed_books(store, files, limit)[i].path) != key_of_path(
                    store,
                    listed_books(store, files, limit)[j].path,
                )
            },
{
    let sorted = ordered::<BookState>(book_candidates(files).0);
    assert(is_order::<BookState>());
    law_sorted::<BookState>(book_candidates(files).0);
    lemma_distinct_books(store, sorted);
    let all = distinct_books(store, sorted).books;
    let listed = listed_books(store, files, limit);
    assert forall|i: int, j: int| 0 <= i < j < listed.len() implies {
        &&& (#[trigger] listed[i]).updated >= (#[trigger] listed[j]).updated
        &&& listed[i].fingerprint != listed[j].fingerprint
        &&& key_of_path(store, listed[i].path) != key_of_path(store, listed[j].path)
    } by {
        assert(listed[i] == all[i] && listed[j] == all[j]);
    }
}

proof fn lemma_distinct_books(store: StoreModel, books: Seq<BookStateModel>)
    requires
        is_sorted::<BookState>(books),
    ensures
        forall|i: int, j: int|
            0 <= i < j < distinct_books(store, books).books.len() ==> {
                &&& (#[trigger] distinct_books(store, books).books[i]).updated >= (
                #[trigger] distinct_books(store, books).books[j]).updated
                &&& distinct_books(store, books).books[i].fingerprint != distinct_books(
                    store,
                    books,
                ).books[j].fingerprint
                &&& key_of_path(store, distinct_books(store, books).books[i].path) != key_of_path(
                    store,
                    distinct_books(store, books).books[j].path,
                )
            },
        forall|i: int|
            0 <= i < distinct_books(store, books).books.len() ==> {
                &&& books.contains(#[trigger] distinct_books(store, books).books[i])
                &&& distinct_books(store, books).paths.contains(
                    key_of_path(store, distinct_books(store, books).books[i].path),
                )
                &&& distinct_books(store, books).fingerprints.contains(
                    distinct_books(store, books).books[i].fingerprint,
                )
            },
    decreases books.len(),
{
    if books.len() > 0 {
        let less = books.drop_last();
        assert(is_sorted::<BookState>(less)) by {
            assert forall|i: int, j: int| 0 <= i < j < less.len() implies !BookState::behind(
                #[trigger] less[i],
                #[trigger] less[j],
            ) by {
                assert(!BookState::behind(books[i], books[j]));
            }
        }
        lemma_distinct_books(store, less);
        let before = distinct_books(store, less);
        let after = distinct_books(store, books);
        let book = books.last();
        let key = key_of_path(store, book.path);
        assert forall|i: int| 0 <= i < after.books.len() implies {
            &&& books.contains(#[trigger] after.books[i])
            &&& after.paths.contains(key_of_path(store, after.books[i].path))
            &&& after.fingerprints.contains(after.books[i].fingerprint)
        } by {
            if i < before.books.len() {
                let own = before.books[i];
                assert(after.books[i] == own);
                let k = choose|k: int| 0 <= k < less.len() && less[k] == own;
                assert(books[k] == own);
                let p = choose|p: int|
                    0 <= p < before.paths.len() && before.paths[p] == key_of_path(store, own.path);
                assert(after.paths[p] == key_of_path(store, own.path));
                let f = choose|f: int|
                    0 <= f < before.fingerprints.len() && before.fingerprints[f]
                        == own.fingerprint;
                assert(after.fingerprints[f] == own.fingerprint);
            } else {
                assert(books[books.len() - 1] == book);
                assert(after.paths[after.paths.len() - 1] == key);
                assert(after.fingerprints[after.fingerprints.len() - 1] == book.fingerprint);
            }
        }
        assert forall|i: int, j: int| 0 <= i < j < after.books.len() implies {
            &&& (#[trigger] after.books[i]).updated >= (#[trigger] after.books[j]).updated
            &&& after.books[i].fingerprint != after.books[j].fingerprint
            &&& key_of_path(store, after.books[i].path) != key_of_path(store, after.books[j].path)
        } by {
            let own = before.books[i];
            assert(after.books[i] == own);
            if j < before.books.len() {
                assert(after.books[j] == before.books[j]);
            } else {
                let k = choose|k: int| 0 <= k < less.len() && less[k] == own;
                assert(!BookState::behind(books[k], books[books.len() - 1]));
                assert(before.paths.contains(key_of_path(store, own.path)));
                assert(before.fingerprints.contains(own.fingerprint));
            }
        }
    }
}

} // verus!

//! What is kept between two runs, without the files themselves.
use std::collections::HashMap;

use peep::state::{
    monotonic_unix_ms, next_updated_unix_ms, normalize_bookmarks, schema_of, BookFiles, BookState,
    Bookmark, BookmarkRecord, HistoryRecord, LastOpened, PreferencesRecord, Record, SavedHistory,
    StateError, StateFile, StateStore, StoredBookmark, MAX_RECENT_BOOKS,
};
use peep::theme::ThemeChoice;

fn store() -> StateStore {
    StateStore::at("/state".to_owned(), false)
}

fn bookmark(position: usize, label: Option<&str>, created_unix_ms: u128) -> Bookmark {
    Bookmark { position, label: label.map(str::to_owned), created_unix_ms }
}

fn progress(path: &str, fingerprint: &str, position: usize, updated: u128) -> BookState {
    store()
        .save_progress(
            path,
            fingerprint,
            position,
            updated,
            "progress.json",
            &Record::Missing,
            &Record::Missing,
        )
        .unwrap()
}

fn no_files() -> BookFiles {
    BookFiles {
        progress_file: "progress.json".to_owned(),
        progress: Record::Missing,
        all_progress: Vec::new(),
        bookmark_file: "bookmarks.json".to_owned(),
        bookmarks: Record::Missing,
        all_bookmarks: Vec::new(),
    }
}

fn save(
    previous: Record<BookmarkRecord>,
    schema: Record<u32>,
    bookmarks: Vec<Bookmark>,
) -> Result<BookmarkRecord, StateError> {
    store().save_bookmarks(
        "/books/book.txt",
        "hash",
        bookmarks,
        1,
        "bookmarks.json",
        &schema,
        &previous,
        &[],
    )
}

#[test]
fn update_timestamps_are_strictly_increasing_within_the_same_millisecond() {
    let mut last: u64 = 100;

    assert_eq!(monotonic_unix_ms(100, &mut last), 101);
    assert_eq!(monotonic_unix_ms(100, &mut last), 102);
    assert_eq!(monotonic_unix_ms(200, &mut last), 200);
    assert_eq!(next_updated_unix_ms(u128::MAX, &mut last), u64::MAX as u128);
}

#[test]
fn reads_v1_progress_and_resumes_by_exact_path() {
    let state = BookState {
        schema: 1,
        path: "/books/book.txt".to_owned(),
        fingerprint: "old".to_owned(),
        position: 42,
        updated_unix_ms: 1,
        unknown: String::new(),
    };
    let mut files = no_files();
    files.progress = Record::Valid(state);

    let saved = store().load_book("/books/book.txt", "changed", &files);
    assert_eq!(saved.position, 42);
    assert!(!saved.matched_by_fingerprint);
    assert!(saved.bookmarks.is_empty());
}

#[test]
fn resumes_progress_and_bookmarks_after_a_move() {
    let mut files = no_files();
    files.all_progress.push(Record::Valid(progress("/books/before.txt", "same-hash", 3, 1)));
    let record = store()
        .save_bookmarks(
            "/books/before.txt",
            "same-hash",
            vec![bookmark(2, Some("here"), 1)],
            1,
            "bookmarks.json",
            &Record::Missing,
            &Record::Missing,
            &[],
        )
        .unwrap();
    files.all_bookmarks.push(Record::Valid(record));

    let saved = store().load_book("/books/after.txt", "same-hash", &files);
    assert_eq!(saved.position, 3);
    assert_eq!(saved.bookmarks, [bookmark(2, Some("here"), 1)]);
    assert!(saved.matched_by_fingerprint);
}

#[test]
fn refuses_to_overwrite_unreadable_or_newer_bookmarks() {
    let unreadable =
        save(Record::Invalid("not json".to_owned()), Record::Invalid("not json".to_owned()), vec![]);
    assert!(matches!(unreadable, Err(StateError::UnreadableBookmarks { .. })));

    let newer = save(Record::Invalid("newer".to_owned()), Record::Valid(2), vec![]);
    assert!(matches!(newer, Err(StateError::NewerSchema { .. })));
}

#[test]
fn refuses_to_overwrite_a_newer_progress_schema_even_if_its_shape_changed() {
    let schema = schema_of(Record::Valid(Some(2)));
    let result = store().save_progress(
        "/books/book.txt",
        "hash",
        1,
        1,
        "progress.json",
        &schema,
        &Record::Invalid("missing field".to_owned()),
    );
    assert!(matches!(result, Err(StateError::NewerSchema { found: 2, .. })));
    let written = store().save_progress(
        "/books/book.txt",
        "hash",
        1,
        1,
        "progress.json",
        &schema_of(Record::Invalid("not json".to_owned())),
        &Record::Invalid("not json".to_owned()),
    );
    assert_eq!(written.unwrap().position, 1);
}

#[test]
fn preserves_unknown_bookmark_fields() {
    let previous = BookmarkRecord {
        schema: 1,
        path: "/books/book.txt".to_owned(),
        fingerprint: "hash".to_owned(),
        updated_unix_ms: 1,
        bookmarks: vec![StoredBookmark {
            bookmark: bookmark(1, None, 1),
            unknown: "\"future_bookmark_field\":\"also kept\"".to_owned(),
        }],
        unknown: "\"future_field\":{\"kept\":true}".to_owned(),
    };
    let record =
        save(Record::Valid(previous), Record::Valid(1), vec![bookmark(1, None, 1)]).unwrap();
    assert_eq!(record.unknown, "\"future_field\":{\"kept\":true}");
    assert_eq!(record.bookmarks[0].unknown, "\"future_bookmark_field\":\"also kept\"");
}

fn file(state: BookState, exists: bool) -> StateFile {
    StateFile {
        file: "progress.json".to_owned(),
        is_json: true,
        record: Record::Valid(state),
        book_exists: exists,
    }
}

#[test]
fn recent_books_are_sorted_deduplicated_and_skip_missing_paths() {
    let files = vec![
        file(progress("/books/first.txt", "same", 1, 1), true),
        file(progress("/books/second.txt", "other", 2, 2), true),
        file(progress("/books/moved.txt", "same", 3, 3), true),
        file(progress("/books/missing.txt", "missing", 4, 4), false),
    ];
    let recent = store().recent_books(100, "/state/books", &Ok(files));
    assert_eq!(recent.books.len(), 2);
    assert_eq!(recent.books[0].path, "/books/moved.txt");
    assert_eq!(recent.books[1].path, "/books/second.txt");
}

#[test]
fn recent_books_enforces_its_interface_limit() {
    let files = (0..=MAX_RECENT_BOOKS)
        .map(|number| {
            file(
                progress(
                    &format!("/books/book-{number}.txt"),
                    &format!("hash-{number}"),
                    number,
                    number as u128,
                ),
                true,
            )
        })
        .collect();
    let recent = store().recent_books(usize::MAX, "/state/books", &Ok(files));
    assert_eq!(recent.books.len(), MAX_RECENT_BOOKS);
}

#[test]
fn unreadable_records_are_skipped_with_a_warning() {
    let files = vec![StateFile {
        file: "broken.json".to_owned(),
        is_json: true,
        record: Record::Invalid("not json".to_owned()),
        book_exists: false,
    }];
    let recent = store().recent_books(10, "/state/books", &Ok(files));
    assert!(recent.books.is_empty());
    assert_eq!(recent.warnings.len(), 1);
    let none = store().recent_books(10, "/state/books", &Err("denied".to_owned()));
    assert_eq!(none.warnings[0].code(), "state.recent_unreadable");
}

#[test]
fn remembers_last_opened_path() {
    let record = store()
        .save_last_opened("/books/book.epub", "last.json", &Record::Missing, &Record::Missing)
        .unwrap();
    assert_eq!(store().last_opened(&Record::Valid(record)).as_deref(), Some("/books/book.epub"));
    let newer = LastOpened { schema: 2, path: "/x".to_owned(), unknown: String::new() };
    assert_eq!(store().last_opened(&Record::Valid(newer)), None);
}

#[test]
fn theme_preference_is_independent_and_preserves_unknown_fields() {
    let previous = || PreferencesRecord {
        schema: 1,
        theme: ThemeChoice::Light,
        unknown: "\"future_field\":{\"kept\":true}".to_owned(),
    };
    assert_eq!(store().load_theme(&Record::Valid(previous())), ThemeChoice::Light);
    let written = store()
        .save_theme(
            ThemeChoice::Dark,
            "preferences.json",
            &Record::Valid(1),
            &Record::Valid(previous()),
        )
        .unwrap();
    assert_eq!(written.theme, ThemeChoice::Dark);
    assert_eq!(written.unknown, "\"future_field\":{\"kept\":true}");
}

#[test]
fn refuses_to_overwrite_unreadable_or_newer_theme_preferences() {
    let save = |schema: Record<u32>| {
        store().save_theme(ThemeChoice::Light, "preferences.json", &schema, &Record::Missing)
    };
    assert!(matches!(
        save(Record::Invalid("not json".to_owned())),
        Err(StateError::UnreadableRecord { .. })
    ));
    assert!(matches!(save(Record::Valid(2)), Err(StateError::NewerSchema { found: 2, .. })));
    assert!(save(Record::Missing).is_ok());
}

#[test]
fn history_is_independent_and_preserves_unknown_fields() {
    let previous = || HistoryRecord {
        schema: 1,
        commands: vec!["toc".to_owned()],
        searches: vec!["第一章".to_owned()],
        unknown: "\"future_field\":{\"kept\":true}".to_owned(),
    };
    let mut history = store().load_history(&Record::Valid(previous()));
    assert_eq!(history.commands, ["toc"]);
    assert_eq!(history.searches, ["第一章"]);
    history.commands.push("recent".to_owned());
    let written = store()
        .save_history(&history, "history.json", &Record::Valid(1), &Record::Valid(previous()))
        .unwrap();
    assert_eq!(written.commands, ["toc", "recent"]);
    assert_eq!(written.unknown, "\"future_field\":{\"kept\":true}");
}

#[test]
fn refuses_to_overwrite_unreadable_or_newer_history() {
    let save = |schema: Record<u32>| {
        store().save_history(&SavedHistory::default(), "history.json", &schema, &Record::Missing)
    };
    assert!(matches!(
        save(Record::Invalid("not json".to_owned())),
        Err(StateError::UnreadableRecord { .. })
    ));
    assert!(matches!(save(Record::Valid(2)), Err(StateError::NewerSchema { found: 2, .. })));
}

#[test]
fn separate_books_do_not_overwrite_each_other() {
    let first = store().record_file("/books/first.txt");
    let second = store().record_file("/books/second.txt");
    assert_ne!(first, second);
    let mut files = no_files();
    files.progress = Record::Valid(progress("/books/first.txt", "first-hash", 3, 1));
    assert_eq!(store().load_book("/books/first.txt", "first-hash", &files).position, 3);
    files.progress = Record::Valid(progress("/books/second.txt", "second-hash", 7, 2));
    assert_eq!(store().load_book("/books/second.txt", "second-hash", &files).position, 7);
}

#[test]
fn names_of_records_come_from_the_path() {
    let expected = blake3::hash(b"/books/Book.txt").to_hex().to_string();
    assert!(store().record_file("/books/Book.txt").starts_with(&expected));
    let folding = StateStore::at("/state".to_owned(), true);
    assert_eq!(folding.path_key("/Books/É.TXT"), "/books/é.txt");
    assert_eq!(store().path_key("/Books/É.TXT"), "/Books/É.TXT");
}

#[test]
fn bookmarks_are_normalised_to_one_for_each_position() {
    let normal = normalize_bookmarks(vec![
        bookmark(9, Some("c"), 1),
        bookmark(3, Some("old"), 1),
        bookmark(3, Some("new"), 2),
    ]);
    assert_eq!(normal, [bookmark(3, Some("new"), 2), bookmark(9, Some("c"), 1)]);
}

#[test]
fn unreadable_progress_and_bookmarks_are_told_of() {
    let mut files = no_files();
    files.progress = Record::Invalid("not json".to_owned());
    files.bookmarks = Record::Invalid("not json".to_owned());
    let saved = store().load_book("/books/book.txt", "hash", &files);
    assert_eq!(saved.position, 0);
    assert_eq!(saved.warnings.len(), 2);
    assert!(saved.warnings[0].message().contains("progress.json"));
    assert!(saved.warnings[1].message().contains("bookmarks.json"));
}

#[test]
fn saving_progress_leaves_other_books_and_all_bookmarks() {
    let (first, second) = ("/books/first.txt", "/books/second.txt");
    let store = store();
    let mut kept = HashMap::new();
    kept.insert(store.record_file(first), progress(first, "one", 3, 1));
    kept.insert(store.record_file(second), progress(second, "two", 7, 2));
    kept.insert(store.record_file(first), progress(first, "one", 5, 3));
    let position = |path: &str, fingerprint: &str| {
        let mut files = no_files();
        files.progress = Record::Valid(kept[&store.record_file(path)].clone());
        let saved = store.load_book(path, fingerprint, &files);
        assert!(saved.bookmarks.is_empty());
        saved.position
    };
    assert_eq!(position(first, "one"), 5);
    assert_eq!(position(first, "changed"), 5);
    assert_eq!(position(second, "two"), 7);
    assert_eq!(position(second, "changed"), 7);
}

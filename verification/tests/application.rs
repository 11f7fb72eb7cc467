//! The application with everything outside of it kept in memory.
use std::sync::Arc;

use peep::app::actions::{
    Action, BookmarkChange, Key, KeyCode, LoadOutcome, SearchOutcome, SearchReply,
};
use peep::app::{App, InputMode, OverlayKind, Place, Surroundings};
use peep::command::request_path;
use peep::document::{load_document, DocumentSource, LoadOptions, LoadedDocument};
use peep::file_picker::{list_directory, DirectoryItem, FileEntry};
use peep::search::{analyze, find_next, SearchDirection, SearchKind, SearchQuery};
use peep::state::{
    next_updated_unix_ms, BookFiles, BookState, Bookmark, BookmarkRecord, HistoryRecord,
    LastOpened, PreferencesRecord, Record, RecentBooks, StateError, StateFile, StateStore,
    StoredBookmark,
};
use peep::theme::ThemeChoice;

/// What is kept between two sessions.
struct Kept {
    progress: Vec<(String, BookState)>,
    bookmarks: Vec<(String, BookmarkRecord)>,
    theme: Option<PreferencesRecord>,
    history: Option<HistoryRecord>,
    last_opened: Option<LastOpened>,
    updated: u64,
    refuses: bool,
}

/// An application, with its files.
struct Desk {
    app: App,
    store: StateStore,
    kept: Kept,
    files: Vec<(String, Vec<u8>)>,
    directories: Vec<String>,
    document: Option<Arc<LoadedDocument>>,
    load: Option<LoadOutcome>,
    search: Option<SearchOutcome>,
    clock: u64,
}

fn nothing_kept() -> Kept {
    Kept {
        progress: Vec::new(),
        bookmarks: Vec::new(),
        theme: None,
        history: None,
        last_opened: None,
        updated: 0,
        refuses: false,
    }
}

fn copy_bookmark_record(record: &BookmarkRecord) -> BookmarkRecord {
    BookmarkRecord {
        schema: record.schema,
        path: record.path.clone(),
        fingerprint: record.fingerprint.clone(),
        updated_unix_ms: record.updated_unix_ms,
        bookmarks: record
            .bookmarks
            .iter()
            .map(|stored| StoredBookmark {
                bookmark: stored.bookmark.clone(),
                unknown: stored.unknown.clone(),
            })
            .collect(),
        unknown: record.unknown.clone(),
    }
}

fn extension_of(path: &str) -> Option<String> {
    let name = path.rsplit('/').next().unwrap();
    name.rsplit_once('.').map(|(_, extension)| extension.to_owned())
}

fn stem_of(path: &str) -> Option<String> {
    let name = path.rsplit('/').next().unwrap();
    Some(name.rsplit_once('.').map_or(name, |(stem, _)| stem).to_owned())
}

fn load(path: &str, bytes: &[u8]) -> LoadOutcomeResult {
    let source = DocumentSource::from_path(path.to_owned(), extension_of(path), stem_of(path));
    load_document(&source, path.to_owned(), bytes, LoadOptions::default())
}

type LoadOutcomeResult = Result<LoadedDocument, peep::document::LoadError>;

fn plain(code: KeyCode) -> Key {
    Key { code, control: false, alt: false }
}

fn control(c: char) -> Key {
    Key { code: KeyCode::Char(c), control: true, alt: false }
}

impl Desk {
    fn new() -> Desk {
        Desk::again(nothing_kept())
    }

    /// A new session with what was kept of an earlier one.
    fn again(kept: Kept) -> Desk {
        let store = StateStore::at("/state".to_owned(), false);
        let theme = match &kept.theme {
            Some(record) => store.load_theme(&Record::Valid(PreferencesRecord {
                schema: record.schema,
                theme: record.theme,
                unknown: record.unknown.clone(),
            })),
            None => store.load_theme(&Record::Missing),
        };
        let history = match &kept.history {
            Some(record) => store.load_history(&Record::Valid(HistoryRecord {
                schema: record.schema,
                commands: record.commands.clone(),
                searches: record.searches.clone(),
                unknown: record.unknown.clone(),
            })),
            None => store.load_history(&Record::Missing),
        };
        Desk {
            app: App::new("/books".to_owned(), theme, history, 0),
            store,
            kept,
            files: Vec::new(),
            directories: vec!["/books".to_owned()],
            document: None,
            load: None,
            search: None,
            clock: 0,
        }
    }

    fn with_text(text: &str) -> Desk {
        let mut desk = Desk::new();
        desk.files.push(("/books/book.txt".to_owned(), text.as_bytes().to_vec()));
        let loaded = load("/books/book.txt", text.as_bytes()).unwrap();
        desk.perform(vec![Action::Install(loaded)]);
        desk
    }

    fn around(&self) -> Surroundings {
        let total = self
            .app
            .document()
            .map_or(1, |loaded| loaded.document().total_chars().max(1));
        let percent = |chars: usize| format!("{:.1}", chars as f64 * 100.0 / total as f64);
        Surroundings {
            now_unix_ms: self.clock as u128,
            progress_percent: percent(self.app.progress_chars()),
            bookmark_percents: self.app.bookmark_chars().into_iter().map(percent).collect(),
            recent_places: self
                .app
                .recent_books()
                .iter()
                .map(|book| {
                    let (parent, name) = book.path.rsplit_once('/').unwrap();
                    Place { name: name.to_owned(), parent: parent.to_owned() }
                })
                .collect(),
        }
    }

    fn press(&mut self, key: Key) {
        let around = self.around();
        let actions = self.app.handle_key(key, &around, self.clock);
        self.perform(actions);
    }

    fn type_text(&mut self, text: &str) {
        for c in text.chars() {
            self.press(plain(KeyCode::Char(c)));
        }
    }

    fn execute(&mut self, command: &str) {
        let around = self.around();
        let actions = self.app.execute_command(command, &around);
        self.perform(actions);
    }

    fn items(&self) -> Vec<String> {
        self.app.overlay_items(&self.around())
    }

    fn selected(&self) -> usize {
        self.app.overlay().unwrap().selected
    }

    /// Lets everything that was begun come to its end.
    fn settle(&mut self) {
        while self.load.is_some() || self.search.is_some() {
            let load = self.load.take();
            let search = self.search.take();
            let actions = self.app.poll_tasks(load, search, self.clock);
            self.perform(actions);
        }
    }

    fn resolve(&self, raw: &str) -> String {
        if raw.starts_with('/') {
            raw.to_owned()
        } else if raw.is_empty() {
            "/books".to_owned()
        } else {
            format!("/books/{}", raw.trim_end_matches('/'))
        }
    }

    fn list(&self, directory: &str) -> Result<(String, Vec<FileEntry>), String> {
        if !self.directories.iter().any(|own| own == directory) {
            return Err("no such directory".to_owned());
        }
        let mut items = Vec::new();
        for path in &self.directories {
            if let Some((parent, name)) = path.rsplit_once('/') {
                if parent == directory {
                    items.push(DirectoryItem {
                        path: path.clone(),
                        name: name.to_owned(),
                        extension: None,
                        is_directory: true,
                        is_file: false,
                    });
                }
            }
        }
        for (path, _) in &self.files {
            let (parent, name) = path.rsplit_once('/').unwrap();
            if parent == directory {
                items.push(DirectoryItem {
                    path: path.clone(),
                    name: name.to_owned(),
                    extension: extension_of(path),
                    is_directory: false,
                    is_file: true,
                });
            }
        }
        let parent = directory.rsplit_once('/').map(|(parent, _)| format!("{parent}/"));
        Ok((directory.to_owned(), list_directory(parent, items)))
    }

    fn book_files(&self, path: &str) -> BookFiles {
        let file = self.store.record_file(path);
        let progress = |state: &BookState| Record::Valid(state.clone());
        let own = self.kept.progress.iter().find(|(name, _)| *name == file);
        let marks = self.kept.bookmarks.iter().find(|(name, _)| *name == file);
        BookFiles {
            progress_file: file.clone(),
            progress: own.map_or(Record::Missing, |(_, state)| progress(state)),
            all_progress: self.kept.progress.iter().map(|(_, state)| progress(state)).collect(),
            bookmark_file: file.clone(),
            bookmarks: marks.map_or(Record::Missing, |(_, record)| {
                Record::Valid(copy_bookmark_record(record))
            }),
            all_bookmarks: self
                .kept
                .bookmarks
                .iter()
                .map(|(_, record)| Record::Valid(copy_bookmark_record(record)))
                .collect(),
        }
    }

    fn save_progress(
        &mut self,
        path: &str,
        fingerprint: &str,
        position: usize,
    ) -> Result<(), StateError> {
        if self.kept.refuses {
            return Err(StateError::Serialise("full".to_owned()));
        }
        let files = self.book_files(path);
        let updated = next_updated_unix_ms(self.clock as u128, &mut self.kept.updated);
        let state = self.store.save_progress(
            path,
            fingerprint,
            position,
            updated,
            &files.progress_file,
            &Record::Missing,
            &files.progress,
        )?;
        self.kept.progress.retain(|(name, _)| *name != files.progress_file);
        self.kept.progress.push((files.progress_file, state));
        Ok(())
    }

    fn save_bookmarks(
        &mut self,
        path: &str,
        fingerprint: &str,
        bookmarks: Vec<Bookmark>,
    ) -> Result<(), StateError> {
        if self.kept.refuses {
            return Err(StateError::Serialise("full".to_owned()));
        }
        let files = self.book_files(path);
        let updated = next_updated_unix_ms(self.clock as u128, &mut self.kept.updated);
        let record = self.store.save_bookmarks(
            path,
            fingerprint,
            bookmarks,
            updated,
            &files.bookmark_file,
            &Record::Missing,
            &files.bookmarks,
            &files.all_bookmarks,
        )?;
        self.kept.bookmarks.retain(|(name, _)| *name != files.bookmark_file);
        self.kept.bookmarks.push((files.bookmark_file, record));
        Ok(())
    }

    fn recent(&self) -> RecentBooks {
        let files = self
            .kept
            .progress
            .iter()
            .map(|(name, state)| StateFile {
                file: name.clone(),
                is_json: true,
                record: Record::Valid(state.clone()),
                book_exists: self.files.iter().any(|(path, _)| *path == state.path),
            })
            .collect();
        self.store.recent_books(100, "/state/books", &Ok(files))
    }

    fn perform(&mut self, actions: Vec<Action>) {
        for action in actions {
            let next = self.perform_one(action);
            self.perform(next);
        }
    }

    fn perform_one(&mut self, action: Action) -> Vec<Action> {
        match action {
            Action::SaveProgress { path, fingerprint, position } => {
                let result = self.save_progress(&path, &fingerprint, position);
                self.app.progress_saved(result, self.clock);
            }
            Action::StartLoad(path) => return self.app.begin_load(path),
            Action::Load { generation, path } => {
                let result = match self.files.iter().find(|(own, _)| *own == path) {
                    Some((_, bytes)) => load(&path, bytes),
                    None => Err(peep::document::LoadError::Open {
                        path,
                        source: "no such file".to_owned(),
                    }),
                };
                self.load = Some(LoadOutcome { generation, result });
            }
            Action::Open(request) => {
                let path = match request.below_home {
                    Some(rest) => format!("/home/{rest}"),
                    None => self.resolve(&request.raw),
                };
                let is_directory = self.directories.iter().any(|own| *own == path);
                return self.app.open_path(path, is_directory);
            }
            Action::ReadDirectory(path) => {
                let listing = self.list(&path);
                self.app.show_directory(&path, listing);
            }
            Action::SaveHistory(history) => {
                let result = if self.kept.refuses {
                    Err(StateError::Serialise("full".to_owned()))
                } else {
                    self.store
                        .save_history(&history, "history.json", &Record::Missing, &Record::Missing)
                        .map(|record| self.kept.history = Some(record))
                };
                self.app.history_saved(result);
            }
            Action::SaveTheme(theme) => {
                let result = if self.kept.refuses {
                    Err(StateError::Serialise("full".to_owned()))
                } else {
                    self.store
                        .save_theme(theme, "preferences.json", &Record::Missing, &Record::Missing)
                        .map(|record| self.kept.theme = Some(record))
                };
                self.app.theme_saved(theme, result);
            }
            Action::ListRecent => {
                let recent = self.recent();
                self.app.show_recent(recent);
            }
            Action::SaveBookmarks { path, fingerprint, bookmarks, change } => {
                let result = self.save_bookmarks(&path, &fingerprint, bookmarks.clone());
                self.app.bookmarks_saved(bookmarks, change, result);
            }
            Action::RefreshBookmarks => {
                let around = self.around();
                self.app.refresh_bookmarks(&around);
            }
            Action::Analyze { generation, query, from, direction } => {
                let text = self.document.as_ref().unwrap().document().text();
                let analysis = analyze(text, &query, from, direction, 200);
                self.search = Some(SearchOutcome {
                    generation,
                    reply: SearchReply::Analysis { query, analysis },
                });
            }
            Action::FindNext { generation, query, from, direction } => {
                let text = self.document.as_ref().unwrap().document().text();
                let found = find_next(text, &query, from, direction);
                self.search =
                    Some(SearchOutcome { generation, reply: SearchReply::Step { direction, found } });
            }
            Action::GotoPercent(number) => match number.parse::<f64>() {
                Ok(percent) if (0.0..=100.0).contains(&percent) => {
                    let total = self
                        .app
                        .document()
                        .map_or(0, |loaded| loaded.document().total_chars());
                    let target = (total as f64 * percent / 100.0).round() as usize;
                    self.app.goto_char(target, self.clock);
                }
                Ok(_) => {
                    self.app.show_message("Percentage must be between 0 and 100".to_owned())
                }
                Err(_) => self.app.show_message("Usage: :goto <0%-100%>".to_owned()),
            },
            Action::CompletePath(plan) => {
                let request = request_path(&plan.base);
                let entries = match self.list(&self.resolve(&request.raw)) {
                    Ok((_, entries)) => entries,
                    Err(_) => Vec::new(),
                };
                self.app.paths_listed(&plan, &entries, false, '/');
            }
            Action::Install(loaded) => {
                let loaded = Arc::new(loaded);
                let files = self.book_files(loaded.path());
                let saved = self.store.load_book(loaded.path(), loaded.fingerprint(), &files);
                let last = self
                    .store
                    .save_last_opened(
                        loaded.path(),
                        "last.json",
                        &Record::Missing,
                        &Record::Missing,
                    )
                    .map(|record| self.kept.last_opened = Some(record));
                self.document = Some(loaded.clone());
                self.app.install_document(loaded, saved, last, self.clock);
            }
            Action::FinishPoll(search) => return self.app.finish_poll(search, self.clock),
        }
        Vec::new()
    }
}

fn numbered_chapters(count: usize) -> String {
    (1..=count).map(|number| format!("第{number}章 标题{number}\n正文。\n")).collect()
}

// -----------------------------------------------------------------------------------------
// Typing
// -----------------------------------------------------------------------------------------

#[test]
fn command_completion_completes_commands_and_paths() {
    let mut desk = Desk::new();
    desk.files.push(("/books/alpha.txt".to_owned(), b"text".to_vec()));
    desk.files.push(("/books/beta.md".to_owned(), b"# Markdown".to_vec()));
    desk.files.push(("/books/ignored.pdf".to_owned(), b"pdf".to_vec()));
    desk.directories.push("/books/nested".to_owned());
    desk.files.push(("/books/nested/inside.txt".to_owned(), b"text".to_vec()));

    desk.press(plain(KeyCode::Char(':')));
    desk.type_text("th");
    desk.press(plain(KeyCode::Tab));
    assert_eq!(desk.app.input(), "theme");

    desk.press(plain(KeyCode::Esc));
    desk.press(plain(KeyCode::Char(':')));
    desk.type_text("e a");
    desk.press(plain(KeyCode::Tab));
    assert_eq!(desk.app.input(), "e alpha.txt");

    desk.press(plain(KeyCode::Esc));
    desk.press(plain(KeyCode::Char(':')));
    desk.type_text("e n");
    desk.press(plain(KeyCode::Tab));
    assert_eq!(desk.app.input(), "e nested/");
    desk.press(plain(KeyCode::Tab));
    assert_eq!(desk.app.input(), "e nested/inside.txt");
}

#[test]
fn completion_goes_round_its_candidates() {
    let mut desk = Desk::new();
    desk.press(plain(KeyCode::Char(':')));
    desk.type_text("re");
    let mut seen = Vec::new();
    for _ in 0..5 {
        desk.press(plain(KeyCode::Tab));
        seen.push(desk.app.input().to_owned());
    }
    assert_eq!(seen, ["recent", "re", "regex", "results", "recent"]);
    desk.press(plain(KeyCode::Backspace));
    assert_eq!(desk.app.input(), "recen");
    desk.press(plain(KeyCode::Tab));
    assert_eq!(desk.app.input(), "recent");
}

#[test]
fn quoted_paths_are_completed_behind_their_quote() {
    let mut desk = Desk::new();
    desk.files.push(("/books/a b.txt".to_owned(), b"text".to_vec()));
    desk.press(plain(KeyCode::Char(':')));
    desk.type_text("open \"a");
    desk.press(plain(KeyCode::Tab));
    assert_eq!(desk.app.input(), "open \"a b.txt");
    assert_eq!(desk.app.input_cursor(), desk.app.input().len());
}

#[test]
fn command_input_supports_grapheme_cursor_editing() {
    let mut desk = Desk::new();
    desk.press(plain(KeyCode::Char(':')));
    desk.type_text("ab中文");
    desk.press(plain(KeyCode::Left));
    desk.press(plain(KeyCode::Backspace));
    assert_eq!(desk.app.input(), "ab文");
    desk.press(plain(KeyCode::Home));
    desk.press(plain(KeyCode::Char('前')));
    assert_eq!(desk.app.input(), "前ab文");
    desk.press(plain(KeyCode::End));
    assert_eq!(desk.app.input_cursor(), desk.app.input().len());
}

#[test]
fn deleting_takes_whole_clusters_and_control_u_clears_the_line() {
    let mut desk = Desk::new();
    desk.press(plain(KeyCode::Char(':')));
    desk.type_text("e\u{301}x");
    desk.press(plain(KeyCode::Home));
    desk.press(plain(KeyCode::Delete));
    assert_eq!(desk.app.input(), "x");
    desk.press(plain(KeyCode::Right));
    desk.press(plain(KeyCode::Right));
    assert_eq!(desk.app.input_cursor(), 1);
    desk.press(control('u'));
    assert_eq!(desk.app.input(), "");
    assert_eq!(desk.app.input_cursor(), 0);
}

#[test]
fn colon_focuses_command_input_without_becoming_visible_text() {
    let mut desk = Desk::new();

    desk.press(plain(KeyCode::Char(':')));
    assert_eq!(desk.app.input_mode(), InputMode::Command);
    assert_eq!(desk.app.composer_text(), "");

    desk.press(plain(KeyCode::Char('i')));
    assert_eq!(desk.app.composer_text(), "i");
}

#[test]
fn slash_focuses_search_input_without_becoming_visible_text() {
    let mut desk = Desk::new();

    desk.press(plain(KeyCode::Char('/')));
    assert_eq!(desk.app.input_mode(), InputMode::Search);
    assert_eq!(desk.app.composer_text(), "");
    assert_eq!(desk.app.composer_prompt(), "⌕ ");

    desk.press(plain(KeyCode::Char('q')));
    assert_eq!(desk.app.composer_text(), "q");
    assert_eq!(desk.app.composer_cursor_width(), 1);
}

#[test]
fn the_input_line_shows_what_is_going_on() {
    let mut desk = Desk::new();
    assert_eq!(desk.app.composer_text(), "Ask anything…");
    assert_eq!(desk.app.composer_prompt(), "› ");
    assert_eq!(desk.app.composer_cursor_width(), 0);
    let actions = desk.app.begin_load("/books/book.txt".to_owned());
    assert_eq!(desk.app.composer_text(), "Loading /books/book.txt…");
    desk.perform(actions);
    desk.settle();
    assert_eq!(desk.app.composer_text(), "cannot open /books/book.txt: no such file");
    desk.press(plain(KeyCode::Esc));
    assert_eq!(desk.app.composer_text(), "Ask anything…");
}

#[test]
fn theme_command_applies_and_persists_the_preference() {
    let mut desk = Desk::new();

    desk.execute("theme light");

    assert_eq!(desk.app.theme_choice(), ThemeChoice::Light);
    assert_eq!(desk.kept.theme.as_ref().unwrap().theme, ThemeChoice::Light);
    assert_eq!(desk.app.message(), Some("Theme: light"));

    let next = Desk::again(desk.kept);
    assert_eq!(next.app.theme_choice(), ThemeChoice::Light);
}

#[test]
fn what_cannot_be_saved_is_said() {
    let mut desk = Desk::new();
    desk.kept.refuses = true;
    desk.execute("theme dark");
    assert_eq!(desk.app.theme_choice(), ThemeChoice::Dark);
    assert!(desk.app.message().unwrap().starts_with("Theme changed to dark, but was not saved: "));

    desk.press(plain(KeyCode::Char(':')));
    desk.type_text("nonsense");
    desk.press(plain(KeyCode::Enter));
    let message = desk.app.message().unwrap();
    assert!(message.starts_with("Unknown command: nonsense; history was not saved: "));
}

#[test]
fn command_history_restores_a_cross_session_draft_with_up_and_down() {
    let mut first = Desk::new();
    first.press(plain(KeyCode::Char(':')));
    first.type_text("unknown-command");
    first.press(plain(KeyCode::Enter));

    let mut second = Desk::again(first.kept);
    second.press(plain(KeyCode::Char(':')));
    second.type_text("draft");
    second.press(plain(KeyCode::Up));
    assert_eq!(second.app.composer_text(), "unknown-command");
    second.press(plain(KeyCode::Down));
    assert_eq!(second.app.composer_text(), "draft");
}

#[test]
fn search_history_is_persisted_separately_and_can_be_cleared() {
    let mut first = Desk::with_text("第一章 风起");
    first.press(plain(KeyCode::Char('/')));
    first.type_text("风起");
    first.press(plain(KeyCode::Enter));

    let mut second = Desk::again(first.kept);
    second.press(plain(KeyCode::Char('/')));
    second.press(plain(KeyCode::Up));
    assert_eq!(second.app.composer_text(), "风起");
    second.press(plain(KeyCode::Esc));
    second.execute("history clear searches");
    assert_eq!(second.app.message(), Some("Search history cleared"));

    let mut third = Desk::again(second.kept);
    third.press(plain(KeyCode::Char('/')));
    third.press(plain(KeyCode::Up));
    assert_eq!(third.app.composer_text(), "");
}

#[test]
fn a_command_that_clears_the_history_is_not_remembered() {
    let mut desk = Desk::new();
    desk.press(plain(KeyCode::Char(':')));
    desk.type_text("help");
    desk.press(plain(KeyCode::Enter));
    desk.press(plain(KeyCode::Esc));
    desk.press(plain(KeyCode::Char(':')));
    desk.type_text("history clear");
    desk.press(plain(KeyCode::Enter));
    assert_eq!(desk.app.message(), Some("History cleared"));
    assert!(desk.kept.history.as_ref().unwrap().commands.is_empty());
}

#[test]
fn control_c_quits_everywhere() {
    let mut desk = Desk::new();
    desk.execute("help");
    desk.press(control('c'));
    assert!(desk.app.should_quit());
    let mut other = Desk::new();
    other.press(plain(KeyCode::Char(':')));
    other.press(control('c'));
    assert!(other.app.should_quit());
    let mut third = Desk::new();
    assert!(!third.app.should_quit());
    third.execute("q");
    assert!(third.app.should_quit());
}

#[test]
fn only_control_c_and_the_command_quit_and_nothing_takes_it_back() {
    let mut desk = Desk::with_text("one\ntwo");
    for code in [KeyCode::Esc, KeyCode::Char('c'), KeyCode::Char('q'), KeyCode::Enter] {
        desk.press(plain(code));
        assert!(!desk.app.should_quit());
    }
    desk.press(plain(KeyCode::Char(':')));
    desk.type_text("q");
    desk.press(plain(KeyCode::Esc));
    assert!(!desk.app.should_quit());
    desk.press(plain(KeyCode::Char('/')));
    desk.type_text("q");
    desk.press(plain(KeyCode::Enter));
    assert!(!desk.app.should_quit());
    desk.press(plain(KeyCode::Char(':')));
    desk.type_text("q");
    desk.press(plain(KeyCode::Enter));
    assert!(desk.app.should_quit());
    desk.press(plain(KeyCode::Esc));
    desk.execute("help");
    desk.execute("e book.txt");
    desk.settle();
    assert!(desk.app.should_quit());
}

// -----------------------------------------------------------------------------------------
// Lists
// -----------------------------------------------------------------------------------------

#[test]
fn opening_a_directory_shows_supported_files_and_opens_the_selection() {
    let mut desk = Desk::new();
    desk.directories.push("/books/nested".to_owned());
    desk.files.push(("/books/book.txt".to_owned(), b"text".to_vec()));
    desk.files.push(("/books/notes.markdown".to_owned(), b"# Notes".to_vec()));
    desk.files.push(("/books/ignored.pdf".to_owned(), b"pdf".to_vec()));

    let actions = desk.app.open_path("/books".to_owned(), true);
    desk.perform(actions);
    assert_eq!(desk.app.overlay().map(|overlay| overlay.kind), Some(OverlayKind::Files));
    let items = desk.items();
    assert!(items.contains(&"nested/".to_owned()));
    assert!(items.contains(&"book.txt".to_owned()));
    assert!(items.contains(&"notes.markdown".to_owned()));
    assert!(!items.contains(&"ignored.pdf".to_owned()));

    let selected = items.iter().position(|item| item == "book.txt").unwrap();
    desk.app.set_overlay_layout(items.len(), items.len());
    for _ in 0..selected {
        desk.press(plain(KeyCode::Down));
    }
    desk.press(plain(KeyCode::Enter));
    assert!(desk.app.overlay().is_none());
    assert_eq!(desk.app.loading_path(), Some("/books/book.txt"));
}

#[test]
fn directories_of_the_list_can_be_entered() {
    let mut desk = Desk::new();
    desk.directories.push("/books/nested".to_owned());
    desk.files.push(("/books/nested/inside.txt".to_owned(), b"text".to_vec()));
    desk.execute("e /books");
    assert_eq!(desk.app.overlay_title().as_deref(), Some("Open · /books · 1/2"));
    assert_eq!(desk.items(), ["../", "nested/"]);
    desk.app.set_overlay_layout(2, 2);
    desk.press(plain(KeyCode::End));
    desk.press(plain(KeyCode::Enter));
    assert_eq!(desk.items(), ["../", "inside.txt"]);
    desk.press(plain(KeyCode::Esc));
    assert!(desk.app.overlay().is_none());

    desk.app.show_directory("/gone", Err("no such directory".to_owned()));
    assert_eq!(desk.app.message(), Some("Cannot open directory /gone: no such directory"));
}

#[test]
fn scrolls_non_toc_overlays_with_line_page_and_end_keys() {
    let mut desk = Desk::new();
    desk.app.show_overlay(OverlayKind::Info, 0);
    desk.app.set_overlay_layout(20, 5);

    desk.app.scroll_mouse(3, 0);
    assert_eq!(desk.selected(), 3);
    desk.app.scroll_mouse(-3, 0);
    assert_eq!(desk.selected(), 0);
    desk.press(plain(KeyCode::Char('j')));
    assert_eq!(desk.selected(), 1);
    desk.press(plain(KeyCode::PageDown));
    assert_eq!(desk.selected(), 5);
    desk.press(plain(KeyCode::End));
    assert_eq!(desk.selected(), 15);
    desk.press(plain(KeyCode::Char('k')));
    assert_eq!(desk.selected(), 14);
    desk.press(plain(KeyCode::Home));
    assert_eq!(desk.selected(), 0);
    desk.press(plain(KeyCode::Right));
    assert_eq!(desk.selected(), 4);
    desk.press(plain(KeyCode::Left));
    assert_eq!(desk.selected(), 0);
}

#[test]
fn scrolls_toc_by_line_half_page_page_and_end_keys() {
    let mut desk = Desk::with_text(&numbered_chapters(20));
    assert_eq!(desk.app.document().unwrap().document().toc().len(), 20);

    desk.app.show_overlay(OverlayKind::Toc, 0);
    desk.app.set_overlay_layout(20, 5);
    assert_eq!(desk.app.overlay_title().as_deref(), Some("Table of contents · 1/20"));

    desk.press(plain(KeyCode::PageDown));
    assert_eq!(desk.selected(), 4);
    assert_eq!(desk.app.overlay_title().as_deref(), Some("Table of contents · 5/20"));
    desk.press(control('d'));
    assert_eq!(desk.selected(), 6);
    desk.press(plain(KeyCode::Right));
    assert_eq!(desk.selected(), 10);
    desk.press(plain(KeyCode::End));
    assert_eq!(desk.selected(), 19);
    assert_eq!(desk.app.overlay_title().as_deref(), Some("Table of contents · 20/20"));
    desk.press(plain(KeyCode::PageDown));
    assert_eq!(desk.selected(), 19);
    desk.press(plain(KeyCode::Left));
    assert_eq!(desk.selected(), 15);
    desk.press(control('u'));
    assert_eq!(desk.selected(), 13);
    desk.press(plain(KeyCode::Home));
    assert_eq!(desk.selected(), 0);
    desk.press(plain(KeyCode::PageUp));
    assert_eq!(desk.selected(), 0);
}

#[test]
fn toc_layout_clamps_selection_and_enter_jumps_to_it() {
    let mut desk = Desk::with_text(&numbered_chapters(4));
    let target = desk.app.document().unwrap().document().toc()[2].offset();
    desk.app.show_overlay(OverlayKind::Toc, usize::MAX);

    desk.app.set_overlay_layout(3, 0);
    assert_eq!(desk.selected(), 2);
    desk.press(plain(KeyCode::PageDown));
    assert_eq!(desk.selected(), 2);
    desk.press(plain(KeyCode::Enter));

    assert!(desk.app.overlay().is_none());
    assert_eq!(desk.app.anchor(), target);
}

#[test]
fn toc_filter_keeps_visible_and_original_indices_separate() {
    let mut desk = Desk::with_text(&numbered_chapters(12));
    let target = desk.app.document().unwrap().document().toc()[11].offset();
    desk.execute("toc");

    desk.press(plain(KeyCode::Char('/')));
    desk.type_text("第１２章标题１２");

    assert_eq!(desk.app.input_mode(), InputMode::Filter);
    assert_eq!(desk.app.composer_text(), "第１２章标题１２");
    assert_eq!(desk.items(), ["第12章 标题12"]);
    assert_eq!(
        desk.app.overlay_title().as_deref(),
        Some("Table of contents · 1/1 matches · 12 total")
    );

    desk.press(plain(KeyCode::Enter));
    assert_eq!(desk.app.input_mode(), InputMode::Normal);
    assert!(desk.app.overlay().is_some());
    desk.press(plain(KeyCode::Enter));
    assert!(desk.app.overlay().is_none());
    assert_eq!(desk.app.anchor(), target);
}

#[test]
fn unmatched_filter_stays_open_and_can_be_cleared() {
    let mut desk = Desk::with_text("第一章 风起\n正文。");
    desk.execute("toc");
    desk.press(plain(KeyCode::Char('/')));
    desk.type_text("没有");
    assert_eq!(desk.items(), ["No matching sections"]);

    desk.press(plain(KeyCode::Enter));
    desk.press(plain(KeyCode::Enter));
    assert!(desk.app.overlay().is_some());

    desk.press(plain(KeyCode::Char('/')));
    desk.press(control('u'));
    assert_eq!(desk.items(), ["第一章 风起"]);
}

#[test]
fn help_lists_page_keys_and_toc_controls() {
    let mut desk = Desk::new();
    desk.app.show_overlay(OverlayKind::Help, 0);
    let help = desk.items().join("\n");

    assert!(help.contains("→/←"));
    assert!(help.contains("PgDn/PgUp"));
    assert!(help.contains("Enter/Esc"));
    assert!(help.contains(":mark/:marks"));
    assert!(help.contains(":recent"));
    assert!(help.contains(":exact/:re"));
    assert!(help.contains(":history clear"));
}

#[test]
fn info_tells_of_the_document() {
    let mut desk = Desk::with_text("one\ntwo");
    desk.execute("info");
    assert_eq!(desk.app.overlay_title().as_deref(), Some("Document info"));
    assert_eq!(
        desk.items(),
        [
            "Path: /books/book.txt",
            "Format: TXT",
            "Title: book",
            "Position: 0 / 7 characters (0.0%)"
        ]
    );
    let mut empty = Desk::new();
    empty.execute("info");
    assert_eq!(empty.app.message(), Some("No document is open"));
}

// -----------------------------------------------------------------------------------------
// Reading
// -----------------------------------------------------------------------------------------

#[test]
fn left_and_right_scroll_the_document_only_in_normal_mode() {
    let text: String = (1..=20).map(|number| format!("line {number}\n")).collect();
    let mut desk = Desk::with_text(&text);
    desk.app.visible_lines(40, 4);

    desk.press(plain(KeyCode::Right));
    assert!(desk.app.anchor() > 0);
    desk.press(plain(KeyCode::Left));
    assert_eq!(desk.app.anchor(), 0);

    desk.press(plain(KeyCode::Char(':')));
    desk.press(plain(KeyCode::Right));
    assert_eq!(desk.app.anchor(), 0);
}

#[test]
fn keys_move_by_lines_pages_sections_and_percent() {
    let text = numbered_chapters(12);
    let mut desk = Desk::with_text(&text);
    let toc: Vec<usize> =
        desk.app.document().unwrap().document().toc().iter().map(|entry| entry.offset()).collect();
    assert_eq!(desk.app.visible_lines(40, 4).len(), 4);
    desk.press(plain(KeyCode::Char('j')));
    let line = desk.app.anchor();
    assert_eq!(line, text.find('\n').unwrap() + 1);
    desk.press(plain(KeyCode::Char(']')));
    assert_eq!(desk.app.anchor(), toc[1]);
    desk.press(plain(KeyCode::Char(']')));
    assert_eq!(desk.app.anchor(), toc[2]);
    desk.press(plain(KeyCode::Char('[')));
    assert_eq!(desk.app.anchor(), toc[1]);
    desk.press(control('d'));
    assert_eq!(desk.app.anchor(), toc[2]);
    desk.press(control('u'));
    assert_eq!(desk.app.anchor(), toc[1]);
    desk.press(plain(KeyCode::Char('G')));
    let end = desk.app.anchor();
    desk.press(plain(KeyCode::Char('j')));
    assert_eq!(desk.app.anchor(), end);
    desk.press(plain(KeyCode::Char('g')));
    assert_eq!(desk.app.anchor(), 0);
    desk.execute("goto 100%");
    assert_eq!(desk.app.anchor(), end);
    desk.execute("goto 0");
    assert_eq!(desk.app.anchor(), 0);
    desk.execute("goto 101%");
    assert_eq!(desk.app.message(), Some("Percentage must be between 0 and 100"));
    desk.execute("goto far");
    assert_eq!(desk.app.message(), Some("Usage: :goto <0%-100%>"));
}

#[test]
fn the_progress_is_saved_once_the_reader_rests() {
    let text: String = (1..=20).map(|number| format!("line {number}\n")).collect();
    let mut desk = Desk::with_text(&text);
    desk.app.visible_lines(40, 4);
    desk.clock = 1000;
    desk.press(plain(KeyCode::Char('j')));
    assert!(desk.app.poll_tasks(None, None, 1749).is_empty());
    let actions = desk.app.poll_tasks(None, None, 1750);
    assert_eq!(actions.len(), 1);
    desk.clock = 1750;
    desk.kept.refuses = true;
    desk.perform(actions);
    assert_eq!(desk.app.message(), Some(StateError::Serialise("full".to_owned()).message().as_str()));
    assert!(desk.app.poll_tasks(None, None, 2499).is_empty());
    desk.kept.refuses = false;
    let actions = desk.app.poll_tasks(None, None, 2500);
    desk.perform(actions);
    assert_eq!(desk.kept.progress.len(), 1);
    assert_eq!(desk.kept.progress[0].1.position, 7);
    assert!(desk.app.poll_tasks(None, None, 9999).is_empty());
    assert!(desk.app.shutdown().is_empty());
}

#[test]
fn reading_on_writes_no_bookmarks() {
    let text: String = (1..=20).map(|number| format!("line {number}\n")).collect();
    let mut desk = Desk::with_text(&text);
    desk.app.visible_lines(40, 4);
    desk.execute("mark here");
    let updated = desk.kept.bookmarks[0].1.updated_unix_ms;
    for step in 1..=5 {
        desk.clock = step * 1000;
        desk.press(plain(KeyCode::Char('j')));
        let actions = desk.app.poll_tasks(None, None, step * 1000 + 750);
        assert!(matches!(actions.as_slice(), [Action::SaveProgress { .. }]));
        desk.perform(actions);
    }
    assert_eq!(desk.kept.progress[0].1.position, 35);
    assert_eq!(desk.kept.bookmarks.len(), 1);
    assert_eq!(desk.kept.bookmarks[0].1.updated_unix_ms, updated);
    assert_eq!(desk.app.bookmarks()[0].label.as_deref(), Some("here"));
}

#[test]
fn loads_a_document_in_the_background_and_persists_it() {
    let mut desk = Desk::new();
    desk.files.push(("/books/book.txt".to_owned(), b"hello\nworld".to_vec()));
    let actions = desk.app.start_load("/books/book.txt".to_owned());
    desk.perform(actions);
    assert!(desk.app.document().is_none());
    desk.settle();

    assert_eq!(desk.app.document().unwrap().document().text(), "hello\nworld");
    let fingerprint = desk.app.document().unwrap().fingerprint().to_owned();
    let actions = desk.app.shutdown();
    desk.perform(actions);
    let files = desk.book_files("/books/book.txt");
    assert_eq!(desk.store.load_book("/books/book.txt", &fingerprint, &files).position, 0);
    assert_eq!(desk.kept.last_opened.as_ref().unwrap().path, "/books/book.txt");
}

#[test]
fn only_the_last_load_counts() {
    let mut desk = Desk::new();
    desk.files.push(("/books/one.txt".to_owned(), b"one".to_vec()));
    desk.files.push(("/books/two.txt".to_owned(), b"two".to_vec()));
    desk.execute("e one.txt");
    let stale = desk.load.take();
    desk.execute("e two.txt");
    let actions = desk.app.poll_tasks(stale, None, 0);
    assert!(actions.is_empty());
    assert!(desk.app.document().is_none());
    desk.execute("e two.txt");
    desk.settle();
    assert_eq!(desk.app.document().unwrap().document().text(), "two");
}

#[test]
fn of_two_loads_the_later_one_is_shown_or_its_error() {
    let mut desk = Desk::with_text("before");
    desk.files.push(("/books/one.txt".to_owned(), b"one".to_vec()));
    desk.files.push(("/books/two.txt".to_owned(), b"two".to_vec()));
    desk.execute("e one.txt");
    desk.execute("e two.txt");
    desk.press(plain(KeyCode::Char('j')));
    desk.settle();
    assert_eq!(desk.app.document().unwrap().document().text(), "two");

    let mut other = Desk::with_text("before");
    other.files.push(("/books/one.txt".to_owned(), b"one".to_vec()));
    other.files.push(("/books/bad.txt".to_owned(), b"a\0b".to_vec()));
    other.execute("e one.txt");
    other.execute("e bad.txt");
    other.settle();
    assert_eq!(other.app.document().unwrap().document().text(), "before");
    let error = load("/books/bad.txt", b"a\0b").unwrap_err().message();
    assert_eq!(other.app.composer_text(), error);
}

#[test]
fn a_book_is_read_on_where_it_was_left_even_after_a_move() {
    let text: String = (1..=40).map(|number| format!("line {number}\n")).collect();
    let mut first = Desk::with_text(&text);
    first.app.visible_lines(40, 4);
    first.press(plain(KeyCode::Char('j')));
    first.execute("mark here");
    let anchor = first.app.anchor();
    let actions = first.app.shutdown();
    first.perform(actions);

    let mut second = Desk::again(first.kept);
    second.files.push(("/books/moved.txt".to_owned(), text.as_bytes().to_vec()));
    second.execute("e moved.txt");
    second.settle();
    assert_eq!(second.app.anchor(), anchor);
    assert_eq!(second.app.bookmarks().len(), 1);
    assert_eq!(
        second.app.message(),
        Some("Restored reading state after the file was moved")
    );
}

// -----------------------------------------------------------------------------------------
// Bookmarks
// -----------------------------------------------------------------------------------------

#[test]
fn bookmarks_are_persisted_updated_browsed_and_deleted() {
    let text = "第一章 风起\n正文。\n第二章 云涌\n正文。";
    let mut desk = Desk::with_text(text);
    let path = desk.app.document().unwrap().path().to_owned();
    let fingerprint = desk.app.document().unwrap().fingerprint().to_owned();

    desk.execute("mark 开始");
    assert_eq!(desk.app.bookmarks().len(), 1);
    assert_eq!(desk.app.bookmarks()[0].label.as_deref(), Some("开始"));
    desk.execute("mark 新标签");
    assert_eq!(desk.app.bookmarks().len(), 1);
    assert_eq!(desk.app.bookmarks()[0].label.as_deref(), Some("新标签"));

    let second = text.find("第二章").unwrap();
    desk.app.goto_byte(second, 0);
    desk.execute("mark");
    assert_eq!(desk.app.bookmarks().len(), 2);
    let files = desk.book_files(&path);
    assert_eq!(desk.store.load_book(&path, &fingerprint, &files).bookmarks.len(), 2);

    desk.execute("marks");
    assert_eq!(desk.app.overlay().unwrap().kind, OverlayKind::Bookmarks);
    assert_eq!(desk.app.overlay_title().as_deref(), Some("Bookmarks · 2/2"));
    assert!(desk.items()[1].contains("第二章 云涌"));
    desk.press(plain(KeyCode::Char('x')));
    assert_eq!(desk.app.bookmarks().len(), 1);
    let files = desk.book_files(&path);
    assert_eq!(desk.store.load_book(&path, &fingerprint, &files).bookmarks.len(), 1);

    desk.press(plain(KeyCode::Enter));
    assert!(desk.app.overlay().is_none());
    assert_eq!(desk.app.anchor(), 0);
}

#[test]
fn bookmarks_that_cannot_be_saved_stay_as_they_were() {
    let mut desk = Desk::with_text("one\ntwo\nthree");
    desk.execute("mark first");
    desk.kept.refuses = true;
    desk.execute("mark second");
    assert_eq!(desk.app.bookmarks().len(), 1);
    assert_eq!(desk.app.bookmarks()[0].label.as_deref(), Some("first"));
    desk.execute("marks");
    desk.press(plain(KeyCode::Char('x')));
    assert_eq!(desk.app.bookmarks().len(), 1);
    assert_eq!(desk.items(), ["first · 0.0%"]);
    desk.execute(&format!("mark {}", "x".repeat(121)));
    assert_eq!(desk.app.message(), Some("Bookmark labels cannot exceed 120 characters"));
}

#[test]
fn filtered_bookmark_deletion_uses_the_original_index() {
    let text = "第一章 风起\n正文。\n第二章 云涌\n正文。";
    let mut desk = Desk::with_text(text);
    desk.execute("mark keep");
    desk.app.goto_byte(text.find("第二章").unwrap(), 0);
    desk.execute("mark delete-me");
    desk.execute("marks");

    desk.press(plain(KeyCode::Char('/')));
    desk.type_text("delete-me");
    desk.press(plain(KeyCode::Enter));
    desk.press(plain(KeyCode::Char('x')));

    assert_eq!(desk.app.bookmarks().len(), 1);
    assert_eq!(desk.app.bookmarks()[0].label.as_deref(), Some("keep"));
    assert_eq!(desk.items(), ["No matching bookmarks"]);
}

#[test]
fn empty_bookmarks_overlay_stays_open_on_enter() {
    let mut desk = Desk::with_text("正文。");

    desk.execute("marks");
    assert_eq!(desk.app.overlay().unwrap().kind, OverlayKind::Bookmarks);
    assert_eq!(desk.items(), ["No bookmarks yet; use :mark [label] to add one"]);

    desk.press(plain(KeyCode::Enter));

    assert_eq!(desk.app.overlay().unwrap().kind, OverlayKind::Bookmarks);
}

#[test]
fn opened_bookmarks_stand_in_order_at_starts_of_characters() {
    let mut desk = Desk::new();
    let text = "中文文本";
    let loaded = load("/books/book.txt", text.as_bytes()).unwrap();
    let saved = peep::state::SavedBook {
        position: 7,
        bookmarks: vec![
            Bookmark { position: 99, label: None, created_unix_ms: 1 },
            Bookmark { position: 4, label: Some("b".to_owned()), created_unix_ms: 3 },
            Bookmark { position: 3, label: Some("a".to_owned()), created_unix_ms: 2 },
        ],
        matched_by_fingerprint: false,
        warnings: Vec::new(),
    };
    desk.app.install_document(Arc::new(loaded), saved, Ok(()), 0);
    let places: Vec<(usize, Option<&str>)> = desk
        .app
        .bookmarks()
        .iter()
        .map(|bookmark| (bookmark.position, bookmark.label.as_deref()))
        .collect();
    assert_eq!(places, [(3, Some("a")), (12, None)]);
    assert_eq!(desk.app.bookmark_chars(), [1, 4]);
}

// -----------------------------------------------------------------------------------------
// Recent books
// -----------------------------------------------------------------------------------------

#[test]
fn recent_overlay_opens_the_latest_existing_book() {
    let mut desk = Desk::new();
    desk.files.push(("/books/first.txt".to_owned(), b"first".to_vec()));
    desk.files.push(("/books/second.txt".to_owned(), b"second".to_vec()));
    desk.save_progress("/books/first.txt", "first", 0).unwrap();
    desk.clock = 2;
    desk.save_progress("/books/second.txt", "second", 0).unwrap();

    desk.execute("recent");
    assert_eq!(desk.app.overlay().unwrap().kind, OverlayKind::Recent);
    assert!(desk.items()[0].starts_with("second.txt"));
    assert_eq!(desk.items()[0], "second.txt · /books · just now");
    desk.press(plain(KeyCode::Enter));
    desk.settle();

    assert_eq!(desk.app.document().unwrap().path(), "/books/second.txt");
}

#[test]
fn empty_recent_overlay_stays_open_on_enter() {
    let mut desk = Desk::new();

    desk.execute("recent");
    assert_eq!(desk.app.overlay().unwrap().kind, OverlayKind::Recent);
    assert_eq!(desk.items(), ["No readable recent books"]);

    desk.press(plain(KeyCode::Enter));

    assert_eq!(desk.app.overlay().unwrap().kind, OverlayKind::Recent);
}

// -----------------------------------------------------------------------------------------
// Searching
// -----------------------------------------------------------------------------------------

#[test]
fn loose_search_builds_a_session_and_results_overlay() {
    let text = "第一章：风起\n正文。\n第一章 风起\n结尾。";
    let mut desk = Desk::with_text(text);

    let actions = desk.app.start_search(
        SearchQuery::new(SearchKind::LooseLiteral, "第一章风起"),
        SearchDirection::Forward,
        Some(0),
    );
    desk.perform(actions);
    assert_eq!(desk.app.message(), Some("Searching…"));
    desk.settle();
    assert!(!desk.app.is_searching());

    let session = desk.app.search_session().unwrap();
    assert_eq!(session.total(), 2);
    assert_eq!(session.current().unwrap().ordinal, 0);
    assert_eq!(&text[desk.app.current_match().unwrap()], "第一章：风起");
    assert_eq!(desk.app.message(), Some("Match 1/2"));

    desk.execute("results");
    assert_eq!(desk.app.overlay().unwrap().kind, OverlayKind::SearchResults);
    let items = desk.items();
    assert_eq!(items.len(), 2);
    let emphasis = desk.app.overlay_item_emphasis(0).unwrap();
    assert_eq!(&items[0][emphasis], "第一章：风起");
    assert!(!items[0].contains('‹') && !items[0].contains('›'));
    assert_eq!(desk.app.overlay_title().as_deref(), Some("Search results · 1/2"));
    desk.app.set_overlay_layout(2, 2);
    desk.press(plain(KeyCode::Down));
    desk.press(plain(KeyCode::Enter));
    assert_eq!(&text[desk.app.current_match().unwrap()], "第一章 风起");

    desk.press(plain(KeyCode::Char('n')));
    desk.settle();
    assert_eq!(&text[desk.app.current_match().unwrap()], "第一章：风起");
    assert_eq!(desk.app.message(), Some("Match 1/2"));

    desk.press(plain(KeyCode::Char('N')));
    desk.settle();
    assert_eq!(&text[desk.app.current_match().unwrap()], "第一章 风起");
    assert_eq!(desk.app.message(), Some("Match 2/2"));
}

#[test]
fn exact_and_regex_commands_report_results_and_errors() {
    let text = "CHAPTER 1\nchapter 2";
    let mut desk = Desk::with_text(text);

    desk.execute("exact chapter 2");
    desk.settle();
    assert_eq!(&text[desk.app.current_match().unwrap()], "chapter 2");
    assert_eq!(desk.app.search_session().unwrap().total(), 1);

    desk.execute("re (?i)chapter [12]");
    desk.settle();
    assert_eq!(desk.app.search_session().unwrap().total(), 2);

    desk.execute("re [");
    desk.settle();
    assert!(desk.app.message().unwrap().starts_with("invalid regular expression"));
}

#[test]
fn searches_without_a_document_or_a_match_are_answered() {
    let mut desk = Desk::new();
    desk.execute("exact text");
    assert_eq!(desk.app.message(), Some("No document is open"));
    desk.press(plain(KeyCode::Char('n')));
    assert_eq!(desk.app.message(), Some("No previous search"));
    desk.press(plain(KeyCode::Char('/')));
    desk.press(plain(KeyCode::Enter));
    assert_eq!(desk.app.message(), Some("Search text cannot be empty"));
    desk.execute("results");
    assert_eq!(desk.app.message(), Some("No search results"));

    let mut other = Desk::with_text("text");
    other.execute("exact none");
    other.settle();
    assert_eq!(other.app.message(), Some("No matches"));
    assert_eq!(other.app.current_match(), None);
}

#[test]
fn an_outcome_of_a_search_that_was_given_up_is_dropped() {
    let mut desk = Desk::with_text("one two");
    desk.execute("exact one");
    let stale = desk.search.take();
    desk.execute("exact two");
    let late = desk.search.take();
    let actions = desk.app.poll_tasks(None, stale, 0);
    assert!(actions.is_empty());
    assert_eq!(desk.app.current_match(), None);
    let actions = desk.app.poll_tasks(None, late, 0);
    assert!(actions.is_empty());
    assert!(desk.app.search_session().is_none());
}

#[test]
fn the_change_of_a_bookmark_is_named() {
    let mut desk = Desk::with_text("text");
    desk.app.bookmarks_saved(Vec::new(), BookmarkChange::Deleted, Ok(()));
    assert_eq!(desk.app.message(), Some("Bookmark deleted"));
    desk.app.bookmarks_saved(Vec::new(), BookmarkChange::Saved, Ok(()));
    assert_eq!(desk.app.message(), Some("Bookmark saved"));
}

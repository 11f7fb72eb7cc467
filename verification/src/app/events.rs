//! What comes of the things that are done outside.
use std::sync::Arc;

use vstd::prelude::*;

use super::actions::{
    and_action, load_outcome, no_actions, one_action, search_outcome, Action, ActionModel,
    BookmarkChange, LoadOutcome, LoadOutcomeModel, SearchOutcome, SearchOutcomeModel, SearchReply,
    SearchReplyModel,
};
use super::lists::{bookmark_lines, overlay_shown};
use super::moves::{next_generation, search_analyzed, search_stepped, with_message};
use super::reading::{opened_at, Reading};
use super::{
    stepped, App, AppModel, Completion, CompletionModel, FilePicker, InputMode, OverlayKind,
    OverlayModel, OverlayState, PickerModel, Step, Surroundings, SurroundingsModel, SAVE_DEBOUNCE,
};
use crate::command::{
    complete_path, completed_lines, ends_with_separator, input_ends_with_separator, PathCompletion,
};
use crate::document::load::{LoadedDocument, LoadedModel};
use crate::document::{load_fault_text, warning_views};
use crate::file_picker::{FileEntry, FileModel};
use crate::filter::{all_items, matching_items, FilterModel, FilteredList};
use crate::input::{typed, LineInput};
use crate::order::{ordered, sort_items, views_of};
use crate::state::{
    copy_strings, state_fault_text, Bookmark, BookmarkModel, RecentBooks, RecentModel, SavedBook,
    SavedBookModel, SavedHistory, StateError, StateFault, StateWarningModel,
};
use crate::strings::{decimal, decimal_chars, push_text};
use crate::text::{
    chars_of, floor_boundary, floor_char_boundary, greatest, least, push_all, string_of,
};
use crate::theme::{theme_name, ThemeChoice};
use crate::unicode::string_texts;

verus! {

/// What became of something that was to be written.
pub open spec fn written(result: Result<(), StateError>) -> Result<(), StateFault> {
    match result {
        Ok(_) => Ok(()),
        Err(error) => Err(error@),
    }
}

// ---------------------------------------------------------------------------------------
// Progress
// ---------------------------------------------------------------------------------------

/// The progress is to be saved, where it is not.
pub open spec fn progress_actions(app: AppModel) -> Seq<ActionModel> {
    match app.reading {
        Some(reading) if app.dirty => seq![
            ActionModel::SaveProgress {
                path: reading.loaded.path,
                fingerprint: reading.loaded.fingerprint,
                position: reading.viewport.anchor,
            },
        ],
        _ => Seq::empty(),
    }
}

pub open spec fn progress_written(
    app: AppModel,
    result: Result<(), StateFault>,
    now: u64,
) -> AppModel {
    match result {
        Ok(_) => AppModel { dirty: false, ..app },
        Err(fault) => AppModel {
            message: Some(state_fault_text(fault)),
            last_move: now,
            ..app
        },
    }
}

// ---------------------------------------------------------------------------------------
// Loading
// ---------------------------------------------------------------------------------------

/// A file is to be loaded, once the progress in the last one is saved.
pub open spec fn load_requested(app: AppModel, path: Seq<char>) -> Step {
    Step { app, actions: progress_actions(app).push(ActionModel::StartLoad(path)) }
}

/// A file is being loaded; whatever was going on has no meaning any more.
pub open spec fn load_begun(app: AppModel, path: Seq<char>) -> Step {
    let generation = next_generation(app.load_generation);
    Step {
        app: AppModel {
            load_generation: generation,
            awaits_load: true,
            loading_path: Some(path),
            message: None,
            overlay: None,
            picker: None,
            current_match: None,
            search_generation: next_generation(app.search_generation),
            awaits_search: false,
            session: None,
            ..app
        },
        actions: seq![ActionModel::Load { generation, path }],
    }
}

pub open spec fn path_opened(app: AppModel, path: Seq<char>, is_directory: bool) -> Step {
    if is_directory {
        Step { app, actions: seq![ActionModel::ReadDirectory(path)] }
    } else {
        load_requested(app, path)
    }
}

/// The files of a directory are shown, or why they cannot be.
pub open spec fn directory_shown(
    app: AppModel,
    requested: Seq<char>,
    listing: Result<(Seq<char>, Seq<FileModel>), Seq<char>>,
) -> AppModel {
    match listing {
        Ok((directory, entries)) => AppModel {
            picker: Some(PickerModel { directory, entries }),
            mode: InputMode::Normal,
            overlay: Some(
                OverlayModel {
                    kind: OverlayKind::Files,
                    selected: 0,
                    filter: if entries.len() > 0 {
                        Some(
                            FilterModel {
                                query: Seq::empty(),
                                visible: all_items(entries.len() as int),
                            },
                        )
                    } else {
                        None
                    },
                },
            ),
            list_offset: 0,
            max_position: greatest(entries.len() - 1, 0),
            message: None,
            ..app
        },
        Err(error) => AppModel {
            picker: None,
            overlay: None,
            message: Some("Cannot open directory "@ + requested + ": "@ + error),
            ..app
        },
    }
}

pub open spec fn listing_view(listing: Result<(String, Vec<FileEntry>), String>) -> Result<
    (Seq<char>, Seq<FileModel>),
    Seq<char>,
> {
    match listing {
        Ok((directory, entries)) => Ok((directory@, views_of(entries@))),
        Err(error) => Err(error@),
    }
}

/// The outcomes of the work outside are taken, the loaded file first. An outcome that is not
/// awaited any more, or of work that was given up, changes nothing else.
pub open spec fn polled(
    app: AppModel,
    load: Option<LoadOutcomeModel>,
    search: Option<SearchOutcomeModel>,
    now: u64,
) -> Step {
    match load {
        Some(outcome) if app.awaits_load => {
            let done = AppModel { awaits_load: false, loading_path: None, ..app };
            if outcome.generation == app.load_generation {
                match outcome.result {
                    Ok(loaded) => Step {
                        app: done,
                        actions: seq![
                            ActionModel::Install(loaded),
                            ActionModel::FinishPoll(search),
                        ],
                    },
                    Err(fault) => poll_finished(
                        with_message(done, load_fault_text(fault)),
                        search,
                        now,
                    ),
                }
            } else {
                poll_finished(done, search, now)
            }
        },
        _ => poll_finished(app, search, now),
    }
}

pub open spec fn search_polled(
    app: AppModel,
    search: Option<SearchOutcomeModel>,
    now: u64,
) -> AppModel {
    match search {
        Some(outcome) if app.awaits_search => {
            let done = AppModel { awaits_search: false, ..app };
            if outcome.generation == app.search_generation {
                match outcome.reply {
                    SearchReplyModel::Analysis { query, analysis } => search_analyzed(
                        done,
                        query,
                        analysis,
                        now,
                    ),
                    SearchReplyModel::Step { direction, found } => search_stepped(
                        done,
                        direction,
                        found,
                        now,
                    ),
                }
            } else {
                done
            }
        },
        _ => app,
    }
}

/// The outcome of a search is taken, and the progress is to be saved where it has not changed
/// for a while.
pub open spec fn poll_finished(
    app: AppModel,
    search: Option<SearchOutcomeModel>,
    now: u64,
) -> Step {
    let after = search_polled(app, search, now);
    Step {
        app: after,
        actions: if now >= after.last_move + SAVE_DEBOUNCE {
            progress_actions(after)
        } else {
            Seq::empty()
        },
    }
}

// ---------------------------------------------------------------------------------------
// Installing a document
// ---------------------------------------------------------------------------------------

/// Bookmarks at the starts of characters of a text.
pub open spec fn placed_bookmarks(text: Seq<char>, bookmarks: Seq<BookmarkModel>) -> Seq<
    BookmarkModel,
> {
    Seq::new(
        bookmarks.len(),
        |i: int|
            BookmarkModel {
                position: floor_boundary(text, bookmarks[i].position) as int,
                ..bookmarks[i]
            },
    )
}

/// The first of the bookmarks that follow each other at one position.
pub open spec fn first_of_each(bookmarks: Seq<BookmarkModel>) -> Seq<BookmarkModel>
    decreases bookmarks.len(),
{
    if bookmarks.len() == 0 {
        Seq::empty()
    } else {
        let before = first_of_each(bookmarks.drop_last());
        if before.len() > 0 && before.last().position == bookmarks.last().position {
            before
        } else {
            before.push(bookmarks.last())
        }
    }
}

pub open spec fn fitted_bookmarks(text: Seq<char>, bookmarks: Seq<BookmarkModel>) -> Seq<
    BookmarkModel,
> {
    first_of_each(ordered::<Bookmark>(placed_bookmarks(text, bookmarks)))
}

pub open spec fn plural_ending(count: int) -> Seq<char> {
    if count == 1 {
        Seq::empty()
    } else {
        "s"@
    }
}

pub open spec fn opened_message(
    loaded: LoadedModel,
    saved: SavedBookModel,
    last_opened: Result<(), StateFault>,
) -> Option<Seq<char>> {
    let count = loaded.warnings.len() + saved.warnings.len();
    match last_opened {
        Err(fault) => Some(state_fault_text(fault)),
        Ok(_) => if saved.matched_by_fingerprint {
            Some("Restored reading state after the file was moved"@)
        } else if count == 0 {
            None
        } else {
            Some(
                "Opened with "@ + decimal(count) + " recovery warning"@ + plural_ending(
                    count as int,
                ) + "; use :info for details"@,
            )
        },
    }
}

/// A document is read from where it was left.
pub open spec fn installed(
    app: AppModel,
    loaded: LoadedModel,
    saved: SavedBookModel,
    last_opened: Result<(), StateFault>,
    now: u64,
) -> AppModel {
    AppModel {
        bookmarks: fitted_bookmarks(loaded.document.text, saved.bookmarks),
        warnings: saved.warnings,
        message: opened_message(loaded, saved, last_opened),
        reading: Some(opened_at(loaded, saved.position)),
        current_match: None,
        session: None,
        recent: Seq::empty(),
        dirty: true,
        last_move: now,
        ..app
    }
}

// ---------------------------------------------------------------------------------------
// Histories, theme, recent books and bookmarks
// ---------------------------------------------------------------------------------------

pub open spec fn history_action(app: AppModel) -> ActionModel {
    ActionModel::SaveHistory {
        commands: app.commands.entries,
        searches: app.searches.entries,
    }
}

pub open spec fn history_written(app: AppModel, result: Result<(), StateFault>) -> AppModel {
    match result {
        Ok(_) => app,
        Err(fault) => {
            let suffix = "history was not saved: "@ + state_fault_text(fault);
            with_message(
                app,
                match app.message {
                    Some(message) => message + "; "@ + suffix,
                    None => suffix,
                },
            )
        },
    }
}

pub open spec fn theme_written(
    app: AppModel,
    theme: ThemeChoice,
    result: Result<(), StateFault>,
) -> AppModel {
    with_message(
        app,
        match result {
            Ok(_) => "Theme: "@ + theme_name(theme),
            Err(fault) => "Theme changed to "@ + theme_name(theme) + ", but was not saved: "@
                + state_fault_text(fault),
        },
    )
}

/// The books that were read are shown.
pub open spec fn recent_shown(
    app: AppModel,
    books: Seq<RecentModel>,
    warnings: Seq<StateWarningModel>,
) -> AppModel {
    let listed = AppModel {
        recent: books,
        warnings: app.warnings + warnings,
        message: if warnings.len() > 0 {
            Some(
                "Skipped "@ + decimal(warnings.len()) + " unreadable recent state record"@
                    + plural_ending(warnings.len() as int),
            )
        } else {
            app.message
        },
        ..app
    };
    overlay_shown(listed, OverlayKind::Recent, 0)
}

/// The bookmarks are changed if they could be saved, and only then.
pub open spec fn bookmarks_written(
    app: AppModel,
    bookmarks: Seq<BookmarkModel>,
    change: BookmarkChange,
    result: Result<(), StateFault>,
) -> AppModel {
    match result {
        Ok(_) => AppModel {
            bookmarks,
            message: Some(
                match change {
                    BookmarkChange::Saved => "Bookmark saved"@,
                    BookmarkChange::Deleted => "Bookmark deleted"@,
                },
            ),
            ..app
        },
        Err(fault) => with_message(app, state_fault_text(fault)),
    }
}

/// The list of bookmarks is shown again after it has changed.
pub open spec fn bookmarks_refreshed(app: AppModel, around: SurroundingsModel) -> AppModel {
    match app.overlay {
        Some(overlay) => {
            let filter = match overlay.filter {
                Some(filter) => Some(
                    FilterModel {
                        query: filter.query,
                        visible: matching_items(filter.query, bookmark_lines(app, around)),
                    },
                ),
                None => None,
            };
            let count = match filter {
                Some(filter) => filter.visible.len() as int,
                None => app.bookmarks.len() as int,
            };
            let last = greatest(count - 1, 0);
            AppModel {
                overlay: Some(
                    OverlayModel {
                        kind: overlay.kind,
                        selected: least(overlay.selected, last),
                        filter,
                    },
                ),
                max_position: last,
                ..app
            }
        },
        None => app,
    }
}

// ---------------------------------------------------------------------------------------
// Completion
// ---------------------------------------------------------------------------------------

/// The input is completed to the first of the candidates, and then to the others in turn. A
/// directory that is the only one can be completed further.
pub open spec fn candidates_offered(app: AppModel, candidates: Seq<Seq<char>>) -> AppModel {
    if candidates.len() == 0 {
        app
    } else {
        AppModel {
            input: typed(candidates[0]),
            completion: if candidates.len() == 1 && ends_with_separator(candidates[0]) {
                None
            } else {
                Some(CompletionModel { candidates, next: 1 })
            },
            ..app
        }
    }
}

fn count_text(before: &str, count: u128, after: &str) -> (text: Vec<char>)
    ensures
        text@ == before@ + decimal(count as nat) + after@ + plural_ending(count as int),
{
    let mut text = chars_of(before);
    let digits = decimal_chars(count);
    push_all(&mut text, &digits);
    push_text(&mut text, after);
    if count != 1 {
        push_text(&mut text, "s");
    }
    assert(text@ =~= before@ + decimal(count as nat) + after@ + plural_ending(count as int));
    text
}

fn keep_first_of_each(bookmarks: Vec<Bookmark>) -> (kept: Vec<Bookmark>)
    ensures
        views_of(kept@) == first_of_each(views_of(bookmarks@)),
{
    let ghost all = views_of(bookmarks@);
    let mut kept: Vec<Bookmark> = Vec::new();
    let mut i: usize = 0;
    assert(views_of(kept@) =~= first_of_each(all.take(0)));
    while i < bookmarks.len()
        invariant
            i <= bookmarks@.len(),
            all == views_of(bookmarks@),
            views_of(kept@) == first_of_each(all.take(i as int)),
        decreases bookmarks.len() - i,
    {
        assert(all.take(i + 1).drop_last() =~= all.take(i as int));
        assert(all.take(i + 1).last() == bookmarks@[i as int]@);
        let length: usize = kept.len();
        let repeated: bool = length > 0 && kept[length - 1].position == bookmarks[i].position;
        assert(length > 0 ==> views_of(kept@).last() == kept@[length - 1]@);
        if !repeated {
            let ghost before = kept@;
            let copy = bookmarks[i].clone();
            kept.push(copy);
            assert(views_of(kept@) =~= views_of(before).push(all[i as int]));
        }
        i += 1;
    }
    assert(all.take(i as int) =~= all);
    kept
}

fn fit_bookmarks(text: &str, bookmarks: &[Bookmark]) -> (fitted: Vec<Bookmark>)
    ensures
        views_of(fitted@) == fitted_bookmarks(text@, views_of(bookmarks@)),
{
    let ghost all = placed_bookmarks(text@, views_of(bookmarks@));
    let mut placed: Vec<Bookmark> = Vec::new();
    let mut i: usize = 0;
    while i < bookmarks.len()
        invariant
            i <= bookmarks@.len(),
            all == placed_bookmarks(text@, views_of(bookmarks@)),
            placed@.len() == i,
            forall|j: int| 0 <= j < i ==> (#[trigger] placed@[j])@ == all[j],
        decreases bookmarks.len() - i,
    {
        assert(views_of(bookmarks@)[i as int] == bookmarks@[i as int]@);
        let own = bookmarks[i].clone();
        let position: usize = floor_char_boundary(text, own.position);
        placed.push(
            Bookmark { position, label: own.label, created_unix_ms: own.created_unix_ms },
        );
        i += 1;
    }
    assert(views_of(placed@) =~= all);
    keep_first_of_each(sort_items(placed))
}

impl App {
    pub(super) fn save_progress_actions(&self) -> (actions: Vec<Action>)
        ensures
            views_of(actions@) == progress_actions(self@),
    {
        match &self.reading {
            Some(reading) => if self.dirty_progress {
                let loaded = reading.loaded();
                one_action(
                    Action::SaveProgress {
                        path: loaded.path().to_owned(),
                        fingerprint: loaded.fingerprint().to_owned(),
                        position: reading.anchor(),
                    },
                )
            } else {
                no_actions()
            },
            None => no_actions(),
        }
    }

    /// What is to be done before the end.
    pub fn shutdown(&self) -> (actions: Vec<Action>)
        ensures
            views_of(actions@) == progress_actions(self@),
    {
        self.save_progress_actions()
    }

    /// The progress was saved, or not.
    pub fn progress_saved(&mut self, result: Result<(), StateError>, now: u64)
        ensures
            final(self)@ == progress_written(old(self)@, written(result), now),
    {
        match result {
            Ok(_) => {
                self.dirty_progress = false;
            },
            Err(error) => {
                self.message = Some(error.message());
                self.last_move = now;
            },
        }
    }

    /// Asks for a file to be loaded.
    pub fn start_load(&self, path: String) -> (actions: Vec<Action>)
        ensures
            stepped(self@, actions@) == load_requested(self@, path@),
    {
        let actions = self.save_progress_actions();
        and_action(actions, Action::StartLoad(path))
    }

    /// Begins to load a file.
    pub fn begin_load(&mut self, path: String) -> (actions: Vec<Action>)
        ensures
            stepped(final(self)@, actions@) == load_begun(old(self)@, path@),
    {
        let generation: u64 = self.load_generation.wrapping_add(1);
        let copy = path.clone();
        self.load_generation = generation;
        self.awaits_load = true;
        self.loading_path = Some(copy);
        self.message = None;
        self.overlay = None;
        self.file_picker = None;
        self.current_match = None;
        self.search_generation = self.search_generation.wrapping_add(1);
        self.awaits_search = false;
        self.search_session = None;
        one_action(Action::Load { generation, path })
    }

    /// Opens a file, or shows the files of a directory.
    pub fn open_path(&self, path: String, is_directory: bool) -> (actions: Vec<Action>)
        ensures
            stepped(self@, actions@) == path_opened(self@, path@, is_directory),
    {
        if is_directory {
            one_action(Action::ReadDirectory(path))
        } else {
            self.start_load(path)
        }
    }

    /// Shows the files of a directory.
    pub fn show_directory(
        &mut self,
        requested: &str,
        listing: Result<(String, Vec<FileEntry>), String>,
    )
        ensures
            final(self)@ == directory_shown(old(self)@, requested@, listing_view(listing)),
    {
        match listing {
            Ok((directory, entries)) => {
                let count: usize = entries.len();
                let filter: Option<FilteredList> = if count > 0 {
                    Some(FilteredList::new(count))
                } else {
                    None
                };
                self.file_picker = Some(FilePicker { directory, entries });
                self.input_mode = InputMode::Normal;
                self.overlay = Some(
                    OverlayState { kind: OverlayKind::Files, selected: 0, filter },
                );
                self.overlay_list_offset = 0;
                self.overlay_max_position = count.saturating_sub(1);
                self.message = None;
            },
            Err(error) => {
                let mut message = chars_of("Cannot open directory ");
                push_text(&mut message, requested);
                push_text(&mut message, ": ");
                push_text(&mut message, error.as_str());
                self.file_picker = None;
                self.overlay = None;
                self.message = Some(string_of(&message));
            },
        }
    }

    /// Takes the outcomes of the work outside.
    pub fn poll_tasks(
        &mut self,
        load: Option<LoadOutcome>,
        search: Option<SearchOutcome>,
        now: u64,
    ) -> (actions: Vec<Action>)
        ensures
            stepped(final(self)@, actions@) == polled(
                old(self)@,
                load_outcome(load),
                search_outcome(search),
                now,
            ),
    {
        if let Some(outcome) = load {
            if self.awaits_load {
                self.awaits_load = false;
                self.loading_path = None;
                if outcome.generation == self.load_generation {
                    match outcome.result {
                        Ok(loaded) => {
                            let actions = one_action(Action::Install(loaded));
                            return and_action(actions, Action::FinishPoll(search));
                        },
                        Err(error) => {
                            self.message = Some(error.message());
                        },
                    }
                }
            }
        }
        self.finish_poll(search, now)
    }

    /// Takes the outcome of a search, and saves the progress where that is due.
    pub fn finish_poll(&mut self, search: Option<SearchOutcome>, now: u64) -> (actions: Vec<Action>)
        ensures
            stepped(final(self)@, actions@) == poll_finished(
                old(self)@,
                search_outcome(search),
                now,
            ),
    {
        if let Some(outcome) = search {
            if self.awaits_search {
                self.awaits_search = false;
                if outcome.generation == self.search_generation {
                    match outcome.reply {
                        SearchReply::Analysis { query, analysis } => {
                            self.finish_search_analysis(query, analysis, now);
                        },
                        SearchReply::Step { direction, found } => {
                            self.finish_search_step(direction, found, now);
                        },
                    }
                }
            }
        }
        if now >= self.last_move && now - self.last_move >= SAVE_DEBOUNCE {
            self.save_progress_actions()
        } else {
            no_actions()
        }
    }

    /// Reads a document from where it was left.
    pub fn install_document(
        &mut self,
        loaded: Arc<LoadedDocument>,
        saved: SavedBook,
        last_opened: Result<(), StateError>,
        now: u64,
    )
        ensures
            final(self)@ == installed(
                old(self)@,
                (*loaded)@,
                saved@,
                written(last_opened),
                now,
            ),
    {
        let ghost model = (*loaded)@;
        self.bookmarks = fit_bookmarks(loaded.document().text(), &saved.bookmarks);
        let warnings = loaded.warnings();
        assert(warning_views(warnings@).len() == warnings@.len());
        let count: u128 = warnings.len() as u128 + saved.warnings.len() as u128;
        self.message = match last_opened {
            Err(error) => Some(error.message()),
            Ok(_) => if saved.matched_by_fingerprint {
                Some("Restored reading state after the file was moved".to_owned())
            } else if count == 0 {
                None
            } else {
                let mut message = count_text("Opened with ", count, " recovery warning");
                push_text(&mut message, "; use :info for details");
                Some(string_of(&message))
            },
        };
        self.state_warnings = saved.warnings;
        self.reading = Some(Reading::new(loaded, saved.position));
        self.current_match = None;
        self.search_session = None;
        self.recent_books = Vec::new();
        assert(views_of(self.recent_books@) =~= Seq::empty());
        self.dirty_progress = true;
        self.last_move = now;
    }

    pub(super) fn save_history_action(&self) -> (action: Action)
        ensures
            action@ == history_action(self@),
    {
        Action::SaveHistory(
            SavedHistory {
                commands: copy_strings(self.command_history.entries()),
                searches: copy_strings(self.search_history.entries()),
            },
        )
    }

    /// The histories were saved, or not.
    pub fn history_saved(&mut self, result: Result<(), StateError>)
        ensures
            final(self)@ == history_written(old(self)@, written(result)),
    {
        if let Err(error) = result {
            let mut message: Vec<char> = Vec::new();
            if let Some(before) = &self.message {
                push_text(&mut message, before.as_str());
                push_text(&mut message, "; ");
            }
            let reason = error.message();
            let ghost start = message@;
            push_text(&mut message, "history was not saved: ");
            push_text(&mut message, reason.as_str());
            assert(message@ =~= start + ("history was not saved: "@ + reason@));
            self.message = Some(string_of(&message));
        }
    }

    /// The theme was saved, or not.
    pub fn theme_saved(&mut self, theme: ThemeChoice, result: Result<(), StateError>)
        ensures
            final(self)@ == theme_written(old(self)@, theme, written(result)),
    {
        let mut message: Vec<char> = Vec::new();
        match result {
            Ok(_) => {
                push_text(&mut message, "Theme: ");
                push_text(&mut message, theme.name());
                assert(message@ =~= "Theme: "@ + theme_name(theme));
            },
            Err(error) => {
                let reason = error.message();
                push_text(&mut message, "Theme changed to ");
                push_text(&mut message, theme.name());
                push_text(&mut message, ", but was not saved: ");
                push_text(&mut message, reason.as_str());
                assert(message@ =~= "Theme changed to "@ + theme_name(theme)
                    + ", but was not saved: "@ + reason@);
            },
        }
        self.message = Some(string_of(&message));
    }

    /// Shows the books that were read.
    pub fn show_recent(&mut self, recent: RecentBooks)
        ensures
            final(self)@ == recent_shown(
                old(self)@,
                views_of(recent.books@),
                views_of(recent.warnings@),
            ),
    {
        let mut more = recent.warnings;
        let count: usize = more.len();
        let ghost own = self.state_warnings@;
        let ghost new = more@;
        self.recent_books = recent.books;
        self.state_warnings.append(&mut more);
        assert(views_of(self.state_warnings@) =~= views_of(own) + views_of(new));
        if count > 0 {
            let message = count_text(
                "Skipped ",
                count as u128,
                " unreadable recent state record",
            );
            self.message = Some(string_of(&message));
        }
        self.show_overlay(OverlayKind::Recent, 0);
    }

    /// The bookmarks were saved, or not.
    pub fn bookmarks_saved(
        &mut self,
        bookmarks: Vec<Bookmark>,
        change: BookmarkChange,
        result: Result<(), StateError>,
    )
        ensures
            final(self)@ == bookmarks_written(
                old(self)@,
                views_of(bookmarks@),
                change,
                written(result),
            ),
    {
        match result {
            Ok(_) => {
                self.bookmarks = bookmarks;
                self.message = match change {
                    BookmarkChange::Saved => Some("Bookmark saved".to_owned()),
                    BookmarkChange::Deleted => Some("Bookmark deleted".to_owned()),
                };
            },
            Err(error) => {
                self.message = Some(error.message());
            },
        }
    }

    /// Shows the list of bookmarks again after it has changed.
    pub fn refresh_bookmarks(&mut self, around: &Surroundings)
        ensures
            final(self)@ == bookmarks_refreshed(old(self)@, around@),
    {
        let lines = self.bookmark_items(around);
        if let Some(overlay) = self.overlay.take() {
            let kind = overlay.kind;
            let selected: usize = overlay.selected;
            let (filter, count): (Option<FilteredList>, usize) = match overlay.filter {
                Some(own) => {
                    let mut filter = own;
                    filter.refresh(&lines);
                    let count: usize = filter.len();
                    (Some(filter), count)
                },
                None => (None, self.bookmarks.len()),
            };
            let last: usize = count.saturating_sub(1);
            let selected: usize = if selected < last {
                selected
            } else {
                last
            };
            self.overlay = Some(OverlayState { kind, selected, filter });
            self.overlay_max_position = last;
        }
    }

    pub(super) fn offer_candidates(&mut self, candidates: Vec<String>)
        ensures
            final(self)@ == candidates_offered(old(self)@, string_texts(candidates@)),
    {
        if candidates.len() > 0 {
            let first = candidates[0].clone();
            assert(string_texts(candidates@)[0] == first@);
            let further: bool = candidates.len() == 1 && input_ends_with_separator(
                first.as_str(),
            );
            self.input = LineInput::of(first);
            self.completion = if further {
                None
            } else {
                Some(Completion { candidates, next: 1 })
            };
        }
    }

    /// Completes a path to the entries of its directory.
    pub fn paths_listed(
        &mut self,
        plan: &PathCompletion,
        entries: &[FileEntry],
        fold_case: bool,
        main_separator: char,
    )
        ensures
            final(self)@ == candidates_offered(
                old(self)@,
                completed_lines(plan@, views_of(entries@), fold_case, main_separator),
            ),
    {
        let candidates = complete_path(plan, entries, fold_case, main_separator);
        self.offer_candidates(candidates);
    }
}

} // verus!

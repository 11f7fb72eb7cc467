//! What the reader does with a document.
//!
//! The application is a state machine. A key, or the outcome of something that was done
//! outside, changes its state and gives the actions that are to be done next. Actions are done
//! one after the other; those that come of doing one are done before the rest.
use std::ops::Range;

use vstd::prelude::*;

pub mod actions;
pub mod calls;
pub mod events;
pub mod input_laws;
pub mod key_laws;
pub mod keys;
pub mod labels;
pub mod laws;
pub mod list_laws;
pub mod report_laws;
pub mod lists;
pub mod moves;
pub mod reading;

use self::actions::{hit_view, opt_span, Action, ActionModel};
use self::reading::{
    reading_fitted, reading_text, Reading, ReadingModel,
};
use crate::document::load::LoadedDocument;
use crate::document::opt_text;
use crate::file_picker::{FileEntry, FileModel};
use crate::filter::{FilterModel, FilteredList};
use crate::history::{all_recorded, HistoryModel, InputHistory};
use crate::input::{before_cursor, empty_input, InputModel, LineInput};
use crate::order::views_of;
use crate::search::{SearchHit, SearchKind, SearchQuery};
use crate::state::{
    Bookmark, BookmarkModel, RecentBook, RecentModel, SavedHistory, StateWarning,
    StateWarningModel,
};
use crate::strings::push_text;
use crate::text::{chars_of, greatest, index_at, is_boundary, least, string_of};
use crate::theme::ThemeChoice;
use crate::unicode::{display_width, string_texts, width_of_text};
use crate::viewport::{line_views, row_views, shown, VisualLine};

verus! {

/// How long the progress stays unsaved after a move, in milliseconds.
pub const SAVE_DEBOUNCE: u64 = 750;

/// The longest label of a bookmark, in characters.
pub const BOOKMARK_LABEL_LIMIT: usize = 120;

/// The number of search results that are listed.
pub const SEARCH_PREVIEW_LIMIT: usize = 200;

/// The width of a search result.
pub const SEARCH_CONTEXT_WIDTH: usize = 72;

/// What keys are taken for.
#[derive(Clone, Copy, Debug, PartialEq, Eq, Structural)]
pub enum InputMode {
    Normal,
    Command,
    Search,
    Filter,
}

/// What is shown over the document.
#[derive(Clone, Copy, Debug, PartialEq, Eq, Structural)]
pub enum OverlayKind {
    Help,
    Info,
    Toc,
    Bookmarks,
    Recent,
    SearchResults,
    Files,
}

pub open spec fn kind_is_list(kind: OverlayKind) -> bool {
    kind != OverlayKind::Help && kind != OverlayKind::Info
}

pub open spec fn kind_is_filterable(kind: OverlayKind) -> bool {
    kind_is_list(kind) && kind != OverlayKind::SearchResults
}

impl OverlayKind {
    /// Whether an item can be selected.
    pub fn is_list(self) -> (list: bool)
        ensures
            list == kind_is_list(self),
    {
        match self {
            OverlayKind::Help | OverlayKind::Info => false,
            OverlayKind::Toc
            | OverlayKind::Bookmarks
            | OverlayKind::Recent
            | OverlayKind::SearchResults
            | OverlayKind::Files => true,
        }
    }

    /// Whether the items can be filtered.
    pub(crate) fn is_filterable(self) -> (filterable: bool)
        ensures
            filterable == kind_is_filterable(self),
    {
        match self {
            OverlayKind::Help | OverlayKind::Info | OverlayKind::SearchResults => false,
            OverlayKind::Toc
            | OverlayKind::Bookmarks
            | OverlayKind::Recent
            | OverlayKind::Files => true,
        }
    }
}

/// What is shown over the document, and where in it.
#[derive(Debug)]
pub struct OverlayState {
    pub kind: OverlayKind,
    pub selected: usize,
    pub filter: Option<FilteredList>,
}

#[verifier::ext_equal]
pub struct OverlayModel {
    pub kind: OverlayKind,
    pub selected: int,
    pub filter: Option<FilterModel>,
}

impl View for OverlayState {
    type V = OverlayModel;

    open spec fn view(&self) -> OverlayModel {
        OverlayModel {
            kind: self.kind,
            selected: self.selected as int,
            filter: match self.filter {
                Some(filter) => Some(filter@),
                None => None,
            },
        }
    }
}

impl OverlayState {
    pub fn new(kind: OverlayKind, selected: usize) -> (overlay: Self)
        ensures
            overlay@ == (OverlayModel { kind, selected: selected as int, filter: None }),
    {
        OverlayState { kind, selected, filter: None }
    }
}

/// A search and what was found.
#[derive(Debug)]
pub struct SearchSession {
    query: SearchQuery,
    current: Option<SearchHit>,
    total: usize,
    previews: Vec<SearchHit>,
}

#[verifier::ext_equal]
pub struct SessionModel {
    pub query: (SearchKind, Seq<char>),
    pub current: Option<((int, int), int)>,
    pub total: int,
    pub previews: Seq<((int, int), int)>,
}

impl View for SearchSession {
    type V = SessionModel;

    closed spec fn view(&self) -> SessionModel {
        SessionModel {
            query: self.query@,
            current: hit_view(self.current),
            total: self.total as int,
            previews: views_of(self.previews@),
        }
    }
}

impl SearchSession {
    /// The match that was gone to.
    pub fn current(&self) -> (hit: Option<SearchHit>)
        ensures
            hit_view(hit) == self@.current,
    {
        self::actions::copy_hit(&self.current)
    }

    /// The number of matches.
    pub fn total(&self) -> (total: usize)
        ensures
            total == self@.total,
    {
        self.total
    }

    /// The matches that are listed.
    pub fn previews(&self) -> (hits: &[SearchHit])
        ensures
            views_of(hits@) == self@.previews,
    {
        self.previews.as_slice()
    }
}

/// The files among which one is chosen.
#[derive(Debug)]
pub struct FilePicker {
    directory: String,
    entries: Vec<FileEntry>,
}

#[verifier::ext_equal]
pub struct PickerModel {
    pub directory: Seq<char>,
    pub entries: Seq<FileModel>,
}

impl View for FilePicker {
    type V = PickerModel;

    closed spec fn view(&self) -> PickerModel {
        PickerModel { directory: self.directory@, entries: views_of(self.entries@) }
    }
}

/// The lines to which the input can be completed, and the one that comes next.
#[derive(Debug)]
pub struct Completion {
    candidates: Vec<String>,
    next: usize,
}

#[verifier::ext_equal]
pub struct CompletionModel {
    pub candidates: Seq<Seq<char>>,
    pub next: int,
}

impl View for Completion {
    type V = CompletionModel;

    closed spec fn view(&self) -> CompletionModel {
        CompletionModel { candidates: string_texts(self.candidates@), next: self.next as int }
    }
}

/// The name of a file, and the directory that it is in.
#[derive(Debug, PartialEq, Eq)]
pub struct Place {
    pub name: String,
    pub parent: String,
}

#[verifier::ext_equal]
pub struct PlaceModel {
    pub name: Seq<char>,
    pub parent: Seq<char>,
}

impl View for Place {
    type V = PlaceModel;

    open spec fn view(&self) -> PlaceModel {
        PlaceModel { name: self.name@, parent: self.parent@ }
    }
}

/// What the lists show that is not known here: the time, how far into the document the
/// bookmarks and the reader are, in percent, and where the recent books are.
#[derive(Debug, PartialEq, Eq)]
pub struct Surroundings {
    pub now_unix_ms: u128,
    pub progress_percent: String,
    pub bookmark_percents: Vec<String>,
    pub recent_places: Vec<Place>,
}

#[verifier::ext_equal]
pub struct SurroundingsModel {
    pub now: int,
    pub progress: Seq<char>,
    pub percents: Seq<Seq<char>>,
    pub places: Seq<PlaceModel>,
}

impl View for Surroundings {
    type V = SurroundingsModel;

    open spec fn view(&self) -> SurroundingsModel {
        SurroundingsModel {
            now: self.now_unix_ms as int,
            progress: self.progress_percent@,
            percents: string_texts(self.bookmark_percents@),
            places: views_of(self.recent_places@),
        }
    }
}

/// The state of the application.
#[derive(Debug)]
pub struct App {
    cwd: String,
    reading: Option<Reading>,
    input_mode: InputMode,
    input: LineInput,
    command_history: InputHistory,
    search_history: InputHistory,
    overlay: Option<OverlayState>,
    file_picker: Option<FilePicker>,
    message: Option<String>,
    loading_path: Option<String>,
    current_match: Option<Range<usize>>,
    theme_choice: ThemeChoice,
    search_session: Option<SearchSession>,
    bookmarks: Vec<Bookmark>,
    recent_books: Vec<RecentBook>,
    state_warnings: Vec<StateWarning>,
    awaits_load: bool,
    load_generation: u64,
    awaits_search: bool,
    search_generation: u64,
    viewport_height: usize,
    overlay_max_position: usize,
    overlay_page_rows: usize,
    overlay_list_offset: usize,
    dirty_progress: bool,
    last_move: u64,
    should_quit: bool,
    completion: Option<Completion>,
}

/// The state of the application, as a value of the mathematical model.
#[verifier::ext_equal]
pub struct AppModel {
    pub cwd: Seq<char>,
    pub reading: Option<ReadingModel>,
    pub mode: InputMode,
    pub input: InputModel,
    pub commands: HistoryModel,
    pub searches: HistoryModel,
    pub overlay: Option<OverlayModel>,
    pub picker: Option<PickerModel>,
    pub message: Option<Seq<char>>,
    pub loading_path: Option<Seq<char>>,
    pub current_match: Option<(int, int)>,
    pub theme: ThemeChoice,
    pub session: Option<SessionModel>,
    pub bookmarks: Seq<BookmarkModel>,
    pub recent: Seq<RecentModel>,
    pub warnings: Seq<StateWarningModel>,
    pub awaits_load: bool,
    pub load_generation: u64,
    pub awaits_search: bool,
    pub search_generation: u64,
    pub viewport_height: int,
    pub max_position: int,
    pub page_rows: int,
    pub list_offset: int,
    pub dirty: bool,
    pub last_move: u64,
    pub quit: bool,
    pub completion: Option<CompletionModel>,
}

pub open spec fn opt_view<T: View>(value: Option<T>) -> Option<T::V> {
    match value {
        Some(value) => Some(value@),
        None => None,
    }
}

impl View for App {
    type V = AppModel;

    closed spec fn view(&self) -> AppModel {
        AppModel {
            cwd: self.cwd@,
            reading: opt_view(self.reading),
            mode: self.input_mode,
            input: self.input@,
            commands: self.command_history@,
            searches: self.search_history@,
            overlay: opt_view(self.overlay),
            picker: opt_view(self.file_picker),
            message: opt_text(self.message),
            loading_path: opt_text(self.loading_path),
            current_match: opt_span(self.current_match),
            theme: self.theme_choice,
            session: opt_view(self.search_session),
            bookmarks: views_of(self.bookmarks@),
            recent: views_of(self.recent_books@),
            warnings: views_of(self.state_warnings@),
            awaits_load: self.awaits_load,
            load_generation: self.load_generation,
            awaits_search: self.awaits_search,
            search_generation: self.search_generation,
            viewport_height: self.viewport_height as int,
            max_position: self.overlay_max_position as int,
            page_rows: self.overlay_page_rows as int,
            list_offset: self.overlay_list_offset as int,
            dirty: self.dirty_progress,
            last_move: self.last_move,
            quit: self.should_quit,
            completion: opt_view(self.completion),
        }
    }
}

/// A state and the actions that are to be done next.
#[verifier::ext_equal]
pub struct Step {
    pub app: AppModel,
    pub actions: Seq<ActionModel>,
}

pub open spec fn stepped(app: AppModel, actions: Seq<Action>) -> Step {
    Step { app, actions: views_of(actions) }
}

/// A state after which nothing is to be done.
pub open spec fn quiet(app: AppModel) -> Step {
    Step { app, actions: Seq::empty() }
}

pub open spec fn first_state(
    cwd: Seq<char>,
    theme: ThemeChoice,
    commands: Seq<Seq<char>>,
    searches: Seq<Seq<char>>,
    now: u64,
) -> AppModel {
    AppModel {
        cwd,
        reading: None,
        mode: InputMode::Normal,
        input: empty_input(),
        commands: all_recorded(commands),
        searches: all_recorded(searches),
        overlay: None,
        picker: None,
        message: None,
        loading_path: None,
        current_match: None,
        theme,
        session: None,
        bookmarks: Seq::empty(),
        recent: Seq::empty(),
        warnings: Seq::empty(),
        awaits_load: false,
        load_generation: 0,
        awaits_search: false,
        search_generation: 0,
        viewport_height: 1,
        max_position: 0,
        page_rows: 1,
        list_offset: 0,
        dirty: false,
        last_move: now,
        quit: false,
        completion: None,
    }
}

/// The text before the input.
pub open spec fn prompt(app: AppModel) -> Seq<char> {
    match app.mode {
        InputMode::Search | InputMode::Filter => "⌕ "@,
        InputMode::Normal | InputMode::Command => "› "@,
    }
}

/// The query of the filter, if there is one.
pub open spec fn filter_query(app: AppModel) -> Seq<char> {
    match app.overlay {
        Some(overlay) => match overlay.filter {
            Some(filter) => filter.query,
            None => Seq::empty(),
        },
        None => Seq::empty(),
    }
}

/// The text of the input line.
pub open spec fn composed(app: AppModel) -> Seq<char> {
    match app.mode {
        InputMode::Command | InputMode::Search => app.input.text,
        InputMode::Filter => filter_query(app),
        InputMode::Normal => match app.loading_path {
            Some(path) => "Loading "@ + path + "…"@,
            None => match app.message {
                Some(message) => message,
                None => "Ask anything…"@,
            },
        },
    }
}

/// The number of columns before the cursor of the input line.
pub open spec fn composer_columns(app: AppModel) -> usize {
    match app.mode {
        InputMode::Command | InputMode::Search => display_width(before_cursor(app.input)),
        InputMode::Filter => match app.overlay {
            Some(overlay) => match overlay.filter {
                Some(filter) => display_width(filter.query),
                None => 0,
            },
            None => 0,
        },
        InputMode::Normal => 0,
    }
}

/// The overlay on a screen with the given number of rows, where it has so many rows itself.
pub open spec fn laid_out(app: AppModel, content_rows: int, viewport_rows: int) -> AppModel {
    let page_rows = greatest(viewport_rows, 1);
    match app.overlay {
        Some(overlay) => {
            let hidden = greatest(content_rows - viewport_rows, 0);
            let list = kind_is_list(overlay.kind);
            let max_position = if list {
                greatest(content_rows - 1, 0)
            } else {
                hidden
            };
            AppModel {
                page_rows,
                max_position,
                overlay: Some(
                    OverlayModel { selected: least(overlay.selected, max_position), ..overlay },
                ),
                list_offset: if list {
                    least(app.list_offset, hidden)
                } else {
                    0
                },
                ..app
            }
        },
        None => AppModel { page_rows, max_position: 0, list_offset: 0, ..app },
    }
}

/// The document on a screen of the given size.
pub open spec fn on_screen(app: AppModel, width: int, height: int) -> AppModel {
    AppModel {
        viewport_height: greatest(height, 1),
        reading: match app.reading {
            Some(reading) => Some(reading_fitted(reading, width, height)),
            None => None,
        },
        ..app
    }
}

impl App {
    /// An application without a document.
    pub fn new(cwd: String, theme: ThemeChoice, history: SavedHistory, now: u64) -> (app: Self)
        ensures
            app@ == first_state(
                cwd@,
                theme,
                string_texts(history.commands@),
                string_texts(history.searches@),
                now,
            ),
    {
        let app = App {
            cwd,
            reading: None,
            input_mode: InputMode::Normal,
            input: LineInput::new(),
            command_history: InputHistory::new(history.commands),
            search_history: InputHistory::new(history.searches),
            overlay: None,
            file_picker: None,
            message: None,
            loading_path: None,
            current_match: None,
            theme_choice: theme,
            search_session: None,
            bookmarks: Vec::new(),
            recent_books: Vec::new(),
            state_warnings: Vec::new(),
            awaits_load: false,
            load_generation: 0,
            awaits_search: false,
            search_generation: 0,
            viewport_height: 1,
            overlay_max_position: 0,
            overlay_page_rows: 1,
            overlay_list_offset: 0,
            dirty_progress: false,
            last_move: now,
            should_quit: false,
            completion: None,
        };
        app
    }

    pub fn should_quit(&self) -> (quit: bool)
        ensures
            quit == self@.quit,
    {
        self.should_quit
    }

    pub fn document(&self) -> (document: Option<&LoadedDocument>)
        ensures
            match document {
                Some(loaded) => self@.reading matches Some(reading) && loaded@ == reading.loaded,
                None => self@.reading is None,
            },
    {
        match &self.reading {
            Some(reading) => Some(reading.loaded()),
            None => None,
        }
    }

    pub fn current_match(&self) -> (range: Option<Range<usize>>)
        ensures
            opt_span(range) == self@.current_match,
    {
        match &self.current_match {
            Some(range) => Some(Range { start: range.start, end: range.end }),
            None => None,
        }
    }

    pub fn input_mode(&self) -> (mode: InputMode)
        ensures
            mode == self@.mode,
    {
        self.input_mode
    }

    pub fn input(&self) -> (input: &str)
        ensures
            input@ == self@.input.text,
    {
        self.input.text()
    }

    pub fn input_cursor(&self) -> (cursor: usize)
        ensures
            cursor == self@.input.cursor,
            is_boundary(self@.input.text, cursor as int),
    {
        self.input.cursor()
    }

    pub fn theme_choice(&self) -> (theme: ThemeChoice)
        ensures
            theme == self@.theme,
    {
        self.theme_choice
    }

    pub fn override_theme(&mut self, theme: ThemeChoice)
        ensures
            final(self)@ == (AppModel { theme, ..old(self)@ }),
    {
        self.theme_choice = theme;
    }

    pub fn overlay(&self) -> (overlay: Option<&OverlayState>)
        ensures
            match overlay {
                Some(overlay) => self@.overlay == Some(overlay@) && overlay.kind == overlay@.kind
                    && overlay.selected == overlay@.selected,
                None => self@.overlay is None,
            },
    {
        match &self.overlay {
            Some(overlay) => Some(overlay),
            None => None,
        }
    }

    /// The message that is shown.
    pub fn message(&self) -> (message: Option<&str>)
        ensures
            crate::document::opt_str(message) == self@.message,
    {
        crate::document::as_str(&self.message)
    }

    /// Shows a message.
    pub fn show_message(&mut self, message: String)
        ensures
            final(self)@ == (AppModel { message: Some(message@), ..old(self)@ }),
    {
        self.message = Some(message);
    }

    /// The file that is being loaded.
    pub fn loading_path(&self) -> (path: Option<&str>)
        ensures
            crate::document::opt_str(path) == self@.loading_path,
    {
        crate::document::as_str(&self.loading_path)
    }

    /// Whether the outcome of a search is awaited.
    pub fn is_searching(&self) -> (searching: bool)
        ensures
            searching == self@.awaits_search,
    {
        self.awaits_search
    }

    /// The last search.
    pub fn search_session(&self) -> (session: Option<&SearchSession>)
        ensures
            match session {
                Some(session) => self@.session == Some(session@),
                None => self@.session is None,
            },
    {
        match &self.search_session {
            Some(session) => Some(session),
            None => None,
        }
    }

    pub fn bookmarks(&self) -> (bookmarks: &[Bookmark])
        ensures
            views_of(bookmarks@) == self@.bookmarks,
    {
        self.bookmarks.as_slice()
    }

    pub fn recent_books(&self) -> (books: &[RecentBook])
        ensures
            views_of(books@) == self@.recent,
    {
        self.recent_books.as_slice()
    }

    /// The first row of a list that is on the screen.
    pub fn overlay_list_offset(&self) -> (offset: usize)
        ensures
            offset == self@.list_offset,
    {
        self.overlay_list_offset
    }

    pub fn set_overlay_list_offset(&mut self, offset: usize)
        ensures
            final(self)@ == (AppModel { list_offset: offset as int, ..old(self)@ }),
    {
        self.overlay_list_offset = offset;
    }

    /// Takes the size of the overlay into account.
    pub fn set_overlay_layout(&mut self, content_rows: usize, viewport_rows: usize)
        ensures
            final(self)@ == laid_out(old(self)@, content_rows as int, viewport_rows as int),
    {
        self.overlay_page_rows = if viewport_rows >= 1 {
            viewport_rows
        } else {
            1
        };
        let hidden: usize = content_rows.saturating_sub(viewport_rows);
        match self.overlay.take() {
            Some(overlay) => {
                let list: bool = overlay.kind.is_list();
                let max_position: usize = if list {
                    content_rows.saturating_sub(1)
                } else {
                    hidden
                };
                let selected: usize = if overlay.selected < max_position {
                    overlay.selected
                } else {
                    max_position
                };
                self.overlay_max_position = max_position;
                self.overlay = Some(
                    OverlayState { kind: overlay.kind, selected, filter: overlay.filter },
                );
                self.overlay_list_offset = if !list {
                    0
                } else if self.overlay_list_offset < hidden {
                    self.overlay_list_offset
                } else {
                    hidden
                };
            },
            None => {
                self.overlay_max_position = 0;
                self.overlay_list_offset = 0;
            },
        }
    }

    pub fn cwd(&self) -> (cwd: &str)
        ensures
            cwd@ == self@.cwd,
    {
        self.cwd.as_str()
    }

    /// The rows of the document on a screen of the given size.
    pub fn visible_lines(&mut self, width: usize, height: usize) -> (lines: Vec<VisualLine>)
        ensures
            final(self)@ == on_screen(old(self)@, width as int, height as int),
            match final(self)@.reading {
                Some(reading) if height > 0 => line_views(lines@) == row_views(
                    reading_text(reading),
                    shown(reading_text(reading), reading.viewport),
                ),
                _ => lines@.len() == 0,
            },
    {
        self.viewport_height = if height >= 1 {
            height
        } else {
            1
        };
        match self.reading.take() {
            Some(reading) => {
                let (fitted, lines) = reading.fitted(width, height);
                self.reading = Some(fitted);
                lines
            },
            None => Vec::new(),
        }
    }

    /// The number of characters before the first row.
    pub fn progress_chars(&self) -> (count: usize)
        ensures
            count == (match self@.reading {
                Some(reading) => index_at(reading_text(reading), reading.viewport.anchor),
                None => 0,
            }),
    {
        match &self.reading {
            Some(reading) => reading.progress_chars(),
            None => 0,
        }
    }

    /// The text of the input line.
    pub fn composer_text(&self) -> (text: String)
        ensures
            text@ == composed(self@),
    {
        match self.input_mode {
            InputMode::Command | InputMode::Search => self.input.text().to_owned(),
            InputMode::Filter => self.filter_query(),
            InputMode::Normal => match &self.loading_path {
                Some(path) => {
                    let mut text = chars_of("Loading ");
                    push_text(&mut text, path.as_str());
                    push_text(&mut text, "…");
                    string_of(&text)
                },
                None => match &self.message {
                    Some(message) => message.clone(),
                    None => "Ask anything…".to_owned(),
                },
            },
        }
    }

    fn filter_query(&self) -> (query: String)
        ensures
            query@ == filter_query(self@),
    {
        match &self.overlay {
            Some(overlay) => match &overlay.filter {
                Some(filter) => filter.query().to_owned(),
                None => empty_text(),
            },
            None => empty_text(),
        }
    }

    /// The text before the input.
    pub fn composer_prompt(&self) -> (text: &'static str)
        ensures
            text@ == prompt(self@),
    {
        match self.input_mode {
            InputMode::Search | InputMode::Filter => "⌕ ",
            InputMode::Normal | InputMode::Command => "› ",
        }
    }

    /// The number of columns before the cursor of the input line.
    pub fn composer_cursor_width(&self) -> (width: usize)
        ensures
            width == composer_columns(self@),
    {
        match self.input_mode {
            InputMode::Command | InputMode::Search => self.input.cursor_width(),
            InputMode::Filter => match &self.overlay {
                Some(overlay) => match &overlay.filter {
                    Some(filter) => width_of_text(filter.query()),
                    None => 0,
                },
                None => 0,
            },
            InputMode::Normal => 0,
        }
    }
}

pub(crate) fn empty_text() -> (text: String)
    ensures
        text@ == Seq::<char>::empty(),
{
    let text = String::new();
    assert(text@ =~= Seq::<char>::empty());
    text
}

/// An item of a list never stays selected beyond its end.
pub proof fn law_selection_is_in_the_list(app: AppModel, content_rows: int, viewport_rows: int)
    requires
        app.overlay is Some,
        content_rows >= 0,
        viewport_rows >= 0,
    ensures
        laid_out(app, content_rows, viewport_rows).overlay matches Some(overlay) && overlay.selected
            <= laid_out(app, content_rows, viewport_rows).max_position,
        kind_is_list(app.overlay->0.kind) && content_rows > 0 ==> (laid_out(
            app,
            content_rows,
            viewport_rows,
        ).overlay->0).selected < content_rows,
{
}

} // verus!

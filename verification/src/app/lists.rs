//! What is shown over the document.
use std::ops::Range;

use vstd::prelude::*;

use super::actions::opt_span;
use super::labels::{
    age_text, bookmark_fallback_label, char_index, context_of, counted, counted_title,
    fallback_label, index_below, list_title, relative_age, search_context, title_of_list,
    title_with_count,
};
use super::reading::{reading_text, Reading, ReadingModel};
use super::{
    empty_text, kind_is_filterable, App, AppModel, InputMode, OverlayKind, OverlayModel,
    OverlayState, PlaceModel, Surroundings, SurroundingsModel, SEARCH_CONTEXT_WIDTH,
};
use crate::document::chapter::toc_views;
use crate::document::{
    format_name, opt_text, warning_views, DocumentModel, TocEntry, TocModel, WarningModel,
};
use crate::file_picker::{entry_label, FileEntry, FileModel};
use crate::filter::{all_items, shown_labels, FilterModel, FilteredList};
use crate::order::views_of;
use crate::search::SearchHit;
use crate::state::{Bookmark, BookmarkModel, RecentBook, RecentModel, StateWarningModel};
use crate::strings::{
    decimal, decimal_chars, push_number, push_text, repeat_chars, repeated,
};
use crate::text::{
    byte_len, byte_length, chars_of, floor_boundary, floor_char_boundary, greatest, index_at, least,
    lemma_floor_boundary, push_all, string_of,
};
use crate::unicode::string_texts;

verus! {

pub open spec fn help_lines() -> Seq<Seq<char>> {
    seq![
        "j/k or ↑/↓       scroll one line"@,
        "Ctrl-d/Ctrl-u    scroll half a page"@,
        "Space/b or →/←   scroll one page"@,
        "PgDn/PgUp        scroll one page"@,
        "g/G or Home/End  start/end"@,
        "[/]              previous/next section"@,
        "/text, n/N       search"@,
        ":exact/:re       exact/regex search"@,
        ":results         browse search results"@,
        ":toc             browse table of contents"@,
        ":mark/:marks     add/browse bookmarks"@,
        ":recent          browse recent books"@,
        ":e <directory>   choose a supported file"@,
        "/ in a list      filter toc/bookmarks/recent/files"@,
        "Tab              complete commands and paths"@,
        "↑/↓ in input     browse saved input history"@,
        ":theme           choose auto/light/dark colors"@,
        ":history clear   clear command/search history"@,
        "Enter/Esc        jump/close a list"@,
        ":help            show this help"@,
        ":q or Ctrl-C     quit"@,
    ]
}

fn help() -> (lines: Vec<String>)
    ensures
        string_texts(lines@) == help_lines(),
{
    let mut lines: Vec<String> = Vec::new();
    lines.push("j/k or ↑/↓       scroll one line".to_owned());
    lines.push("Ctrl-d/Ctrl-u    scroll half a page".to_owned());
    lines.push("Space/b or →/←   scroll one page".to_owned());
    lines.push("PgDn/PgUp        scroll one page".to_owned());
    lines.push("g/G or Home/End  start/end".to_owned());
    lines.push("[/]              previous/next section".to_owned());
    lines.push("/text, n/N       search".to_owned());
    lines.push(":exact/:re       exact/regex search".to_owned());
    lines.push(":results         browse search results".to_owned());
    lines.push(":toc             browse table of contents".to_owned());
    lines.push(":mark/:marks     add/browse bookmarks".to_owned());
    lines.push(":recent          browse recent books".to_owned());
    lines.push(":e <directory>   choose a supported file".to_owned());
    lines.push("/ in a list      filter toc/bookmarks/recent/files".to_owned());
    lines.push("Tab              complete commands and paths".to_owned());
    lines.push("↑/↓ in input     browse saved input history".to_owned());
    lines.push(":theme           choose auto/light/dark colors".to_owned());
    lines.push(":history clear   clear command/search history".to_owned());
    lines.push("Enter/Esc        jump/close a list".to_owned());
    lines.push(":help            show this help".to_owned());
    lines.push(":q or Ctrl-C     quit".to_owned());
    assert(string_texts(lines@) =~= help_lines());
    lines
}

// ---------------------------------------------------------------------------------------
// The lines of the lists
// ---------------------------------------------------------------------------------------

pub open spec fn toc_line(entry: TocModel) -> Seq<char> {
    repeated("  "@, entry.depth as nat) + entry.label
}

pub open spec fn toc_lines(toc: Seq<TocModel>) -> Seq<Seq<char>> {
    Seq::new(toc.len(), |i: int| toc_line(toc[i]))
}

fn toc_items(toc: &[TocEntry]) -> (lines: Vec<String>)
    ensures
        string_texts(lines@) == toc_lines(toc_views(toc@)),
{
    let ghost all = toc_views(toc@);
    let mut lines: Vec<String> = Vec::new();
    let mut i: usize = 0;
    while i < toc.len()
        invariant
            i <= toc@.len(),
            all == toc_views(toc@),
            lines@.len() == i,
            forall|j: int| 0 <= j < i ==> (#[trigger] lines@[j])@ == toc_line(all[j]),
        decreases toc.len() - i,
    {
        assert(all[i as int] == toc@[i as int]@);
        let indent = chars_of("  ");
        let mut line = repeat_chars(&indent, toc[i].depth() as usize);
        push_text(&mut line, toc[i].label());
        lines.push(string_of(&line));
        i += 1;
    }
    assert(string_texts(lines@) =~= toc_lines(all));
    lines
}

/// A text of a list, or none beyond its end.
pub open spec fn text_at(texts: Seq<Seq<char>>, i: int) -> Seq<char> {
    if 0 <= i < texts.len() {
        texts[i]
    } else {
        Seq::empty()
    }
}

fn get_text(texts: &[String], i: usize) -> (text: String)
    ensures
        text@ == text_at(string_texts(texts@), i as int),
{
    if i < texts.len() {
        texts[i].clone()
    } else {
        empty_text()
    }
}

pub open spec fn bookmark_line(
    document: DocumentModel,
    bookmark: BookmarkModel,
    percent: Seq<char>,
) -> Seq<char> {
    let label = match bookmark.label {
        Some(label) => label,
        None => fallback_label(
            document,
            floor_boundary(document.text, bookmark.position) as int,
        ),
    };
    label + " · "@ + percent + "%"@
}

pub open spec fn bookmark_lines(app: AppModel, around: SurroundingsModel) -> Seq<Seq<char>> {
    match app.reading {
        Some(reading) => Seq::new(
            app.bookmarks.len(),
            |i: int|
                bookmark_line(
                    reading.loaded.document,
                    app.bookmarks[i],
                    text_at(around.percents, i),
                ),
        ),
        None => Seq::empty(),
    }
}

fn bookmark_item(reading: &Reading, bookmark: &Bookmark, percent: &str) -> (line: String)
    ensures
        line@ == bookmark_line(reading@.loaded.document, bookmark@, percent@),
{
    let document = reading.loaded().document();
    let mut line = match &bookmark.label {
        Some(label) => chars_of(label.as_str()),
        None => {
            let text = document.text();
            let position: usize = floor_char_boundary(text, bookmark.position);
            proof {
                lemma_floor_boundary(text@, bookmark.position as int);
            }
            let label = bookmark_fallback_label(document, position);
            chars_of(label.as_str())
        },
    };
    push_text(&mut line, " · ");
    push_text(&mut line, percent);
    push_text(&mut line, "%");
    string_of(&line)
}

/// The place of a recent book, or none beyond the end of the list.
pub open spec fn place_at(places: Seq<PlaceModel>, i: int) -> PlaceModel {
    if 0 <= i < places.len() {
        places[i]
    } else {
        PlaceModel { name: Seq::empty(), parent: Seq::empty() }
    }
}

pub open spec fn recent_line(book: RecentModel, place: PlaceModel, now: int) -> Seq<char> {
    let age = age_text(greatest(now - book.updated, 0));
    if place.parent.len() == 0 {
        place.name + " · "@ + age
    } else {
        place.name + " · "@ + place.parent + " · "@ + age
    }
}

pub open spec fn recent_lines(recent: Seq<RecentModel>, around: SurroundingsModel) -> Seq<
    Seq<char>,
> {
    Seq::new(
        recent.len(),
        |i: int| recent_line(recent[i], place_at(around.places, i), around.now),
    )
}

fn recent_items(books: &[RecentBook], around: &Surroundings) -> (lines: Vec<String>)
    ensures
        string_texts(lines@) == recent_lines(views_of(books@), around@),
{
    let ghost all = views_of(books@);
    let ghost places = views_of(around.recent_places@);
    let mut lines: Vec<String> = Vec::new();
    let mut i: usize = 0;
    while i < books.len()
        invariant
            i <= books@.len(),
            all == views_of(books@),
            places == views_of(around.recent_places@),
            lines@.len() == i,
            forall|j: int|
                0 <= j < i ==> (#[trigger] lines@[j])@ == recent_line(
                    all[j],
                    place_at(places, j),
                    around@.now,
                ),
        decreases books.len() - i,
    {
        let updated: u128 = books[i].updated_unix_ms;
        let elapsed: u128 = if around.now_unix_ms > updated {
            around.now_unix_ms - updated
        } else {
            0
        };
        let age = relative_age(elapsed);
        let mut line: Vec<char> = Vec::new();
        let mut parent: Vec<char> = Vec::new();
        if i < around.recent_places.len() {
            assert(places[i as int] == around.recent_places@[i as int]@);
            line = chars_of(around.recent_places[i].name.as_str());
            parent = chars_of(around.recent_places[i].parent.as_str());
        }
        assert(line@ =~= place_at(places, i as int).name);
        assert(parent@ =~= place_at(places, i as int).parent);
        push_text(&mut line, " · ");
        if parent.len() > 0 {
            push_all(&mut line, &parent);
            push_text(&mut line, " · ");
        }
        push_text(&mut line, age.as_str());
        assert(all[i as int] == books@[i as int]@);
        assert(line@ =~= recent_line(all[i as int], place_at(places, i as int), around@.now));
        lines.push(string_of(&line));
        i += 1;
    }
    assert(string_texts(lines@) =~= recent_lines(all, around@));
    lines
}

/// What stands before a search result: its number.
pub open spec fn result_number(ordinal: int, total: int) -> Seq<char> {
    decimal(counted(ordinal) as nat) + "/"@ + decimal(total as nat) + "  "@
}

fn number_result(ordinal: usize, total: usize) -> (number: Vec<char>)
    ensures
        number@ == result_number(ordinal as int, total as int),
{
    let mut number = decimal_chars(ordinal.saturating_add(1) as u128);
    push_text(&mut number, "/");
    push_number(&mut number, total);
    push_text(&mut number, "  ");
    number
}

pub open spec fn result_line(text: Seq<char>, hit: ((int, int), int), total: int) -> Seq<char> {
    result_number(hit.1, total) + context_of(text, hit.0, SEARCH_CONTEXT_WIDTH as int).text
}

pub open spec fn result_lines(
    text: Seq<char>,
    hits: Seq<((int, int), int)>,
    total: int,
) -> Seq<Seq<char>> {
    Seq::new(hits.len(), |i: int| result_line(text, hits[i], total))
}

fn result_items(text: &str, hits: &[SearchHit], total: usize) -> (lines: Vec<String>)
    ensures
        string_texts(lines@) == result_lines(text@, views_of(hits@), total as int),
{
    let ghost all = views_of(hits@);
    let mut lines: Vec<String> = Vec::new();
    let mut i: usize = 0;
    while i < hits.len()
        invariant
            i <= hits@.len(),
            all == views_of(hits@),
            lines@.len() == i,
            forall|j: int|
                0 <= j < i ==> (#[trigger] lines@[j])@ == result_line(text@, all[j], total as int),
        decreases hits.len() - i,
    {
        assert(all[i as int] == hits@[i as int]@);
        let mut line = number_result(hits[i].ordinal, total);
        let context = search_context(text, &hits[i].range, SEARCH_CONTEXT_WIDTH);
        push_text(&mut line, context.text.as_str());
        lines.push(string_of(&line));
        i += 1;
    }
    assert(string_texts(lines@) =~= result_lines(text@, all, total as int));
    lines
}

pub open spec fn file_lines(entries: Seq<FileModel>) -> Seq<Seq<char>> {
    Seq::new(entries.len(), |i: int| entry_label(entries[i]))
}

fn file_items(entries: &[FileEntry]) -> (lines: Vec<String>)
    ensures
        string_texts(lines@) == file_lines(views_of(entries@)),
{
    let ghost all = views_of(entries@);
    let mut lines: Vec<String> = Vec::new();
    let mut i: usize = 0;
    while i < entries.len()
        invariant
            i <= entries@.len(),
            all == views_of(entries@),
            lines@.len() == i,
            forall|j: int| 0 <= j < i ==> (#[trigger] lines@[j])@ == entry_label(all[j]),
        decreases entries.len() - i,
    {
        assert(all[i as int] == entries@[i as int]@);
        lines.push(entries[i].label());
        i += 1;
    }
    assert(string_texts(lines@) =~= file_lines(all));
    lines
}

pub open spec fn warning_line(prefix: Seq<char>, code: Seq<char>, message: Seq<char>) -> Seq<
    char,
> {
    prefix + " ["@ + code + "]: "@ + message
}

fn warning_text(prefix: &str, code: &str, message: &str) -> (line: String)
    ensures
        line@ == warning_line(prefix@, code@, message@),
{
    let mut line = chars_of(prefix);
    push_text(&mut line, " [");
    push_text(&mut line, code);
    push_text(&mut line, "]: ");
    push_text(&mut line, message);
    string_of(&line)
}

pub open spec fn position_line(reading: ReadingModel, percent: Seq<char>) -> Seq<char> {
    "Position: "@ + decimal(
        index_at(reading_text(reading), reading.viewport.anchor) as nat,
    ) + " / "@ + decimal(reading_text(reading).len()) + " characters ("@ + percent + "%)"@
}

pub open spec fn info_head(reading: ReadingModel, percent: Seq<char>) -> Seq<Seq<char>> {
    seq![
        "Path: "@ + reading.loaded.path,
        "Format: "@ + format_name(reading.loaded.format),
        "Title: "@ + (match reading.loaded.document.metadata.title {
            Some(title) => title,
            None => "Unknown"@,
        }),
        position_line(reading, percent),
    ]
}

pub open spec fn load_warning_lines(warnings: Seq<WarningModel>) -> Seq<Seq<char>> {
    Seq::new(
        warnings.len(),
        |i: int| warning_line("Warning"@, warnings[i].code, warnings[i].message),
    )
}

pub open spec fn state_warning_lines(warnings: Seq<StateWarningModel>) -> Seq<Seq<char>> {
    Seq::new(
        warnings.len(),
        |i: int| warning_line("State warning"@, warnings[i].code, warnings[i].message),
    )
}

/// What is told of the document.
pub open spec fn info_lines(app: AppModel, percent: Seq<char>) -> Seq<Seq<char>> {
    match app.reading {
        Some(reading) => info_head(reading, percent) + load_warning_lines(reading.loaded.warnings)
            + state_warning_lines(app.warnings),
        None => Seq::empty(),
    }
}

/// All lines of what is shown, before any filter.
pub open spec fn unfiltered_items(
    app: AppModel,
    around: SurroundingsModel,
    kind: OverlayKind,
) -> Seq<Seq<char>> {
    match kind {
        OverlayKind::Help => help_lines(),
        OverlayKind::Info => info_lines(app, around.progress),
        OverlayKind::Toc => match app.reading {
            Some(reading) => toc_lines(reading.loaded.document.toc),
            None => Seq::empty(),
        },
        OverlayKind::Bookmarks => bookmark_lines(app, around),
        OverlayKind::Recent => recent_lines(app.recent, around),
        OverlayKind::SearchResults => match (app.reading, app.session) {
            (Some(reading), Some(session)) => result_lines(
                reading_text(reading),
                session.previews,
                session.total,
            ),
            _ => Seq::empty(),
        },
        OverlayKind::Files => match app.picker {
            Some(picker) => file_lines(picker.entries),
            None => Seq::empty(),
        },
    }
}

/// Whether there is a query.
pub open spec fn is_filtered(overlay: OverlayModel) -> bool {
    overlay.filter matches Some(filter) && filter.query.len() > 0
}

/// What is shown where there is no line.
pub open spec fn empty_lines(overlay: OverlayModel) -> Seq<Seq<char>> {
    match overlay.kind {
        OverlayKind::Toc => seq!["No matching sections"@],
        OverlayKind::Bookmarks => if is_filtered(overlay) {
            seq!["No matching bookmarks"@]
        } else {
            seq!["No bookmarks yet; use :mark [label] to add one"@]
        },
        OverlayKind::Recent => if is_filtered(overlay) {
            seq!["No matching recent books"@]
        } else {
            seq!["No readable recent books"@]
        },
        OverlayKind::SearchResults => seq!["No search results"@],
        OverlayKind::Files => seq!["No supported files in this directory"@],
        OverlayKind::Help | OverlayKind::Info => Seq::empty(),
    }
}

/// The lines that are shown over the document.
pub open spec fn overlay_lines(app: AppModel, around: SurroundingsModel) -> Seq<Seq<char>> {
    match app.overlay {
        None => Seq::empty(),
        Some(overlay) => {
            let all = unfiltered_items(app, around, overlay.kind);
            let lines = match overlay.filter {
                Some(filter) => shown_labels(filter.visible, all),
                None => all,
            };
            if lines.len() > 0 {
                lines
            } else {
                empty_lines(overlay)
            }
        },
    }
}

/// The number of items that a query leaves, if there is one.
pub open spec fn match_count(overlay: OverlayModel) -> Option<int> {
    match overlay.filter {
        Some(filter) => if filter.query.len() > 0 {
            Some(filter.visible.len() as int)
        } else {
            None
        },
        None => None,
    }
}

/// The number of items of a list that can be filtered.
pub open spec fn list_count(app: AppModel, kind: OverlayKind) -> int {
    match kind {
        OverlayKind::Toc => match app.reading {
            Some(reading) => reading.loaded.document.toc.len() as int,
            None => 0,
        },
        OverlayKind::Bookmarks => match app.reading {
            Some(_) => app.bookmarks.len() as int,
            None => 0,
        },
        OverlayKind::Recent => app.recent.len() as int,
        OverlayKind::Files => match app.picker {
            Some(picker) => picker.entries.len() as int,
            None => 0,
        },
        OverlayKind::Help | OverlayKind::Info | OverlayKind::SearchResults => 0,
    }
}

/// What stands over the lines that are shown.
pub open spec fn title_text(app: AppModel) -> Option<Seq<char>> {
    match app.overlay {
        None => None,
        Some(overlay) => match overlay.kind {
            OverlayKind::Help => Some("Help"@),
            OverlayKind::Info => Some("Document info"@),
            OverlayKind::Toc => Some(
                list_title(
                    "Table of contents"@,
                    overlay.selected,
                    list_count(app, overlay.kind),
                    match_count(overlay),
                ),
            ),
            OverlayKind::Bookmarks => Some(
                list_title(
                    "Bookmarks"@,
                    overlay.selected,
                    app.bookmarks.len() as int,
                    match_count(overlay),
                ),
            ),
            OverlayKind::Recent => Some(
                list_title(
                    "Recent books"@,
                    overlay.selected,
                    app.recent.len() as int,
                    match_count(overlay),
                ),
            ),
            OverlayKind::SearchResults => match app.session {
                Some(session) => Some(
                    counted_title(
                        "Search results"@,
                        if overlay.selected < session.previews.len() {
                            counted(session.previews[overlay.selected].1)
                        } else {
                            0
                        },
                        session.total,
                    ),
                ),
                None => None,
            },
            OverlayKind::Files => Some(
                list_title(
                    "Open · "@ + (match app.picker {
                        Some(picker) => picker.directory,
                        None => "Files"@,
                    }),
                    overlay.selected,
                    list_count(app, overlay.kind),
                    match_count(overlay),
                ),
            ),
        },
    }
}

/// The bytes of a line that are set off: the match in a search result.
pub open spec fn line_emphasis(app: AppModel, index: int) -> Option<(int, int)> {
    match (app.overlay, app.reading, app.session) {
        (Some(overlay), Some(reading), Some(session)) => if overlay.kind
            == OverlayKind::SearchResults && 0 <= index < session.previews.len() {
            let hit = session.previews[index];
            let before = byte_len(result_number(hit.1, session.total));
            let context = context_of(reading_text(reading), hit.0, SEARCH_CONTEXT_WIDTH as int);
            Some(
                (
                    least(before + context.start, usize::MAX as int),
                    least(before + context.end, usize::MAX as int),
                ),
            )
        } else {
            None
        },
        _ => None,
    }
}

/// Something is shown over the document.
pub open spec fn overlay_shown(app: AppModel, kind: OverlayKind, selected: int) -> AppModel {
    let total = list_count(app, kind);
    AppModel {
        overlay: Some(
            OverlayModel {
                kind,
                selected,
                filter: if kind_is_filterable(kind) && total > 0 {
                    Some(FilterModel { query: Seq::empty(), visible: all_items(total) })
                } else {
                    None
                },
            },
        ),
        mode: InputMode::Normal,
        picker: None,
        list_offset: 0,
        ..app
    }
}

/// The number of characters before each bookmark.
pub open spec fn bookmark_indices(app: AppModel) -> Seq<int> {
    match app.reading {
        Some(reading) => Seq::new(
            app.bookmarks.len(),
            |i: int| index_below(reading_text(reading), app.bookmarks[i].position),
        ),
        None => Seq::empty(),
    }
}

impl App {
    /// The number of characters before each bookmark.
    pub fn bookmark_chars(&self) -> (counts: Vec<usize>)
        ensures
            crate::filter::index_views(counts@) == bookmark_indices(self@),
    {
        let mut counts: Vec<usize> = Vec::new();
        if let Some(reading) = &self.reading {
            let text = reading.loaded().document().text();
            let ghost all = self@.bookmarks;
            let mut i: usize = 0;
            while i < self.bookmarks.len()
                invariant
                    i <= self.bookmarks@.len(),
                    all == views_of(self.bookmarks@),
                    text@ == reading_text(reading@),
                    counts@.len() == i,
                    forall|j: int|
                        0 <= j < i ==> (#[trigger] counts@[j]) == index_below(
                            text@,
                            all[j].position,
                        ),
                decreases self.bookmarks.len() - i,
            {
                assert(all[i as int] == self.bookmarks@[i as int]@);
                counts.push(char_index(text, self.bookmarks[i].position));
                i += 1;
            }
        }
        assert(crate::filter::index_views(counts@) =~= bookmark_indices(self@));
        counts
    }

    pub(super) fn bookmark_items(&self, around: &Surroundings) -> (lines: Vec<String>)
        ensures
            string_texts(lines@) == bookmark_lines(self@, around@),
    {
        let mut lines: Vec<String> = Vec::new();
        if let Some(reading) = &self.reading {
            let ghost all = self@.bookmarks;
            let ghost percents = string_texts(around.bookmark_percents@);
            let mut i: usize = 0;
            while i < self.bookmarks.len()
                invariant
                    i <= self.bookmarks@.len(),
                    all == views_of(self.bookmarks@),
                    percents == string_texts(around.bookmark_percents@),
                    lines@.len() == i,
                    forall|j: int|
                        0 <= j < i ==> (#[trigger] lines@[j])@ == bookmark_line(
                            reading@.loaded.document,
                            all[j],
                            text_at(percents, j),
                        ),
                decreases self.bookmarks.len() - i,
            {
                assert(all[i as int] == self.bookmarks@[i as int]@);
                let percent = get_text(&around.bookmark_percents, i);
                lines.push(bookmark_item(reading, &self.bookmarks[i], percent.as_str()));
                i += 1;
            }
        }
        assert(string_texts(lines@) =~= bookmark_lines(self@, around@));
        lines
    }

    fn info_items(&self, percent: &str) -> (lines: Vec<String>)
        ensures
            string_texts(lines@) == info_lines(self@, percent@),
    {
        let mut lines: Vec<String> = Vec::new();
        let reading = match &self.reading {
            Some(reading) => reading,
            None => {
                assert(string_texts(lines@) =~= info_lines(self@, percent@));
                return lines;
            },
        };
        let loaded = reading.loaded();
        let mut path = chars_of("Path: ");
        push_text(&mut path, loaded.path());
        let mut format = chars_of("Format: ");
        push_text(&mut format, loaded.format().name());
        let mut title = chars_of("Title: ");
        match loaded.document().metadata().title() {
            Some(own) => push_text(&mut title, own),
            None => push_text(&mut title, "Unknown"),
        }
        let mut position = chars_of("Position: ");
        push_number(&mut position, reading.progress_chars());
        push_text(&mut position, " / ");
        push_number(&mut position, loaded.document().total_chars());
        push_text(&mut position, " characters (");
        push_text(&mut position, percent);
        push_text(&mut position, "%)");
        lines.push(string_of(&path));
        lines.push(string_of(&format));
        lines.push(string_of(&title));
        lines.push(string_of(&position));
        let ghost head = info_head(reading@, percent@);
        assert(string_texts(lines@) =~= head);
        let warnings = loaded.warnings();
        let ghost own = load_warning_lines(warning_views(warnings@));
        let mut i: usize = 0;
        assert(own.take(0) =~= Seq::empty());
        assert(string_texts(lines@) =~= head + own.take(0));
        while i < warnings.len()
            invariant
                i <= warnings@.len(),
                own == load_warning_lines(warning_views(warnings@)),
                string_texts(lines@) == head + own.take(i as int),
            decreases warnings.len() - i,
        {
            let ghost before = lines@;
            lines.push(warning_text("Warning", warnings[i].code(), warnings[i].message()));
            assert(own.take(i + 1) =~= own.take(i as int).push(own[i as int]));
            assert(string_texts(lines@) =~= string_texts(before).push(own[i as int]));
            assert(string_texts(lines@) =~= head + own.take(i + 1));
            i += 1;
        }
        assert(own.take(i as int) =~= own);
        let ghost start = head + own;
        let ghost kept = state_warning_lines(views_of(self.state_warnings@));
        let mut k: usize = 0;
        assert(kept.take(0) =~= Seq::empty());
        assert(string_texts(lines@) =~= start + kept.take(0));
        while k < self.state_warnings.len()
            invariant
                k <= self.state_warnings@.len(),
                kept == state_warning_lines(views_of(self.state_warnings@)),
                string_texts(lines@) == start + kept.take(k as int),
            decreases self.state_warnings.len() - k,
        {
            let ghost before = lines@;
            let warning = &self.state_warnings[k];
            lines.push(warning_text("State warning", warning.code(), warning.message()));
            assert(kept.take(k + 1) =~= kept.take(k as int).push(kept[k as int]));
            assert(string_texts(lines@) =~= string_texts(before).push(kept[k as int]));
            assert(string_texts(lines@) =~= start + kept.take(k + 1));
            k += 1;
        }
        assert(kept.take(k as int) =~= kept);
        lines
    }

    /// All lines of what is shown, before any filter.
    pub(super) fn unfiltered_overlay_items(&self, around: &Surroundings, kind: OverlayKind) -> (lines:
        Vec<String>)
        ensures
            string_texts(lines@) == unfiltered_items(self@, around@, kind),
    {
        match kind {
            OverlayKind::Help => help(),
            OverlayKind::Info => self.info_items(around.progress_percent.as_str()),
            OverlayKind::Toc => match &self.reading {
                Some(reading) => toc_items(reading.loaded().document().toc()),
                None => no_lines(),
            },
            OverlayKind::Bookmarks => self.bookmark_items(around),
            OverlayKind::Recent => recent_items(&self.recent_books, around),
            OverlayKind::SearchResults => match (&self.reading, &self.search_session) {
                (Some(reading), Some(session)) => result_items(
                    reading.loaded().document().text(),
                    &session.previews,
                    session.total,
                ),
                _ => no_lines(),
            },
            OverlayKind::Files => match &self.file_picker {
                Some(picker) => file_items(&picker.entries),
                None => no_lines(),
            },
        }
    }

    /// The lines that are shown over the document.
    pub fn overlay_items(&self, around: &Surroundings) -> (lines: Vec<String>)
        ensures
            string_texts(lines@) == overlay_lines(self@, around@),
    {
        let overlay = match &self.overlay {
            Some(overlay) => overlay,
            None => {
                return no_lines();
            },
        };
        let all = self.unfiltered_overlay_items(around, overlay.kind);
        let lines = match &overlay.filter {
            Some(filter) => filter.items(&all),
            None => all,
        };
        assert(string_texts(lines@).len() == lines@.len());
        if lines.len() > 0 {
            return lines;
        }
        let filtered: bool = match &overlay.filter {
            Some(filter) => filter.is_active(),
            None => false,
        };
        match overlay.kind {
            OverlayKind::Toc => one_line("No matching sections"),
            OverlayKind::Bookmarks => if filtered {
                one_line("No matching bookmarks")
            } else {
                one_line("No bookmarks yet; use :mark [label] to add one")
            },
            OverlayKind::Recent => if filtered {
                one_line("No matching recent books")
            } else {
                one_line("No readable recent books")
            },
            OverlayKind::SearchResults => one_line("No search results"),
            OverlayKind::Files => one_line("No supported files in this directory"),
            OverlayKind::Help | OverlayKind::Info => no_lines(),
        }
    }

    fn list_total(&self, kind: OverlayKind) -> (total: usize)
        ensures
            total == list_count(self@, kind),
    {
        match kind {
            OverlayKind::Toc => match &self.reading {
                Some(reading) => {
                    let toc = reading.loaded().document().toc();
                    assert(toc_views(toc@).len() == toc@.len());
                    toc.len()
                },
                None => 0,
            },
            OverlayKind::Bookmarks => match &self.reading {
                Some(_) => self.bookmarks.len(),
                None => 0,
            },
            OverlayKind::Recent => self.recent_books.len(),
            OverlayKind::Files => match &self.file_picker {
                Some(picker) => picker.entries.len(),
                None => 0,
            },
            OverlayKind::Help | OverlayKind::Info | OverlayKind::SearchResults => 0,
        }
    }

    /// What stands over the lines that are shown.
    pub fn overlay_title(&self) -> (title: Option<String>)
        ensures
            opt_text(title) == title_text(self@),
    {
        let overlay = match &self.overlay {
            Some(overlay) => overlay,
            None => {
                return None;
            },
        };
        let selected: usize = overlay.selected;
        let matches: Option<usize> = match &overlay.filter {
            Some(filter) => if filter.is_active() {
                Some(filter.len())
            } else {
                None
            },
            None => None,
        };
        match overlay.kind {
            OverlayKind::Help => Some("Help".to_owned()),
            OverlayKind::Info => Some("Document info".to_owned()),
            OverlayKind::Toc => {
                let total: usize = self.list_total(OverlayKind::Toc);
                Some(title_of_list("Table of contents", selected, total, matches))
            },
            OverlayKind::Bookmarks => {
                let total: usize = self.bookmarks.len();
                Some(title_of_list("Bookmarks", selected, total, matches))
            },
            OverlayKind::Recent => {
                let total: usize = self.recent_books.len();
                Some(title_of_list("Recent books", selected, total, matches))
            },
            OverlayKind::SearchResults => match &self.search_session {
                Some(session) => {
                    let current: usize = if selected < session.previews.len() {
                        session.previews[selected].ordinal.saturating_add(1)
                    } else {
                        0
                    };
                    Some(title_with_count("Search results", current, session.total))
                },
                None => None,
            },
            OverlayKind::Files => {
                let total: usize = self.list_total(OverlayKind::Files);
                let mut name = chars_of("Open · ");
                match &self.file_picker {
                    Some(picker) => push_text(&mut name, picker.directory.as_str()),
                    None => push_text(&mut name, "Files"),
                }
                let name = string_of(&name);
                Some(title_of_list(name.as_str(), selected, total, matches))
            },
        }
    }

    /// The bytes of a line that are set off.
    pub fn overlay_item_emphasis(&self, index: usize) -> (range: Option<Range<usize>>)
        ensures
            opt_span(range) == line_emphasis(self@, index as int),
    {
        let (overlay, reading, session) = match (
            &self.overlay,
            &self.reading,
            &self.search_session,
        ) {
            (Some(overlay), Some(reading), Some(session)) => (overlay, reading, session),
            _ => {
                return None;
            },
        };
        match overlay.kind {
            OverlayKind::SearchResults => {},
            _ => {
                return None;
            },
        }
        if index >= session.previews.len() {
            return None;
        }
        let hit = &session.previews[index];
        assert(views_of(session.previews@)[index as int] == hit@);
        let number = string_of(&number_result(hit.ordinal, session.total));
        let before: usize = byte_length(number.as_str());
        let context = search_context(
            reading.loaded().document().text(),
            &hit.range,
            SEARCH_CONTEXT_WIDTH,
        );
        let start: usize = before.saturating_add(context.emphasis.start);
        let end: usize = before.saturating_add(context.emphasis.end);
        Some(Range { start, end })
    }

    /// Shows something over the document.
    pub fn show_overlay(&mut self, kind: OverlayKind, selected: usize)
        ensures
            final(self)@ == overlay_shown(old(self)@, kind, selected as int),
    {
        let total: usize = self.list_total(kind);
        let filter: Option<FilteredList> = if kind.is_filterable() && total > 0 {
            Some(FilteredList::new(total))
        } else {
            None
        };
        self.overlay = Some(OverlayState { kind, selected, filter });
        self.input_mode = InputMode::Normal;
        self.file_picker = None;
        self.overlay_list_offset = 0;
    }
}

fn no_lines() -> (lines: Vec<String>)
    ensures
        string_texts(lines@) == Seq::<Seq<char>>::empty(),
{
    let lines: Vec<String> = Vec::new();
    assert(string_texts(lines@) =~= Seq::<Seq<char>>::empty());
    lines
}

fn one_line(line: &str) -> (lines: Vec<String>)
    ensures
        string_texts(lines@) == seq![line@],
{
    let mut lines: Vec<String> = Vec::new();
    lines.push(line.to_owned());
    assert(string_texts(lines@) =~= seq![line@]);
    lines
}

/// A list that can be filtered has as many items as are counted for its filter.
pub proof fn law_filter_covers_the_list(
    app: AppModel,
    around: SurroundingsModel,
    kind: OverlayKind,
)
    requires
        kind_is_filterable(kind),
    ensures
        unfiltered_items(app, around, kind).len() == list_count(app, kind),
{
}

/// Whatever list is shown has at least one line.
pub proof fn law_a_list_is_never_blank(app: AppModel, around: SurroundingsModel)
    requires
        app.overlay is Some,
        super::kind_is_list(app.overlay->0.kind),
    ensures
        overlay_lines(app, around).len() > 0,
{
}

} // verus!

//! What the keys do.
use vstd::prelude::*;

use super::actions::{
    and_action, no_actions, one_action, Action, ActionModel, BookmarkChange, Key, KeyCode,
};
use super::events::{candidates_offered, history_action, load_requested};
use super::labels::{find_hit, hit_at};
use super::lists::{overlay_shown, unfiltered_items};
use super::moves::{
    anchor_of, gone_by, gone_to_end_of, gone_to_hit, gone_to_offset, gone_to_section,
    gone_to_start_of, match_text, search_begun, search_repeated, selection_moved, with_message,
};
use super::{
    empty_text, quiet, stepped, App, AppModel, Completion, CompletionModel, InputMode,
    OverlayKind, OverlayModel, OverlayState, SearchSession, SessionModel, Step, Surroundings,
    SurroundingsModel, BOOKMARK_LABEL_LIMIT,
};
use crate::command::{
    command_path, completion_plan, parse_command, parsed_command, plan_completion,
    request_command_path, Command, CommandModel, CompletionPlan, CompletionPlanModel, HistoryScope,
};
use crate::document::chapter::toc_views;
use crate::document::{opt_text, TocModel};
use crate::file_picker::FileEntry;
use crate::filter::{matching_items, reselected, FilterModel};
use crate::history::{
    gone_back, gone_forward, is_new, no_history, recorded, shown_entry, HistoryModel,
};
use crate::input::{
    chars_without_last, deleted, deleted_back, empty_input, inserted, moved_left, moved_right,
    typed, without_last_cluster, InputModel, LineInput,
};
use crate::order::{ordered, sort_items, views_of};
use crate::search::{SearchDirection, SearchKind, SearchQuery};
use crate::state::{Bookmark, BookmarkModel};
use crate::strings::{push_text, trim_text, trimmed};
use crate::text::{chars_of, greatest, least, string_of};
use crate::theme::theme_name;
use crate::unicode::string_texts;

verus! {

// ---------------------------------------------------------------------------------------
// Typing
// ---------------------------------------------------------------------------------------

/// The history of what is typed is left.
pub open spec fn navigation_reset(app: AppModel) -> AppModel {
    match app.mode {
        InputMode::Command => AppModel {
            commands: HistoryModel { cursor: None, draft: Seq::empty(), ..app.commands },
            ..app
        },
        InputMode::Search => AppModel {
            searches: HistoryModel { cursor: None, draft: Seq::empty(), ..app.searches },
            ..app
        },
        InputMode::Normal | InputMode::Filter => app,
    }
}

/// A line is begun.
pub open spec fn input_begun(app: AppModel, mode: InputMode) -> AppModel {
    navigation_reset(
        AppModel { mode, input: empty_input(), completion: None, message: None, ..app },
    )
}

/// The input that comes after the one that is shown, or what was being typed.
pub open spec fn forward_entry(history: HistoryModel) -> Option<Seq<char>> {
    if history.cursor is None {
        None
    } else if gone_forward(history).cursor is Some {
        shown_entry(gone_forward(history))
    } else {
        Some(history.draft)
    }
}

pub open spec fn input_replaced(app: AppModel, replacement: Option<Seq<char>>) -> AppModel {
    match replacement {
        Some(text) => AppModel { input: typed(text), ..app },
        None => app,
    }
}

/// An input that was typed before is shown.
pub open spec fn history_navigated(app: AppModel, previous: bool) -> AppModel {
    match app.mode {
        InputMode::Command => if previous {
            let commands = gone_back(app.commands, app.input.text);
            input_replaced(AppModel { commands, ..app }, shown_entry(commands))
        } else {
            input_replaced(
                AppModel { commands: gone_forward(app.commands), ..app },
                forward_entry(app.commands),
            )
        },
        InputMode::Search => if previous {
            let searches = gone_back(app.searches, app.input.text);
            input_replaced(AppModel { searches, ..app }, shown_entry(searches))
        } else {
            input_replaced(
                AppModel { searches: gone_forward(app.searches), ..app },
                forward_entry(app.searches),
            )
        },
        InputMode::Normal | InputMode::Filter => app,
    }
}

/// What was typed is remembered.
pub open spec fn input_recorded(step: Step, mode: InputMode, text: Seq<char>) -> Step {
    let entries = match mode {
        InputMode::Search => step.app.searches.entries,
        _ => step.app.commands.entries,
    };
    let app = match mode {
        InputMode::Search => AppModel {
            searches: recorded(step.app.searches, text),
            ..step.app
        },
        _ => AppModel { commands: recorded(step.app.commands, text), ..step.app },
    };
    if is_new(entries, text) {
        Step { app, actions: step.actions.push(history_action(app)) }
    } else {
        Step { app, actions: step.actions }
    }
}

pub open spec fn clears_history(text: Seq<char>) -> bool {
    parsed_command(text) matches Ok(command) && command is ClearHistory
}

/// What was typed is done, and remembered.
pub open spec fn entered(app: AppModel, around: SurroundingsModel) -> Step {
    let text = app.input.text;
    let left = AppModel { input: empty_input(), mode: InputMode::Normal, ..app };
    match app.mode {
        InputMode::Command => if clears_history(text) {
            executed(left, text, around)
        } else {
            input_recorded(executed(left, text, around), InputMode::Command, text)
        },
        InputMode::Search => input_recorded(
            search_begun(
                left,
                (SearchKind::LooseLiteral, text),
                SearchDirection::Forward,
                None,
            ),
            InputMode::Search,
            text,
        ),
        InputMode::Normal | InputMode::Filter => quiet(left),
    }
}

/// The input is completed, or the next completion is shown.
pub open spec fn completed(app: AppModel) -> Step {
    match app.completion {
        Some(completion) if completion.candidates.len() > 0 => {
            let index = completion.next % completion.candidates.len() as int;
            quiet(
                AppModel {
                    input: typed(completion.candidates[index]),
                    completion: Some(CompletionModel { next: index + 1, ..completion }),
                    ..app
                },
            )
        },
        _ => {
            let fresh = AppModel { completion: None, ..app };
            match completion_plan(app.input) {
                CompletionPlanModel::Nothing => quiet(fresh),
                CompletionPlanModel::Commands(names) => quiet(candidates_offered(fresh, names)),
                CompletionPlanModel::Path(path) => Step {
                    app: fresh,
                    actions: seq![ActionModel::CompletePath(path)],
                },
            }
        },
    }
}

/// The line after a key that changes it.
pub open spec fn edited(line: InputModel, key: Key) -> InputModel {
    match key.code {
        KeyCode::Backspace => deleted_back(line),
        KeyCode::Delete => deleted(line),
        KeyCode::Left => moved_left(line),
        KeyCode::Right => moved_right(line),
        KeyCode::Home => InputModel { cursor: 0, ..line },
        KeyCode::End => typed(line.text),
        KeyCode::Char(c) => if c == 'u' && key.control {
            empty_input()
        } else if !key.control && !key.alt {
            inserted(line, c)
        } else {
            line
        },
        _ => line,
    }
}

/// A key while a command or a search is typed.
pub open spec fn input_key(app: AppModel, key: Key, around: SurroundingsModel) -> Step {
    if key.code == KeyCode::Tab {
        if app.mode == InputMode::Command {
            completed(app)
        } else {
            quiet(app)
        }
    } else {
        let fresh = AppModel { completion: None, ..app };
        match key.code {
            KeyCode::Esc => quiet(
                AppModel {
                    mode: InputMode::Normal,
                    ..navigation_reset(AppModel { input: empty_input(), ..fresh })
                },
            ),
            KeyCode::Up => quiet(history_navigated(fresh, true)),
            KeyCode::Down => quiet(history_navigated(fresh, false)),
            KeyCode::Enter => entered(fresh, around),
            _ => quiet(AppModel { input: edited(app.input, key), ..fresh }),
        }
    }
}

// ---------------------------------------------------------------------------------------
// Commands
// ---------------------------------------------------------------------------------------

/// The number of entries that begin at an offset or before it, up to the first that does not.
pub open spec fn entries_until(toc: Seq<TocModel>, offset: int, i: int) -> int
    decreases toc.len() - i,
{
    if 0 <= i < toc.len() && toc[i].offset <= offset {
        entries_until(toc, offset, i + 1)
    } else {
        i
    }
}

/// The number of bookmarks at an offset or before it, up to the first that is not.
pub open spec fn bookmarks_until(bookmarks: Seq<BookmarkModel>, offset: int, i: int) -> int
    decreases bookmarks.len() - i,
{
    if 0 <= i < bookmarks.len() && bookmarks[i].position <= offset {
        bookmarks_until(bookmarks, offset, i + 1)
    } else {
        i
    }
}

/// The place of a bookmark, or how many there are.
pub open spec fn bookmark_at(bookmarks: Seq<BookmarkModel>, position: int, i: int) -> int
    decreases bookmarks.len() - i,
{
    if i < 0 || i >= bookmarks.len() {
        bookmarks.len() as int
    } else if bookmarks[i].position == position {
        i
    } else {
        bookmark_at(bookmarks, position, i + 1)
    }
}

/// The bookmarks with one more, or with another label for one that is there.
pub open spec fn with_bookmark(
    bookmarks: Seq<BookmarkModel>,
    bookmark: BookmarkModel,
) -> Seq<BookmarkModel> {
    let i = bookmark_at(bookmarks, bookmark.position, 0);
    if i < bookmarks.len() {
        bookmarks.update(i, BookmarkModel { label: bookmark.label, ..bookmarks[i] })
    } else {
        ordered::<Bookmark>(bookmarks.push(bookmark))
    }
}

/// A label without white space around it; a blank one is none.
pub open spec fn clean_label(label: Option<Seq<char>>) -> Option<Seq<char>> {
    match label {
        Some(label) => if trimmed(label).len() > 0 {
            Some(trimmed(label))
        } else {
            None
        },
        None => None,
    }
}

/// A bookmark is to be saved at the place that is read.
pub open spec fn bookmark_added(app: AppModel, label: Option<Seq<char>>, now: int) -> Step {
    match app.reading {
        None => quiet(with_message(app, "No document is open"@)),
        Some(reading) => {
            let own = clean_label(label);
            if own matches Some(text) && text.len() > BOOKMARK_LABEL_LIMIT {
                quiet(with_message(app, "Bookmark labels cannot exceed 120 characters"@))
            } else {
                Step {
                    app,
                    actions: seq![
                        ActionModel::SaveBookmarks {
                            path: reading.loaded.path,
                            fingerprint: reading.loaded.fingerprint,
                            bookmarks: with_bookmark(
                                app.bookmarks,
                                BookmarkModel {
                                    position: reading.viewport.anchor,
                                    label: own,
                                    created: now,
                                },
                            ),
                            change: BookmarkChange::Saved,
                        },
                    ],
                }
            }
        },
    }
}

/// The result of the last search that is gone to when the results are shown.
pub open spec fn current_result(session: SessionModel) -> int {
    match session.current {
        Some(current) => {
            let i = hit_at(session.previews, current.1, 0);
            if i < session.previews.len() {
                i
            } else {
                0
            }
        },
        None => 0,
    }
}

pub open spec fn history_cleared(app: AppModel, scope: HistoryScope) -> AppModel {
    match scope {
        HistoryScope::All => AppModel {
            commands: no_history(),
            searches: no_history(),
            message: Some("History cleared"@),
            ..app
        },
        HistoryScope::Commands => AppModel {
            commands: no_history(),
            message: Some("Command history cleared"@),
            ..app
        },
        HistoryScope::Searches => AppModel {
            searches: no_history(),
            message: Some("Search history cleared"@),
            ..app
        },
    }
}

/// What a command shows over the document, or the message that there is nothing to show.
pub open spec fn shown_for(app: AppModel, command: CommandModel) -> AppModel {
    match command {
        CommandModel::Toc => match app.reading {
            Some(reading) if reading.loaded.document.toc.len() > 0 => overlay_shown(
                app,
                OverlayKind::Toc,
                greatest(entries_until(reading.loaded.document.toc, anchor_of(app), 0) - 1, 0),
            ),
            _ => with_message(app, "This document has no table of contents"@),
        },
        CommandModel::Marks => if app.reading is Some {
            overlay_shown(
                app,
                OverlayKind::Bookmarks,
                greatest(bookmarks_until(app.bookmarks, anchor_of(app), 0) - 1, 0),
            )
        } else {
            with_message(app, "No document is open"@)
        },
        CommandModel::Results => match app.session {
            Some(session) if session.previews.len() > 0 => overlay_shown(
                app,
                OverlayKind::SearchResults,
                current_result(session),
            ),
            _ => with_message(app, "No search results"@),
        },
        CommandModel::Info => if app.reading is Some {
            overlay_shown(app, OverlayKind::Info, 0)
        } else {
            with_message(app, "No document is open"@)
        },
        CommandModel::Help => overlay_shown(app, OverlayKind::Help, 0),
        CommandModel::Theme(None) => with_message(app, "Theme: "@ + theme_name(app.theme)),
        _ => app,
    }
}

/// A command is done.
pub open spec fn done(app: AppModel, command: CommandModel, around: SurroundingsModel) -> Step {
    match command {
        CommandModel::Open(path) => Step {
            app,
            actions: seq![ActionModel::Open(command_path(path))],
        },
        CommandModel::Quit => quiet(AppModel { quit: true, ..app }),
        CommandModel::Goto(number) => Step {
            app,
            actions: seq![ActionModel::GotoPercent(number)],
        },
        CommandModel::Mark(label) => bookmark_added(app, label, around.now),
        CommandModel::Recent => Step { app, actions: seq![ActionModel::ListRecent] },
        CommandModel::Exact(pattern) => search_begun(
            app,
            (SearchKind::ExactLiteral, pattern),
            SearchDirection::Forward,
            None,
        ),
        CommandModel::Regex(pattern) => search_begun(
            app,
            (SearchKind::Regex, pattern),
            SearchDirection::Forward,
            None,
        ),
        CommandModel::Theme(Some(theme)) => Step {
            app: AppModel { theme, ..app },
            actions: seq![ActionModel::SaveTheme(theme)],
        },
        CommandModel::ClearHistory(scope) => Step {
            app: history_cleared(app, scope),
            actions: seq![history_action(history_cleared(app, scope))],
        },
        _ => quiet(shown_for(app, command)),
    }
}

/// A line is taken for a command.
pub open spec fn executed(app: AppModel, raw: Seq<char>, around: SurroundingsModel) -> Step {
    match parsed_command(raw) {
        Ok(command) => done(app, command, around),
        Err(message) => quiet(with_message(app, message)),
    }
}

// ---------------------------------------------------------------------------------------
// Keys over the document
// ---------------------------------------------------------------------------------------

/// The number of rows of a page, and of half of it.
pub open spec fn page_size(height: int) -> int {
    least(greatest(height, 1), isize::MAX as int)
}

pub open spec fn half_page_size(height: int) -> int {
    greatest(height, 2) / 2
}

/// By how many rows a key moves through the document.
pub open spec fn rows_of_key(key: Key, viewport_height: int) -> Option<int> {
    let page = page_size(viewport_height);
    let half = half_page_size(viewport_height);
    match key.code {
        KeyCode::Char(c) => if c == 'j' {
            Some(1)
        } else if c == 'k' {
            Some(-1)
        } else if c == 'd' && key.control {
            Some(half)
        } else if c == 'u' && key.control {
            Some(-half)
        } else if c == ' ' {
            Some(page)
        } else if c == 'b' {
            Some(-page)
        } else {
            None
        },
        KeyCode::Down => Some(1),
        KeyCode::Up => Some(-1),
        KeyCode::PageDown | KeyCode::Right => Some(page),
        KeyCode::PageUp | KeyCode::Left => Some(-page),
        _ => None,
    }
}

/// A key that goes to a place of the document.
pub open spec fn jumped(app: AppModel, code: KeyCode, now: u64) -> AppModel {
    match code {
        KeyCode::Char(c) => if c == 'g' {
            gone_to_start_of(app, now)
        } else if c == 'G' {
            gone_to_end_of(app, now)
        } else if c == ']' {
            gone_to_section(app, true, now)
        } else if c == '[' {
            gone_to_section(app, false, now)
        } else {
            app
        },
        KeyCode::Home => gone_to_start_of(app, now),
        KeyCode::End => gone_to_end_of(app, now),
        _ => app,
    }
}

/// A key while the document is read.
pub open spec fn normal_key(app: AppModel, key: Key, now: u64) -> Step {
    match rows_of_key(key, app.viewport_height) {
        Some(rows) => quiet(gone_by(app, rows, now)),
        None => match key.code {
            KeyCode::Char(c) => if c == ':' {
                quiet(input_begun(app, InputMode::Command))
            } else if c == '/' {
                quiet(input_begun(app, InputMode::Search))
            } else if c == 'n' {
                search_repeated(app, SearchDirection::Forward)
            } else if c == 'N' {
                search_repeated(app, SearchDirection::Backward)
            } else {
                quiet(jumped(app, key.code, now))
            },
            KeyCode::Esc => quiet(AppModel { message: None, ..app }),
            _ => quiet(jumped(app, key.code, now)),
        },
    }
}

// ---------------------------------------------------------------------------------------
// Keys over a list
// ---------------------------------------------------------------------------------------

/// The item of the whole list that is selected.
pub open spec fn selected_item(overlay: OverlayModel) -> Option<int> {
    match overlay.filter {
        Some(filter) => if overlay.selected < filter.visible.len() {
            Some(filter.visible[overlay.selected])
        } else {
            None
        },
        None => Some(overlay.selected),
    }
}

/// The selection after a key that moves it.
pub open spec fn selection_after(
    selected: int,
    key: Key,
    page_rows: int,
    max_position: int,
) -> int {
    let page = greatest(page_rows - 1, 1);
    let half = greatest(page_rows / 2, 1);
    match key.code {
        KeyCode::Char(c) => if c == 'j' {
            selection_moved(selected, 1, max_position)
        } else if c == 'k' {
            selection_moved(selected, -1, max_position)
        } else if c == 'd' && key.control {
            selection_moved(selected, half, max_position)
        } else if c == 'u' && key.control {
            selection_moved(selected, -half, max_position)
        } else if c == ' ' {
            selection_moved(selected, page, max_position)
        } else if c == 'b' {
            selection_moved(selected, -page, max_position)
        } else if c == 'g' {
            0
        } else if c == 'G' {
            max_position
        } else {
            selected
        },
        KeyCode::Down => selection_moved(selected, 1, max_position),
        KeyCode::Up => selection_moved(selected, -1, max_position),
        KeyCode::PageDown | KeyCode::Right => selection_moved(selected, page, max_position),
        KeyCode::PageUp | KeyCode::Left => selection_moved(selected, -page, max_position),
        KeyCode::Home => 0,
        KeyCode::End => max_position,
        _ => selected,
    }
}

/// The offset of the section or bookmark that is selected.
pub open spec fn selected_offset(app: AppModel, overlay: OverlayModel) -> Option<int> {
    match selected_item(overlay) {
        Some(item) => match overlay.kind {
            OverlayKind::Toc => match app.reading {
                Some(reading) if 0 <= item < reading.loaded.document.toc.len() => Some(
                    reading.loaded.document.toc[item].offset,
                ),
                _ => None,
            },
            OverlayKind::Bookmarks => if 0 <= item < app.bookmarks.len() {
                Some(app.bookmarks[item].position)
            } else {
                None
            },
            _ => None,
        },
        None => None,
    }
}

/// The selection is gone to; where there is none, the list stays.
pub open spec fn overlay_entered(app: AppModel, overlay: OverlayModel, now: u64) -> Step {
    let closed = AppModel { overlay: None, ..app };
    match overlay.kind {
        OverlayKind::Toc | OverlayKind::Bookmarks => match selected_offset(app, overlay) {
            Some(offset) => quiet(gone_to_offset(closed, offset, now)),
            None => quiet(app),
        },
        OverlayKind::Recent => match selected_item(overlay) {
            Some(item) if 0 <= item < app.recent.len() => load_requested(
                closed,
                app.recent[item].path,
            ),
            _ => quiet(app),
        },
        OverlayKind::Files => match (selected_item(overlay), app.picker) {
            (Some(item), Some(picker)) if 0 <= item < picker.entries.len() => {
                let entry = picker.entries[item];
                if entry.is_directory {
                    Step { app: closed, actions: seq![ActionModel::ReadDirectory(entry.path)] }
                } else {
                    load_requested(closed, entry.path)
                }
            },
            _ => quiet(app),
        },
        OverlayKind::SearchResults => match app.session {
            Some(session) if overlay.selected < session.previews.len() => {
                let hit = session.previews[overlay.selected];
                let found = AppModel {
                    session: Some(SessionModel { current: Some(hit), ..session }),
                    ..closed
                };
                quiet(
                    with_message(
                        gone_to_hit(found, hit.0, now),
                        match_text(hit.1, session.total),
                    ),
                )
            },
            _ => quiet(app),
        },
        OverlayKind::Help | OverlayKind::Info => quiet(app),
    }
}

/// The bookmark that is selected is to be deleted.
pub open spec fn bookmark_deleted(app: AppModel, overlay: OverlayModel) -> Step {
    let actions = match (selected_item(overlay), app.reading) {
        (Some(item), Some(reading)) if 0 <= item < app.bookmarks.len() => seq![
            ActionModel::SaveBookmarks {
                path: reading.loaded.path,
                fingerprint: reading.loaded.fingerprint,
                bookmarks: app.bookmarks.remove(item),
                change: BookmarkChange::Deleted,
            },
        ],
        _ => Seq::empty(),
    };
    Step { app, actions: actions.push(ActionModel::RefreshBookmarks) }
}

/// The list is filtered by a query.
pub open spec fn filter_changed(
    app: AppModel,
    overlay: OverlayModel,
    query: Seq<char>,
    around: SurroundingsModel,
) -> AppModel {
    match overlay.filter {
        Some(filter) => {
            let visible = matching_items(query, unfiltered_items(app, around, overlay.kind));
            AppModel {
                overlay: Some(
                    OverlayModel {
                        kind: overlay.kind,
                        selected: reselected(filter, overlay.selected, visible),
                        filter: Some(FilterModel { query, visible }),
                    },
                ),
                max_position: greatest(visible.len() - 1, 0),
                list_offset: 0,
                ..app
            }
        },
        None => app,
    }
}

pub open spec fn overlay_query(overlay: OverlayModel) -> Seq<char> {
    match overlay.filter {
        Some(filter) => filter.query,
        None => Seq::empty(),
    }
}

/// A key while a filter is typed.
pub open spec fn filter_key(
    app: AppModel,
    overlay: OverlayModel,
    key: Key,
    around: SurroundingsModel,
) -> AppModel {
    let query = overlay_query(overlay);
    match key.code {
        KeyCode::Esc | KeyCode::Enter => AppModel { mode: InputMode::Normal, ..app },
        KeyCode::Backspace => filter_changed(app, overlay, without_last_cluster(query), around),
        KeyCode::Char(c) => if c == 'u' && key.control {
            filter_changed(app, overlay, Seq::empty(), around)
        } else if !key.control && !key.alt {
            filter_changed(app, overlay, query.push(c), around)
        } else {
            app
        },
        _ => app,
    }
}

/// A key while something is shown over the document.
pub open spec fn overlay_key(
    app: AppModel,
    overlay: OverlayModel,
    key: Key,
    around: SurroundingsModel,
    now: u64,
) -> Step {
    if app.mode == InputMode::Filter {
        quiet(filter_key(app, overlay, key, around))
    } else if key.code == KeyCode::Esc {
        quiet(AppModel { overlay: None, mode: InputMode::Normal, picker: None, ..app })
    } else if key.code == KeyCode::Char('/') && overlay.filter is Some {
        quiet(AppModel { mode: InputMode::Filter, message: None, ..app })
    } else if key.code == KeyCode::Enter {
        overlay_entered(app, overlay, now)
    } else if key.code == KeyCode::Char('x') && overlay.kind == OverlayKind::Bookmarks {
        bookmark_deleted(app, overlay)
    } else {
        quiet(
            AppModel {
                overlay: Some(
                    OverlayModel {
                        selected: selection_after(
                            overlay.selected,
                            key,
                            app.page_rows,
                            app.max_position,
                        ),
                        ..overlay
                    },
                ),
                ..app
            },
        )
    }
}

/// A key.
pub open spec fn key_pressed(
    app: AppModel,
    key: Key,
    around: SurroundingsModel,
    now: u64,
) -> Step {
    if key.control && key.code == KeyCode::Char('c') {
        quiet(AppModel { quit: true, ..app })
    } else {
        match app.overlay {
            Some(overlay) => overlay_key(app, overlay, key, around, now),
            None => match app.mode {
                InputMode::Normal => normal_key(app, key, now),
                InputMode::Command | InputMode::Search => input_key(app, key, around),
                InputMode::Filter => quiet(AppModel { mode: InputMode::Normal, ..app }),
            },
        }
    }
}

// ---------------------------------------------------------------------------------------
// The code
// ---------------------------------------------------------------------------------------

fn rows_to_move(key: Key, height: usize) -> (rows: Option<isize>)
    ensures
        match rows {
            Some(rows) => rows_of_key(key, height as int) == Some(rows as int),
            None => rows_of_key(key, height as int) is None,
        },
{
    let page: isize = if height < 1 {
        1
    } else if height < isize::MAX as usize {
        height as isize
    } else {
        isize::MAX
    };
    let half: isize = if height < 2 {
        1
    } else {
        (height / 2) as isize
    };
    match key.code {
        KeyCode::Char('j') | KeyCode::Down => Some(1),
        KeyCode::Char('k') | KeyCode::Up => Some(-1),
        KeyCode::Char('d') if key.control => Some(half),
        KeyCode::Char('u') if key.control => Some(-half),
        KeyCode::Char(' ') | KeyCode::PageDown | KeyCode::Right => Some(page),
        KeyCode::Char('b') | KeyCode::PageUp | KeyCode::Left => Some(-page),
        _ => None,
    }
}

fn move_selection(selected: usize, key: Key, page_rows: usize, max_position: usize) -> (moved:
    usize)
    ensures
        moved == selection_after(
            selected as int,
            key,
            page_rows as int,
            max_position as int,
        ),
{
    let page: usize = if page_rows > 2 {
        page_rows - 1
    } else {
        1
    };
    let half: usize = if page_rows > 3 {
        page_rows / 2
    } else {
        1
    };
    match key.code {
        KeyCode::Char(c) => if c == 'j' {
            move_down(selected, 1, max_position)
        } else if c == 'k' {
            selected.saturating_sub(1)
        } else if c == 'd' && key.control {
            move_down(selected, half, max_position)
        } else if c == 'u' && key.control {
            selected.saturating_sub(half)
        } else if c == ' ' {
            move_down(selected, page, max_position)
        } else if c == 'b' {
            selected.saturating_sub(page)
        } else if c == 'g' {
            0
        } else if c == 'G' {
            max_position
        } else {
            selected
        },
        KeyCode::Down => move_down(selected, 1, max_position),
        KeyCode::Up => selected.saturating_sub(1),
        KeyCode::PageDown | KeyCode::Right => move_down(selected, page, max_position),
        KeyCode::PageUp | KeyCode::Left => selected.saturating_sub(page),
        KeyCode::Home => 0,
        KeyCode::End => max_position,
        _ => selected,
    }
}

fn move_down(selected: usize, rows: usize, max_position: usize) -> (moved: usize)
    ensures
        moved == selection_moved(selected as int, rows as int, max_position as int),
{
    let below: usize = selected.saturating_add(rows);
    if below < max_position {
        below
    } else {
        max_position
    }
}

impl OverlayState {
    fn selected_original_index(&self) -> (item: Option<usize>)
        ensures
            super::labels::opt_int(item) == selected_item(self@),
    {
        match &self.filter {
            Some(filter) => filter.original_index(self.selected),
            None => Some(self.selected),
        }
    }
}

impl App {
    /// Does what a key asks for.
    pub fn handle_key(&mut self, key: Key, around: &Surroundings, now: u64) -> (actions: Vec<Action>)
        ensures
            stepped(final(self)@, actions@) == key_pressed(old(self)@, key, around@, now),
    {
        if key.control && key.code == KeyCode::Char('c') {
            self.should_quit = true;
            return no_actions();
        }
        if self.overlay.is_some() {
            return self.handle_overlay_key(key, around, now);
        }
        match self.input_mode {
            InputMode::Normal => self.handle_normal_key(key, now),
            InputMode::Command | InputMode::Search => self.handle_input_key(key, around),
            InputMode::Filter => {
                self.input_mode = InputMode::Normal;
                no_actions()
            },
        }
    }

    fn handle_normal_key(&mut self, key: Key, now: u64) -> (actions: Vec<Action>)
        ensures
            stepped(final(self)@, actions@) == normal_key(old(self)@, key, now),
    {
        if let Some(rows) = rows_to_move(key, self.viewport_height) {
            self.scroll(rows, now);
            return no_actions();
        }
        match key.code {
            KeyCode::Char(':') => self.begin_input(InputMode::Command),
            KeyCode::Char('/') => self.begin_input(InputMode::Search),
            KeyCode::Char('n') => {
                return self.repeat_search(SearchDirection::Forward);
            },
            KeyCode::Char('N') => {
                return self.repeat_search(SearchDirection::Backward);
            },
            KeyCode::Esc => {
                self.message = None;
            },
            code => self.jump(code, now),
        }
        no_actions()
    }

    fn jump(&mut self, code: KeyCode, now: u64)
        ensures
            final(self)@ == jumped(old(self)@, code, now),
    {
        match code {
            KeyCode::Char('g') | KeyCode::Home => self.goto_start(now),
            KeyCode::Char('G') | KeyCode::End => self.goto_end(now),
            KeyCode::Char(']') => self.goto_chapter(true, now),
            KeyCode::Char('[') => self.goto_chapter(false, now),
            _ => {},
        }
    }

    fn begin_input(&mut self, mode: InputMode)
        ensures
            final(self)@ == input_begun(old(self)@, mode),
    {
        self.input_mode = mode;
        self.input = LineInput::new();
        self.completion = None;
        self.message = None;
        self.reset_active_history_navigation();
    }

    fn reset_active_history_navigation(&mut self)
        ensures
            final(self)@ == navigation_reset(old(self)@),
    {
        match self.input_mode {
            InputMode::Command => self.command_history.reset_navigation(),
            InputMode::Search => self.search_history.reset_navigation(),
            InputMode::Normal | InputMode::Filter => {},
        }
    }

    fn navigate_input_history(&mut self, previous: bool)
        ensures
            final(self)@ == history_navigated(old(self)@, previous),
    {
        let current = self.input.text().to_owned();
        let replacement: Option<String> = match self.input_mode {
            InputMode::Command => if previous {
                self.command_history.previous(current.as_str())
            } else {
                self.command_history.next()
            },
            InputMode::Search => if previous {
                self.search_history.previous(current.as_str())
            } else {
                self.search_history.next()
            },
            InputMode::Normal | InputMode::Filter => None,
        };
        if let Some(text) = replacement {
            self.input = LineInput::of(text);
        }
    }

    fn handle_input_key(&mut self, key: Key, around: &Surroundings) -> (actions: Vec<Action>)
        ensures
            stepped(final(self)@, actions@) == input_key(old(self)@, key, around@),
    {
        if key.code == KeyCode::Tab {
            return if self.input_mode == InputMode::Command {
                self.complete_input()
            } else {
                no_actions()
            };
        }
        self.completion = None;
        match key.code {
            KeyCode::Esc => {
                self.input = LineInput::new();
                self.reset_active_history_navigation();
                self.input_mode = InputMode::Normal;
                no_actions()
            },
            KeyCode::Up => {
                self.navigate_input_history(true);
                no_actions()
            },
            KeyCode::Down => {
                self.navigate_input_history(false);
                no_actions()
            },
            KeyCode::Enter => self.enter_input(around),
            _ => {
                self.edit_input(key);
                no_actions()
            },
        }
    }

    fn edit_input(&mut self, key: Key)
        ensures
            final(self)@ == (AppModel { input: edited(old(self)@.input, key), ..old(self)@ }),
    {
        match key.code {
            KeyCode::Backspace => self.input.backspace(),
            KeyCode::Delete => self.input.delete(),
            KeyCode::Left => self.input.move_left(),
            KeyCode::Right => self.input.move_right(),
            KeyCode::Home => self.input.move_home(),
            KeyCode::End => self.input.move_end(),
            KeyCode::Char(c) => {
                if c == 'u' && key.control {
                    self.input = LineInput::new();
                } else if !key.control && !key.alt {
                    self.input.insert(c);
                }
            },
            _ => {},
        }
    }

    fn enter_input(&mut self, around: &Surroundings) -> (actions: Vec<Action>)
        ensures
            stepped(final(self)@, actions@) == entered(old(self)@, around@),
    {
        let text = self.input.text().to_owned();
        let mode = self.input_mode;
        self.input = LineInput::new();
        self.input_mode = InputMode::Normal;
        match mode {
            InputMode::Command => {
                let clears: bool = match parse_command(text.as_str()) {
                    Ok(Command::ClearHistory(_)) => true,
                    _ => false,
                };
                let actions = self.execute_command(text.as_str(), around);
                if clears {
                    actions
                } else {
                    self.record_input_history(InputMode::Command, text.as_str(), actions)
                }
            },
            InputMode::Search => {
                let query = SearchQuery::new(SearchKind::LooseLiteral, text.as_str());
                let actions = self.start_search(query, SearchDirection::Forward, None);
                self.record_input_history(InputMode::Search, text.as_str(), actions)
            },
            InputMode::Normal | InputMode::Filter => no_actions(),
        }
    }

    fn record_input_history(&mut self, mode: InputMode, text: &str, actions: Vec<Action>) -> (all:
        Vec<Action>)
        ensures
            stepped(final(self)@, all@) == input_recorded(
                stepped(old(self)@, actions@),
                mode,
                text@,
            ),
    {
        let changed: bool = match mode {
            InputMode::Search => self.search_history.record(text),
            _ => self.command_history.record(text),
        };
        if changed {
            let action = self.save_history_action();
            and_action(actions, action)
        } else {
            actions
        }
    }

    fn complete_input(&mut self) -> (actions: Vec<Action>)
        ensures
            stepped(final(self)@, actions@) == completed(old(self)@),
    {
        if let Some(completion) = self.completion.take() {
            let length: usize = completion.candidates.len();
            assert(string_texts(completion.candidates@).len() == length);
            if length > 0 {
                let index: usize = completion.next % length;
                assert(string_texts(completion.candidates@)[index as int]
                    == completion.candidates@[index as int]@);
                self.input = LineInput::of(completion.candidates[index].clone());
                self.completion = Some(
                    Completion { candidates: completion.candidates, next: index + 1 },
                );
                return no_actions();
            }
        }
        match plan_completion(&self.input) {
            CompletionPlan::Nothing => no_actions(),
            CompletionPlan::Commands(names) => {
                self.offer_candidates(names);
                no_actions()
            },
            CompletionPlan::Path(path) => one_action(Action::CompletePath(path)),
        }
    }

    /// Does what a line asks for.
    pub fn execute_command(&mut self, raw: &str, around: &Surroundings) -> (actions: Vec<Action>)
        ensures
            stepped(final(self)@, actions@) == executed(old(self)@, raw@, around@),
    {
        match parse_command(raw) {
            Ok(command) => self.do_command(command, around),
            Err(message) => {
                self.message = Some(message);
                no_actions()
            },
        }
    }

    fn current_toc_index(&self) -> (index: usize)
        ensures
            index == (match self@.reading {
                Some(reading) => greatest(
                    entries_until(reading.loaded.document.toc, anchor_of(self@), 0) - 1,
                    0,
                ),
                None => 0,
            }),
    {
        match &self.reading {
            Some(reading) => {
                let anchor: usize = reading.anchor();
                let toc = reading.loaded().document().toc();
                let ghost entries = toc_views(toc@);
                let mut i: usize = 0;
                while i < toc.len() && toc[i].offset() <= anchor
                    invariant
                        i <= toc@.len(),
                        entries == toc_views(toc@),
                        entries_until(entries, anchor as int, 0) == entries_until(
                            entries,
                            anchor as int,
                            i as int,
                        ),
                    decreases toc.len() - i,
                {
                    assert(entries[i as int] == toc@[i as int]@);
                    i += 1;
                }
                if i < toc.len() {
                    assert(entries[i as int] == toc@[i as int]@);
                }
                i.saturating_sub(1)
            },
            None => 0,
        }
    }

    fn current_bookmark_index(&self) -> (index: usize)
        ensures
            index == greatest(
                bookmarks_until(self@.bookmarks, anchor_of(self@), 0) - 1,
                0,
            ),
    {
        let anchor: usize = self.anchor();
        let ghost all = views_of(self.bookmarks@);
        let mut i: usize = 0;
        while i < self.bookmarks.len() && self.bookmarks[i].position <= anchor
            invariant
                i <= self.bookmarks@.len(),
                all == views_of(self.bookmarks@),
                bookmarks_until(all, anchor as int, 0) == bookmarks_until(
                    all,
                    anchor as int,
                    i as int,
                ),
            decreases self.bookmarks.len() - i,
        {
            assert(all[i as int] == self.bookmarks@[i as int]@);
            i += 1;
        }
        if i < self.bookmarks.len() {
            assert(all[i as int] == self.bookmarks@[i as int]@);
        }
        i.saturating_sub(1)
    }

    fn show_toc(&mut self)
        ensures
            final(self)@ == shown_for(old(self)@, CommandModel::Toc),
    {
        let listed: bool = match &self.reading {
            Some(reading) => {
                let toc = reading.loaded().document().toc();
                assert(toc_views(toc@).len() == toc@.len());
                toc.len() > 0
            },
            None => false,
        };
        if listed {
            let selected: usize = self.current_toc_index();
            self.show_overlay(OverlayKind::Toc, selected);
        } else {
            self.message = Some("This document has no table of contents".to_owned());
        }
    }

    fn show_bookmarks(&mut self)
        ensures
            final(self)@ == shown_for(old(self)@, CommandModel::Marks),
    {
        if self.reading.is_some() {
            let selected: usize = self.current_bookmark_index();
            self.show_overlay(OverlayKind::Bookmarks, selected);
        } else {
            self.message = Some("No document is open".to_owned());
        }
    }

    fn show_results(&mut self)
        ensures
            final(self)@ == shown_for(old(self)@, CommandModel::Results),
    {
        match self.current_result() {
            Some(selected) => self.show_overlay(OverlayKind::SearchResults, selected),
            None => {
                self.message = Some("No search results".to_owned());
            },
        }
    }

    fn show_info(&mut self)
        ensures
            final(self)@ == shown_for(old(self)@, CommandModel::Info),
    {
        if self.reading.is_some() {
            self.show_overlay(OverlayKind::Info, 0);
        } else {
            self.message = Some("No document is open".to_owned());
        }
    }

    fn show_theme(&mut self)
        ensures
            final(self)@ == shown_for(old(self)@, CommandModel::Theme(None)),
    {
        let mut message = chars_of("Theme: ");
        push_text(&mut message, self.theme_choice.name());
        self.message = Some(string_of(&message));
    }

    fn show_for(&mut self, command: Command)
        ensures
            final(self)@ == shown_for(old(self)@, command@),
    {
        match command {
            Command::Toc => self.show_toc(),
            Command::Marks => self.show_bookmarks(),
            Command::Results => self.show_results(),
            Command::Info => self.show_info(),
            Command::Help => self.show_overlay(OverlayKind::Help, 0),
            Command::Theme(None) => self.show_theme(),
            _ => {},
        }
    }

    fn do_command(&mut self, command: Command, around: &Surroundings) -> (actions: Vec<Action>)
        ensures
            stepped(final(self)@, actions@) == done(old(self)@, command@, around@),
    {
        match command {
            Command::Open(path) => one_action(Action::Open(request_command_path(path.as_str()))),
            Command::Quit => {
                self.should_quit = true;
                no_actions()
            },
            Command::Goto(number) => one_action(Action::GotoPercent(number)),
            Command::Mark(label) => self.add_bookmark(label, around.now_unix_ms),
            Command::Recent => one_action(Action::ListRecent),
            Command::Exact(pattern) => {
                let query = SearchQuery::new(SearchKind::ExactLiteral, pattern.as_str());
                self.start_search(query, SearchDirection::Forward, None)
            },
            Command::Regex(pattern) => {
                let query = SearchQuery::new(SearchKind::Regex, pattern.as_str());
                self.start_search(query, SearchDirection::Forward, None)
            },
            Command::Theme(Some(theme)) => {
                self.theme_choice = theme;
                one_action(Action::SaveTheme(theme))
            },
            Command::ClearHistory(scope) => {
                self.clear_input_history(scope);
                let action = self.save_history_action();
                one_action(action)
            },
            _ => {
                self.show_for(command);
                no_actions()
            },
        }
    }

    fn current_result(&self) -> (selected: Option<usize>)
        ensures
            super::labels::opt_int(selected) == (match self@.session {
                Some(session) if session.previews.len() > 0 => Some(current_result(session)),
                _ => None,
            }),
    {
        match &self.search_session {
            Some(session) => {
                if session.previews.len() == 0 {
                    return None;
                }
                match &session.current {
                    Some(current) => {
                        let i: usize = find_hit(&session.previews, current.ordinal);
                        if i < session.previews.len() {
                            Some(i)
                        } else {
                            Some(0)
                        }
                    },
                    None => Some(0),
                }
            },
            None => None,
        }
    }

    fn clear_input_history(&mut self, scope: HistoryScope)
        ensures
            final(self)@ == history_cleared(old(self)@, scope),
    {
        match scope {
            HistoryScope::All => {
                self.command_history.clear();
                self.search_history.clear();
                self.message = Some("History cleared".to_owned());
            },
            HistoryScope::Commands => {
                self.command_history.clear();
                self.message = Some("Command history cleared".to_owned());
            },
            HistoryScope::Searches => {
                self.search_history.clear();
                self.message = Some("Search history cleared".to_owned());
            },
        }
    }

    fn add_bookmark(&mut self, label: Option<String>, now: u128) -> (actions: Vec<Action>)
        ensures
            stepped(final(self)@, actions@) == bookmark_added(
                old(self)@,
                opt_text(label),
                now as int,
            ),
    {
        let reading = match &self.reading {
            Some(reading) => reading,
            None => {
                self.message = Some("No document is open".to_owned());
                return no_actions();
            },
        };
        let own: Option<String> = match label {
            Some(label) => {
                let text = trim_text(label.as_str());
                if chars_of(text.as_str()).len() > 0 {
                    Some(text)
                } else {
                    None
                }
            },
            None => None,
        };
        let too_long: bool = match &own {
            Some(text) => chars_of(text.as_str()).len() > BOOKMARK_LABEL_LIMIT,
            None => false,
        };
        if too_long {
            self.message = Some("Bookmark labels cannot exceed 120 characters".to_owned());
            return no_actions();
        }
        let bookmark = Bookmark {
            position: reading.anchor(),
            label: own,
            created_unix_ms: now,
        };
        let bookmarks = add_to_bookmarks(&self.bookmarks, bookmark);
        let loaded = reading.loaded();
        one_action(
            Action::SaveBookmarks {
                path: loaded.path().to_owned(),
                fingerprint: loaded.fingerprint().to_owned(),
                bookmarks,
                change: BookmarkChange::Saved,
            },
        )
    }

    fn delete_bookmark(&self, overlay: &OverlayState) -> (actions: Vec<Action>)
        ensures
            stepped(self@, actions@) == bookmark_deleted(self@, overlay@),
    {
        let actions: Vec<Action> = match (overlay.selected_original_index(), &self.reading) {
            (Some(item), Some(reading)) => if item < self.bookmarks.len() {
                let mut bookmarks = copy_bookmarks(&self.bookmarks);
                let ghost before = bookmarks@;
                let _ = bookmarks.remove(item);
                assert(views_of(bookmarks@) =~= views_of(before).remove(item as int));
                let loaded = reading.loaded();
                one_action(
                    Action::SaveBookmarks {
                        path: loaded.path().to_owned(),
                        fingerprint: loaded.fingerprint().to_owned(),
                        bookmarks,
                        change: BookmarkChange::Deleted,
                    },
                )
            } else {
                no_actions()
            },
            _ => no_actions(),
        };
        and_action(actions, Action::RefreshBookmarks)
    }

    fn handle_overlay_key(&mut self, key: Key, around: &Surroundings, now: u64) -> (actions: Vec<
        Action,
    >)
        requires
            old(self)@.overlay is Some,
        ensures
            stepped(final(self)@, actions@) == overlay_key(
                old(self)@,
                old(self)@.overlay->0,
                key,
                around@,
                now,
            ),
    {
        if self.input_mode == InputMode::Filter {
            self.handle_filter_key(key, around);
            return no_actions();
        }
        if key.code == KeyCode::Esc {
            self.overlay = None;
            self.input_mode = InputMode::Normal;
            self.file_picker = None;
            return no_actions();
        }
        let overlay = match self.overlay.take() {
            Some(overlay) => overlay,
            None => {
                return no_actions();
            },
        };
        if key.code == KeyCode::Char('/') && overlay.filter.is_some() {
            self.input_mode = InputMode::Filter;
            self.message = None;
            self.overlay = Some(overlay);
            no_actions()
        } else if key.code == KeyCode::Enter {
            self.enter_overlay(overlay, now)
        } else if key.code == KeyCode::Char('x') && overlay.kind == OverlayKind::Bookmarks {
            let actions = self.delete_bookmark(&overlay);
            self.overlay = Some(overlay);
            actions
        } else {
            let selected: usize = move_selection(
                overlay.selected,
                key,
                self.overlay_page_rows,
                self.overlay_max_position,
            );
            self.overlay = Some(
                OverlayState { kind: overlay.kind, selected, filter: overlay.filter },
            );
            no_actions()
        }
    }

    fn enter_overlay(&mut self, overlay: OverlayState, now: u64) -> (actions: Vec<Action>)
        requires
            old(self)@.overlay is None,
        ensures
            stepped(final(self)@, actions@) == overlay_entered(
                (AppModel { overlay: Some(overlay@), ..old(self)@ }),
                overlay@,
                now,
            ),
    {
        match overlay.kind {
            OverlayKind::Toc | OverlayKind::Bookmarks => {
                self.enter_place(overlay, now);
                no_actions()
            },
            OverlayKind::Recent => match overlay.selected_original_index() {
                Some(item) if item < self.recent_books.len() => {
                    let path = self.recent_books[item].path.clone();
                    self.start_load(path)
                },
                _ => {
                    self.overlay = Some(overlay);
                    no_actions()
                },
            },
            OverlayKind::Files => match self.chosen_file(&overlay) {
                Some(entry) => if entry.is_directory {
                    one_action(Action::ReadDirectory(entry.path))
                } else {
                    self.start_load(entry.path)
                },
                None => {
                    self.overlay = Some(overlay);
                    no_actions()
                },
            },
            OverlayKind::SearchResults => {
                self.enter_result(overlay, now);
                no_actions()
            },
            OverlayKind::Help | OverlayKind::Info => {
                self.overlay = Some(overlay);
                no_actions()
            },
        }
    }

    fn enter_place(&mut self, overlay: OverlayState, now: u64)
        requires
            old(self)@.overlay is None,
            overlay@.kind == OverlayKind::Toc || overlay@.kind == OverlayKind::Bookmarks,
        ensures
            quiet(final(self)@) == overlay_entered(
                (AppModel { overlay: Some(overlay@), ..old(self)@ }),
                overlay@,
                now,
            ),
    {
        match self.chosen_offset(&overlay) {
            Some(offset) => self.goto_byte(offset, now),
            None => {
                self.overlay = Some(overlay);
            },
        }
    }

    fn chosen_offset(&self, overlay: &OverlayState) -> (offset: Option<usize>)
        ensures
            super::labels::opt_int(offset) == selected_offset(self@, overlay@),
    {
        let item: usize = match overlay.selected_original_index() {
            Some(item) => item,
            None => {
                return None;
            },
        };
        match overlay.kind {
            OverlayKind::Toc => match &self.reading {
                Some(reading) => {
                    let toc = reading.loaded().document().toc();
                    assert(toc_views(toc@).len() == toc@.len());
                    if item < toc.len() {
                        assert(toc_views(toc@)[item as int] == toc@[item as int]@);
                        Some(toc[item].offset())
                    } else {
                        None
                    }
                },
                None => None,
            },
            OverlayKind::Bookmarks => if item < self.bookmarks.len() {
                Some(self.bookmarks[item].position)
            } else {
                None
            },
            _ => None,
        }
    }

    fn chosen_file(&self, overlay: &OverlayState) -> (entry: Option<FileEntry>)
        ensures
            super::opt_view(entry) == (match (selected_item(overlay@), self@.picker) {
                (Some(item), Some(picker)) if 0 <= item < picker.entries.len() => Some(
                    picker.entries[item],
                ),
                _ => None,
            }),
    {
        match (overlay.selected_original_index(), &self.file_picker) {
            (Some(item), Some(picker)) => if item < picker.entries.len() {
                Some(picker.entries[item].clone())
            } else {
                None
            },
            _ => None,
        }
    }

    fn enter_result(&mut self, overlay: OverlayState, now: u64)
        requires
            old(self)@.overlay is None,
            overlay@.kind == OverlayKind::SearchResults,
        ensures
            quiet(final(self)@) == overlay_entered(
                (AppModel { overlay: Some(overlay@), ..old(self)@ }),
                overlay@,
                now,
            ),
    {
        if let Some(session) = self.search_session.take() {
            let selected: usize = overlay.selected;
            if selected < session.previews.len() {
                let hit = session.previews[selected].clone();
                let ordinal: usize = hit.ordinal;
                let total: usize = session.total;
                let range = std::ops::Range { start: hit.range.start, end: hit.range.end };
                self.search_session = Some(
                    SearchSession {
                        query: session.query,
                        current: Some(hit),
                        total,
                        previews: session.previews,
                    },
                );
                self.goto_search_hit(range, now);
                self.message = Some(super::moves::match_message(ordinal, total));
                return;
            }
            self.search_session = Some(session);
        }
        self.overlay = Some(overlay);
    }

    fn handle_filter_key(&mut self, key: Key, around: &Surroundings)
        requires
            old(self)@.overlay is Some,
        ensures
            final(self)@ == filter_key(old(self)@, old(self)@.overlay->0, key, around@),
    {
        match key.code {
            KeyCode::Esc | KeyCode::Enter => {
                self.input_mode = InputMode::Normal;
            },
            KeyCode::Backspace => {
                let before = self.filter_query();
                let query = string_of(&chars_without_last(before.as_str()));
                self.update_overlay_filter(query, around);
            },
            KeyCode::Char(c) => {
                if c == 'u' && key.control {
                    self.update_overlay_filter(empty_text(), around);
                } else if !key.control && !key.alt {
                    let before = self.filter_query();
                    let mut query = chars_of(before.as_str());
                    query.push(c);
                    self.update_overlay_filter(string_of(&query), around);
                }
            },
            _ => {},
        }
    }

    fn update_overlay_filter(&mut self, query: String, around: &Surroundings)
        requires
            old(self)@.overlay is Some,
        ensures
            final(self)@ == filter_changed(
                old(self)@,
                old(self)@.overlay->0,
                query@,
                around@,
            ),
    {
        let kind = match &self.overlay {
            Some(overlay) => overlay.kind,
            None => OverlayKind::Help,
        };
        let labels = self.unfiltered_overlay_items(around, kind);
        if let Some(overlay) = self.overlay.take() {
            match overlay.filter {
                Some(own) => {
                    let mut filter = own;
                    let selected: usize = filter.update(query, &labels, overlay.selected);
                    let count: usize = filter.len();
                    self.overlay = Some(OverlayState { kind, selected, filter: Some(filter) });
                    self.overlay_max_position = count.saturating_sub(1);
                    self.overlay_list_offset = 0;
                },
                None => {
                    self.overlay = Some(
                        OverlayState { kind, selected: overlay.selected, filter: None },
                    );
                },
            }
        }
    }
}

fn copy_bookmarks(bookmarks: &[Bookmark]) -> (copy: Vec<Bookmark>)
    ensures
        views_of(copy@) == views_of(bookmarks@),
{
    let mut copy: Vec<Bookmark> = Vec::new();
    let mut i: usize = 0;
    while i < bookmarks.len()
        invariant
            i <= bookmarks@.len(),
            copy@.len() == i,
            forall|j: int| 0 <= j < i ==> (#[trigger] copy@[j])@ == bookmarks@[j]@,
        decreases bookmarks.len() - i,
    {
        copy.push(bookmarks[i].clone());
        i += 1;
    }
    assert(views_of(copy@) =~= views_of(bookmarks@));
    copy
}

fn add_to_bookmarks(bookmarks: &[Bookmark], bookmark: Bookmark) -> (all: Vec<Bookmark>)
    ensures
        views_of(all@) == with_bookmark(views_of(bookmarks@), bookmark@),
{
    let ghost own = views_of(bookmarks@);
    let ghost model = bookmark@;
    let mut i: usize = 0;
    while i < bookmarks.len() && bookmarks[i].position != bookmark.position
        invariant
            i <= bookmarks@.len(),
            own == views_of(bookmarks@),
            model == bookmark@,
            bookmark_at(own, model.position, 0) == bookmark_at(own, model.position, i as int),
        decreases bookmarks.len() - i,
    {
        assert(own[i as int] == bookmarks@[i as int]@);
        i += 1;
    }
    let mut all = copy_bookmarks(bookmarks);
    if i < bookmarks.len() {
        assert(own[i as int] == bookmarks@[i as int]@);
        let changed = Bookmark {
            position: bookmarks[i].position,
            label: bookmark.label,
            created_unix_ms: bookmarks[i].created_unix_ms,
        };
        let ghost before = all@;
        let ghost new = changed@;
        all.set(i, changed);
        assert(views_of(all@) =~= views_of(before).update(i as int, new));
        all
    } else {
        let ghost before = all@;
        all.push(bookmark);
        assert(views_of(all@) =~= views_of(before).push(model));
        sort_items(all)
    }
}

} // verus!

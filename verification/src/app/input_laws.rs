//! What is typed, and what commands do.
use vstd::prelude::*;

use super::actions::{ActionModel, BookmarkChange, KeyCode};
use super::key_laws::{char_key, control_key, plain_key};
use super::keys::{
    bookmark_at, bookmarks_until, entries_until, executed, key_pressed, with_bookmark,
};
use super::laws::{in_order, law_added_bookmark};
use super::lists::unfiltered_items;
use super::reading::ReadingModel;
use super::{quiet, AppModel, InputMode, OverlayKind, OverlayModel, SurroundingsModel};
use crate::command::{command_arguments, command_name, meant_command, CommandModel, HistoryScope};
use crate::document::TocModel;
use crate::filter::{label_matches, law_matching_items, FilterModel};
use crate::history::law_recorded_is_last;
use crate::input::{
    after_cursor, before_cursor, law_cursor_stays_in_the_line, law_deleting_a_cluster,
    law_right_of_the_cursor,
};
use crate::order::{law_sorting_keeps_items, ordered};
use crate::search::{SearchDirection, SearchKind};
use crate::state::{Bookmark, BookmarkModel};
use crate::strings::trimmed;
use crate::text::{byte_len, index_at, is_boundary, lemma_boundary_index};
use crate::theme::{law_theme_names, theme_name, ThemeChoice};

verus! {

/// A command or a search is typed, with the cursor between two characters.
pub open spec fn is_typed(app: AppModel) -> bool {
    &&& app.overlay is None
    &&& app.mode == InputMode::Command || app.mode == InputMode::Search
    &&& is_boundary(app.input.text, app.input.cursor)
}

/// A character that is typed stands before the cursor, and the rest of the line stays. Home and
/// End go to the ends of the line, and Control with u empties it.
pub proof fn law_typing(app: AppModel, c: char, around: SurroundingsModel, now: u64)
    requires
        is_typed(app),
    ensures
        ({
            let line = app.input;
            let k = index_at(line.text, line.cursor);
            let step = key_pressed(app, char_key(c), around, now);
            &&& step.actions.len() == 0
            &&& step.app.mode == app.mode
            &&& step.app.input.text == line.text.take(k) + seq![c] + line.text.skip(k)
            &&& step.app.input.cursor == byte_len(line.text.take(k).push(c))
        }),
        ({
            let home = key_pressed(app, plain_key(KeyCode::Home), around, now);
            let end = key_pressed(app, plain_key(KeyCode::End), around, now);
            let none = key_pressed(app, control_key('u'), around, now);
            &&& home.app.input.text == app.input.text && home.app.input.cursor == 0
            &&& end.app.input.text == app.input.text && end.app.input.cursor == byte_len(
                app.input.text,
            )
            &&& none.app.input.text.len() == 0 && none.app.input.cursor == 0
            &&& home.actions.len() == 0 && end.actions.len() == 0 && none.actions.len() == 0
        }),
{
    let line = app.input;
    let k = index_at(line.text, line.cursor);
    lemma_boundary_index(line.text, line.cursor);
    assert(line.text.take(k).push(c) + line.text.skip(k) =~= line.text.take(k) + seq![c]
        + line.text.skip(k));
}

/// Backspace takes away what is just before the cursor and Delete what is just after it: a whole
/// cluster, and nothing else. Left and Right pass over as much.
pub proof fn law_deleting(app: AppModel, around: SurroundingsModel, now: u64)
    requires
        is_typed(app),
    ensures
        ({
            let before = before_cursor(app.input);
            let behind = after_cursor(app.input);
            let back = key_pressed(app, plain_key(KeyCode::Backspace), around, now).app.input;
            let del = key_pressed(app, plain_key(KeyCode::Delete), around, now).app.input;
            let left = key_pressed(app, plain_key(KeyCode::Left), around, now).app.input;
            let right = key_pressed(app, plain_key(KeyCode::Right), around, now).app.input;
            &&& left.text == app.input.text && right.text == app.input.text
            &&& back.cursor == left.cursor
            &&& del.cursor == app.input.cursor
            &&& before.len() > 0 ==> left.cursor < app.input.cursor && back.text.len()
                < app.input.text.len()
            &&& before.len() == 0 ==> left.cursor == app.input.cursor && back == app.input
            &&& behind.len() > 0 ==> right.cursor > app.input.cursor && del.text.len()
                < app.input.text.len()
            &&& behind.len() == 0 ==> right.cursor == app.input.cursor && del == app.input
            &&& exists|n: int|
                0 <= n <= before.len() && back.text == #[trigger] before.take(n) + behind
            &&& exists|n: int|
                0 <= n <= behind.len() && del.text == before + #[trigger] behind.skip(n)
        }),
{
    law_cursor_stays_in_the_line(app.input);
    law_deleting_a_cluster(app.input);
}

/// Escape gives up what is typed.
pub proof fn law_escape_gives_up(app: AppModel, around: SurroundingsModel, now: u64)
    requires
        is_typed(app),
    ensures
        ({
            let step = key_pressed(app, plain_key(KeyCode::Esc), around, now);
            &&& step.actions.len() == 0
            &&& step.app.mode == InputMode::Normal
            &&& step.app.input.text.len() == 0
            &&& step.app.commands.entries == app.commands.entries
            &&& step.app.searches.entries == app.searches.entries
            &&& step.app.reading == app.reading
        }),
{
}

/// Enter looks for the text that is typed as a search: loosely, from the place that is read on
/// and down; and the text is remembered.
pub proof fn law_enter_searches(
    app: AppModel,
    reading: ReadingModel,
    around: SurroundingsModel,
    now: u64,
)
    requires
        is_typed(app),
        app.mode == InputMode::Search,
        app.reading == Some(reading),
        app.input.text.len() > 0,
    ensures
        ({
            let step = key_pressed(app, plain_key(KeyCode::Enter), around, now);
            &&& step.app.mode == InputMode::Normal
            &&& step.app.input.text.len() == 0
            &&& step.app.awaits_search
            &&& step.actions.len() > 0
            &&& step.actions[0] == ActionModel::Analyze {
                generation: step.app.search_generation,
                query: (SearchKind::LooseLiteral, app.input.text),
                from: reading.viewport.anchor,
                direction: SearchDirection::Forward,
            }
            &&& step.app.commands.entries == app.commands.entries
            &&& trimmed(app.input.text).len() > 0
                ==> step.app.searches.entries.len() > 0 && step.app.searches.entries.last()
                == trimmed(app.input.text)
        }),
{
    if trimmed(app.input.text).len() > 0 {
        law_recorded_is_last(app.searches, app.input.text);
    }
}

/// Up shows the input that was typed last, and Down after it what was being typed; for commands
/// and for searches each their own.
pub proof fn law_history_keys(app: AppModel, around: SurroundingsModel, now: u64)
    requires
        is_typed(app),
        app.mode == InputMode::Command ==> app.commands.cursor is None
            && app.commands.entries.len() > 0,
        app.mode == InputMode::Search ==> app.searches.cursor is None
            && app.searches.entries.len() > 0,
    ensures
        ({
            let up = key_pressed(app, plain_key(KeyCode::Up), around, now);
            let down = key_pressed(up.app, plain_key(KeyCode::Down), around, now);
            &&& up.actions.len() == 0 && down.actions.len() == 0
            &&& app.mode == InputMode::Command ==> up.app.input.text
                == app.commands.entries.last()
            &&& app.mode == InputMode::Search ==> up.app.input.text == app.searches.entries.last()
            &&& down.app.input.text == app.input.text
            &&& up.app.commands.entries == app.commands.entries
            &&& up.app.searches.entries == app.searches.entries
        }),
{
}

/// What is typed over a list is the query by which it is filtered: just those items are shown
/// that match it, in their order. Backspace makes the query shorter, and Control with u empties
/// it, and shows everything again. Enter and Escape end the typing and keep the filter.
pub proof fn law_filtering(
    app: AppModel,
    overlay: OverlayModel,
    filter: FilterModel,
    c: char,
    around: SurroundingsModel,
    now: u64,
)
    requires
        app.overlay == Some(overlay),
        app.mode == InputMode::Filter,
        overlay.filter == Some(filter),
    ensures
        ({
            let typed = key_pressed(app, char_key(c), around, now).app.overlay->0;
            let emptied = key_pressed(app, control_key('u'), around, now).app.overlay->0;
            let items = unfiltered_items(app, around, overlay.kind);
            &&& typed.kind == overlay.kind && emptied.kind == overlay.kind
            &&& typed.filter matches Some(next) && next.query == filter.query.push(c)
                && shows_matching(next, items)
            &&& emptied.filter matches Some(next) && next.query.len() == 0 && shows_matching(
                next,
                items,
            )
            &&& key_pressed(app, plain_key(KeyCode::Enter), around, now) == quiet(
                AppModel { mode: InputMode::Normal, ..app },
            )
            &&& key_pressed(app, plain_key(KeyCode::Esc), around, now) == quiet(
                AppModel { mode: InputMode::Normal, ..app },
            )
        }),
{
    let items = unfiltered_items(app, around, overlay.kind);
    law_matching_items(filter.query.push(c), items);
    law_matching_items(Seq::empty(), items);
}

/// Just the items that match are shown, in their order.
pub open spec fn shows_matching(filter: FilterModel, items: Seq<Seq<char>>) -> bool {
    &&& forall|i: int|
        0 <= i < filter.visible.len() ==> 0 <= #[trigger] filter.visible[i] < items.len()
            && label_matches(filter.query, items[filter.visible[i]])
    &&& forall|i: int, j: int|
        0 <= i < j < filter.visible.len() ==> #[trigger] filter.visible[i]
            < #[trigger] filter.visible[j]
    &&& forall|k: int|
        0 <= k < items.len() && label_matches(filter.query, #[trigger] items[k])
            ==> filter.visible.contains(k)
}

/// The words with which commands begin are different.
proof fn lemma_words_differ()
    ensures
        "e"@.len() == 1 && "e"@[0] == 'e',
        "open"@.len() == 4 && "open"@[0] == 'o',
        "q"@.len() == 1 && "q"@[0] == 'q',
        "quit"@.len() == 4 && "quit"@[0] == 'q',
        "toc"@.len() == 3 && "toc"@[0] == 't',
        "mark"@.len() == 4 && "mark"@[0] == 'm',
        "marks"@.len() == 5 && "marks"@[0] == 'm',
        "bookmarks"@.len() == 9 && "bookmarks"@[0] == 'b',
        "recent"@.len() == 6 && "recent"@[0] == 'r',
        "exact"@.len() == 5 && "exact"@[0] == 'e',
        "re"@.len() == 2 && "re"@[0] == 'r',
        "regex"@.len() == 5 && "regex"@[0] == 'r',
        "results"@.len() == 7 && "results"@[0] == 'r',
        "info"@.len() == 4 && "info"@[0] == 'i',
        "help"@.len() == 4 && "help"@[0] == 'h',
        "h"@.len() == 1 && "h"@[0] == 'h',
        "goto"@.len() == 4 && "goto"@[0] == 'g',
        "theme"@.len() == 5 && "theme"@[0] == 't',
        "history"@.len() == 7 && "history"@[0] == 'h',
{
    reveal_strlit("e");
    reveal_strlit("open");
    reveal_strlit("q");
    reveal_strlit("quit");
    reveal_strlit("toc");
    reveal_strlit("mark");
    reveal_strlit("marks");
    reveal_strlit("bookmarks");
    reveal_strlit("recent");
    reveal_strlit("exact");
    reveal_strlit("re");
    reveal_strlit("regex");
    reveal_strlit("results");
    reveal_strlit("info");
    reveal_strlit("help");
    reveal_strlit("h");
    reveal_strlit("goto");
    reveal_strlit("theme");
    reveal_strlit("history");
}

/// The words with which commands begin, each with what it means; `None` stands for none given.
proof fn lemma_command_words(name: Seq<char>, arguments: Seq<char>)
    ensures
        ({
            let meant = meant_command(name, arguments);
            let none = arguments.len() == 0;
            &&& (name == "e"@ || name == "open"@) && !none ==> meant == Ok::<_, Seq<char>>(
                CommandModel::Open(arguments),
            )
            &&& name == "q"@ || name == "quit"@ ==> meant == Ok::<_, Seq<char>>(CommandModel::Quit)
            &&& name == "toc"@ ==> meant == Ok::<_, Seq<char>>(CommandModel::Toc)
            &&& name == "mark"@ && none ==> meant == Ok::<_, Seq<char>>(CommandModel::Mark(None))
            &&& name == "mark"@ && !none ==> meant == Ok::<_, Seq<char>>(
                CommandModel::Mark(Some(arguments)),
            )
            &&& name == "marks"@ || name == "bookmarks"@ ==> meant == Ok::<_, Seq<char>>(
                CommandModel::Marks,
            )
            &&& name == "recent"@ ==> meant == Ok::<_, Seq<char>>(CommandModel::Recent)
            &&& name == "exact"@ && !none ==> meant == Ok::<_, Seq<char>>(
                CommandModel::Exact(arguments),
            )
            &&& (name == "re"@ || name == "regex"@) && !none ==> meant == Ok::<_, Seq<char>>(
                CommandModel::Regex(arguments),
            )
            &&& name == "results"@ ==> meant == Ok::<_, Seq<char>>(CommandModel::Results)
            &&& name == "info"@ ==> meant == Ok::<_, Seq<char>>(CommandModel::Info)
            &&& name == "help"@ || name == "h"@ ==> meant == Ok::<_, Seq<char>>(CommandModel::Help)
            &&& name == "goto"@ ==> (meant matches Ok(command) && command is Goto)
            &&& name == "theme"@ && none ==> meant == Ok::<_, Seq<char>>(CommandModel::Theme(None))
        }),
{
    lemma_words_differ();
}

/// A list is shown over the document, with an item selected, and nothing else has changed but
/// that the typing has ended.
pub open spec fn only_shows(
    app: AppModel,
    after: AppModel,
    kind: OverlayKind,
    selected: int,
) -> bool {
    &&& after.overlay matches Some(overlay) && overlay.kind == kind && overlay.selected == selected
        && (overlay.filter matches Some(filter) ==> filter.query.len() == 0)
    &&& after == (AppModel {
        overlay: after.overlay,
        mode: InputMode::Normal,
        picker: None,
        list_offset: 0,
        ..app
    })
}

/// The commands that show something: toc the table of contents at the section that is read,
/// marks the bookmarks at the last one above, info and help what their names say, results the
/// matches of the last search; where there is nothing to show, the message tells so.
pub proof fn law_commands_that_show(
    app: AppModel,
    reading: ReadingModel,
    raw: Seq<char>,
    around: SurroundingsModel,
    k: int,
)
    requires
        app.reading == Some(reading),
    ensures
        ({
            let name = command_name(raw);
            let step = executed(app, raw, around);
            let toc = reading.loaded.document.toc;
            let anchor = reading.viewport.anchor;
            &&& name == "toc"@ && 0 <= k < toc.len() && toc[k].offset <= anchor && (forall|i: int|
                0 <= i < k ==> (#[trigger] toc[i]).offset <= anchor) && (k + 1 < toc.len()
                ==> toc[k + 1].offset > anchor) ==> step.actions.len() == 0 && only_shows(
                app,
                step.app,
                OverlayKind::Toc,
                k,
            )
            &&& (name == "marks"@ || name == "bookmarks"@) && 0 <= k < app.bookmarks.len()
                && app.bookmarks[k].position <= anchor && (forall|i: int|
                0 <= i < k ==> (#[trigger] app.bookmarks[i]).position <= anchor) && (k + 1
                < app.bookmarks.len() ==> app.bookmarks[k + 1].position > anchor)
                ==> step.actions.len() == 0 && only_shows(
                app,
                step.app,
                OverlayKind::Bookmarks,
                k,
            )
            &&& name == "info"@ ==> step.actions.len() == 0 && only_shows(
                app,
                step.app,
                OverlayKind::Info,
                0,
            )
            &&& name == "help"@ || name == "h"@ ==> step.actions.len() == 0 && only_shows(
                app,
                step.app,
                OverlayKind::Help,
                0,
            )
            &&& name == "toc"@ && toc.len() == 0 ==> step == quiet(
                AppModel { message: Some("This document has no table of contents"@), ..app },
            )
            &&& name == "results"@ && app.session is None ==> step == quiet(
                AppModel { message: Some("No search results"@), ..app },
            )
        }),
{
    lemma_command_words(command_name(raw), command_arguments(raw));
    let toc = reading.loaded.document.toc;
    let anchor = reading.viewport.anchor;
    if 0 <= k < toc.len() && toc[k].offset <= anchor && (forall|i: int|
        0 <= i < k ==> (#[trigger] toc[i]).offset <= anchor) && (k + 1 < toc.len() ==> toc[k
        + 1].offset > anchor) {
        lemma_entries_until(toc, anchor, 0, k);
    }
    let marks = app.bookmarks;
    if 0 <= k < marks.len() && marks[k].position <= anchor && (forall|i: int|
        0 <= i < k ==> (#[trigger] marks[i]).position <= anchor) && (k + 1 < marks.len()
        ==> marks[k + 1].position > anchor) {
        lemma_bookmarks_until(marks, anchor, 0, k);
    }
}

proof fn lemma_entries_until(toc: Seq<TocModel>, anchor: int, i: int, k: int)
    requires
        0 <= i <= k + 1 <= toc.len(),
        forall|j: int| 0 <= j <= k ==> (#[trigger] toc[j]).offset <= anchor,
        k + 1 < toc.len() ==> toc[k + 1].offset > anchor,
    ensures
        entries_until(toc, anchor, i) == k + 1,
    decreases k + 1 - i,
{
    if i <= k {
        assert(toc[i].offset <= anchor);
        lemma_entries_until(toc, anchor, i + 1, k);
    }
}

proof fn lemma_bookmarks_until(marks: Seq<BookmarkModel>, anchor: int, i: int, k: int)
    requires
        0 <= i <= k + 1 <= marks.len(),
        forall|j: int| 0 <= j <= k ==> (#[trigger] marks[j]).position <= anchor,
        k + 1 < marks.len() ==> marks[k + 1].position > anchor,
    ensures
        bookmarks_until(marks, anchor, i) == k + 1,
    decreases k + 1 - i,
{
    if i <= k {
        assert(marks[i].position <= anchor);
        lemma_bookmarks_until(marks, anchor, i + 1, k);
    }
}

/// The commands that ask for something to be done: e and open for a file, recent for the recent
/// books, exact and re for a search of their kind from the place that is read on and down, mark
/// for a bookmark at that place. The command q ends the application.
pub proof fn law_commands_that_ask(
    app: AppModel,
    reading: ReadingModel,
    raw: Seq<char>,
    around: SurroundingsModel,
)
    requires
        app.reading == Some(reading),
    ensures
        ({
            let name = command_name(raw);
            let arguments = command_arguments(raw);
            let some = arguments.len() > 0;
            let step = executed(app, raw, around);
            &&& (name == "e"@ || name == "open"@) && some ==> step.app == app && step.actions.len()
                == 1 && step.actions[0] is Open
            &&& name == "recent"@ ==> step.app == app && step.actions == seq![
                ActionModel::ListRecent,
            ]
            &&& name == "exact"@ && some ==> step.actions == seq![
                ActionModel::Analyze {
                    generation: step.app.search_generation,
                    query: (SearchKind::ExactLiteral, arguments),
                    from: reading.viewport.anchor,
                    direction: SearchDirection::Forward,
                },
            ]
            &&& (name == "re"@ || name == "regex"@) && some ==> step.actions == seq![
                ActionModel::Analyze {
                    generation: step.app.search_generation,
                    query: (SearchKind::Regex, arguments),
                    from: reading.viewport.anchor,
                    direction: SearchDirection::Forward,
                },
            ]
            &&& name == "mark"@ && arguments.len() <= 120 ==> step.app == app
                && step.actions.len() == 1 && (step.actions[0] matches ActionModel::SaveBookmarks {
                path,
                fingerprint,
                change,
                ..
            } && path == reading.loaded.path && fingerprint == reading.loaded.fingerprint && change
                == BookmarkChange::Saved)
            &&& name == "q"@ || name == "quit"@ ==> step == quiet(AppModel { quit: true, ..app })
        }),
{
    lemma_command_words(command_name(raw), command_arguments(raw));
    lemma_trimmed_is_shorter(command_arguments(raw));
}

proof fn lemma_trimmed_is_shorter(s: Seq<char>)
    ensures
        trimmed(s).len() <= s.len(),
{
    crate::strings::lemma_leading_spaces(s);
    crate::strings::lemma_trimmed_end(crate::strings::trimmed_start(s));
}

/// A bookmark is asked for at the place that is read, with the label that is given and the time
/// of the command; the other bookmarks are kept.
pub proof fn law_mark_adds_a_bookmark(
    app: AppModel,
    reading: ReadingModel,
    raw: Seq<char>,
    around: SurroundingsModel,
)
    requires
        app.reading == Some(reading),
        command_name(raw) == "mark"@,
        0 < trimmed(command_arguments(raw)).len() <= 120,
        in_order(app.bookmarks),
        forall|i: int|
            0 <= i < app.bookmarks.len() ==> (#[trigger] app.bookmarks[i]).position
                != reading.viewport.anchor,
    ensures
        executed(app, raw, around).actions[0] matches ActionModel::SaveBookmarks {
            bookmarks,
            ..
        } && bookmarks.contains(
            BookmarkModel {
                position: reading.viewport.anchor,
                label: Some(trimmed(command_arguments(raw))),
                created: around.now,
            },
        ) && forall|i: int|
            0 <= i < app.bookmarks.len() ==> bookmarks.contains(#[trigger] app.bookmarks[i]),
{
    lemma_command_words(command_name(raw), command_arguments(raw));
    if command_arguments(raw).len() == 0 {
        assert(trimmed(command_arguments(raw)).len() == 0) by {
            lemma_trimmed_is_shorter(command_arguments(raw));
        }
    }
    let bookmark = BookmarkModel {
        position: reading.viewport.anchor,
        label: Some(trimmed(command_arguments(raw))),
        created: around.now,
    };
    law_added_bookmark(app.bookmarks, bookmark);
    lemma_bookmark_is_new(app.bookmarks, bookmark.position, 0);
    let all = with_bookmark(app.bookmarks, bookmark);
    lemma_pushed_is_there(app.bookmarks.push(bookmark), bookmark);
    assert(all == ordered::<Bookmark>(app.bookmarks.push(bookmark)));
}

proof fn lemma_bookmark_is_new(bookmarks: Seq<BookmarkModel>, position: int, i: int)
    requires
        0 <= i <= bookmarks.len(),
        forall|j: int| 0 <= j < bookmarks.len() ==> (#[trigger] bookmarks[j]).position != position,
    ensures
        bookmark_at(bookmarks, position, i) == bookmarks.len(),
    decreases bookmarks.len() - i,
{
    if i < bookmarks.len() {
        assert(bookmarks[i].position != position);
        lemma_bookmark_is_new(bookmarks, position, i + 1);
    }
}

proof fn lemma_pushed_is_there(bookmarks: Seq<BookmarkModel>, bookmark: BookmarkModel)
    requires
        bookmarks.len() > 0,
        bookmarks.last() == bookmark,
    ensures
        ordered::<Bookmark>(bookmarks).contains(bookmark),
{
    broadcast use vstd::seq_lib::group_to_multiset_ensures;

    law_sorting_keeps_items::<Bookmark>(bookmarks);
    assert(bookmarks[bookmarks.len() - 1] == bookmark);
    assert(bookmarks.to_multiset().count(bookmark) > 0);
    assert(ordered::<Bookmark>(bookmarks).to_multiset().count(bookmark) > 0);
}

/// A theme that is chosen is used from then on, and asked to be saved.
pub proof fn law_theme_command(
    app: AppModel,
    raw: Seq<char>,
    around: SurroundingsModel,
    theme: ThemeChoice,
)
    requires
        command_name(raw) == "theme"@,
        command_arguments(raw) == theme_name(theme),
    ensures
        executed(app, raw, around).app == (AppModel { theme, ..app }),
        executed(app, raw, around).actions == seq![ActionModel::SaveTheme(theme)],
{
    lemma_command_words(command_name(raw), command_arguments(raw));
    law_theme_names(theme, command_arguments(raw));
    reveal_strlit("auto");
    reveal_strlit("light");
    reveal_strlit("dark");
    lemma_theme_word(command_arguments(raw), theme);
}

proof fn lemma_theme_word(arguments: Seq<char>, theme: ThemeChoice)
    requires
        arguments == theme_name(theme),
    ensures
        meant_command("theme"@, arguments) == Ok::<_, Seq<char>>(
            CommandModel::Theme(Some(theme)),
        ),
{
    reveal_strlit("auto");
    reveal_strlit("light");
    reveal_strlit("dark");
    assert(arguments.len() > 0);
    law_theme_names(theme, arguments);
    lemma_words_differ();
}

/// The command clears the histories that it names, and both where it names none; everything else
/// stays.
pub proof fn law_history_command(app: AppModel, raw: Seq<char>, around: SurroundingsModel)
    requires
        command_name(raw) == "history"@,
    ensures
        ({
            let after = executed(app, raw, around).app;
            let arguments = command_arguments(raw);
            &&& arguments == "clear"@ || arguments == "clear all"@
                ==> after.commands.entries.len() == 0 && after.searches.entries.len() == 0
            &&& arguments == "clear commands"@ ==> after.commands.entries.len() == 0
                && after.searches == app.searches
            &&& arguments == "clear searches"@ ==> after.searches.entries.len() == 0
                && after.commands == app.commands
            &&& after.reading == app.reading && after.bookmarks == app.bookmarks
        }),
{
    lemma_words_differ();
    reveal_strlit("clear");
    reveal_strlit("clear all");
    reveal_strlit("clear commands");
    reveal_strlit("clear searches");
    lemma_history_meant(command_arguments(raw));
}

proof fn lemma_history_meant(arguments: Seq<char>)
    ensures
        meant_command("history"@, arguments) matches Ok(command) ==> command is ClearHistory,
        arguments == "clear"@ || arguments == "clear all"@ ==> meant_command(
            "history"@,
            arguments,
        ) == Ok::<_, Seq<char>>(CommandModel::ClearHistory(HistoryScope::All)),
        arguments == "clear commands"@ ==> meant_command("history"@, arguments) == Ok::<
            _,
            Seq<char>,
        >(CommandModel::ClearHistory(HistoryScope::Commands)),
        arguments == "clear searches"@ ==> meant_command("history"@, arguments) == Ok::<
            _,
            Seq<char>,
        >(CommandModel::ClearHistory(HistoryScope::Searches)),
{
    lemma_words_differ();
    reveal_strlit("clear");
    reveal_strlit("clear all");
    reveal_strlit("clear commands");
    reveal_strlit("clear searches");
    assert("clear commands"@[6] == 'c');
    assert("clear searches"@[6] == 's');
}

/// Left goes to where Backspace would take the cursor, and Right over what Delete would take
/// away; the line stays as it is.
pub proof fn law_cursor_keys(app: AppModel, around: SurroundingsModel, now: u64)
    requires
        is_typed(app),
    ensures
        ({
            let line = app.input;
            let left = key_pressed(app, plain_key(KeyCode::Left), around, now);
            let right = key_pressed(app, plain_key(KeyCode::Right), around, now);
            let back = key_pressed(app, plain_key(KeyCode::Backspace), around, now);
            let gone = key_pressed(app, plain_key(KeyCode::Delete), around, now);
            &&& left.app.input.text == line.text && right.app.input.text == line.text
            &&& left.app.input.cursor == back.app.input.cursor
            &&& right.app.input.cursor - line.cursor == byte_len(line.text) - byte_len(
                gone.app.input.text,
            )
            &&& left.actions.len() == 0 && right.actions.len() == 0
        }),
{
    let line = app.input;
    lemma_boundary_index(line.text, line.cursor);
    law_cursor_stays_in_the_line(line);
    law_deleting_a_cluster(line);
    law_right_of_the_cursor(line);
}

} // verus!

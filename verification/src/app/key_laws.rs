//! What the keys do, as the reader sees it.
use vstd::prelude::*;

use super::actions::{ActionModel, Key, KeyCode};
use super::keys::{key_pressed, rows_of_key};
use super::labels::entry_before;
use super::laws::law_sections_in_turn;
use super::moves::{entry_after, gone_to_offset, wheel_turned};
use super::reading::{reading_text, ReadingModel};
use super::{quiet, AppModel, InputMode, SessionModel, Step, SurroundingsModel};
use crate::document::in_order;
use crate::search::SearchDirection;
use crate::text::{
    index_at, is_boundary, lemma_boundary_index, lemma_floor_boundary, offset_at,
};
use crate::viewport::{
    law_end_shows_the_last_row, law_row_at_top, law_scrolling_moves_by_rows, law_target_is_shown,
    row_at, shown,
};
use crate::wrap::{lemma_all_rows, lemma_row_of, rows};

verus! {

/// A key that is pressed alone.
pub open spec fn plain_key(code: KeyCode) -> Key {
    Key { code, control: false, alt: false }
}

/// A character that is pressed alone.
pub open spec fn char_key(c: char) -> Key {
    plain_key(KeyCode::Char(c))
}

/// A character that is pressed while Control is held.
pub open spec fn control_key(c: char) -> Key {
    Key { code: KeyCode::Char(c), control: true, alt: false }
}

/// A document is read, and nothing else is shown or typed.
pub open spec fn is_read(app: AppModel, reading: ReadingModel) -> bool {
    &&& app.overlay is None
    &&& app.mode == InputMode::Normal
    &&& app.reading == Some(reading)
    &&& 1 <= app.viewport_height <= isize::MAX
    &&& 1 <= reading.viewport.height
    &&& is_boundary(reading_text(reading), reading.viewport.anchor)
    &&& top_row(reading) == 0 || top_row(reading) + reading.viewport.height <= row_count(reading)
}

/// The row at the top of the screen.
pub open spec fn top_row(reading: ReadingModel) -> int {
    row_at(reading_text(reading), reading.viewport.width, reading.viewport.anchor)
}

/// The number of rows of the document.
pub open spec fn row_count(reading: ReadingModel) -> int {
    rows(reading_text(reading), reading.viewport.width).len() as int
}

/// The document with which an application goes on.
pub open spec fn read_after(step: Step) -> ReadingModel {
    step.app.reading->0
}

/// Only the place that is read has changed, and that it has is to be remembered; nothing is to
/// be done outside.
pub open spec fn only_moved(app: AppModel, reading: ReadingModel, step: Step, now: u64) -> bool {
    let after = step.app;
    &&& step.actions.len() == 0
    &&& after.reading is Some
    &&& after == (AppModel {
        reading: after.reading,
        current_match: after.current_match,
        dirty: after.dirty,
        last_move: after.last_move,
        ..app
    })
    &&& read_after(step) == (ReadingModel {
        viewport: crate::viewport::ViewportModel {
            anchor: read_after(step).viewport.anchor,
            ..reading.viewport
        },
        ..reading
    })
    &&& read_after(step).viewport.anchor != reading.viewport.anchor ==> after.dirty
        && after.last_move == now && after.current_match is None
}

/// The screen moved down by `n` rows, or up where `n` is negative, as far as there are rows, and
/// never the other way.
pub open spec fn moved_by(app: AppModel, reading: ReadingModel, step: Step, now: u64, n: int) -> bool {
    let row = top_row(reading);
    let next = top_row(read_after(step));
    let height = reading.viewport.height;
    let count = row_count(reading);
    &&& only_moved(app, reading, step, now)
    &&& n > 0 ==> next >= row
    &&& n < 0 ==> next <= row
    &&& 0 <= row + n && row + n + height <= count ==> next == row + n
    &&& row + n < 0 ==> next == 0
    &&& n > 0 && row + n + height > count && count >= height ==> next + height == count
    &&& count <= height ==> next == 0
    &&& read_after(step).viewport.anchor == offset_at(
        reading_text(reading),
        rows(reading_text(reading), reading.viewport.width)[next].0,
    )
}

proof fn lemma_scroll_key(
    app: AppModel,
    reading: ReadingModel,
    key: Key,
    around: SurroundingsModel,
    now: u64,
    n: int,
)
    requires
        is_read(app, reading),
        rows_of_key(key, app.viewport_height) == Some(n),
        n != 0,
        !(key.control && key.code == KeyCode::Char('c')),
    ensures
        moved_by(app, reading, key_pressed(app, key, around, now), now, n),
{
    law_scrolling_moves_by_rows(reading_text(reading), reading.viewport, n);
}

/// The keys j and Down move the screen one row down, k and Up one row up.
pub proof fn law_line_keys(
    app: AppModel,
    reading: ReadingModel,
    around: SurroundingsModel,
    now: u64,
)
    requires
        is_read(app, reading),
    ensures
        ({
            let j = key_pressed(app, char_key('j'), around, now);
            let k = key_pressed(app, char_key('k'), around, now);
            &&& moved_by(app, reading, j, now, 1)
            &&& key_pressed(app, plain_key(KeyCode::Down), around, now) == j
            &&& moved_by(app, reading, k, now, -1)
            &&& key_pressed(app, plain_key(KeyCode::Up), around, now) == k
        }),
{
    lemma_scroll_key(app, reading, char_key('j'), around, now, 1);
    lemma_scroll_key(app, reading, char_key('k'), around, now, -1);
}

/// Space, PageDown and Right move the screen down by all its rows; b, PageUp and Left move it up
/// by as many.
pub proof fn law_page_keys(
    app: AppModel,
    reading: ReadingModel,
    around: SurroundingsModel,
    now: u64,
)
    requires
        is_read(app, reading),
    ensures
        ({
            let down = key_pressed(app, char_key(' '), around, now);
            let up = key_pressed(app, char_key('b'), around, now);
            &&& moved_by(app, reading, down, now, app.viewport_height)
            &&& key_pressed(app, plain_key(KeyCode::PageDown), around, now) == down
            &&& key_pressed(app, plain_key(KeyCode::Right), around, now) == down
            &&& moved_by(app, reading, up, now, -app.viewport_height)
            &&& key_pressed(app, plain_key(KeyCode::PageUp), around, now) == up
            &&& key_pressed(app, plain_key(KeyCode::Left), around, now) == up
        }),
{
    lemma_scroll_key(app, reading, char_key(' '), around, now, app.viewport_height);
    lemma_scroll_key(app, reading, char_key('b'), around, now, -app.viewport_height);
}

/// Control with d moves the screen down by half its rows, but one at least, and Control with u
/// moves it up by as many. Twice the half is the whole, but for an odd row.
pub proof fn law_half_page_keys(
    app: AppModel,
    reading: ReadingModel,
    around: SurroundingsModel,
    now: u64,
    half: int,
)
    requires
        is_read(app, reading),
        app.viewport_height == 1 ==> half == 1,
        app.viewport_height > 1 ==> app.viewport_height - 1 <= 2 * half <= app.viewport_height,
    ensures
        moved_by(app, reading, key_pressed(app, control_key('d'), around, now), now, half),
        moved_by(app, reading, key_pressed(app, control_key('u'), around, now), now, -half),
{
    lemma_scroll_key(app, reading, control_key('d'), around, now, half);
    lemma_scroll_key(app, reading, control_key('u'), around, now, -half);
}

/// The keys g and Home lead to the start of the document, G and End to its last screen, which
/// ends with its last row.
pub proof fn law_edge_keys(
    app: AppModel,
    reading: ReadingModel,
    around: SurroundingsModel,
    now: u64,
)
    requires
        is_read(app, reading),
    ensures
        ({
            let start = key_pressed(app, char_key('g'), around, now);
            let end = key_pressed(app, char_key('G'), around, now);
            let text = reading_text(reading);
            let last = shown(text, read_after(end).viewport);
            &&& only_moved(app, reading, start, now)
            &&& read_after(start).viewport.anchor == 0
            &&& key_pressed(app, plain_key(KeyCode::Home), around, now) == start
            &&& only_moved(app, reading, end, now)
            &&& last.len() > 0 && last.last() == rows(text, reading.viewport.width).last()
            &&& last.len() == reading.viewport.height || last == rows(
                text,
                reading.viewport.width,
            )
            &&& key_pressed(app, plain_key(KeyCode::End), around, now) == end
        }),
{
    let text = reading_text(reading);
    let end = key_pressed(app, char_key('G'), around, now);
    law_end_shows_the_last_row(text, reading.viewport);
    lemma_all_rows(text, reading.viewport.width);
    let all = rows(text, reading.viewport.width);
    if all.len() < reading.viewport.height {
        law_row_at_top(text, reading.viewport.width, reading.viewport.height, 0);
        assert(top_row(read_after(end)) == 0);
        assert(shown(text, read_after(end).viewport) =~= all);
    }
}

/// The key ] leads to the first section that begins below the place that is read, and [ to the
/// last that begins above it: the section is then on the screen, at its top unless the document
/// ends on that screen. Where there is none, nothing changes.
pub proof fn law_section_keys(
    app: AppModel,
    reading: ReadingModel,
    around: SurroundingsModel,
    now: u64,
)
    requires
        is_read(app, reading),
        in_order(reading.loaded.document.toc),
        forall|i: int|
            0 <= i < reading.loaded.document.toc.len() ==> is_boundary(
                reading_text(reading),
                (#[trigger] reading.loaded.document.toc[i]).offset,
            ),
    ensures
        ({
            let toc = reading.loaded.document.toc;
            let anchor = reading.viewport.anchor;
            let next = key_pressed(app, char_key(']'), around, now);
            let last = key_pressed(app, char_key('['), around, now);
            &&& if exists|i: int| 0 <= i < toc.len() && (#[trigger] toc[i]).offset > anchor {
                exists|k: int|
                    0 <= k < toc.len() && (#[trigger] toc[k]).offset > anchor && place_is_shown(
                        read_after(next),
                        toc[k].offset,
                    ) && only_moved(app, reading, next, now) && forall|i: int|
                        0 <= i < toc.len() && (#[trigger] toc[i]).offset > anchor ==> toc[k].offset
                            <= toc[i].offset
            } else {
                next == quiet(app)
            }
            &&& if exists|i: int| 0 <= i < toc.len() && (#[trigger] toc[i]).offset < anchor {
                exists|k: int|
                    0 <= k < toc.len() && (#[trigger] toc[k]).offset < anchor && place_is_shown(
                        read_after(last),
                        toc[k].offset,
                    ) && only_moved(app, reading, last, now) && forall|i: int|
                        0 <= i < toc.len() && (#[trigger] toc[i]).offset < anchor ==> toc[i].offset
                            <= toc[k].offset
            } else {
                last == quiet(app)
            }
        }),
{
    let toc = reading.loaded.document.toc;
    let anchor = reading.viewport.anchor;
    law_sections_in_turn(app, reading, now);
    if let Some(entry) = entry_after(toc, anchor, 0) {
        lemma_gone_to_place(app, reading, entry.offset, now);
        let k = choose|k: int| 0 <= k < toc.len() && toc[k] == entry;
        assert(toc[k].offset > anchor);
    }
    if let Some(entry) = entry_before(toc, anchor - 1) {
        lemma_gone_to_place(app, reading, entry.offset, now);
        let k = choose|k: int| 0 <= k < toc.len() && toc[k] == entry;
        assert(toc[k].offset < anchor);
    }
}

/// A place is on the screen, in its first row unless the document ends on that screen.
pub open spec fn place_is_shown(reading: ReadingModel, offset: int) -> bool {
    let row = row_at(reading_text(reading), reading.viewport.width, offset);
    let height = reading.viewport.height;
    &&& top_row(reading) <= row < top_row(reading) + height
    &&& top_row(reading) == row || top_row(reading) + height >= row_count(reading)
}

pub proof fn lemma_gone_to_place(app: AppModel, reading: ReadingModel, offset: int, now: u64)
    requires
        app.reading == Some(reading),
        reading.viewport.height >= 1,
        is_boundary(reading_text(reading), offset),
    ensures
        place_is_shown(gone_to_offset(app, offset, now).reading->0, offset),
        only_moved(app, reading, quiet(gone_to_offset(app, offset, now)), now),
{
    let text = reading_text(reading);
    let v = reading.viewport;
    law_target_is_shown(text, v, offset);
    lemma_all_rows(text, v.width);
    lemma_floor_boundary(text, offset);
    lemma_boundary_index(text, offset);
    lemma_row_of(rows(text, v.width), index_at(text, offset));
    law_row_at_top(text, v.width, v.height, row_at(text, v.width, offset));
}

/// With a match that was gone to, the key n asks for the next match from its end on, and N for
/// the last one before its start: the same search goes on, in the other direction.
pub proof fn law_match_keys(
    app: AppModel,
    reading: ReadingModel,
    session: SessionModel,
    found: (int, int),
    around: SurroundingsModel,
    now: u64,
)
    requires
        is_read(app, reading),
        app.session == Some(session),
        session.current is Some,
        app.current_match == Some(found),
    ensures
        ({
            let next = key_pressed(app, char_key('n'), around, now);
            let last = key_pressed(app, char_key('N'), around, now);
            &&& next.actions == seq![
                ActionModel::FindNext {
                    generation: next.app.search_generation,
                    query: session.query,
                    from: found.1,
                    direction: SearchDirection::Forward,
                },
            ]
            &&& last.actions == seq![
                ActionModel::FindNext {
                    generation: last.app.search_generation,
                    query: session.query,
                    from: found.0,
                    direction: SearchDirection::Backward,
                },
            ]
            &&& next.app == last.app
            &&& next.app.awaits_search && next.app.search_generation != app.search_generation
            &&& next.app.reading == app.reading && next.app.session == app.session
            &&& next.app.current_match == app.current_match
        }),
{
}

/// Without a match that was gone to, n and N look for the last query anew, from the place that
/// is read: n down from it and N up. Without a query they tell so, and nothing else changes.
pub proof fn law_match_keys_without_match(
    app: AppModel,
    reading: ReadingModel,
    around: SurroundingsModel,
    now: u64,
)
    requires
        is_read(app, reading),
        app.current_match is None,
        app.session matches Some(session) ==> session.query.1.len() > 0,
    ensures
        ({
            let next = key_pressed(app, char_key('n'), around, now);
            let last = key_pressed(app, char_key('N'), around, now);
            match app.session {
                Some(session) => {
                    &&& next.actions == seq![
                        ActionModel::Analyze {
                            generation: next.app.search_generation,
                            query: session.query,
                            from: reading.viewport.anchor,
                            direction: SearchDirection::Forward,
                        },
                    ]
                    &&& last.actions == seq![
                        ActionModel::Analyze {
                            generation: last.app.search_generation,
                            query: session.query,
                            from: reading.viewport.anchor,
                            direction: SearchDirection::Backward,
                        },
                    ]
                    &&& next.app.awaits_search && next.app == last.app
                },
                None => {
                    &&& next == quiet(
                        AppModel { message: Some("No previous search"@), ..app },
                    )
                    &&& last == next
                },
            }
        }),
{
}

/// A colon begins a command and a slash a search, with nothing typed yet. Escape takes the
/// message away. Any other key that means nothing changes nothing.
pub proof fn law_other_keys(
    app: AppModel,
    reading: ReadingModel,
    key: Key,
    around: SurroundingsModel,
    now: u64,
)
    requires
        is_read(app, reading),
    ensures
        ({
            let command = key_pressed(app, char_key(':'), around, now);
            let search = key_pressed(app, char_key('/'), around, now);
            &&& command.actions.len() == 0 && search.actions.len() == 0
            &&& command.app.mode == InputMode::Command && search.app.mode == InputMode::Search
            &&& command.app.input.text.len() == 0 && search.app.input.text.len() == 0
            &&& command.app.input.cursor == 0 && search.app.input.cursor == 0
            &&& command.app.reading == app.reading && search.app.reading == app.reading
            &&& command.app.commands.entries == app.commands.entries
            &&& search.app.searches.entries == app.searches.entries
            &&& command.app.message is None && search.app.message is None
        }),
        key_pressed(app, plain_key(KeyCode::Esc), around, now) == quiet(
            AppModel { message: None, ..app },
        ),
        key.code == KeyCode::Enter || key.code == KeyCode::Tab || key.code == KeyCode::Backspace
            || key.code == KeyCode::Delete || key.code == KeyCode::Other ==> key_pressed(
            app,
            key,
            around,
            now,
        ) == quiet(app),
        key.code matches KeyCode::Char(c) ==> !seq![
            'j',
            'k',
            ' ',
            'b',
            'g',
            'G',
            ']',
            '[',
            ':',
            '/',
            'n',
            'N',
        ].contains(c) && !(key.control && (c == 'c' || c == 'd' || c == 'u')) ==> key_pressed(
            app,
            key,
            around,
            now,
        ) == quiet(app),
{
    let named = seq!['j', 'k', ' ', 'b', 'g', 'G', ']', '[', ':', '/', 'n', 'N'];
    assert(named[0] == 'j' && named[1] == 'k' && named[2] == ' ' && named[3] == 'b' && named[4]
        == 'g' && named[5] == 'G' && named[6] == ']' && named[7] == '[' && named[8] == ':'
        && named[9] == '/' && named[10] == 'n' && named[11] == 'N');
}

/// The mouse wheel moves the document by as many lines as it is turned, where nothing is shown
/// over it, and otherwise the selection, which stays in the list.
pub proof fn law_wheel(app: AppModel, reading: ReadingModel, lines: int, now: u64)
    requires
        app.reading == Some(reading),
        lines != 0,
        0 <= app.max_position <= usize::MAX,
        isize::MIN <= lines <= isize::MAX,
    ensures
        is_read(app, reading) ==> moved_by(
            app,
            reading,
            quiet(wheel_turned(app, lines, now)),
            now,
            lines,
        ),
        app.overlay matches Some(overlay) ==> 0 <= overlay.selected <= app.max_position ==> {
            let after = wheel_turned(app, lines, now);
            &&& after.reading == app.reading
            &&& after.overlay matches Some(other) && other.kind == overlay.kind && other.filter
                == overlay.filter && if lines > 0 {
                other.selected == overlay.selected + lines || other.selected == app.max_position
                    < overlay.selected + lines
            } else {
                other.selected == overlay.selected + lines || other.selected == 0
                    > overlay.selected + lines
            }
        },
{
    if is_read(app, reading) {
        law_scrolling_moves_by_rows(reading_text(reading), reading.viewport, lines);
    }
}

} // verus!

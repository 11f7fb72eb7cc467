//! What the keys do over a list and over what else is shown over the document.
use vstd::prelude::*;

use super::actions::{ActionModel, BookmarkChange, KeyCode};
use super::key_laws::{char_key, control_key, lemma_gone_to_place, place_is_shown, plain_key};
use super::keys::{key_pressed, selection_after};
use super::moves::{gone_to_hit, gone_to_offset};
use super::reading::{reading_text, ReadingModel};
use super::{
    quiet, AppModel, InputMode, OverlayKind, OverlayModel, SessionModel, Step, SurroundingsModel,
};
use crate::text::is_boundary;

verus! {

/// Something is shown over the document, its keys are taken, and the selection is in it.
pub open spec fn is_shown(app: AppModel, overlay: OverlayModel) -> bool {
    &&& app.overlay == Some(overlay)
    &&& app.mode != InputMode::Filter
    &&& 0 <= overlay.selected <= app.max_position <= usize::MAX
    &&& app.page_rows >= 1
}

/// Only the selection has changed: it has moved by `n`, as far as there are items.
pub open spec fn selection_moved_by(
    app: AppModel,
    overlay: OverlayModel,
    step: Step,
    n: int,
) -> bool {
    let at = overlay.selected + n;
    step == quiet(
        AppModel {
            overlay: Some(
                OverlayModel {
                    selected: if at < 0 {
                        0
                    } else if at > app.max_position {
                        app.max_position
                    } else {
                        at
                    },
                    ..overlay
                },
            ),
            ..app
        },
    )
}

/// The key is taken for a move of the selection.
proof fn lemma_selection_key(
    app: AppModel,
    overlay: OverlayModel,
    key: super::actions::Key,
    around: SurroundingsModel,
    now: u64,
)
    requires
        is_shown(app, overlay),
        !(key.control && key.code == KeyCode::Char('c')),
        key.code != KeyCode::Esc && key.code != KeyCode::Enter && key.code != KeyCode::Char('/')
            && key.code != KeyCode::Char('x'),
    ensures
        key_pressed(app, key, around, now) == quiet(
            AppModel {
                overlay: Some(
                    OverlayModel {
                        selected: selection_after(
                            overlay.selected,
                            key,
                            app.page_rows,
                            app.max_position,
                        ),
                        ..overlay
                    },
                ),
                ..app
            },
        ),
{
}

/// Over a list j and Down select the next item, k and Up the one before; g and Home select the
/// first, G and End the last.
pub proof fn law_list_line_keys(
    app: AppModel,
    overlay: OverlayModel,
    around: SurroundingsModel,
    now: u64,
)
    requires
        is_shown(app, overlay),
    ensures
        ({
            let j = key_pressed(app, char_key('j'), around, now);
            let k = key_pressed(app, char_key('k'), around, now);
            let g = key_pressed(app, char_key('g'), around, now);
            let end = key_pressed(app, char_key('G'), around, now);
            &&& selection_moved_by(app, overlay, j, 1)
            &&& key_pressed(app, plain_key(KeyCode::Down), around, now) == j
            &&& selection_moved_by(app, overlay, k, -1)
            &&& key_pressed(app, plain_key(KeyCode::Up), around, now) == k
            &&& g == quiet(
                AppModel { overlay: Some(OverlayModel { selected: 0, ..overlay }), ..app },
            )
            &&& key_pressed(app, plain_key(KeyCode::Home), around, now) == g
            &&& end == quiet(
                AppModel {
                    overlay: Some(OverlayModel { selected: app.max_position, ..overlay }),
                    ..app
                },
            )
            &&& key_pressed(app, plain_key(KeyCode::End), around, now) == end
        }),
{
    lemma_selection_key(app, overlay, char_key('j'), around, now);
    lemma_selection_key(app, overlay, char_key('k'), around, now);
    lemma_selection_key(app, overlay, char_key('g'), around, now);
    lemma_selection_key(app, overlay, char_key('G'), around, now);
    lemma_selection_key(app, overlay, plain_key(KeyCode::Down), around, now);
    lemma_selection_key(app, overlay, plain_key(KeyCode::Up), around, now);
    lemma_selection_key(app, overlay, plain_key(KeyCode::Home), around, now);
    lemma_selection_key(app, overlay, plain_key(KeyCode::End), around, now);
}

/// Over a list Space, PageDown and Right go down by one less than the rows that are shown, but
/// one at least; b, PageUp and Left go up by as many. Control with d and with u go down and up
/// by half the rows, but one at least.
pub proof fn law_list_page_keys(
    app: AppModel,
    overlay: OverlayModel,
    around: SurroundingsModel,
    now: u64,
    page: int,
    half: int,
)
    requires
        is_shown(app, overlay),
        app.page_rows <= 2 ==> page == 1,
        app.page_rows > 2 ==> page == app.page_rows - 1,
        app.page_rows == 1 ==> half == 1,
        app.page_rows > 1 ==> app.page_rows - 1 <= 2 * half <= app.page_rows,
        app.max_position + page <= usize::MAX,
    ensures
        ({
            let down = key_pressed(app, char_key(' '), around, now);
            let up = key_pressed(app, char_key('b'), around, now);
            &&& selection_moved_by(app, overlay, down, page)
            &&& key_pressed(app, plain_key(KeyCode::PageDown), around, now) == down
            &&& key_pressed(app, plain_key(KeyCode::Right), around, now) == down
            &&& selection_moved_by(app, overlay, up, -page)
            &&& key_pressed(app, plain_key(KeyCode::PageUp), around, now) == up
            &&& key_pressed(app, plain_key(KeyCode::Left), around, now) == up
            &&& selection_moved_by(
                app,
                overlay,
                key_pressed(app, control_key('d'), around, now),
                half,
            )
            &&& selection_moved_by(
                app,
                overlay,
                key_pressed(app, control_key('u'), around, now),
                -half,
            )
        }),
{
    lemma_selection_key(app, overlay, char_key(' '), around, now);
    lemma_selection_key(app, overlay, char_key('b'), around, now);
    lemma_selection_key(app, overlay, plain_key(KeyCode::PageDown), around, now);
    lemma_selection_key(app, overlay, plain_key(KeyCode::Right), around, now);
    lemma_selection_key(app, overlay, plain_key(KeyCode::PageUp), around, now);
    lemma_selection_key(app, overlay, plain_key(KeyCode::Left), around, now);
    lemma_selection_key(app, overlay, control_key('d'), around, now);
    lemma_selection_key(app, overlay, control_key('u'), around, now);
}

/// The item of the whole list that is selected among those that are shown.
pub open spec fn is_selected(overlay: OverlayModel, item: int) -> bool {
    match overlay.filter {
        Some(filter) => 0 <= overlay.selected < filter.visible.len()
            && filter.visible[overlay.selected] == item,
        None => overlay.selected == item,
    }
}

/// Escape closes what is shown over the document, and changes nothing of what is read. A slash
/// begins to filter a list that can be filtered.
pub proof fn law_closing_keys(
    app: AppModel,
    overlay: OverlayModel,
    around: SurroundingsModel,
    now: u64,
)
    requires
        is_shown(app, overlay),
    ensures
        ({
            let step = key_pressed(app, plain_key(KeyCode::Esc), around, now);
            &&& step.actions.len() == 0
            &&& step.app == (AppModel {
                overlay: None,
                picker: None,
                mode: InputMode::Normal,
                ..app
            })
        }),
        overlay.filter is Some ==> ({
            let step = key_pressed(app, char_key('/'), around, now);
            &&& step.actions.len() == 0
            &&& step.app.mode == InputMode::Filter
            &&& step.app.overlay == app.overlay
            &&& step.app.reading == app.reading
        }),
{
}

/// Enter over the table of contents or the bookmarks closes the list and goes to the place that
/// is selected, which is then on the screen.
pub proof fn law_enter_goes_to_the_place(
    app: AppModel,
    overlay: OverlayModel,
    reading: ReadingModel,
    item: int,
    offset: int,
    around: SurroundingsModel,
    now: u64,
)
    requires
        is_shown(app, overlay),
        is_selected(overlay, item),
        app.reading == Some(reading),
        reading.viewport.height >= 1,
        is_boundary(reading_text(reading), offset),
        overlay.kind == OverlayKind::Toc && 0 <= item < reading.loaded.document.toc.len()
            && reading.loaded.document.toc[item].offset == offset || overlay.kind
            == OverlayKind::Bookmarks && 0 <= item < app.bookmarks.len()
            && app.bookmarks[item].position == offset,
    ensures
        ({
            let step = key_pressed(app, plain_key(KeyCode::Enter), around, now);
            &&& step.actions.len() == 0
            &&& step.app.overlay is None
            &&& step.app.reading matches Some(next) && next.loaded == reading.loaded
                && place_is_shown(next, offset)
            &&& step.app.dirty && step.app.last_move == now
            &&& step.app.bookmarks == app.bookmarks
        }),
{
    let closed = AppModel { overlay: None, ..app };
    lemma_gone_to_place(closed, reading, offset, now);
    assert(key_pressed(app, plain_key(KeyCode::Enter), around, now) == quiet(
        gone_to_offset(closed, offset, now),
    ));
}

/// Enter over the recent books or the files closes the list and asks for the file to be loaded,
/// after the progress is saved; over a directory it asks for the files of the directory.
pub proof fn law_enter_opens_the_file(
    app: AppModel,
    overlay: OverlayModel,
    item: int,
    around: SurroundingsModel,
    now: u64,
)
    requires
        is_shown(app, overlay),
        is_selected(overlay, item),
    ensures
        ({
            let step = key_pressed(app, plain_key(KeyCode::Enter), around, now);
            &&& overlay.kind == OverlayKind::Recent && 0 <= item < app.recent.len() ==> {
                &&& step.app == (AppModel { overlay: None, ..app })
                &&& asks_to_load(step, app.recent[item].path)
            }
            &&& overlay.kind == OverlayKind::Files ==> (app.picker matches Some(picker) ==> 0
                <= item < picker.entries.len() ==> {
                &&& step.app == (AppModel { overlay: None, ..app })
                &&& picker.entries[item].is_directory ==> step.actions == seq![
                    ActionModel::ReadDirectory(picker.entries[item].path),
                ]
                &&& !picker.entries[item].is_directory ==> asks_to_load(
                    step,
                    picker.entries[item].path,
                )
            })
        }),
{
}

/// The last thing that is to be done is to load a file; before it only progress is saved.
pub open spec fn asks_to_load(step: Step, path: Seq<char>) -> bool {
    &&& step.actions.len() > 0
    &&& step.actions.last() == ActionModel::StartLoad(path)
    &&& forall|i: int|
        0 <= i < step.actions.len() - 1 ==> (#[trigger] step.actions[i]) is SaveProgress
}

/// Enter over the results of a search closes the list and goes to the match that is selected: it
/// becomes the current one, and is on the screen.
pub proof fn law_enter_goes_to_the_match(
    app: AppModel,
    overlay: OverlayModel,
    reading: ReadingModel,
    session: SessionModel,
    around: SurroundingsModel,
    now: u64,
)
    requires
        is_shown(app, overlay),
        overlay.kind == OverlayKind::SearchResults,
        app.session == Some(session),
        overlay.selected < session.previews.len(),
        app.reading == Some(reading),
        reading.viewport.height >= 1,
        is_boundary(reading_text(reading), session.previews[overlay.selected].0.0),
    ensures
        ({
            let hit = session.previews[overlay.selected];
            let step = key_pressed(app, plain_key(KeyCode::Enter), around, now);
            &&& step.actions.len() == 0
            &&& step.app.overlay is None
            &&& step.app.current_match == Some(hit.0)
            &&& step.app.session == Some(SessionModel { current: Some(hit), ..session })
            &&& step.app.reading matches Some(next) && place_is_shown(next, hit.0.0)
        }),
{
    let hit = session.previews[overlay.selected];
    let found = AppModel {
        overlay: None,
        session: Some(SessionModel { current: Some(hit), ..session }),
        ..app
    };
    lemma_gone_to_place(found, reading, hit.0.0, now);
    assert(gone_to_hit(found, hit.0, now).reading == gone_to_offset(found, hit.0.0, now).reading);
}

/// The key x over the bookmarks asks for the bookmark that is selected to be taken away, and for
/// no other, and for the list to be shown again.
pub proof fn law_bookmark_is_deleted(
    app: AppModel,
    overlay: OverlayModel,
    reading: ReadingModel,
    item: int,
    around: SurroundingsModel,
    now: u64,
)
    requires
        is_shown(app, overlay),
        overlay.kind == OverlayKind::Bookmarks,
        is_selected(overlay, item),
        app.reading == Some(reading),
        0 <= item < app.bookmarks.len(),
    ensures
        ({
            let step = key_pressed(app, char_key('x'), around, now);
            &&& step.app == app
            &&& step.actions.len() == 2
            &&& step.actions[1] == ActionModel::RefreshBookmarks
            &&& step.actions[0] matches ActionModel::SaveBookmarks {
                path,
                fingerprint,
                bookmarks,
                change,
            } && path == reading.loaded.path && fingerprint == reading.loaded.fingerprint && change
                == BookmarkChange::Deleted && bookmarks.len() == app.bookmarks.len() - 1
                && bookmarks.take(item) == app.bookmarks.take(item) && bookmarks.skip(item)
                == app.bookmarks.skip(item + 1)
        }),
{
    let rest = app.bookmarks.remove(item);
    assert(rest.take(item) =~= app.bookmarks.take(item));
    assert(rest.skip(item) =~= app.bookmarks.skip(item + 1));
}

} // verus!

//! What holds of the application whatever is done.
use vstd::prelude::*;

use super::actions::{
    ActionModel, BookmarkChange, Key, KeyCode, LoadOutcomeModel, SearchOutcomeModel,
};
use super::events::{
    bookmarks_refreshed, bookmarks_written, first_of_each, fitted_bookmarks, installed, load_begun,
    load_requested, placed_bookmarks, poll_finished, polled, progress_actions, progress_written,
};
use super::keys::{bookmark_at, completed, key_pressed, overlay_key, with_bookmark};
use super::labels::entry_before;
use super::moves::{entry_after, gone_to_offset, gone_to_section};
use super::reading::{reading_text, ReadingModel, FIRST_WIDTH};
use super::{quiet, AppModel, CompletionModel, InputMode, SurroundingsModel, SAVE_DEBOUNCE};
use crate::document::{in_order as in_order_of_text, TocModel};
use crate::filter::{matching_items, reselected};
use crate::input::typed;
use crate::order::{is_order, is_sorted, law_sorted, ordered, with_item, Ordered};
use crate::state::{Bookmark, BookmarkModel, SavedBookModel, StateFault};
use crate::text::{
    floor_boundary, index_at, is_boundary, lemma_boundary_index, lemma_floor_boundary,
    lemma_offset_monotone,
};
use crate::viewport::{law_row_at_top, row_at};
use crate::wrap::{lemma_all_rows, lemma_row_of, rows};

verus! {

/// Control and c end the application wherever they are pressed, and do nothing else.
pub proof fn law_control_c_quits(app: AppModel, key: Key, around: SurroundingsModel, now: u64)
    requires
        key.control,
        key.code == KeyCode::Char('c'),
    ensures
        key_pressed(app, key, around, now) == quiet(AppModel { quit: true, ..app }),
{
}

/// The outcome of a load or a search that was given up for a later one is not shown: neither
/// the document nor what was found nor the message changes.
pub proof fn law_stale_outcomes_are_dropped(
    app: AppModel,
    load: LoadOutcomeModel,
    search: SearchOutcomeModel,
    now: u64,
)
    requires
        load.generation != app.load_generation,
        search.generation != app.search_generation,
    ensures
        ({
            let after = polled(app, Some(load), Some(search), now).app;
            &&& after.reading == app.reading
            &&& after.session == app.session
            &&& after.message == app.message
            &&& after.current_match == app.current_match
        }),
{
}

/// Once a file is being loaded, the outcomes of earlier loads and searches are stale.
pub proof fn law_loading_gives_up_the_rest(app: AppModel, path: Seq<char>)
    ensures
        load_begun(app, path).app.load_generation != app.load_generation,
        load_begun(app, path).app.search_generation != app.search_generation,
        !load_begun(app, path).app.awaits_search,
{
}

/// The progress is saved at most once for a move, not before the reader has rested, and again
/// after that only once it has changed or could not be saved.
pub proof fn law_progress_is_saved_when_due(app: AppModel, now: u64)
    ensures
        poll_finished(app, None, now).actions.len() > 0 <==> app.dirty && app.reading is Some && now
            >= app.last_move + SAVE_DEBOUNCE,
        progress_actions(progress_written(app, Ok(()), now)).len() == 0,
        forall|fault: StateFault|
            progress_actions(
                #[trigger] progress_written(app, Err(fault), now),
            ) == progress_actions(app),
{
}

/// Reading on never touches the bookmarks: to keep the progress, when the reader rests, when
/// another file is opened or at the end, only the progress is written.
pub proof fn law_progress_leaves_the_bookmarks(app: AppModel, path: Seq<char>, now: u64)
    ensures
        forall|i: int|
            0 <= i < progress_actions(app).len() ==> (#[trigger] progress_actions(
                app,
            )[i]) is SaveProgress,
        forall|i: int|
            0 <= i < poll_finished(app, None, now).actions.len() ==> (#[trigger] poll_finished(
                app,
                None,
                now,
            ).actions[i]) is SaveProgress,
        forall|i: int|
            0 <= i < load_requested(app, path).actions.len() ==> (#[trigger] load_requested(
                app,
                path,
            ).actions[i]) is SaveProgress || load_requested(app, path).actions[i] is StartLoad,
        progress_written(app, Ok(()), now).bookmarks == app.bookmarks,
{
}

/// A document is read on where it was left: what is written of the progress is the place at the
/// top of the screen, and when the document is opened again, that place is in the first row.
pub proof fn law_reading_goes_on(
    app: AppModel,
    reading: ReadingModel,
    later: AppModel,
    saved: SavedBookModel,
    last_opened: Result<(), StateFault>,
    now: u64,
)
    requires
        app.reading == Some(reading),
        app.dirty,
        is_boundary(reading_text(reading), reading.viewport.anchor),
        saved.position == reading.viewport.anchor,
    ensures
        progress_actions(app) == seq![
            ActionModel::SaveProgress {
                path: reading.loaded.path,
                fingerprint: reading.loaded.fingerprint,
                position: reading.viewport.anchor,
            },
        ],
        ({
            let text = reading_text(reading);
            let opened = installed(later, reading.loaded, saved, last_opened, now).reading;
            &&& opened is Some
            &&& opened->0.viewport.anchor <= reading.viewport.anchor
            &&& row_at(text, FIRST_WIDTH as int, opened->0.viewport.anchor) == row_at(
                text,
                FIRST_WIDTH as int,
                reading.viewport.anchor,
            )
        }),
{
    let text = reading_text(reading);
    let width = FIRST_WIDTH as int;
    let place = reading.viewport.anchor;
    let row = row_at(text, width, place);
    lemma_all_rows(text, width);
    lemma_boundary_index(text, place);
    lemma_floor_boundary(text, place);
    lemma_row_of(rows(text, width), index_at(text, place));
    law_row_at_top(text, width, 1, row);
    lemma_offset_monotone(text, rows(text, width)[row].0, index_at(text, place));
}

/// The next section is the first one that begins below the place that is read, and the one
/// before it the last that begins above that place; without one nothing changes.
pub proof fn law_sections_in_turn(app: AppModel, reading: ReadingModel, now: u64)
    requires
        app.reading == Some(reading),
        in_order_of_text(reading.loaded.document.toc),
    ensures
        ({
            let toc = reading.loaded.document.toc;
            let anchor = reading.viewport.anchor;
            match entry_after(toc, anchor, 0) {
                Some(next) => gone_to_section(app, true, now) == gone_to_offset(
                    app,
                    next.offset,
                    now,
                ) && toc.contains(next) && anchor < next.offset && forall|i: int|
                    0 <= i < toc.len() && anchor < (#[trigger] toc[i]).offset ==> next.offset
                        <= toc[i].offset,
                None => gone_to_section(app, true, now) == app && forall|i: int|
                    0 <= i < toc.len() ==> (#[trigger] toc[i]).offset <= anchor,
            }
        }),
        ({
            let toc = reading.loaded.document.toc;
            let anchor = reading.viewport.anchor;
            match entry_before(toc, anchor - 1) {
                Some(last) => gone_to_section(app, false, now) == gone_to_offset(
                    app,
                    last.offset,
                    now,
                ) && toc.contains(last) && last.offset < anchor && forall|i: int|
                    0 <= i < toc.len() && (#[trigger] toc[i]).offset < anchor ==> toc[i].offset
                        <= last.offset,
                None => gone_to_section(app, false, now) == app && forall|i: int|
                    0 <= i < toc.len() ==> anchor <= (#[trigger] toc[i]).offset,
            }
        }),
{
    let toc = reading.loaded.document.toc;
    let anchor = reading.viewport.anchor;
    lemma_entry_after(toc, anchor, 0);
    lemma_entry_before(toc, anchor - 1);
}

proof fn lemma_entry_after(toc: Seq<TocModel>, anchor: int, i: int)
    requires
        in_order_of_text(toc),
        0 <= i <= toc.len(),
        forall|j: int| 0 <= j < i ==> (#[trigger] toc[j]).offset <= anchor,
    ensures
        match entry_after(toc, anchor, i) {
            Some(next) => toc.contains(next) && anchor < next.offset && forall|j: int|
                0 <= j < toc.len() && anchor < (#[trigger] toc[j]).offset ==> next.offset
                    <= toc[j].offset,
            None => forall|j: int| 0 <= j < toc.len() ==> (#[trigger] toc[j]).offset <= anchor,
        },
    decreases toc.len() - i,
{
    if i < toc.len() && toc[i].offset <= anchor {
        lemma_entry_after(toc, anchor, i + 1);
    }
}

proof fn lemma_entry_before(toc: Seq<TocModel>, position: int)
    requires
        in_order_of_text(toc),
    ensures
        match entry_before(toc, position) {
            Some(last) => toc.contains(last) && last.offset <= position && forall|j: int|
                0 <= j < toc.len() && (#[trigger] toc[j]).offset <= position ==> toc[j].offset
                    <= last.offset,
            None => forall|j: int| 0 <= j < toc.len() ==> position < (#[trigger] toc[j]).offset,
        },
    decreases toc.len(),
{
    if toc.len() > 0 {
        let less = toc.drop_last();
        assert(toc.last() == toc[toc.len() - 1]);
        assert forall|i: int, j: int| 0 <= i < j < less.len() implies (#[trigger] less[i]).offset
            <= (#[trigger] less[j]).offset by {
            assert(toc[i].offset <= toc[j].offset);
        }
        lemma_entry_before(less, position);
        if toc.last().offset > position {
            assert forall|j: int| 0 <= j < toc.len() && (#[trigger] toc[j]).offset
                <= position implies j < less.len() && less[j] == toc[j] by {}
            if let Some(last) = entry_before(less, position) {
                let k = choose|k: int| 0 <= k < less.len() && less[k] == last;
                assert(toc[k] == last);
            } else {
                assert forall|j: int| 0 <= j < toc.len() implies position < (
                #[trigger] toc[j]).offset by {
                    if j < less.len() {
                        assert(less[j] == toc[j]);
                    }
                }
            }
        }
    }
}

/// What could not be saved is not changed.
pub proof fn law_refused_bookmarks_stay(
    app: AppModel,
    bookmarks: Seq<BookmarkModel>,
    change: BookmarkChange,
    fault: StateFault,
)
    ensures
        bookmarks_written(app, bookmarks, change, Err(fault)).bookmarks == app.bookmarks,
{
}

/// A list that is shown has its selection within its bounds.
pub open spec fn selection_in_bounds(app: AppModel) -> bool {
    app.max_position >= 0 && (app.overlay matches Some(overlay) ==> 0 <= overlay.selected
        <= app.max_position)
}

/// No key moves the selection out of the bounds of the list, and neither does a change of the
/// bookmarks.
pub proof fn law_keys_keep_the_selection(
    app: AppModel,
    key: Key,
    around: SurroundingsModel,
    now: u64,
)
    requires
        app.overlay is Some,
        selection_in_bounds(app),
        app.max_position <= usize::MAX,
    ensures
        selection_in_bounds(overlay_key(app, app.overlay->0, key, around, now).app),
        selection_in_bounds(bookmarks_refreshed(app, around)),
{
    let overlay = app.overlay->0;
    if app.mode == InputMode::Filter {
        if let Some(filter) = overlay.filter {
            assert forall|query: Seq<char>, labels: Seq<Seq<char>>|
                ({
                    let visible = #[trigger] matching_items(query, labels);
                    0 <= reselected(filter, overlay.selected, visible) <= (if visible.len() > 0 {
                        visible.len() - 1
                    } else {
                        0
                    })
                }) by {
                lemma_reselected(filter.visible, overlay.selected, matching_items(query, labels));
            }
        }
    }
}

proof fn lemma_reselected(before: Seq<int>, selected: int, visible: Seq<int>)
    ensures
        ({
            let place = reselected(
                crate::filter::FilterModel { query: Seq::empty(), visible: before },
                selected,
                visible,
            );
            0 <= place && (place == 0 || place < visible.len())
        }),
{
    if 0 <= selected < before.len() {
        lemma_place_in_list(visible, before[selected]);
    }
}

proof fn lemma_place_in_list(visible: Seq<int>, item: int)
    ensures
        0 <= crate::filter::place_of(visible, item),
        crate::filter::place_of(visible, item) == 0 || crate::filter::place_of(visible, item)
            < visible.len(),
    decreases visible.len(),
{
    if visible.len() > 0 {
        lemma_place_in_list(visible.drop_last(), item);
    }
}

/// The state after completing the input `n` times.
pub open spec fn completed_times(app: AppModel, n: nat) -> AppModel
    decreases n,
{
    if n == 0 {
        app
    } else {
        completed(completed_times(app, (n - 1) as nat)).app
    }
}

/// Completing again and again shows every candidate in its turn, and then begins anew.
pub proof fn law_completion_goes_round(app: AppModel, completion: CompletionModel, n: nat)
    requires
        app.completion == Some(completion),
        completion.candidates.len() > 0,
        completion.next == 1,
        n > 0,
    ensures
        completed_times(app, n).input == typed(
            completion.candidates[n as int % completion.candidates.len() as int],
        ),
    decreases n,
{
    lemma_completed_times(app, completion, n);
}

proof fn lemma_completed_times(app: AppModel, completion: CompletionModel, n: nat)
    requires
        app.completion == Some(completion),
        completion.candidates.len() > 0,
        completion.next == 1,
        n > 0,
    ensures
        completed_times(app, n).input == typed(
            completion.candidates[n as int % completion.candidates.len() as int],
        ),
        completed_times(app, n).completion == Some(
            CompletionModel {
                next: n as int % completion.candidates.len() as int + 1,
                ..completion
            },
        ),
    decreases n,
{
    let size = completion.candidates.len() as int;
    if n == 1 {
        assert(completed_times(app, 0) == app);
    } else {
        lemma_completed_times(app, completion, (n - 1) as nat);
        vstd::arithmetic::div_mod::lemma_add_mod_noop_right(1, n - 1, size);
        vstd::arithmetic::div_mod::lemma_add_mod_noop(n - 1, 1, size);
        vstd::arithmetic::div_mod::lemma_mod_twice(n - 1, size);
    }
}

// ---------------------------------------------------------------------------------------
// Bookmarks
// ---------------------------------------------------------------------------------------

/// Bookmarks stand by their positions, and there is one at each.
pub open spec fn in_order(bookmarks: Seq<BookmarkModel>) -> bool {
    forall|i: int, j: int|
        0 <= i < j < bookmarks.len() ==> (#[trigger] bookmarks[i]).position < (
        #[trigger] bookmarks[j]).position
}

proof fn lemma_last_of_each(bookmarks: Seq<BookmarkModel>)
    ensures
        bookmarks.len() > 0 ==> first_of_each(bookmarks).len() > 0 && first_of_each(
            bookmarks,
        ).last().position == bookmarks.last().position,
        bookmarks.len() == 0 ==> first_of_each(bookmarks).len() == 0,
    decreases bookmarks.len(),
{
    if bookmarks.len() > 0 {
        lemma_last_of_each(bookmarks.drop_last());
    }
}

proof fn lemma_first_is_of_them(bookmarks: Seq<BookmarkModel>, i: int)
    requires
        0 <= i < first_of_each(bookmarks).len(),
    ensures
        bookmarks.contains(first_of_each(bookmarks)[i]),
    decreases bookmarks.len(),
{
    lemma_last_of_each(bookmarks);
    let less = bookmarks.drop_last();
    let before = first_of_each(less);
    if i < before.len() {
        lemma_first_is_of_them(less, i);
        let k = choose|k: int| 0 <= k < less.len() && less[k] == before[i];
        assert(bookmarks[k] == first_of_each(bookmarks)[i]);
    } else {
        assert(bookmarks[bookmarks.len() - 1] == first_of_each(bookmarks)[i]);
    }
}

/// The place of the bookmark that stands for the one with the index `k`.
proof fn lemma_first_for(bookmarks: Seq<BookmarkModel>, k: int) -> (i: int)
    requires
        0 <= k < bookmarks.len(),
    ensures
        0 <= i < first_of_each(bookmarks).len(),
        first_of_each(bookmarks)[i].position == bookmarks[k].position,
    decreases bookmarks.len(),
{
    lemma_last_of_each(bookmarks);
    if k < bookmarks.len() - 1 {
        lemma_first_for(bookmarks.drop_last(), k)
    } else {
        first_of_each(bookmarks).len() - 1
    }
}

proof fn lemma_first_of_each(bookmarks: Seq<BookmarkModel>)
    requires
        is_sorted::<Bookmark>(bookmarks),
    ensures
        in_order(first_of_each(bookmarks)),
    decreases bookmarks.len(),
{
    if bookmarks.len() > 0 {
        let less = bookmarks.drop_last();
        let n = less.len() as int;
        assert forall|i: int, j: int| 0 <= i < j < less.len() implies !Bookmark::behind(
            #[trigger] less[i],
            #[trigger] less[j],
        ) by {
            assert(!Bookmark::behind(bookmarks[i], bookmarks[j]));
        }
        lemma_first_of_each(less);
        lemma_last_of_each(less);
        let before = first_of_each(less);
        let all = first_of_each(bookmarks);
        if n > 0 {
            assert(!Bookmark::behind(bookmarks[n - 1], bookmarks[n]));
        }
        assert forall|i: int, j: int| 0 <= i < j < all.len() implies (#[trigger] all[i]).position
            < (#[trigger] all[j]).position by {
            assert(all[i] == before[i]);
            if j == before.len() && i < before.len() - 1 {
                assert(before[i].position < before[before.len() - 1].position);
            }
        }
    }
}

/// The bookmarks of a document that was opened stand in order, each at the start of a
/// character; where one was saved, there is one.
pub proof fn law_opened_bookmarks(text: Seq<char>, saved: Seq<BookmarkModel>)
    requires
        forall|i: int| 0 <= i < saved.len() ==> 0 <= (#[trigger] saved[i]).position,
    ensures
        in_order(fitted_bookmarks(text, saved)),
        forall|i: int|
            0 <= i < fitted_bookmarks(text, saved).len() ==> is_boundary(
                text,
                (#[trigger] fitted_bookmarks(text, saved)[i]).position,
            ),
        forall|k: int|
            0 <= k < saved.len() ==> exists|i: int|
                0 <= i < fitted_bookmarks(text, saved).len() && (#[trigger] fitted_bookmarks(
                    text,
                    saved,
                )[i]).position == floor_boundary(text, (#[trigger] saved[k]).position),
{
    broadcast use vstd::seq_lib::group_to_multiset_ensures;

    let placed = placed_bookmarks(text, saved);
    let sorted = ordered::<Bookmark>(placed);
    let kept = fitted_bookmarks(text, saved);
    assert(is_order::<Bookmark>());
    law_sorted::<Bookmark>(placed);
    lemma_first_of_each(sorted);
    crate::order::law_sorting_keeps_items::<Bookmark>(placed);
    assert forall|i: int| 0 <= i < kept.len() implies is_boundary(
        text,
        (#[trigger] kept[i]).position,
    ) by {
        lemma_first_is_of_them(sorted, i);
        assert(sorted.to_multiset().count(kept[i]) > 0);
        assert(placed.to_multiset().count(kept[i]) > 0);
        assert(placed.contains(kept[i]));
        let k = choose|k: int| 0 <= k < placed.len() && placed[k] == kept[i];
        lemma_floor_boundary(text, saved[k].position);
    }
    assert forall|k: int| 0 <= k < saved.len() implies exists|i: int|
        0 <= i < kept.len() && (#[trigger] kept[i]).position == floor_boundary(
            text,
            (#[trigger] saved[k]).position,
        ) by {
        assert(placed.contains(placed[k]));
        assert(placed.to_multiset().count(placed[k]) > 0);
        assert(sorted.to_multiset().count(placed[k]) > 0);
        assert(sorted.contains(placed[k]));
        let m = choose|m: int| 0 <= m < sorted.len() && sorted[m] == placed[k];
        let i = lemma_first_for(sorted, m);
        assert(kept[i].position == floor_boundary(text, saved[k].position));
    }
}

proof fn lemma_bookmark_at(bookmarks: Seq<BookmarkModel>, position: int, i: int)
    requires
        0 <= i <= bookmarks.len(),
    ensures
        i <= bookmark_at(bookmarks, position, i) <= bookmarks.len(),
        bookmark_at(bookmarks, position, i) < bookmarks.len() ==> bookmarks[bookmark_at(
            bookmarks,
            position,
            i,
        )].position == position,
        forall|j: int|
            i <= j < bookmark_at(bookmarks, position, i) ==> (#[trigger] bookmarks[j]).position
                != position,
    decreases bookmarks.len() - i,
{
    if i < bookmarks.len() && bookmarks[i].position != position {
        lemma_bookmark_at(bookmarks, position, i + 1);
    }
}

proof fn lemma_already_ordered(bookmarks: Seq<BookmarkModel>)
    requires
        in_order(bookmarks),
    ensures
        ordered::<Bookmark>(bookmarks) == bookmarks,
    decreases bookmarks.len(),
{
    if bookmarks.len() > 0 {
        lemma_already_ordered(bookmarks.drop_last());
        assert(bookmarks.drop_last().push(bookmarks.last()) =~= bookmarks);
    } else {
        assert(ordered::<Bookmark>(bookmarks) =~= bookmarks);
    }
}

proof fn lemma_with_new_bookmark(bookmarks: Seq<BookmarkModel>, bookmark: BookmarkModel)
    requires
        in_order(bookmarks),
        forall|j: int|
            0 <= j < bookmarks.len() ==> (#[trigger] bookmarks[j]).position != bookmark.position,
    ensures
        in_order(with_item::<Bookmark>(bookmarks, bookmark)),
        with_item::<Bookmark>(bookmarks, bookmark).contains(bookmark),
        forall|j: int|
            0 <= j < with_item::<Bookmark>(bookmarks, bookmark).len() ==> (
            #[trigger] with_item::<Bookmark>(bookmarks, bookmark)[j]) == bookmark
                || bookmarks.contains(with_item::<Bookmark>(bookmarks, bookmark)[j]),
        forall|j: int|
            0 <= j < bookmarks.len() ==> with_item::<Bookmark>(bookmarks, bookmark).contains(
                #[trigger] bookmarks[j],
            ),
    decreases bookmarks.len(),
{
    let all = with_item::<Bookmark>(bookmarks, bookmark);
    let n = bookmarks.len() as int;
    if n == 0 || bookmarks.last().position < bookmark.position {
        assert(all == bookmarks.push(bookmark));
        assert(all[n] == bookmark);
        assert forall|j: int| 0 <= j < all.len() implies (#[trigger] all[j]) == bookmark
            || bookmarks.contains(all[j]) by {
            if j < n {
                assert(bookmarks[j] == all[j]);
            }
        }
        assert forall|j: int| 0 <= j < n implies all.contains(#[trigger] bookmarks[j]) by {
            assert(all[j] == bookmarks[j]);
        }
        assert forall|i: int, j: int| 0 <= i < j < all.len() implies (#[trigger] all[i]).position
            < (#[trigger] all[j]).position by {
            if j == n && i < n - 1 {
                assert(bookmarks[i].position < bookmarks[n - 1].position);
            }
        }
    } else {
        let less = bookmarks.drop_last();
        lemma_with_new_bookmark(less, bookmark);
        let before = with_item::<Bookmark>(less, bookmark);
        assert(all == before.push(bookmarks.last()));
        let at = choose|at: int| 0 <= at < before.len() && before[at] == bookmark;
        assert(all[at] == bookmark);
        assert forall|j: int| 0 <= j < all.len() implies (#[trigger] all[j]) == bookmark
            || bookmarks.contains(all[j]) by {
            if j < before.len() {
                assert(all[j] == before[j]);
                if before[j] != bookmark {
                    let k = choose|k: int| 0 <= k < less.len() && less[k] == before[j];
                    assert(bookmarks[k] == all[j]);
                }
            } else {
                assert(bookmarks[n - 1] == all[j]);
            }
        }
        assert forall|j: int| 0 <= j < n implies all.contains(#[trigger] bookmarks[j]) by {
            if j < n - 1 {
                assert(less[j] == bookmarks[j]);
                let k = choose|k: int| 0 <= k < before.len() && before[k] == less[j];
                assert(all[k] == bookmarks[j]);
            } else {
                assert(all[all.len() - 1] == bookmarks[j]);
            }
        }
        assert forall|i: int, j: int| 0 <= i < j < all.len() implies (#[trigger] all[i]).position
            < (#[trigger] all[j]).position by {
            assert(all[i] == before[i]);
            if j < before.len() {
                assert(before[i].position < before[j].position);
            } else if before[i] != bookmark {
                let k = choose|k: int| 0 <= k < less.len() && less[k] == before[i];
                assert(bookmarks[k].position < bookmarks[n - 1].position);
            } else {
                assert(bookmarks[n - 1].position != bookmark.position);
            }
        }
    }
}

/// A bookmark that is added is there with its label, the others stay as they are, and all stand
/// in order; at a place there is never more than one.
pub proof fn law_added_bookmark(bookmarks: Seq<BookmarkModel>, bookmark: BookmarkModel)
    requires
        in_order(bookmarks),
    ensures
        in_order(with_bookmark(bookmarks, bookmark)),
        exists|i: int|
            0 <= i < with_bookmark(bookmarks, bookmark).len() && (#[trigger] with_bookmark(
                bookmarks,
                bookmark,
            )[i]).position == bookmark.position && with_bookmark(bookmarks, bookmark)[i].label
                == bookmark.label,
        forall|j: int|
            0 <= j < bookmarks.len() && (#[trigger] bookmarks[j]).position != bookmark.position
                ==> with_bookmark(bookmarks, bookmark).contains(bookmarks[j]),
{
    lemma_bookmark_at(bookmarks, bookmark.position, 0);
    let i = bookmark_at(bookmarks, bookmark.position, 0);
    let all = with_bookmark(bookmarks, bookmark);
    if i < bookmarks.len() {
        assert(all[i].position == bookmark.position);
        assert forall|a: int, b: int| 0 <= a < b < all.len() implies (#[trigger] all[a]).position
            < (#[trigger] all[b]).position by {
            assert(bookmarks[a].position < bookmarks[b].position);
        }
        assert forall|j: int|
            0 <= j < bookmarks.len() && (#[trigger] bookmarks[j]).position
                != bookmark.position implies all.contains(bookmarks[j]) by {
            assert(all[j] == bookmarks[j]);
        }
    } else {
        assert(bookmarks.push(bookmark).drop_last() =~= bookmarks);
        lemma_already_ordered(bookmarks);
        lemma_with_new_bookmark(bookmarks, bookmark);
        let at = choose|at: int| 0 <= at < all.len() && all[at] == bookmark;
        assert(all[at].position == bookmark.position);
    }
}

} // verus!

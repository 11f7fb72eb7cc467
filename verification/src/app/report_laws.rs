//! What the lists and the messages tell, and what becomes of the work outside.
use vstd::prelude::*;

use super::actions::{
    ActionModel, AnalysisModel, LoadOutcomeModel, SearchOutcomeModel, SearchReplyModel,
};
use super::events::{installed, polled, search_polled};
use super::key_laws::{lemma_gone_to_place, place_is_shown};
use super::labels::age_text;
use super::lists::{overlay_lines, toc_line, unfiltered_items};
use super::moves::{gone_to_hit, gone_to_offset};
use super::reading::{reading_text, ReadingModel};
use super::{
    AppModel, OverlayKind, OverlayModel, SessionModel, SurroundingsModel,
};
use crate::document::load::LoadedModel;
use crate::document::TocModel;
use crate::filter::shown_labels;
use crate::search::{SearchDirection, SearchKind};
use crate::state::{SavedBookModel, StateFault};
use crate::strings::{decimal, repeated};
use crate::text::is_boundary;

verus! {

/// An age is told in the largest of minutes, hours and days of which at least one is full, and
/// is just now before that; what is left over is not told.
pub proof fn law_ages(milliseconds: int, n: nat)
    requires
        0 <= milliseconds,
    ensures
        milliseconds < 60000 ==> age_text(milliseconds) == "just now"@,
        1 <= n < 60 && n * 60000 <= milliseconds < (n + 1) * 60000 ==> age_text(milliseconds)
            == decimal(n) + "m ago"@,
        1 <= n < 24 && n * 3600000 <= milliseconds < (n + 1) * 3600000 ==> age_text(milliseconds)
            == decimal(n) + "h ago"@,
        1 <= n && n * 86400000 <= milliseconds < (n + 1) * 86400000 ==> age_text(milliseconds)
            == decimal(n) + "d ago"@,
{
    let seconds = milliseconds / 1000;
    if n * 60000 <= milliseconds < (n + 1) * 60000 {
        assert(seconds / 60 == n);
    }
    if n * 3600000 <= milliseconds < (n + 1) * 3600000 {
        assert(seconds / 3600 == n);
    }
    if n * 86400000 <= milliseconds < (n + 1) * 86400000 {
        assert(seconds / 86400 == n);
    }
}

proof fn lemma_double_blanks(n: nat)
    ensures
        repeated("  "@, n).len() == 2 * n,
        forall|i: int| 0 <= i < 2 * n ==> #[trigger] repeated("  "@, n)[i] == ' ',
    decreases n,
{
    reveal_strlit("  ");
    if n > 0 {
        lemma_double_blanks((n - 1) as nat);
        let less = repeated("  "@, (n - 1) as nat);
        assert forall|i: int| 0 <= i < 2 * n implies #[trigger] repeated("  "@, n)[i] == ' ' by {
            if i < less.len() {
                assert(repeated("  "@, n)[i] == less[i]);
            }
        }
    }
}

/// The entries of a table of contents are shown by their labels, each indented by two blanks
/// for every level that it is below the first.
pub proof fn law_entries_are_indented(entry: TocModel)
    requires
        entry.depth >= 0,
    ensures
        ({
            let line = toc_line(entry);
            &&& line.len() == 2 * entry.depth + entry.label.len()
            &&& line.skip(2 * entry.depth) == entry.label
            &&& forall|i: int| 0 <= i < 2 * entry.depth ==> #[trigger] line[i] == ' '
        }),
{
    lemma_double_blanks(entry.depth as nat);
    let line = toc_line(entry);
    assert(line.skip(2 * entry.depth) =~= entry.label);
    assert forall|i: int| 0 <= i < 2 * entry.depth implies #[trigger] line[i] == ' ' by {
        assert(repeated("  "@, entry.depth as nat)[i] == ' ');
    }
}

/// The lines of the lists: of a bookmark its label and how far it is, of a book its name, its
/// directory and when it was read, of a file its name, of a match its number.
pub proof fn law_lines_of_lists(app: AppModel, around: SurroundingsModel, i: int)
    requires
        0 <= i,
    ensures
        ({
            let marks = unfiltered_items(app, around, OverlayKind::Bookmarks);
            &&& app.reading is Some && i < app.bookmarks.len() && i < around.percents.len()
                && app.bookmarks[i].label is Some ==> marks.len() == app.bookmarks.len()
                && marks[i] == app.bookmarks[i].label->0 + " · "@ + around.percents[i] + "%"@
        }),
        ({
            let books = unfiltered_items(app, around, OverlayKind::Recent);
            &&& books.len() == app.recent.len()
            &&& i < app.recent.len() && i < around.places.len() && app.recent[i].updated
                <= around.now ==> {
                let place = around.places[i];
                let age = age_text(around.now - app.recent[i].updated);
                &&& place.parent.len() == 0 ==> books[i] == place.name + " · "@ + age
                &&& place.parent.len() > 0 ==> books[i] == place.name + " · "@ + place.parent
                    + " · "@ + age
            }
        }),
        ({
            let files = unfiltered_items(app, around, OverlayKind::Files);
            app.picker matches Some(picker) ==> i < picker.entries.len() ==> {
                let entry = picker.entries[i];
                &&& files.len() == picker.entries.len()
                &&& entry.is_parent ==> files[i] == "../"@
                &&& !entry.is_parent && entry.is_directory ==> files[i] == entry.name + "/"@
                &&& !entry.is_parent && !entry.is_directory ==> files[i] == entry.name
            }
        }),
        ({
            let results = unfiltered_items(app, around, OverlayKind::SearchResults);
            app.session matches Some(session) ==> app.reading is Some && i < session.previews.len()
                && session.previews[i].1 < usize::MAX ==> {
                let number = decimal((session.previews[i].1 + 1) as nat) + "/"@ + decimal(
                    session.total as nat,
                ) + "  "@;
                &&& results.len() == session.previews.len()
                &&& number.is_prefix_of(results[i])
            }
        }),
        ({
            let entries = unfiltered_items(app, around, OverlayKind::Toc);
            app.reading matches Some(reading) ==> i < reading.loaded.document.toc.len() ==> {
                &&& entries.len() == reading.loaded.document.toc.len()
                &&& entries[i] == toc_line(reading.loaded.document.toc[i])
            }
        }),
{
    if let Some(session) = app.session {
        if app.reading is Some && i < session.previews.len() && session.previews[i].1
            < usize::MAX {
            let number = decimal((session.previews[i].1 + 1) as nat) + "/"@ + decimal(
                session.total as nat,
            ) + "  "@;
            let line = unfiltered_items(app, around, OverlayKind::SearchResults)[i];
            assert(line.subrange(0, number.len() as int) =~= number);
        }
    }
}

/// A list shows the items that the filter leaves, in their order; without a filter, all.
pub proof fn law_shown_items(app: AppModel, around: SurroundingsModel, overlay: OverlayModel, i: int)
    requires
        app.overlay == Some(overlay),
        0 <= i,
    ensures
        ({
            let all = unfiltered_items(app, around, overlay.kind);
            let lines = overlay_lines(app, around);
            &&& overlay.filter is None && all.len() > 0 ==> lines == all
            &&& overlay.filter matches Some(filter) ==> (i < filter.visible.len() && (forall|j: int|
                0 <= j < filter.visible.len() ==> 0 <= #[trigger] filter.visible[j] < all.len())
                ==> lines.len() == filter.visible.len() && lines[i] == all[filter.visible[i]])
        }),
{
    let all = unfiltered_items(app, around, overlay.kind);
    if let Some(filter) = overlay.filter {
        if i < filter.visible.len() && (forall|j: int|
            0 <= j < filter.visible.len() ==> 0 <= #[trigger] filter.visible[j] < all.len()) {
            lemma_shown_labels(filter.visible, all);
        }
    }
}

proof fn lemma_shown_labels(visible: Seq<int>, all: Seq<Seq<char>>)
    requires
        forall|j: int| 0 <= j < visible.len() ==> 0 <= #[trigger] visible[j] < all.len(),
    ensures
        shown_labels(visible, all).len() == visible.len(),
        forall|j: int|
            0 <= j < visible.len() ==> #[trigger] shown_labels(visible, all)[j] == all[visible[j]],
    decreases visible.len(),
{
    if visible.len() > 0 {
        let less = visible.drop_last();
        assert(visible[visible.len() - 1] < all.len());
        assert forall|j: int| 0 <= j < less.len() implies 0 <= #[trigger] less[j] < all.len() by {
            assert(less[j] == visible[j]);
        }
        lemma_shown_labels(less, all);
        assert forall|j: int| 0 <= j < visible.len() implies #[trigger] shown_labels(visible, all)[j]
            == all[visible[j]] by {
            if j < less.len() {
                assert(shown_labels(less, all)[j] == all[less[j]]);
            }
        }
    }
}

// ---------------------------------------------------------------------------------------
// Searches
// ---------------------------------------------------------------------------------------

/// What a search tells that is still awaited.
pub open spec fn told(app: AppModel, reply: SearchReplyModel, now: u64) -> AppModel {
    search_polled(
        app,
        Some(SearchOutcomeModel { generation: app.search_generation, reply }),
        now,
    )
}

/// The match is gone to and set off, and its number among all matches is told.
pub open spec fn match_is_shown(
    app: AppModel,
    after: AppModel,
    range: (int, int),
    number: int,
    total: int,
) -> bool {
    &&& after.current_match == Some(range)
    &&& after.message == Some(
        "Match "@ + decimal((number + 1) as nat) + "/"@ + decimal(total as nat),
    )
    &&& after.session matches Some(session) && session.current == Some((range, number))
        && session.total == total
    &&& after.reading matches Some(reading) && place_is_shown(reading, range.0) && reading.loaded
        == app.reading->0.loaded
    &&& after.dirty && !after.awaits_search
}

/// A search goes to the match that it found, and its matches can be gone through from then on.
/// One that found nothing says so, and the place that is read stays.
pub proof fn law_search_is_answered(
    app: AppModel,
    reading: ReadingModel,
    query: (SearchKind, Seq<char>),
    analysis: AnalysisModel,
    now: u64,
)
    requires
        app.awaits_search,
        app.reading == Some(reading),
        reading.viewport.height >= 1,
        analysis.current matches Some(hit) ==> 0 <= hit.1 < usize::MAX && is_boundary(
            reading_text(reading),
            hit.0.0,
        ),
    ensures
        ({
            let after = told(
                app,
                SearchReplyModel::Analysis { query, analysis: Ok(analysis) },
                now,
            );
            match analysis.current {
                Some(hit) => {
                    &&& match_is_shown(app, after, hit.0, hit.1, analysis.total)
                    &&& after.session->0.query == query
                    &&& after.session->0.previews == analysis.previews
                },
                None => {
                    &&& after.message == Some("No matches"@)
                    &&& after.reading == app.reading && after.current_match is None
                    &&& after.dirty == app.dirty && !after.awaits_search
                },
            }
        }),
{
    if let Some(hit) = analysis.current {
        lemma_hit(app, reading, hit.0, now);
    }
}

proof fn lemma_hit(app: AppModel, reading: ReadingModel, range: (int, int), now: u64)
    requires
        app.reading == Some(reading),
        reading.viewport.height >= 1,
        is_boundary(reading_text(reading), range.0),
    ensures
        gone_to_hit(app, range, now).reading == gone_to_offset(app, range.0, now).reading,
        place_is_shown(gone_to_hit(app, range, now).reading->0, range.0),
        gone_to_hit(app, range, now).reading->0.loaded == reading.loaded,
{
    lemma_gone_to_place(app, reading, range.0, now);
}

/// The next match has the next number, and after the last one the first; the match before has
/// the number before, and before the first one the last.
pub proof fn law_search_goes_on(
    app: AppModel,
    reading: ReadingModel,
    session: SessionModel,
    range: (int, int),
    now: u64,
)
    requires
        app.awaits_search,
        app.reading == Some(reading),
        reading.viewport.height >= 1,
        is_boundary(reading_text(reading), range.0),
        app.session == Some(session),
        session.current matches Some(hit) && 0 <= hit.1 < session.total,
        session.total < usize::MAX,
    ensures
        ({
            let hit = session.current->0;
            let number = hit.1;
            let next = told(
                app,
                SearchReplyModel::Step {
                    direction: SearchDirection::Forward,
                    found: Ok(Some(range)),
                },
                now,
            );
            let last = told(
                app,
                SearchReplyModel::Step {
                    direction: SearchDirection::Backward,
                    found: Ok(Some(range)),
                },
                now,
            );
            &&& number + 1 < session.total ==> match_is_shown(
                app,
                next,
                range,
                number + 1,
                session.total,
            )
            &&& number + 1 == session.total ==> match_is_shown(app, next, range, 0, session.total)
            &&& number > 0 ==> match_is_shown(app, last, range, number - 1, session.total)
            &&& number == 0 ==> match_is_shown(
                app,
                last,
                range,
                session.total - 1,
                session.total,
            )
            &&& next.session->0.query == session.query && last.session->0.query == session.query
        }),
{
    lemma_hit(app, reading, range, now);
    let hit = session.current->0;
    let number = hit.1;
    if number + 1 < session.total {
        assert((number + 1) % session.total == number + 1) by (nonlinear_arith)
            requires
                0 <= number + 1 < session.total,
        ;
    } else {
        assert((number + 1) % session.total == 0) by (nonlinear_arith)
            requires
                number + 1 == session.total,
                session.total > 0,
        ;
    }
}

// ---------------------------------------------------------------------------------------
// Documents
// ---------------------------------------------------------------------------------------

/// A file that was loaded is handed on to be read; one that could not be is told of, and what
/// was read goes on to be. Either way it is awaited no more.
pub proof fn law_loads_are_answered(app: AppModel, outcome: LoadOutcomeModel, now: u64)
    requires
        app.awaits_load,
        outcome.generation == app.load_generation,
    ensures
        ({
            let step = polled(app, Some(outcome), None, now);
            &&& !step.app.awaits_load && step.app.loading_path is None
            &&& step.app.reading == app.reading
            &&& match outcome.result {
                Ok(loaded) => step.actions.len() > 0 && step.actions[0] == ActionModel::Install(
                    loaded,
                ) && step.app.message == app.message,
                Err(_) => step.app.message is Some && !(step.actions.len() > 0
                    && step.actions[0] is Install),
            }
        }),
{
}

/// A document that is opened is read from where it was left, with its bookmarks; a search of
/// the last one is over.
pub proof fn law_document_is_opened(
    app: AppModel,
    loaded: LoadedModel,
    saved: SavedBookModel,
    last_opened: Result<(), StateFault>,
    now: u64,
)
    requires
        is_boundary(loaded.document.text, saved.position),
    ensures
        ({
            let after = installed(app, loaded, saved, last_opened, now);
            &&& after.reading matches Some(reading) && reading.loaded == loaded && place_is_shown(
                reading,
                saved.position,
            )
            &&& after.session is None && after.current_match is None
            &&& after.warnings == saved.warnings
            &&& after.dirty && after.last_move == now
            &&& last_opened is Ok && !saved.matched_by_fingerprint && loaded.warnings.len() == 0
                && saved.warnings.len() == 0 ==> after.message is None
            &&& last_opened is Ok && saved.matched_by_fingerprint ==> after.message == Some(
                "Restored reading state after the file was moved"@,
            )
            &&& last_opened is Ok && !saved.matched_by_fingerprint && loaded.warnings.len()
                + saved.warnings.len() == 1 ==> after.message == Some(
                "Opened with "@ + decimal(1) + " recovery warning"@ + Seq::<char>::empty()
                    + "; use :info for details"@,
            )
            &&& last_opened is Ok && !saved.matched_by_fingerprint && loaded.warnings.len()
                + saved.warnings.len() > 1 ==> after.message == Some(
                "Opened with "@ + decimal(loaded.warnings.len() + saved.warnings.len())
                    + " recovery warning"@ + "s"@ + "; use :info for details"@,
            )
        }),
{
    let text = loaded.document.text;
    let v = crate::viewport::ViewportModel {
        anchor: crate::text::floor_boundary(text, saved.position) as int,
        width: super::reading::FIRST_WIDTH as int,
        height: 1,
        total: text.len() as int,
    };
    let reading = ReadingModel { loaded, viewport: v };
    lemma_gone_to_place(
        AppModel { reading: Some(reading), ..app },
        reading,
        saved.position,
        now,
    );
}

} // verus!

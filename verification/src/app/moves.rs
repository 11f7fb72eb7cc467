//! Moving through the document, and searching it.
use std::ops::Range;

use vstd::prelude::*;

use super::actions::{
    copy_hit, hit_view, no_actions, one_action, Action, ActionModel, AnalysisModel,
};
use super::labels::{counted, entry_before, insert_search_preview, previewed};
use super::reading::{
    reading_at_byte, reading_at_char, reading_at_end, reading_at_start, reading_scrolled,
    ReadingModel,
};
use super::{
    quiet, stepped, App, AppModel, OverlayModel, OverlayState, SearchSession, SessionModel, Step,
    SEARCH_PREVIEW_LIMIT,
};
use crate::document::chapter::toc_views;
use crate::document::TocModel;
use crate::loose_match::span;
use crate::search::{
    search_fault_text, SearchAnalysis, SearchDirection, SearchError, SearchFault, SearchHit,
    SearchKind, SearchQuery,
};
use crate::strings::{decimal, push_number, push_text};
use crate::text::{chars_of, greatest, least, string_of};

verus! {

pub open spec fn anchor_of(app: AppModel) -> int {
    match app.reading {
        Some(reading) => reading.viewport.anchor,
        None => 0,
    }
}

pub open spec fn with_message(app: AppModel, message: Seq<char>) -> AppModel {
    AppModel { message: Some(message), ..app }
}

/// The document is read elsewhere, and that is to be remembered.
pub open spec fn moved_to(app: AppModel, reading: ReadingModel, now: u64) -> AppModel {
    AppModel {
        reading: Some(reading),
        current_match: None,
        dirty: true,
        last_move: now,
        ..app
    }
}

pub open spec fn gone_by(app: AppModel, delta: int, now: u64) -> AppModel {
    match app.reading {
        Some(reading) => {
            let next = reading_scrolled(reading, delta);
            if next.viewport.anchor != reading.viewport.anchor {
                moved_to(app, next, now)
            } else {
                AppModel { reading: Some(next), ..app }
            }
        },
        None => app,
    }
}

pub open spec fn gone_to_start_of(app: AppModel, now: u64) -> AppModel {
    match app.reading {
        Some(reading) => moved_to(app, reading_at_start(reading), now),
        None => app,
    }
}

pub open spec fn gone_to_end_of(app: AppModel, now: u64) -> AppModel {
    match app.reading {
        Some(reading) => moved_to(app, reading_at_end(reading), now),
        None => app,
    }
}

pub open spec fn gone_to_offset(app: AppModel, offset: int, now: u64) -> AppModel {
    match app.reading {
        Some(reading) => moved_to(app, reading_at_byte(reading, offset), now),
        None => app,
    }
}

pub open spec fn gone_to_index(app: AppModel, target: int, now: u64) -> AppModel {
    match app.reading {
        Some(reading) => moved_to(app, reading_at_char(reading, target), now),
        None => with_message(app, "No document is open"@),
    }
}

pub open spec fn gone_to_hit(app: AppModel, range: (int, int), now: u64) -> AppModel {
    match app.reading {
        Some(reading) => AppModel {
            current_match: Some(range),
            ..moved_to(app, reading_at_byte(reading, range.0), now)
        },
        None => app,
    }
}

/// The first entry from the index `i` on that is below an offset.
pub open spec fn entry_after(toc: Seq<TocModel>, anchor: int, i: int) -> Option<TocModel>
    decreases toc.len() - i,
{
    if i < 0 || i >= toc.len() {
        None
    } else if toc[i].offset > anchor {
        Some(toc[i])
    } else {
        entry_after(toc, anchor, i + 1)
    }
}

/// The section after or before the place that is read.
pub open spec fn gone_to_section(app: AppModel, forward: bool, now: u64) -> AppModel {
    match app.reading {
        Some(reading) => {
            let toc = reading.loaded.document.toc;
            let anchor = reading.viewport.anchor;
            let entry = if forward {
                entry_after(toc, anchor, 0)
            } else {
                entry_before(toc, anchor - 1)
            };
            match entry {
                Some(entry) => gone_to_offset(app, entry.offset, now),
                None => app,
            }
        },
        None => app,
    }
}

/// The place of the selection some rows further down, or up.
pub open spec fn selection_moved(selected: int, lines: int, max_position: int) -> int {
    if lines >= 0 {
        least(least(selected + lines, usize::MAX as int), max_position)
    } else {
        greatest(selected + lines, 0)
    }
}

/// The mouse wheel moves the selection where something is shown over the document.
pub open spec fn wheel_turned(app: AppModel, lines: int, now: u64) -> AppModel {
    match app.overlay {
        Some(overlay) => AppModel {
            overlay: Some(
                OverlayModel {
                    selected: selection_moved(overlay.selected, lines, app.max_position),
                    ..overlay
                },
            ),
            ..app
        },
        None => gone_by(app, lines, now),
    }
}

// ---------------------------------------------------------------------------------------
// Searching
// ---------------------------------------------------------------------------------------

pub open spec fn next_generation(generation: u64) -> u64 {
    if generation == u64::MAX {
        0
    } else {
        (generation + 1) as u64
    }
}

/// A search is begun.
pub open spec fn search_begun(
    app: AppModel,
    query: (SearchKind, Seq<char>),
    direction: SearchDirection,
    from: Option<int>,
) -> Step {
    if query.1.len() == 0 {
        quiet(with_message(app, "Search text cannot be empty"@))
    } else if app.reading is None {
        quiet(with_message(app, "No document is open"@))
    } else {
        let generation = next_generation(app.search_generation);
        Step {
            app: AppModel {
                search_generation: generation,
                awaits_search: true,
                message: Some("Searching…"@),
                ..app
            },
            actions: seq![
                ActionModel::Analyze {
                    generation,
                    query,
                    from: match from {
                        Some(from) => from,
                        None => anchor_of(app),
                    },
                    direction,
                },
            ],
        }
    }
}

/// Where a search goes on.
pub open spec fn search_from(app: AppModel, direction: SearchDirection) -> int {
    match app.current_match {
        Some(found) => match direction {
            SearchDirection::Forward => found.1,
            SearchDirection::Backward => found.0,
        },
        None => anchor_of(app),
    }
}

/// The last search goes on to the next match.
pub open spec fn search_repeated(app: AppModel, direction: SearchDirection) -> Step {
    match app.session {
        None => quiet(with_message(app, "No previous search"@)),
        Some(session) => {
            let from = search_from(app, direction);
            if app.current_match is None || session.current is None {
                search_begun(app, session.query, direction, Some(from))
            } else if app.reading is None {
                quiet(app)
            } else {
                let generation = next_generation(app.search_generation);
                Step {
                    app: AppModel {
                        search_generation: generation,
                        awaits_search: true,
                        message: Some("Searching…"@),
                        ..app
                    },
                    actions: seq![
                        ActionModel::FindNext {
                            generation,
                            query: session.query,
                            from,
                            direction,
                        },
                    ],
                }
            }
        },
    }
}

pub open spec fn match_text(ordinal: int, total: int) -> Seq<char> {
    "Match "@ + decimal(counted(ordinal) as nat) + "/"@ + decimal(total as nat)
}

/// What a new search found is shown.
pub open spec fn search_analyzed(
    app: AppModel,
    query: (SearchKind, Seq<char>),
    result: Result<AnalysisModel, SearchFault>,
    now: u64,
) -> AppModel {
    match result {
        Ok(analysis) => {
            let found = AppModel {
                session: Some(
                    SessionModel {
                        query,
                        current: analysis.current,
                        total: analysis.total,
                        previews: analysis.previews,
                    },
                ),
                ..app
            };
            match analysis.current {
                Some(hit) => with_message(
                    gone_to_hit(found, hit.0, now),
                    match_text(hit.1, analysis.total),
                ),
                None => AppModel {
                    current_match: None,
                    message: Some("No matches"@),
                    ..found
                },
            }
        },
        Err(fault) => with_message(app, search_fault_text(fault)),
    }
}

/// The number of the match after the current one, or before it.
pub open spec fn next_ordinal(direction: SearchDirection, current: Option<int>, total: int) -> int {
    if total == 0 {
        0
    } else {
        match current {
            Some(ordinal) => match direction {
                SearchDirection::Forward => counted(ordinal) % total,
                SearchDirection::Backward => if ordinal > 0 {
                    ordinal - 1
                } else {
                    total - 1
                },
            },
            None => 0,
        }
    }
}

pub open spec fn hit_ordinal(hit: Option<((int, int), int)>) -> Option<int> {
    match hit {
        Some(hit) => Some(hit.1),
        None => None,
    }
}

/// The next match of a search is shown.
pub open spec fn search_stepped(
    app: AppModel,
    direction: SearchDirection,
    result: Result<Option<(int, int)>, SearchFault>,
    now: u64,
) -> AppModel {
    match result {
        Ok(Some(range)) => match app.session {
            Some(session) => {
                let ordinal = next_ordinal(direction, hit_ordinal(session.current), session.total);
                let hit = (range, ordinal);
                let found = AppModel {
                    session: Some(
                        SessionModel {
                            current: Some(hit),
                            previews: previewed(
                                session.previews,
                                hit,
                                SEARCH_PREVIEW_LIMIT as int,
                            ),
                            ..session
                        },
                    ),
                    ..app
                };
                with_message(gone_to_hit(found, range, now), match_text(ordinal, session.total))
            },
            None => app,
        },
        Ok(None) => AppModel { current_match: None, message: Some("No matches"@), ..app },
        Err(fault) => with_message(app, search_fault_text(fault)),
    }
}

pub(super) fn match_message(ordinal: usize, total: usize) -> (message: String)
    ensures
        message@ == match_text(ordinal as int, total as int),
{
    let mut message = chars_of("Match ");
    push_number(&mut message, ordinal.saturating_add(1));
    push_text(&mut message, "/");
    push_number(&mut message, total);
    string_of(&message)
}

impl App {
    /// The byte of the document at which the screen begins.
    pub fn anchor(&self) -> (anchor: usize)
        ensures
            anchor == anchor_of(self@),
    {
        match &self.reading {
            Some(reading) => reading.anchor(),
            None => 0,
        }
    }

    /// Moves some rows down, or up.
    pub fn scroll(&mut self, delta: isize, now: u64)
        ensures
            final(self)@ == gone_by(old(self)@, delta as int, now),
    {
        if let Some(reading) = self.reading.take() {
            let before: usize = reading.anchor();
            let next = reading.scrolled(delta);
            let after: usize = next.anchor();
            self.reading = Some(next);
            if after != before {
                self.current_match = None;
                self.dirty_progress = true;
                self.last_move = now;
            }
        }
    }

    fn mark_moved(&mut self, now: u64)
        ensures
            final(self)@ == (AppModel {
                current_match: None,
                dirty: true,
                last_move: now,
                ..old(self)@
            }),
    {
        self.current_match = None;
        self.dirty_progress = true;
        self.last_move = now;
    }

    pub(super) fn goto_start(&mut self, now: u64)
        ensures
            final(self)@ == gone_to_start_of(old(self)@, now),
    {
        if let Some(reading) = self.reading.take() {
            self.reading = Some(reading.at_start());
            self.mark_moved(now);
        }
    }

    pub(super) fn goto_end(&mut self, now: u64)
        ensures
            final(self)@ == gone_to_end_of(old(self)@, now),
    {
        if let Some(reading) = self.reading.take() {
            self.reading = Some(reading.at_end());
            self.mark_moved(now);
        }
    }

    /// Goes to the character at a byte of the document.
    pub fn goto_byte(&mut self, offset: usize, now: u64)
        ensures
            final(self)@ == gone_to_offset(old(self)@, offset as int, now),
    {
        if let Some(reading) = self.reading.take() {
            self.reading = Some(reading.at_byte(offset));
            self.mark_moved(now);
        }
    }

    /// Goes to the character with an index, as the command to go somewhere asks.
    pub fn goto_char(&mut self, target: usize, now: u64)
        ensures
            final(self)@ == gone_to_index(old(self)@, target as int, now),
    {
        match self.reading.take() {
            Some(reading) => {
                self.reading = Some(reading.at_char(target));
                self.mark_moved(now);
            },
            None => {
                self.message = Some("No document is open".to_owned());
            },
        }
    }

    pub(super) fn goto_search_hit(&mut self, range: Range<usize>, now: u64)
        ensures
            final(self)@ == gone_to_hit(old(self)@, span(range), now),
    {
        if let Some(reading) = self.reading.take() {
            self.reading = Some(reading.at_byte(range.start));
            self.mark_moved(now);
            self.current_match = Some(range);
        }
    }

    pub(super) fn goto_chapter(&mut self, forward: bool, now: u64)
        ensures
            final(self)@ == gone_to_section(old(self)@, forward, now),
    {
        let offset: Option<usize> = match &self.reading {
            Some(reading) => {
                let anchor: usize = reading.anchor();
                let toc = reading.loaded().document().toc();
                let ghost entries = toc_views(toc@);
                if forward {
                    let mut i: usize = 0;
                    while i < toc.len() && toc[i].offset() <= anchor
                        invariant
                            i <= toc@.len(),
                            entries == toc_views(toc@),
                            entry_after(entries, anchor as int, 0) == entry_after(
                                entries,
                                anchor as int,
                                i as int,
                            ),
                        decreases toc.len() - i,
                    {
                        assert(entries[i as int] == toc@[i as int]@);
                        i += 1;
                    }
                    if i < toc.len() {
                        assert(entries[i as int] == toc@[i as int]@);
                        Some(toc[i].offset())
                    } else {
                        None
                    }
                } else {
                    let mut i: usize = toc.len();
                    assert(entries.take(i as int) =~= entries);
                    while i > 0 && toc[i - 1].offset() >= anchor
                        invariant
                            i <= toc@.len(),
                            entries == toc_views(toc@),
                            entry_before(entries, anchor - 1) == entry_before(
                                entries.take(i as int),
                                anchor - 1,
                            ),
                        decreases i,
                    {
                        assert(entries.take(i as int).drop_last() =~= entries.take(i - 1));
                        assert(entries.take(i as int).last() == toc@[i - 1]@);
                        i -= 1;
                    }
                    if i > 0 {
                        assert(entries.take(i as int).last() == toc@[i - 1]@);
                        Some(toc[i - 1].offset())
                    } else {
                        None
                    }
                }
            },
            None => None,
        };
        if let Some(offset) = offset {
            self.goto_byte(offset, now);
        }
    }

    /// Turns the mouse wheel by some lines.
    pub fn scroll_mouse(&mut self, lines: isize, now: u64)
        ensures
            final(self)@ == wheel_turned(old(self)@, lines as int, now),
    {
        match self.overlay.take() {
            Some(overlay) => {
                let selected: usize = if lines >= 0 {
                    let below: usize = overlay.selected.saturating_add(lines as usize);
                    if below < self.overlay_max_position {
                        below
                    } else {
                        self.overlay_max_position
                    }
                } else {
                    let up: usize = (-(lines + 1)) as usize + 1;
                    overlay.selected.saturating_sub(up)
                };
                self.overlay = Some(
                    OverlayState { kind: overlay.kind, selected, filter: overlay.filter },
                );
            },
            None => {
                self.scroll(lines, now);
            },
        }
    }

    /// Begins a search, at the top of the screen where no other place is given.
    pub fn start_search(
        &mut self,
        query: SearchQuery,
        direction: SearchDirection,
        from: Option<usize>,
    ) -> (actions: Vec<Action>)
        ensures
            stepped(final(self)@, actions@) == search_begun(
                old(self)@,
                query@,
                direction,
                super::labels::opt_int(from),
            ),
    {
        if chars_of(query.pattern.as_str()).len() == 0 {
            self.message = Some("Search text cannot be empty".to_owned());
            return no_actions();
        }
        if self.reading.is_none() {
            self.message = Some("No document is open".to_owned());
            return no_actions();
        }
        let start: usize = match from {
            Some(from) => from,
            None => self.anchor(),
        };
        let generation: u64 = self.search_generation.wrapping_add(1);
        self.search_generation = generation;
        self.awaits_search = true;
        self.message = Some("Searching…".to_owned());
        one_action(Action::Analyze { generation, query, from: start, direction })
    }

    pub(super) fn repeat_search(&mut self, direction: SearchDirection) -> (actions: Vec<Action>)
        ensures
            stepped(final(self)@, actions@) == search_repeated(old(self)@, direction),
    {
        let (query, located): (SearchQuery, bool) = match &self.search_session {
            None => {
                self.message = Some("No previous search".to_owned());
                return no_actions();
            },
            Some(session) => (session.query.clone(), session.current.is_some()),
        };
        let from: usize = match &self.current_match {
            Some(found) => match direction {
                SearchDirection::Forward => found.end,
                SearchDirection::Backward => found.start,
            },
            None => self.anchor(),
        };
        if self.current_match.is_none() || !located {
            return self.start_search(query, direction, Some(from));
        }
        if self.reading.is_none() {
            return no_actions();
        }
        let generation: u64 = self.search_generation.wrapping_add(1);
        self.search_generation = generation;
        self.awaits_search = true;
        self.message = Some("Searching…".to_owned());
        one_action(Action::FindNext { generation, query, from, direction })
    }

    pub(super) fn finish_search_analysis(
        &mut self,
        query: SearchQuery,
        result: Result<SearchAnalysis, SearchError>,
        now: u64,
    )
        ensures
            final(self)@ == search_analyzed(
                old(self)@,
                query@,
                match result {
                    Ok(analysis) => Ok(analysis@),
                    Err(error) => Err(error@),
                },
                now,
            ),
    {
        match result {
            Ok(analysis) => {
                let current = copy_hit(&analysis.current);
                let total: usize = analysis.total;
                self.search_session = Some(
                    SearchSession {
                        query,
                        current: analysis.current,
                        total,
                        previews: analysis.previews,
                    },
                );
                match current {
                    Some(hit) => {
                        let ordinal: usize = hit.ordinal;
                        self.goto_search_hit(hit.range, now);
                        self.message = Some(match_message(ordinal, total));
                    },
                    None => {
                        self.current_match = None;
                        self.message = Some("No matches".to_owned());
                    },
                }
            },
            Err(error) => {
                self.message = Some(error.message());
            },
        }
    }

    pub(super) fn finish_search_step(
        &mut self,
        direction: SearchDirection,
        result: Result<Option<Range<usize>>, SearchError>,
        now: u64,
    )
        ensures
            final(self)@ == search_stepped(
                old(self)@,
                direction,
                match result {
                    Ok(found) => Ok(super::actions::opt_span(found)),
                    Err(error) => Err(error@),
                },
                now,
            ),
    {
        match result {
            Ok(Some(range)) => {
                if let Some(session) = self.search_session.take() {
                    let total: usize = session.total;
                    let ordinal: usize = step_ordinal(direction, &session.current, total);
                    let hit = SearchHit {
                        range: Range { start: range.start, end: range.end },
                        ordinal,
                    };
                    let copy = hit.clone();
                    let previews = insert_search_preview(
                        session.previews,
                        copy,
                        SEARCH_PREVIEW_LIMIT,
                    );
                    self.search_session = Some(
                        SearchSession { query: session.query, current: Some(hit), total, previews },
                    );
                    self.goto_search_hit(range, now);
                    self.message = Some(match_message(ordinal, total));
                }
            },
            Ok(None) => {
                self.current_match = None;
                self.message = Some("No matches".to_owned());
            },
            Err(error) => {
                self.message = Some(error.message());
            },
        }
    }
}

fn step_ordinal(direction: SearchDirection, current: &Option<SearchHit>, total: usize) -> (ordinal:
    usize)
    ensures
        ordinal == next_ordinal(direction, hit_ordinal(hit_view(*current)), total as int),
{
    if total == 0 {
        return 0;
    }
    match current {
        Some(hit) => match direction {
            SearchDirection::Forward => hit.ordinal.saturating_add(1) % total,
            SearchDirection::Backward => if hit.ordinal > 0 {
                hit.ordinal - 1
            } else {
                total - 1
            },
        },
        None => 0,
    }
}

/// From every match the next one leads back to it, at the edges of the document too.
pub proof fn law_next_and_previous(ordinal: int, total: int)
    requires
        0 <= ordinal < total <= usize::MAX,
    ensures
        next_ordinal(
            SearchDirection::Backward,
            Some(next_ordinal(SearchDirection::Forward, Some(ordinal), total)),
            total,
        ) == ordinal,
        next_ordinal(
            SearchDirection::Forward,
            Some(next_ordinal(SearchDirection::Backward, Some(ordinal), total)),
            total,
        ) == ordinal,
{
    if ordinal + 1 < total {
        vstd::arithmetic::div_mod::lemma_small_mod((ordinal + 1) as nat, total as nat);
    }
    vstd::arithmetic::div_mod::lemma_mod_self_0(total);
    vstd::arithmetic::div_mod::lemma_small_mod(ordinal as nat, total as nat);
}

} // verus!

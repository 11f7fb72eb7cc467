//! What holds of the application after any number of calls.
use vstd::prelude::*;

use super::actions::{
    ActionModel, BookmarkChange, Key, KeyCode, LoadOutcomeModel, SearchOutcomeModel,
};
use super::events::{
    bookmarks_refreshed, bookmarks_written, candidates_offered, directory_shown, history_written,
    installed, load_begun, poll_finished, polled, progress_written, recent_shown, search_polled,
    theme_written,
};
use super::keys::{
    completed, done, entered, executed, history_navigated, input_key, key_pressed, normal_key,
    overlay_entered, overlay_key,
};
use super::lists::overlay_shown;
use super::moves::{
    gone_by, gone_to_index, gone_to_offset, search_begun, wheel_turned, with_message,
};
use super::{
    composed, first_state, laid_out, on_screen, AppModel, InputMode, OverlayKind, OverlayModel,
    SurroundingsModel,
};
use crate::command::{parsed_command, CommandModel};
use crate::document::load::LoadedModel;
use crate::document::{load_fault_text, LoadFault};
use crate::file_picker::FileModel;
use crate::search::{SearchDirection, SearchKind};
use crate::state::{
    BookmarkModel, RecentModel, SavedBookModel, StateFault, StateWarningModel,
};
use crate::theme::ThemeChoice;

verus! {

/// A call of the application that can change its state.
pub enum Call {
    Key { key: Key, around: SurroundingsModel, now: u64 },
    Command { raw: Seq<char>, around: SurroundingsModel },
    BeginLoad(Seq<char>),
    Poll { load: Option<LoadOutcomeModel>, search: Option<SearchOutcomeModel>, now: u64 },
    FinishPoll { search: Option<SearchOutcomeModel>, now: u64 },
    Install {
        loaded: LoadedModel,
        saved: SavedBookModel,
        last_opened: Result<(), StateFault>,
        now: u64,
    },
    ShowDirectory {
        requested: Seq<char>,
        listing: Result<(Seq<char>, Seq<FileModel>), Seq<char>>,
    },
    ProgressSaved { result: Result<(), StateFault>, now: u64 },
    HistorySaved(Result<(), StateFault>),
    ThemeSaved { theme: ThemeChoice, result: Result<(), StateFault> },
    ShowRecent { books: Seq<RecentModel>, warnings: Seq<StateWarningModel> },
    BookmarksSaved {
        bookmarks: Seq<BookmarkModel>,
        change: BookmarkChange,
        result: Result<(), StateFault>,
    },
    RefreshBookmarks(SurroundingsModel),
    PathsListed(Seq<Seq<char>>),
    Scroll { delta: int, now: u64 },
    ScrollMouse { lines: int, now: u64 },
    GotoByte { offset: int, now: u64 },
    GotoChar { target: int, now: u64 },
    Search { query: (SearchKind, Seq<char>), direction: SearchDirection, from: Option<int> },
    ShowOverlay { kind: OverlayKind, selected: int },
    OverlayLayout { content_rows: int, viewport_rows: int },
    ListOffset(int),
    Screen { width: int, height: int },
    OverrideTheme(ThemeChoice),
    ShowMessage(Seq<char>),
}

/// The state after a key.
#[verifier::opaque]
pub open spec fn after_key(
    app: AppModel,
    key: Key,
    around: SurroundingsModel,
    now: u64,
) -> AppModel {
    key_pressed(app, key, around, now).app
}

/// The state after a command.
#[verifier::opaque]
pub open spec fn after_command(
    app: AppModel,
    raw: Seq<char>,
    around: SurroundingsModel,
) -> AppModel {
    executed(app, raw, around).app
}

/// The state after outcomes of the work outside were taken.
#[verifier::opaque]
pub open spec fn after_poll(
    app: AppModel,
    load: Option<LoadOutcomeModel>,
    search: Option<SearchOutcomeModel>,
    now: u64,
) -> AppModel {
    polled(app, load, search, now).app
}

/// The state after the outcome of a search was taken.
#[verifier::opaque]
pub open spec fn after_rest_of_poll(
    app: AppModel,
    search: Option<SearchOutcomeModel>,
    now: u64,
) -> AppModel {
    poll_finished(app, search, now).app
}

/// The state after something that was asked of the application itself.
#[verifier::opaque]
pub open spec fn after_request(app: AppModel, call: Call) -> AppModel {
    match call {
        Call::Scroll { delta, now } => gone_by(app, delta, now),
        Call::ScrollMouse { lines, now } => wheel_turned(app, lines, now),
        Call::GotoByte { offset, now } => gone_to_offset(app, offset, now),
        Call::GotoChar { target, now } => gone_to_index(app, target, now),
        Call::Search { query, direction, from } => search_begun(app, query, direction, from).app,
        Call::ShowOverlay { kind, selected } => overlay_shown(app, kind, selected),
        Call::OverlayLayout { content_rows, viewport_rows } => laid_out(
            app,
            content_rows,
            viewport_rows,
        ),
        Call::ListOffset(offset) => AppModel { list_offset: offset, ..app },
        Call::Screen { width, height } => on_screen(app, width, height),
        Call::OverrideTheme(theme) => AppModel { theme, ..app },
        Call::ShowMessage(message) => with_message(app, message),
        _ => app,
    }
}

/// The state after something that was done outside, or asked of the application itself.
#[verifier::opaque]
pub open spec fn after_reply(app: AppModel, call: Call) -> AppModel {
    match call {
        Call::BeginLoad(path) => load_begun(app, path).app,
        Call::Install { loaded, saved, last_opened, now } => installed(
            app,
            loaded,
            saved,
            last_opened,
            now,
        ),
        Call::ShowDirectory { requested, listing } => directory_shown(app, requested, listing),
        Call::ProgressSaved { result, now } => progress_written(app, result, now),
        Call::HistorySaved(result) => history_written(app, result),
        Call::ThemeSaved { theme, result } => theme_written(app, theme, result),
        Call::ShowRecent { books, warnings } => recent_shown(app, books, warnings),
        Call::BookmarksSaved { bookmarks, change, result } => bookmarks_written(
            app,
            bookmarks,
            change,
            result,
        ),
        Call::RefreshBookmarks(around) => bookmarks_refreshed(app, around),
        Call::PathsListed(candidates) => candidates_offered(app, candidates),
        _ => after_request(app, call),
    }
}

/// The state after a call.
#[verifier::opaque]
pub open spec fn after_call(app: AppModel, call: Call) -> AppModel {
    match call {
        Call::Key { key, around, now } => after_key(app, key, around, now),
        Call::Command { raw, around } => after_command(app, raw, around),
        Call::Poll { load, search, now } => after_poll(app, load, search, now),
        Call::FinishPoll { search, now } => after_rest_of_poll(app, search, now),
        _ => after_reply(app, call),
    }
}

/// The state after some calls, one after the other.
pub open spec fn after_calls(app: AppModel, calls: Seq<Call>) -> AppModel
    decreases calls.len(),
{
    if calls.len() == 0 {
        app
    } else {
        after_call(after_calls(app, calls.drop_last()), calls.last())
    }
}

/// The line means that the application is to end.
pub open spec fn means_quit(line: Seq<char>) -> bool {
    parsed_command(line) == Ok::<CommandModel, Seq<char>>(CommandModel::Quit)
}

/// The key ends the application: Control and c, or Enter after a command that means so.
pub open spec fn key_quits(app: AppModel, key: Key) -> bool {
    ||| key.control && key.code == KeyCode::Char('c')
    ||| app.overlay is None && app.mode == InputMode::Command && key.code == KeyCode::Enter
        && means_quit(app.input.text)
}

/// The call ends the application.
pub open spec fn quits(app: AppModel, call: Call) -> bool {
    match call {
        Call::Key { key, .. } => key_quits(app, key),
        Call::Command { raw, .. } => means_quit(raw),
        _ => false,
    }
}

/// The document that is read.
pub open spec fn opened(app: AppModel) -> Option<LoadedModel> {
    match app.reading {
        Some(reading) => Some(reading.loaded),
        None => None,
    }
}

/// The call neither begins a load nor ends one.
pub open spec fn leaves_loads(call: Call) -> bool {
    match call {
        Call::BeginLoad(_) => false,
        Call::Install { .. } => false,
        Call::Poll { load, .. } => load is None,
        _ => true,
    }
}

/// Two states with the same document and the same load that is awaited.
pub open spec fn same_document(app: AppModel, other: AppModel) -> bool {
    &&& opened(app) == opened(other)
    &&& app.awaits_load == other.awaits_load
    &&& app.load_generation == other.load_generation
    &&& app.loading_path == other.loading_path
}

// ---------------------------------------------------------------------------------------
// Proofs
// ---------------------------------------------------------------------------------------

proof fn lemma_normal_key(app: AppModel, key: Key, now: u64)
    ensures
        normal_key(app, key, now).app.quit == app.quit,
        same_document(app, normal_key(app, key, now).app),
{
}

proof fn lemma_overlay_entered(app: AppModel, overlay: OverlayModel, now: u64)
    ensures
        overlay_entered(app, overlay, now).app.quit == app.quit,
        same_document(app, overlay_entered(app, overlay, now).app),
{
}

proof fn lemma_overlay_key(
    app: AppModel,
    overlay: OverlayModel,
    key: Key,
    around: SurroundingsModel,
    now: u64,
)
    ensures
        overlay_key(app, overlay, key, around, now).app.quit == app.quit,
        same_document(app, overlay_key(app, overlay, key, around, now).app),
{
    lemma_overlay_entered(app, overlay, now);
}

proof fn lemma_done(app: AppModel, command: CommandModel, around: SurroundingsModel)
    ensures
        done(app, command, around).app.quit == (app.quit || command == CommandModel::Quit),
        same_document(app, done(app, command, around).app),
{
}

proof fn lemma_executed(app: AppModel, raw: Seq<char>, around: SurroundingsModel)
    ensures
        executed(app, raw, around).app.quit == (app.quit || means_quit(raw)),
        same_document(app, executed(app, raw, around).app),
{
    if let Ok(command) = parsed_command(raw) {
        lemma_done(app, command, around);
    }
}

proof fn lemma_entered(app: AppModel, around: SurroundingsModel)
    ensures
        entered(app, around).app.quit == (app.quit || app.mode == InputMode::Command && means_quit(
            app.input.text,
        )),
        same_document(app, entered(app, around).app),
{
    let left = AppModel {
        input: crate::input::empty_input(),
        mode: InputMode::Normal,
        ..app
    };
    lemma_executed(left, app.input.text, around);
}

proof fn lemma_completed(app: AppModel)
    ensures
        completed(app).app.quit == app.quit,
        same_document(app, completed(app).app),
{
}

proof fn lemma_history_navigated(app: AppModel, previous: bool)
    ensures
        history_navigated(app, previous).quit == app.quit,
        same_document(app, history_navigated(app, previous)),
{
}

proof fn lemma_input_key(app: AppModel, key: Key, around: SurroundingsModel)
    ensures
        input_key(app, key, around).app.quit == (app.quit || app.mode == InputMode::Command
            && key.code == KeyCode::Enter && means_quit(app.input.text)),
        same_document(app, input_key(app, key, around).app),
{
    let fresh = AppModel { completion: None, ..app };
    lemma_completed(app);
    lemma_history_navigated(fresh, true);
    lemma_history_navigated(fresh, false);
    lemma_entered(fresh, around);
}

proof fn lemma_key(app: AppModel, key: Key, around: SurroundingsModel, now: u64)
    ensures
        key_pressed(app, key, around, now).app.quit == (app.quit || key_quits(app, key)),
        same_document(app, key_pressed(app, key, around, now).app),
{
    lemma_normal_key(app, key, now);
    lemma_input_key(app, key, around);
    if let Some(overlay) = app.overlay {
        lemma_overlay_key(app, overlay, key, around, now);
    }
}

proof fn lemma_search_polled(app: AppModel, search: Option<SearchOutcomeModel>, now: u64)
    ensures
        search_polled(app, search, now).quit == app.quit,
        same_document(app, search_polled(app, search, now)),
{
}

proof fn lemma_polled(
    app: AppModel,
    load: Option<LoadOutcomeModel>,
    search: Option<SearchOutcomeModel>,
    now: u64,
)
    ensures
        polled(app, load, search, now).app.quit == app.quit,
        opened(polled(app, load, search, now).app) == opened(app),
        load is None ==> same_document(app, polled(app, load, search, now).app),
{
    let done = AppModel { awaits_load: false, loading_path: None, ..app };
    lemma_search_polled(app, search, now);
    lemma_search_polled(done, search, now);
    if let Some(outcome) = load {
        if let Err(fault) = outcome.result {
            lemma_search_polled(with_message(done, load_fault_text(fault)), search, now);
        }
    }
}

proof fn lemma_after_key(app: AppModel, key: Key, around: SurroundingsModel, now: u64)
    ensures
        after_key(app, key, around, now).quit == (app.quit || key_quits(app, key)),
        same_document(app, after_key(app, key, around, now)),
{
    reveal(after_key);
    lemma_key(app, key, around, now);
}

proof fn lemma_after_command(app: AppModel, raw: Seq<char>, around: SurroundingsModel)
    ensures
        after_command(app, raw, around).quit == (app.quit || means_quit(raw)),
        same_document(app, after_command(app, raw, around)),
{
    reveal(after_command);
    lemma_executed(app, raw, around);
}

proof fn lemma_after_poll(
    app: AppModel,
    load: Option<LoadOutcomeModel>,
    search: Option<SearchOutcomeModel>,
    now: u64,
)
    ensures
        after_poll(app, load, search, now).quit == app.quit,
        load is None ==> same_document(app, after_poll(app, load, search, now)),
{
    reveal(after_poll);
    lemma_polled(app, load, search, now);
}

proof fn lemma_after_rest_of_poll(app: AppModel, search: Option<SearchOutcomeModel>, now: u64)
    ensures
        after_rest_of_poll(app, search, now).quit == app.quit,
        same_document(app, after_rest_of_poll(app, search, now)),
{
    reveal(after_rest_of_poll);
    lemma_search_polled(app, search, now);
}

proof fn lemma_after_request(app: AppModel, call: Call)
    ensures
        after_request(app, call).quit == app.quit,
        same_document(app, after_request(app, call)),
{
    reveal(after_request);
}

proof fn lemma_after_reply(app: AppModel, call: Call)
    ensures
        after_reply(app, call).quit == app.quit,
        leaves_loads(call) ==> same_document(app, after_reply(app, call)),
{
    reveal(after_reply);
    lemma_after_request(app, call);
}

proof fn lemma_call(app: AppModel, call: Call)
    ensures
        after_call(app, call).quit == (app.quit || quits(app, call)),
        leaves_loads(call) ==> same_document(app, after_call(app, call)),
{
    reveal(after_call);
    match call {
        Call::Key { key, around, now } => {
            lemma_after_key(app, key, around, now);
        },
        Call::Command { raw, around } => {
            lemma_after_command(app, raw, around);
        },
        Call::Poll { load, search, now } => {
            lemma_after_poll(app, load, search, now);
        },
        Call::FinishPoll { search, now } => {
            lemma_after_rest_of_poll(app, search, now);
        },
        _ => {
            lemma_after_reply(app, call);
        },
    }
}

proof fn lemma_calls_leave_loads(app: AppModel, calls: Seq<Call>)
    requires
        forall|i: int| 0 <= i < calls.len() ==> leaves_loads(#[trigger] calls[i]),
    ensures
        same_document(app, after_calls(app, calls)),
    decreases calls.len(),
{
    if calls.len() > 0 {
        let before = calls.drop_last();
        assert forall|i: int| 0 <= i < before.len() implies leaves_loads(#[trigger] before[i]) by {
            assert(leaves_loads(calls[i]));
        }
        lemma_calls_leave_loads(app, before);
        assert(leaves_loads(calls[calls.len() - 1]));
        lemma_call(after_calls(app, before), calls.last());
    }
}

// ---------------------------------------------------------------------------------------
// Laws
// ---------------------------------------------------------------------------------------

/// A call ends the application just where it is Control and c or a command to quit, and
/// nothing takes that back.
pub proof fn law_quitting(app: AppModel, call: Call)
    ensures
        after_call(app, call).quit <==> app.quit || quits(app, call),
{
    lemma_call(app, call);
}

/// No key but Control and c, and Enter where a command is typed, ends the application: Escape
/// does not, nor a plain c or q.
pub proof fn law_other_keys_do_not_quit(
    app: AppModel,
    key: Key,
    around: SurroundingsModel,
    now: u64,
)
    requires
        !(key.control && key.code == KeyCode::Char('c')),
        key.code != KeyCode::Enter || app.mode != InputMode::Command || app.overlay is Some,
    ensures
        key_pressed(app, key, around, now).app.quit == app.quit,
{
    lemma_key(app, key, around, now);
}

/// The call with the index `i` ends the application.
pub open spec fn quits_at(app: AppModel, calls: Seq<Call>, i: int) -> bool {
    quits(after_calls(app, calls.take(i)), calls[i])
}

/// After any number of calls an application is to end just where it was before or one of the
/// calls was to end it, whatever was called later.
proof fn lemma_quit_after_calls(app: AppModel, calls: Seq<Call>)
    ensures
        after_calls(app, calls).quit <==> app.quit || exists|i: int|
            0 <= i < calls.len() && #[trigger] quits_at(app, calls, i),
    decreases calls.len(),
{
    if calls.len() > 0 {
        let before = calls.drop_last();
        let last = calls.len() - 1;
        lemma_quit_after_calls(app, before);
        lemma_call(after_calls(app, before), calls.last());
        assert(calls.take(last) =~= before);
        assert(quits_at(app, calls, last) == quits(after_calls(app, before), calls.last()));
        assert forall|i: int| 0 <= i < last implies #[trigger] quits_at(app, before, i) == quits_at(
            app,
            calls,
            i,
        ) by {
            assert(before.take(i) =~= calls.take(i));
        }
        if exists|i: int| 0 <= i < before.len() && #[trigger] quits_at(app, before, i) {
            let i = choose|i: int| 0 <= i < before.len() && #[trigger] quits_at(app, before, i);
            assert(quits_at(app, calls, i));
        }
        if exists|i: int| 0 <= i < calls.len() && #[trigger] quits_at(app, calls, i) {
            let i = choose|i: int| 0 <= i < calls.len() && #[trigger] quits_at(app, calls, i);
            if i < last {
                assert(quits_at(app, before, i));
            }
        }
    }
}

/// After any number of calls a new application is to end just where one of the calls was to
/// end it, whatever was called later.
pub proof fn law_quitting_is_asked_for(
    cwd: Seq<char>,
    theme: ThemeChoice,
    commands: Seq<Seq<char>>,
    searches: Seq<Seq<char>>,
    now: u64,
    calls: Seq<Call>,
)
    ensures
        ({
            let first = first_state(cwd, theme, commands, searches, now);
            after_calls(first, calls).quit <==> exists|i: int|
                0 <= i < calls.len() && #[trigger] quits_at(first, calls, i)
        }),
{
    lemma_quit_after_calls(first_state(cwd, theme, commands, searches, now), calls);
}

/// Of two loads, of which one is begun after the other, the later one counts. The outcome of
/// the earlier one is neither installed nor shown. That of the later one is: the document is
/// installed, or the one from before both stays and the message tells why it does. It does not
/// matter what else is done between, before and after the second load is begun.
pub proof fn law_later_load_counts(
    app: AppModel,
    first: Seq<char>,
    second: Seq<char>,
    between: Seq<Call>,
    meanwhile: Seq<Call>,
    earlier: Result<LoadedModel, LoadFault>,
    later: Result<LoadedModel, LoadFault>,
    search: Option<SearchOutcomeModel>,
    saved: SavedBookModel,
    last_opened: Result<(), StateFault>,
    now: u64,
)
    requires
        forall|i: int| 0 <= i < between.len() ==> leaves_loads(#[trigger] between[i]),
        forall|i: int| 0 <= i < meanwhile.len() ==> leaves_loads(#[trigger] meanwhile[i]),
    ensures
        ({
            let one = load_begun(app, first);
            let two = load_begun(after_calls(one.app, between), second);
            let waiting = after_calls(two.app, meanwhile);
            let (a, b) = (one.app.load_generation, two.app.load_generation);
            let stale = polled(
                waiting,
                Some(LoadOutcomeModel { generation: a, result: earlier }),
                search,
                now,
            );
            let taken = polled(
                waiting,
                Some(LoadOutcomeModel { generation: b, result: later }),
                search,
                now,
            );
            &&& one.actions == seq![ActionModel::Load { generation: a, path: first }]
            &&& two.actions == seq![ActionModel::Load { generation: b, path: second }]
            &&& opened(waiting) == opened(app)
            &&& opened(stale.app) == opened(app)
            &&& forall|i: int|
                0 <= i < stale.actions.len() ==> (#[trigger] stale.actions[i]) !is Install
            &&& search is None || !waiting.awaits_search ==> stale.app.message == waiting.message
            &&& match later {
                Ok(loaded) => {
                    &&& taken.actions == seq![
                        ActionModel::Install(loaded),
                        ActionModel::FinishPoll(search),
                    ]
                    &&& opened(installed(taken.app, loaded, saved, last_opened, now)) == Some(
                        loaded,
                    )
                },
                Err(fault) => {
                    &&& opened(taken.app) == opened(app)
                    &&& forall|i: int|
                        0 <= i < taken.actions.len() ==> (#[trigger] taken.actions[i]) !is Install
                    &&& search is None || !waiting.awaits_search ==> {
                        &&& taken.app.message == Some(load_fault_text(fault))
                        &&& taken.app.mode == InputMode::Normal ==> composed(taken.app)
                            == load_fault_text(fault)
                    }
                },
            }
        }),
{
    let one = load_begun(app, first);
    let two = load_begun(after_calls(one.app, between), second);
    let waiting = after_calls(two.app, meanwhile);
    lemma_calls_leave_loads(one.app, between);
    lemma_calls_leave_loads(two.app, meanwhile);
    let (a, b) = (one.app.load_generation, two.app.load_generation);
    assert(a != b);
    assert(waiting.awaits_load && waiting.load_generation == b);
    lemma_polled(
        waiting,
        Some(LoadOutcomeModel { generation: a, result: earlier }),
        search,
        now,
    );
    lemma_polled(
        waiting,
        Some(LoadOutcomeModel { generation: b, result: later }),
        search,
        now,
    );
    if let Err(fault) = later {
        let done = AppModel { awaits_load: false, loading_path: None, ..waiting };
        lemma_search_polled(with_message(done, load_fault_text(fault)), search, now);
    }
}

} // verus!

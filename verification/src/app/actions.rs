//! What the application asks to be done, and what comes back.
use std::ops::Range;

use vstd::prelude::*;

use crate::command::{PathCompletion, PathCompletionModel, PathRequest, PathRequestModel};
use crate::document::load::{LoadedDocument, LoadedModel};
use crate::document::{LoadError, LoadFault};
use crate::loose_match::span;
use crate::order::views_of;
use crate::search::{
    SearchAnalysis, SearchDirection, SearchError, SearchFault, SearchHit, SearchKind, SearchQuery,
};
use crate::state::{Bookmark, BookmarkModel, SavedHistory};
use crate::theme::ThemeChoice;
use crate::unicode::string_texts;

verus! {

/// A key of the keyboard.
#[derive(Clone, Copy, Debug, PartialEq, Eq, Structural)]
pub enum KeyCode {
    Char(char),
    Esc,
    Enter,
    Tab,
    Backspace,
    Delete,
    Left,
    Right,
    Up,
    Down,
    Home,
    End,
    PageUp,
    PageDown,
    Other,
}

/// A key that was pressed, with the keys that were held.
#[derive(Clone, Copy, Debug, PartialEq, Eq, Structural)]
pub struct Key {
    pub code: KeyCode,
    pub control: bool,
    pub alt: bool,
}

/// How the bookmarks are to be changed.
#[derive(Clone, Copy, Debug, PartialEq, Eq, Structural)]
pub enum BookmarkChange {
    Saved,
    Deleted,
}

/// What became of a file that was to be loaded.
#[derive(Debug)]
pub struct LoadOutcome {
    pub generation: u64,
    pub result: Result<LoadedDocument, LoadError>,
}

/// What a search found.
#[derive(Debug)]
pub enum SearchReply {
    Analysis { query: SearchQuery, analysis: Result<SearchAnalysis, SearchError> },
    Step { direction: SearchDirection, found: Result<Option<Range<usize>>, SearchError> },
}

/// What became of a search.
#[derive(Debug)]
pub struct SearchOutcome {
    pub generation: u64,
    pub reply: SearchReply,
}

/// Something to be done outside.
#[derive(Debug)]
pub enum Action {
    SaveProgress { path: String, fingerprint: String, position: usize },
    StartLoad(String),
    Load { generation: u64, path: String },
    Open(PathRequest),
    ReadDirectory(String),
    SaveHistory(SavedHistory),
    SaveTheme(ThemeChoice),
    ListRecent,
    SaveBookmarks {
        path: String,
        fingerprint: String,
        bookmarks: Vec<Bookmark>,
        change: BookmarkChange,
    },
    RefreshBookmarks,
    Analyze { generation: u64, query: SearchQuery, from: usize, direction: SearchDirection },
    FindNext { generation: u64, query: SearchQuery, from: usize, direction: SearchDirection },
    GotoPercent(String),
    CompletePath(PathCompletion),
    Install(LoadedDocument),
    FinishPoll(Option<SearchOutcome>),
}

#[verifier::ext_equal]
pub struct LoadOutcomeModel {
    pub generation: u64,
    pub result: Result<LoadedModel, LoadFault>,
}

impl View for LoadOutcome {
    type V = LoadOutcomeModel;

    open spec fn view(&self) -> LoadOutcomeModel {
        LoadOutcomeModel {
            generation: self.generation,
            result: match self.result {
                Ok(loaded) => Ok(loaded@),
                Err(error) => Err(error@),
            },
        }
    }
}

pub enum SearchReplyModel {
    Analysis { query: (SearchKind, Seq<char>), analysis: Result<AnalysisModel, SearchFault> },
    Step { direction: SearchDirection, found: Result<Option<(int, int)>, SearchFault> },
}

#[verifier::ext_equal]
pub struct AnalysisModel {
    pub current: Option<((int, int), int)>,
    pub total: int,
    pub previews: Seq<((int, int), int)>,
}

impl View for SearchAnalysis {
    type V = AnalysisModel;

    open spec fn view(&self) -> AnalysisModel {
        AnalysisModel {
            current: hit_view(self.current),
            total: self.total as int,
            previews: views_of(self.previews@),
        }
    }
}

pub open spec fn hit_view(hit: Option<SearchHit>) -> Option<((int, int), int)> {
    match hit {
        Some(hit) => Some(hit@),
        None => None,
    }
}

pub(crate) fn copy_hit(hit: &Option<SearchHit>) -> (copy: Option<SearchHit>)
    ensures
        hit_view(copy) == hit_view(*hit),
{
    match hit {
        Some(hit) => Some(hit.clone()),
        None => None,
    }
}

pub open spec fn opt_span(range: Option<Range<usize>>) -> Option<(int, int)> {
    match range {
        Some(range) => Some(span(range)),
        None => None,
    }
}

impl View for SearchReply {
    type V = SearchReplyModel;

    open spec fn view(&self) -> SearchReplyModel {
        match self {
            SearchReply::Analysis { query, analysis } => SearchReplyModel::Analysis {
                query: query@,
                analysis: match analysis {
                    Ok(analysis) => Ok(analysis@),
                    Err(error) => Err(error@),
                },
            },
            SearchReply::Step { direction, found } => SearchReplyModel::Step {
                direction: *direction,
                found: match found {
                    Ok(found) => Ok(opt_span(*found)),
                    Err(error) => Err(error@),
                },
            },
        }
    }
}

pub struct SearchOutcomeModel {
    pub generation: u64,
    pub reply: SearchReplyModel,
}

impl View for SearchOutcome {
    type V = SearchOutcomeModel;

    open spec fn view(&self) -> SearchOutcomeModel {
        SearchOutcomeModel { generation: self.generation, reply: self.reply@ }
    }
}

pub open spec fn load_outcome(outcome: Option<LoadOutcome>) -> Option<LoadOutcomeModel> {
    match outcome {
        Some(outcome) => Some(outcome@),
        None => None,
    }
}

pub open spec fn search_outcome(outcome: Option<SearchOutcome>) -> Option<SearchOutcomeModel> {
    match outcome {
        Some(outcome) => Some(outcome@),
        None => None,
    }
}

/// Something to be done outside, as a value of the mathematical model.
pub enum ActionModel {
    SaveProgress { path: Seq<char>, fingerprint: Seq<char>, position: int },
    StartLoad(Seq<char>),
    Load { generation: u64, path: Seq<char> },
    Open(PathRequestModel),
    ReadDirectory(Seq<char>),
    SaveHistory { commands: Seq<Seq<char>>, searches: Seq<Seq<char>> },
    SaveTheme(ThemeChoice),
    ListRecent,
    SaveBookmarks {
        path: Seq<char>,
        fingerprint: Seq<char>,
        bookmarks: Seq<BookmarkModel>,
        change: BookmarkChange,
    },
    RefreshBookmarks,
    Analyze {
        generation: u64,
        query: (SearchKind, Seq<char>),
        from: int,
        direction: SearchDirection,
    },
    FindNext {
        generation: u64,
        query: (SearchKind, Seq<char>),
        from: int,
        direction: SearchDirection,
    },
    GotoPercent(Seq<char>),
    CompletePath(PathCompletionModel),
    Install(LoadedModel),
    FinishPoll(Option<SearchOutcomeModel>),
}

impl View for Action {
    type V = ActionModel;

    open spec fn view(&self) -> ActionModel {
        match self {
            Action::SaveProgress { path, fingerprint, position } => ActionModel::SaveProgress {
                path: path@,
                fingerprint: fingerprint@,
                position: *position as int,
            },
            Action::StartLoad(path) => ActionModel::StartLoad(path@),
            Action::Load { generation, path } => ActionModel::Load {
                generation: *generation,
                path: path@,
            },
            Action::Open(request) => ActionModel::Open(request@),
            Action::ReadDirectory(path) => ActionModel::ReadDirectory(path@),
            Action::SaveHistory(history) => ActionModel::SaveHistory {
                commands: string_texts(history.commands@),
                searches: string_texts(history.searches@),
            },
            Action::SaveTheme(theme) => ActionModel::SaveTheme(*theme),
            Action::ListRecent => ActionModel::ListRecent,
            Action::SaveBookmarks { path, fingerprint, bookmarks, change } =>
                ActionModel::SaveBookmarks {
                path: path@,
                fingerprint: fingerprint@,
                bookmarks: views_of(bookmarks@),
                change: *change,
            },
            Action::RefreshBookmarks => ActionModel::RefreshBookmarks,
            Action::Analyze { generation, query, from, direction } => ActionModel::Analyze {
                generation: *generation,
                query: query@,
                from: *from as int,
                direction: *direction,
            },
            Action::FindNext { generation, query, from, direction } => ActionModel::FindNext {
                generation: *generation,
                query: query@,
                from: *from as int,
                direction: *direction,
            },
            Action::GotoPercent(number) => ActionModel::GotoPercent(number@),
            Action::CompletePath(plan) => ActionModel::CompletePath(plan@),
            Action::Install(loaded) => ActionModel::Install(loaded@),
            Action::FinishPoll(search) => ActionModel::FinishPoll(search_outcome(*search)),
        }
    }
}

pub(crate) fn no_actions() -> (actions: Vec<Action>)
    ensures
        views_of(actions@) == Seq::<ActionModel>::empty(),
{
    let actions: Vec<Action> = Vec::new();
    assert(views_of(actions@) =~= Seq::<ActionModel>::empty());
    actions
}

pub(crate) fn one_action(action: Action) -> (actions: Vec<Action>)
    ensures
        views_of(actions@) == seq![action@],
{
    let ghost model = action@;
    let mut actions: Vec<Action> = Vec::new();
    actions.push(action);
    assert(views_of(actions@) =~= seq![model]);
    actions
}

/// Appends an action.
pub(crate) fn and_action(actions: Vec<Action>, action: Action) -> (all: Vec<Action>)
    ensures
        views_of(all@) == views_of(actions@).push(action@),
{
    let ghost model = action@;
    let mut all = actions;
    let ghost before = all@;
    all.push(action);
    assert(views_of(all@) =~= views_of(before).push(model));
    all
}

} // verus!

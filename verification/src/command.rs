//! Commands and their completion.
use vstd::prelude::*;

use crate::document::opt_text;
use crate::file_picker::{FileEntry, FileModel};
use crate::input::{after_cursor, before_cursor, InputModel, LineInput};
use crate::order::views_of;
use crate::strings::{
    ascii_lower_all, begins, begins_with, begins_with_text, count_leading, is_space, is_text,
    leading_spaces, lemma_leading_spaces, lower_all, push_text, trim_chars, trim_end_chars, trimmed,
    trimmed_end, word_end, word_len,
};
use crate::text::{chars_of, copy_range, push_all, string_of};
use crate::theme::{theme_named, ThemeChoice};
use crate::unicode::{string_texts, text_lowercase, text_lowercase_of};

verus! {

/// Which inputs are to be forgotten.
#[derive(Clone, Copy, Debug, PartialEq, Eq, Structural)]
pub enum HistoryScope {
    All,
    Commands,
    Searches,
}

/// A command. The place to go to is a number that is yet to be read.
#[derive(Debug, PartialEq, Eq)]
pub enum Command {
    Open(String),
    Quit,
    Toc,
    Goto(String),
    Mark(Option<String>),
    Marks,
    Recent,
    Exact(String),
    Regex(String),
    Results,
    Info,
    Help,
    Theme(Option<ThemeChoice>),
    ClearHistory(HistoryScope),
}

pub enum CommandModel {
    Open(Seq<char>),
    Quit,
    Toc,
    Goto(Seq<char>),
    Mark(Option<Seq<char>>),
    Marks,
    Recent,
    Exact(Seq<char>),
    Regex(Seq<char>),
    Results,
    Info,
    Help,
    Theme(Option<ThemeChoice>),
    ClearHistory(HistoryScope),
}

impl View for Command {
    type V = CommandModel;

    open spec fn view(&self) -> CommandModel {
        match self {
            Command::Open(path) => CommandModel::Open(path@),
            Command::Quit => CommandModel::Quit,
            Command::Toc => CommandModel::Toc,
            Command::Goto(number) => CommandModel::Goto(number@),
            Command::Mark(label) => CommandModel::Mark(opt_text(*label)),
            Command::Marks => CommandModel::Marks,
            Command::Recent => CommandModel::Recent,
            Command::Exact(pattern) => CommandModel::Exact(pattern@),
            Command::Regex(pattern) => CommandModel::Regex(pattern@),
            Command::Results => CommandModel::Results,
            Command::Info => CommandModel::Info,
            Command::Help => CommandModel::Help,
            Command::Theme(choice) => CommandModel::Theme(*choice),
            Command::ClearHistory(scope) => CommandModel::ClearHistory(*scope),
        }
    }
}

pub open spec fn command_name(raw: Seq<char>) -> Seq<char> {
    trimmed(raw).take(word_len(trimmed(raw)) as int)
}

pub open spec fn command_arguments(raw: Seq<char>) -> Seq<char> {
    let t = trimmed(raw);
    let n = word_len(t) as int;
    if n < t.len() {
        trimmed(t.skip(n + 1))
    } else {
        seq![]
    }
}

pub open spec fn without_percent_sign(s: Seq<char>) -> Seq<char> {
    if s.len() > 0 && s.last() == '%' {
        s.drop_last()
    } else {
        s
    }
}

/// The command that a name means with its arguments, or why it means none.
pub open spec fn meant_command(name: Seq<char>, arguments: Seq<char>) -> Result<
    CommandModel,
    Seq<char>,
> {
    let none = arguments.len() == 0;
    if name == "e"@ || name == "open"@ {
        if none {
            Err("Usage: :e <path>"@)
        } else {
            Ok(CommandModel::Open(arguments))
        }
    } else if name == "q"@ || name == "quit"@ {
        Ok(CommandModel::Quit)
    } else if name == "toc"@ {
        Ok(CommandModel::Toc)
    } else if name == "mark"@ {
        Ok(
            CommandModel::Mark(
                if none {
                    None
                } else {
                    Some(arguments)
                },
            ),
        )
    } else if name == "marks"@ || name == "bookmarks"@ {
        Ok(CommandModel::Marks)
    } else if name == "recent"@ {
        Ok(CommandModel::Recent)
    } else if name == "exact"@ {
        if none {
            Err("Usage: :exact <text>"@)
        } else {
            Ok(CommandModel::Exact(arguments))
        }
    } else if name == "re"@ || name == "regex"@ {
        if none {
            Err("Usage: :re <pattern>"@)
        } else {
            Ok(CommandModel::Regex(arguments))
        }
    } else if name == "results"@ {
        Ok(CommandModel::Results)
    } else if name == "info"@ {
        Ok(CommandModel::Info)
    } else if name == "help"@ || name == "h"@ {
        Ok(CommandModel::Help)
    } else if name == "theme"@ {
        if none {
            Ok(CommandModel::Theme(None))
        } else {
            match theme_named(arguments) {
                Some(choice) => Ok(CommandModel::Theme(Some(choice))),
                None => Err("Usage: :theme <auto|light|dark>"@),
            }
        }
    } else if name == "history"@ {
        if arguments == "clear"@ || arguments == "clear all"@ {
            Ok(CommandModel::ClearHistory(HistoryScope::All))
        } else if arguments == "clear commands"@ {
            Ok(CommandModel::ClearHistory(HistoryScope::Commands))
        } else if arguments == "clear searches"@ {
            Ok(CommandModel::ClearHistory(HistoryScope::Searches))
        } else {
            Err("Usage: :history clear [commands|searches|all]"@)
        }
    } else if name == "goto"@ {
        Ok(CommandModel::Goto(without_percent_sign(arguments)))
    } else if name == ""@ {
        Err("Command cannot be empty"@)
    } else {
        Err("Unknown command: "@ + name)
    }
}

/// The command that a line means, or why it means none.
pub open spec fn parsed_command(raw: Seq<char>) -> Result<CommandModel, Seq<char>> {
    meant_command(command_name(raw), command_arguments(raw))
}

pub open spec fn command_view(result: Result<Command, String>) -> Result<
    CommandModel,
    Seq<char>,
> {
    match result {
        Ok(command) => Ok(command@),
        Err(message) => Err(message@),
    }
}

/// The command that a line means, or why it means none.
pub fn parse_command(raw: &str) -> (result: Result<Command, String>)
    ensures
        command_view(result) == parsed_command(raw@),
{
    let characters = chars_of(raw);
    let t = trim_chars(&characters);
    assert(t@.skip(0) =~= t@);
    let end: usize = word_end(&t, 0);
    let name = copy_range(&t, 0, end);
    assert(name@ =~= command_name(raw@));
    let arguments: Vec<char> = if end < t.len() {
        let rest = copy_range(&t, end + 1, t.len());
        assert(rest@ =~= t@.skip(end + 1));
        trim_chars(&rest)
    } else {
        Vec::new()
    };
    assert(arguments@ =~= command_arguments(raw@));
    parse_parts(&name, &arguments)
}

fn parse_parts(name: &[char], arguments: &[char]) -> (result: Result<Command, String>)
    ensures
        command_view(result) == meant_command(name@, arguments@),
{
    let none: bool = arguments.len() == 0;
    if is_text(name, "e") || is_text(name, "open") {
        if none {
            Err("Usage: :e <path>".to_owned())
        } else {
            Ok(Command::Open(string_of(arguments)))
        }
    } else if is_text(name, "q") || is_text(name, "quit") {
        Ok(Command::Quit)
    } else if is_text(name, "toc") {
        Ok(Command::Toc)
    } else if is_text(name, "mark") {
        if none {
            Ok(Command::Mark(None))
        } else {
            Ok(Command::Mark(Some(string_of(arguments))))
        }
    } else if is_text(name, "marks") || is_text(name, "bookmarks") {
        Ok(Command::Marks)
    } else if is_text(name, "recent") {
        Ok(Command::Recent)
    } else if is_text(name, "exact") {
        if none {
            Err("Usage: :exact <text>".to_owned())
        } else {
            Ok(Command::Exact(string_of(arguments)))
        }
    } else if is_text(name, "re") || is_text(name, "regex") {
        if none {
            Err("Usage: :re <pattern>".to_owned())
        } else {
            Ok(Command::Regex(string_of(arguments)))
        }
    } else if is_text(name, "results") {
        Ok(Command::Results)
    } else if is_text(name, "info") {
        Ok(Command::Info)
    } else if is_text(name, "help") || is_text(name, "h") {
        Ok(Command::Help)
    } else if is_text(name, "theme") {
        if none {
            Ok(Command::Theme(None))
        } else {
            let choice = string_of(arguments);
            match ThemeChoice::from_name(choice.as_str()) {
                Some(choice) => Ok(Command::Theme(Some(choice))),
                None => Err("Usage: :theme <auto|light|dark>".to_owned()),
            }
        }
    } else if is_text(name, "history") {
        if is_text(arguments, "clear") || is_text(arguments, "clear all") {
            Ok(Command::ClearHistory(HistoryScope::All))
        } else if is_text(arguments, "clear commands") {
            Ok(Command::ClearHistory(HistoryScope::Commands))
        } else if is_text(arguments, "clear searches") {
            Ok(Command::ClearHistory(HistoryScope::Searches))
        } else {
            Err("Usage: :history clear [commands|searches|all]".to_owned())
        }
    } else if is_text(name, "goto") {
        let length: usize = arguments.len();
        let end: usize = if length > 0 && arguments[length - 1] == '%' {
            length - 1
        } else {
            length
        };
        let number = copy_range(arguments, 0, end);
        assert(number@ =~= without_percent_sign(arguments@));
        Ok(Command::Goto(string_of(&number)))
    } else if is_text(name, "") {
        Err("Command cannot be empty".to_owned())
    } else {
        let mut message = chars_of("Unknown command: ");
        push_all(&mut message, name);
        Err(string_of(&message))
    }
}

// ---------------------------------------------------------------------------------------
// Paths
// ---------------------------------------------------------------------------------------

/// A value without the quotes around it.
pub open spec fn without_quotes(value: Seq<char>) -> Seq<char> {
    if value.len() >= 2 && value[0] == value.last() && (value[0] == '"' || value[0] == '\'') {
        value.subrange(1, value.len() - 1)
    } else {
        value
    }
}

/// A value without the quotes around it.
pub fn unquote(value: &str) -> (result: String)
    ensures
        result@ == without_quotes(value@),
{
    let characters = chars_of(value);
    let length: usize = characters.len();
    if length >= 2 && characters[0] == characters[length - 1] && (characters[0] == '"'
        || characters[0] == '\'') {
        let inner = copy_range(&characters, 1, length - 1);
        string_of(&inner)
    } else {
        value.to_owned()
    }
}

/// A path as it was typed, and what follows the home directory in it, if it begins with that.
#[derive(Debug, PartialEq, Eq)]
pub struct PathRequest {
    pub raw: String,
    pub below_home: Option<String>,
}

#[verifier::ext_equal]
pub struct PathRequestModel {
    pub raw: Seq<char>,
    pub below_home: Option<Seq<char>>,
}

impl View for PathRequest {
    type V = PathRequestModel;

    open spec fn view(&self) -> PathRequestModel {
        PathRequestModel { raw: self.raw@, below_home: opt_text(self.below_home) }
    }
}

/// What a path asks for: a tilde is the home directory.
pub open spec fn path_request(raw: Seq<char>) -> PathRequestModel {
    PathRequestModel {
        raw,
        below_home: if raw == "~"@ {
            Some(seq![])
        } else if begins(raw, "~/"@) || begins(raw, "~\\"@) {
            Some(raw.skip(2))
        } else {
            None
        },
    }
}

/// What a path asks for.
pub fn request_path(raw: &str) -> (request: PathRequest)
    ensures
        request@ == path_request(raw@),
{
    let characters = chars_of(raw);
    let below_home: Option<String> = if is_text(&characters, "~") {
        let none = String::new();
        assert(none@ =~= seq![]);
        Some(none)
    } else if begins_with_text(&characters, "~/") || begins_with_text(&characters, "~\\") {
        proof {
            reveal_strlit("~/");
            reveal_strlit("~\\");
        }
        let rest = copy_range(&characters, 2, characters.len());
        assert(rest@ =~= raw@.skip(2));
        Some(string_of(&rest))
    } else {
        None
    };
    PathRequest { raw: raw.to_owned(), below_home }
}

/// What the path of a command asks for: it may stand in quotes.
pub open spec fn command_path(raw: Seq<char>) -> PathRequestModel {
    path_request(without_quotes(trimmed(raw)))
}

/// What the path of a command asks for.
pub fn request_command_path(raw: &str) -> (request: PathRequest)
    ensures
        request@ == command_path(raw@),
{
    let characters = chars_of(raw);
    let t = string_of(&trim_chars(&characters));
    let inner = unquote(t.as_str());
    request_path(inner.as_str())
}

// ---------------------------------------------------------------------------------------
// Completion
// ---------------------------------------------------------------------------------------

pub open spec fn command_names() -> Seq<Seq<char>> {
    seq![
        "e"@,
        "open"@,
        "q"@,
        "quit"@,
        "toc"@,
        "mark"@,
        "marks"@,
        "bookmarks"@,
        "recent"@,
        "exact"@,
        "re"@,
        "regex"@,
        "results"@,
        "info"@,
        "help"@,
        "h"@,
        "theme"@,
        "history"@,
        "goto"@,
    ]
}

/// The names that begin with a prefix.
pub open spec fn beginning_with(names: Seq<Seq<char>>, prefix: Seq<char>) -> Seq<Seq<char>>
    decreases names.len(),
{
    if names.len() == 0 {
        seq![]
    } else {
        let before = beginning_with(names.drop_last(), prefix);
        if begins(names.last(), prefix) {
            before.push(names.last())
        } else {
            before
        }
    }
}

/// A path that is to be completed: what stands before it and after it in the line, a quote
/// that it begins with, the directory in which it is to be looked for, and the start of a name.
#[derive(Debug)]
pub struct PathCompletion {
    pub before: String,
    pub after: String,
    pub quote: Option<char>,
    pub base: String,
    pub fragment: String,
}

#[verifier::ext_equal]
pub struct PathCompletionModel {
    pub before: Seq<char>,
    pub after: Seq<char>,
    pub quote: Option<char>,
    pub base: Seq<char>,
    pub fragment: Seq<char>,
}

impl View for PathCompletion {
    type V = PathCompletionModel;

    open spec fn view(&self) -> PathCompletionModel {
        PathCompletionModel {
            before: self.before@,
            after: self.after@,
            quote: self.quote,
            base: self.base@,
            fragment: self.fragment@,
        }
    }
}

/// How a line can be completed.
#[derive(Debug)]
pub enum CompletionPlan {
    Nothing,
    Commands(Vec<String>),
    Path(PathCompletion),
}

pub enum CompletionPlanModel {
    Nothing,
    Commands(Seq<Seq<char>>),
    Path(PathCompletionModel),
}

impl View for CompletionPlan {
    type V = CompletionPlanModel;

    open spec fn view(&self) -> CompletionPlanModel {
        match self {
            CompletionPlan::Nothing => CompletionPlanModel::Nothing,
            CompletionPlan::Commands(names) => CompletionPlanModel::Commands(string_texts(names@)),
            CompletionPlan::Path(path) => CompletionPlanModel::Path(path@),
        }
    }
}

pub open spec fn is_separator(c: char) -> bool {
    c == '/' || c == '\\'
}

/// The number of characters up to the last separator, with it.
pub open spec fn base_len(s: Seq<char>) -> nat
    decreases s.len(),
{
    if s.len() == 0 || is_separator(s.last()) {
        s.len()
    } else {
        base_len(s.drop_last())
    }
}

pub open spec fn opening_quote(s: Seq<char>) -> Option<char> {
    if s.len() > 0 && (s[0] == '\'' || s[0] == '"') {
        Some(s[0])
    } else {
        None
    }
}

pub open spec fn path_plan(
    before: Seq<char>,
    after: Seq<char>,
    raw: Seq<char>,
) -> PathCompletionModel {
    let quote = opening_quote(raw);
    let open = if quote is Some {
        raw.skip(1)
    } else {
        raw
    };
    PathCompletionModel {
        before,
        after,
        quote,
        base: open.take(base_len(open) as int),
        fragment: open.skip(base_len(open) as int),
    }
}

/// How a line can be completed: the first word to the name of a command, and the argument of
/// the commands that open a file to a path.
pub open spec fn completion_plan(line: InputModel) -> CompletionPlanModel {
    let before = before_cursor(line);
    let n = word_len(before) as int;
    if n >= before.len() {
        CompletionPlanModel::Commands(beginning_with(command_names(), ascii_lower_all(before)))
    } else {
        let command = ascii_lower_all(before.take(n));
        if command != "e"@ && command != "open"@ {
            CompletionPlanModel::Nothing
        } else {
            let start = n + leading_spaces(before.skip(n));
            CompletionPlanModel::Path(
                path_plan(before.take(start), after_cursor(line), before.skip(start)),
            )
        }
    }
}

fn commands_beginning(prefix: &[char]) -> (names: Vec<String>)
    ensures
        string_texts(names@) == beginning_with(command_names(), prefix@),
{
    let mut all: Vec<&'static str> = Vec::new();
    all.push("e");
    all.push("open");
    all.push("q");
    all.push("quit");
    all.push("toc");
    all.push("mark");
    all.push("marks");
    all.push("bookmarks");
    all.push("recent");
    all.push("exact");
    all.push("re");
    all.push("regex");
    all.push("results");
    all.push("info");
    all.push("help");
    all.push("h");
    all.push("theme");
    all.push("history");
    all.push("goto");
    let ghost known = command_names();
    assert(all@.len() == known.len());
    assert(forall|i: int| 0 <= i < known.len() ==> (#[trigger] all@[i])@ == known[i]);
    let mut names: Vec<String> = Vec::new();
    let mut i: usize = 0;
    assert(string_texts(names@) =~= beginning_with(known.take(0), prefix@));
    while i < all.len()
        invariant
            i <= all.len(),
            all@.len() == known.len(),
            forall|i: int| 0 <= i < known.len() ==> (#[trigger] all@[i])@ == known[i],
            string_texts(names@) == beginning_with(known.take(i as int), prefix@),
        decreases all.len() - i,
    {
        assert(known.take(i + 1).drop_last() =~= known.take(i as int));
        let name = chars_of(all[i]);
        if begins_with(&name, prefix) {
            let ghost before = names@;
            names.push(all[i].to_owned());
            assert(string_texts(names@) =~= string_texts(before).push(known[i as int]));
        }
        i += 1;
    }
    assert(known.take(i as int) =~= known);
    names
}

fn plan_path(before: String, after: String, raw: &[char]) -> (plan: PathCompletion)
    ensures
        plan@ == path_plan(before@, after@, raw@),
{
    let quote: Option<char> = if raw.len() > 0 && (raw[0] == '\'' || raw[0] == '"') {
        Some(raw[0])
    } else {
        None
    };
    let first: usize = if quote.is_some() {
        1
    } else {
        0
    };
    let open = copy_range(raw, first, raw.len());
    let ghost s = open@;
    assert(s =~= if quote is Some {
        raw@.skip(1)
    } else {
        raw@
    });
    let mut n: usize = open.len();
    assert(s.take(n as int) =~= s);
    while n > 0 && open[n - 1] != '/' && open[n - 1] != '\\'
        invariant
            n <= open@.len(),
            s == open@,
            base_len(s) == base_len(s.take(n as int)),
        decreases n,
    {
        assert(s.take(n as int).drop_last() =~= s.take(n - 1));
        n -= 1;
    }
    assert(base_len(s.take(n as int)) == n);
    let base = copy_range(&open, 0, n);
    let fragment = copy_range(&open, n, open.len());
    assert(base@ =~= s.take(n as int));
    assert(fragment@ =~= s.skip(n as int));
    PathCompletion {
        before,
        after,
        quote,
        base: string_of(&base),
        fragment: string_of(&fragment),
    }
}

/// How a line can be completed.
pub fn plan_completion(line: &LineInput) -> (plan: CompletionPlan)
    ensures
        plan@ == completion_plan(line@),
{
    let cursor: usize = line.cursor();
    let text = line.text();
    proof {
        crate::text::lemma_boundary_index(line@.text, cursor as int);
        crate::text::lemma_offset_ends(line@.text);
        crate::text::lemma_index_of_offset(line@.text, 0);
        crate::text::lemma_index_of_offset(line@.text, line@.text.len() as int);
    }
    let end: usize = crate::text::byte_length(text);
    let before = chars_of(crate::text::slice(text, 0, cursor));
    let after = chars_of(crate::text::slice(text, cursor, end));
    assert(before@ =~= before_cursor(line@));
    assert(after@ =~= after_cursor(line@));
    assert(before@.skip(0) =~= before@);
    let n: usize = word_end(&before, 0);
    if n >= before.len() {
        let prefix = lower_all(&before);
        return CompletionPlan::Commands(commands_beginning(&prefix));
    }
    let word = copy_range(&before, 0, n);
    assert(word@ =~= before@.take(n as int));
    let command = lower_all(&word);
    if !is_text(&command, "e") && !is_text(&command, "open") {
        return CompletionPlan::Nothing;
    }
    let rest = copy_range(&before, n, before.len());
    assert(rest@ =~= before@.skip(n as int));
    let spaces: usize = count_leading(&rest);
    proof {
        lemma_leading_spaces(rest@);
    }
    let start: usize = n + spaces;
    let head = copy_range(&before, 0, start);
    let raw = copy_range(&before, start, before.len());
    assert(head@ =~= before@.take(start as int));
    assert(raw@ =~= before@.skip(start as int));
    CompletionPlan::Path(plan_path(string_of(&head), string_of(&after), &raw))
}

/// A name begins with a fragment, where case matters or not.
pub open spec fn name_matches(name: Seq<char>, fragment: Seq<char>, fold_case: bool) -> bool {
    if fold_case {
        begins(text_lowercase(name), text_lowercase(fragment))
    } else {
        begins(name, fragment)
    }
}

fn path_name_matches(name: &str, fragment: &str, fold_case: bool) -> (matches: bool)
    ensures
        matches == name_matches(name@, fragment@, fold_case),
{
    if fold_case {
        let lower_name = text_lowercase_of(name);
        let lower_fragment = text_lowercase_of(fragment);
        begins_with(&chars_of(lower_name.as_str()), &chars_of(lower_fragment.as_str()))
    } else {
        begins_with(&chars_of(name), &chars_of(fragment))
    }
}

/// The separator after a directory: the one that was typed, or that of the platform.
pub open spec fn separator_for(base: Seq<char>, main: char) -> char {
    if base.len() > 0 && is_separator(base.last()) {
        base.last()
    } else {
        main
    }
}

/// The line in which a path is completed to an entry.
pub open spec fn completed_line(
    plan: PathCompletionModel,
    entry: FileModel,
    separator: char,
) -> Seq<char> {
    let quote = match plan.quote {
        Some(quote) => seq![quote],
        None => seq![],
    };
    let end = if entry.is_directory {
        seq![separator]
    } else {
        seq![]
    };
    plan.before + quote + plan.base + entry.name + end + plan.after
}

/// The lines in which a path is completed to the entries of its directory.
pub open spec fn completed_lines(
    plan: PathCompletionModel,
    entries: Seq<FileModel>,
    fold_case: bool,
    main: char,
) -> Seq<Seq<char>>
    decreases entries.len(),
{
    if entries.len() == 0 {
        seq![]
    } else {
        let before = completed_lines(plan, entries.drop_last(), fold_case, main);
        let entry = entries.last();
        if !entry.is_parent && name_matches(entry.name, plan.fragment, fold_case) {
            before.push(completed_line(plan, entry, separator_for(plan.base, main)))
        } else {
            before
        }
    }
}

/// The lines in which a path is completed to the entries of its directory.
pub fn complete_path(
    plan: &PathCompletion,
    entries: &[FileEntry],
    fold_case: bool,
    main_separator: char,
) -> (lines: Vec<String>)
    ensures
        string_texts(lines@) == completed_lines(
            plan@,
            views_of(entries@),
            fold_case,
            main_separator,
        ),
{
    let ghost all = views_of(entries@);
    let base = chars_of(plan.base.as_str());
    let length: usize = base.len();
    let separator = if length > 0 && (base[length - 1] == '/' || base[length - 1] == '\\') {
        base[length - 1]
    } else {
        main_separator
    };
    let mut lines: Vec<String> = Vec::new();
    let mut i: usize = 0;
    assert(string_texts(lines@) =~= completed_lines(plan@, all.take(0), fold_case, main_separator));
    while i < entries.len()
        invariant
            i <= entries.len(),
            all == views_of(entries@),
            base@ == plan@.base,
            separator == separator_for(plan@.base, main_separator),
            string_texts(lines@) == completed_lines(
                plan@,
                all.take(i as int),
                fold_case,
                main_separator,
            ),
        decreases entries.len() - i,
    {
        assert(all.take(i + 1).drop_last() =~= all.take(i as int));
        assert(all.take(i + 1).last() == entries@[i as int]@);
        let entry = &entries[i];
        if !entry.is_parent && path_name_matches(
            entry.name.as_str(),
            plan.fragment.as_str(),
            fold_case,
        ) {
            let mut line = chars_of(plan.before.as_str());
            if let Some(quote) = plan.quote {
                line.push(quote);
            }
            push_all(&mut line, &base);
            push_text(&mut line, entry.name.as_str());
            if entry.is_directory {
                line.push(separator);
            }
            push_text(&mut line, plan.after.as_str());
            assert(line@ =~= completed_line(plan@, entry@, separator));
            let ghost before = lines@;
            lines.push(string_of(&line));
            assert(string_texts(lines@) =~= string_texts(before).push(line@));
        }
        i += 1;
    }
    assert(all.take(i as int) =~= all);
    lines
}

/// A line ends with a separator, but for white space.
pub open spec fn ends_with_separator(input: Seq<char>) -> bool {
    let t = trimmed_end(input);
    t.len() > 0 && is_separator(t.last())
}

/// Whether a line ends with a separator.
pub fn input_ends_with_separator(input: &str) -> (ends: bool)
    ensures
        ends == ends_with_separator(input@),
{
    let characters = chars_of(input);
    let t = trim_end_chars(&characters);
    let length: usize = t.len();
    length > 0 && (t[length - 1] == '/' || t[length - 1] == '\\')
}

/// The arguments of a command are taken as they are, with all their inner white space, and
/// nothing around the command matters.
pub proof fn law_arguments_are_kept(arguments: Seq<char>)
    requires
        arguments.len() > 0,
        trimmed(arguments) == arguments,
    ensures
        parsed_command("open "@ + arguments) == Ok::<_, Seq<char>>(CommandModel::Open(arguments)),
        parsed_command("exact "@ + arguments) == Ok::<_, Seq<char>>(CommandModel::Exact(arguments)),
        parsed_command("regex "@ + arguments) == Ok::<_, Seq<char>>(CommandModel::Regex(arguments)),
        parsed_command("mark "@ + arguments) == Ok::<_, Seq<char>>(
            CommandModel::Mark(Some(arguments)),
        ),
{
    reveal_strlit("open ");
    reveal_strlit("open");
    reveal_strlit("exact ");
    reveal_strlit("exact");
    reveal_strlit("regex ");
    reveal_strlit("regex");
    reveal_strlit("mark ");
    reveal_strlit("mark");
    reveal_strlit("e");
    reveal_strlit("q");
    reveal_strlit("quit");
    reveal_strlit("toc");
    reveal_strlit("marks");
    reveal_strlit("bookmarks");
    reveal_strlit("recent");
    reveal_strlit("re");
    lemma_one_argument("open"@, arguments);
    lemma_one_argument("exact"@, arguments);
    lemma_one_argument("regex"@, arguments);
    lemma_one_argument("mark"@, arguments);
    assert("open "@ =~= "open"@.push(' '));
    assert("exact "@ =~= "exact"@.push(' '));
    assert("regex "@ =~= "regex"@.push(' '));
    assert("mark "@ =~= "mark"@.push(' '));
    assert("exact"@[0] == 'e' && "regex"@[0] == 'r' && "mark"@[0] == 'm' && "open"@[0] == 'o');
    assert("quit"@[0] == 'q' && "q"@[0] == 'q' && "toc"@[0] == 't' && "bookmarks"@[0] == 'b');
}

proof fn lemma_one_argument(name: Seq<char>, arguments: Seq<char>)
    requires
        name.len() > 0,
        forall|i: int| 0 <= i < name.len() ==> !is_space(#[trigger] name[i]),
        arguments.len() > 0,
        trimmed(arguments) == arguments,
    ensures
        command_name(name.push(' ') + arguments) == name,
        command_arguments(name.push(' ') + arguments) == arguments,
{
    let raw = name.push(' ') + arguments;
    lemma_leading_spaces(arguments);
    crate::strings::lemma_trimmed_end(crate::strings::trimmed_start(arguments));
    assert(!is_space(arguments.last())) by {
        assert(trimmed_end(crate::strings::trimmed_start(arguments)) == arguments);
    }
    assert(!is_space(raw[0])) by {
        assert(raw[0] == name[0]);
    }
    crate::strings::lemma_leading_spaces_is(raw, 0);
    assert(crate::strings::trimmed_start(raw) =~= raw);
    assert(raw.last() == arguments.last());
    assert(trimmed(raw) == raw);
    assert forall|i: int| 0 <= i < name.len() implies !is_space(#[trigger] raw[i]) by {
        assert(raw[i] == name[i]);
    }
    assert(raw[name.len() as int] == ' ');
    crate::strings::lemma_word_len_is(raw, name.len() as int);
    assert(raw.take(name.len() as int) =~= name);
    assert(raw.skip(name.len() as int + 1) =~= arguments);
}

/// A path below a tilde is below the home directory, and a tilde alone is that directory; any
/// other path is taken as it was typed. Quotes around a path, and blanks around those, do not
/// belong to it.
pub proof fn law_paths(rest: Seq<char>, quote: char)
    requires
        quote == '"' || quote == '\'',
    ensures
        path_request(seq!['~', '/'] + rest).below_home == Some(rest),
        path_request(seq!['~']).below_home == Some(Seq::<char>::empty()),
        rest.len() > 0 && rest[0] != '~' ==> path_request(rest).below_home is None,
        path_request(rest).raw == rest,
        rest.len() > 0 ==> command_path(seq![quote] + rest + seq![quote]) == path_request(rest),
{
    reveal_strlit("~");
    reveal_strlit("~/");
    reveal_strlit("~\\");
    let below = seq!['~', '/'] + rest;
    assert(below.take(2) =~= "~/"@);
    assert(below.skip(2) =~= rest);
    assert(below != "~"@) by {
        assert(below.len() >= 2);
    }
    assert(seq!['~'] =~= "~"@);
    if rest.len() > 0 && rest[0] != '~' {
        assert(rest != "~"@) by {
            assert("~"@[0] == '~');
        }
        if begins(rest, "~/"@) {
            assert(rest.take(2)[0] == "~/"@[0]);
        }
        if begins(rest, "~\\"@) {
            assert(rest.take(2)[0] == "~\\"@[0]);
        }
    }
    if rest.len() > 0 {
        let quoted = seq![quote] + rest + seq![quote];
        assert(!is_space(quoted[0]));
        assert(!is_space(quoted[quoted.len() - 1]));
        crate::strings::lemma_leading_spaces_is(quoted, 0);
        assert(crate::strings::trimmed_start(quoted) =~= quoted);
        crate::strings::lemma_trimmed_end_is(quoted, quoted.len() as int);
        assert(quoted.take(quoted.len() as int) =~= quoted);
        assert(quoted.subrange(1, quoted.len() - 1) =~= rest);
    }
}

/// A path that is typed to be opened is completed in its directory: what stands after its last
/// separator is the start of a name, and what stands up to it stays.
pub proof fn law_path_is_completed(base: Seq<char>, fragment: Seq<char>, entry: FileModel)
    requires
        (base + fragment).len() > 0,
        base.len() > 0 ==> is_separator(base.last()),
        forall|i: int| 0 <= i < fragment.len() ==> !is_separator(#[trigger] fragment[i]),
        ({
            let c = (base + fragment)[0];
            !is_space(c) && c != '"' && c != '\''
        }),
    ensures
        ({
            let line = crate::input::typed("e "@ + base + fragment);
            completion_plan(line) matches CompletionPlanModel::Path(plan) && plan.base == base
                && plan.fragment == fragment && completed_line(plan, entry, '/') == "e "@ + base
                + entry.name + (if entry.is_directory {
                "/"@
            } else {
                seq![]
            })
        }),
{
    let path = base + fragment;
    let text = "e "@ + base + fragment;
    let line = crate::input::typed(text);
    reveal_strlit("e ");
    reveal_strlit("e");
    reveal_strlit("/");
    crate::text::lemma_offset_ends(text);
    crate::text::lemma_index_of_offset(text, text.len() as int);
    assert(before_cursor(line) =~= text);
    assert(after_cursor(line) =~= seq![]);
    assert(text[0] == 'e' && text[1] == ' ');
    crate::strings::lemma_word_len_is(text, 1);
    assert(text.take(1) =~= "e"@);
    assert(ascii_lower_all("e"@) =~= "e"@);
    let rest = text.skip(1);
    assert(rest[0] == ' ' && rest[1] == path[0]);
    crate::strings::lemma_leading_spaces_is(rest, 1);
    assert(text.take(2) =~= "e "@);
    assert(text.skip(2) =~= path);
    lemma_base(base, fragment);
    assert(path.take(base.len() as int) =~= base);
    assert(path.skip(base.len() as int) =~= fragment);
    let plan = path_plan("e "@, seq![], path);
    assert(plan.base == base && plan.fragment == fragment);
    assert(completed_line(plan, entry, '/') =~= "e "@ + base + entry.name + (
    if entry.is_directory {
        "/"@
    } else {
        seq![]
    }));
}

proof fn lemma_base(base: Seq<char>, fragment: Seq<char>)
    requires
        base.len() > 0 ==> is_separator(base.last()),
        forall|i: int| 0 <= i < fragment.len() ==> !is_separator(#[trigger] fragment[i]),
    ensures
        base_len(base + fragment) == base.len(),
    decreases fragment.len(),
{
    if fragment.len() == 0 {
        assert(base + fragment =~= base);
    } else {
        let less = fragment.drop_last();
        assert(!is_separator(fragment[fragment.len() - 1]));
        assert forall|i: int| 0 <= i < less.len() implies !is_separator(#[trigger] less[i]) by {
            assert(less[i] == fragment[i]);
        }
        lemma_base(base, less);
        assert((base + fragment).drop_last() =~= base + less);
        assert((base + fragment).last() == fragment.last());
    }
}

} // verus!

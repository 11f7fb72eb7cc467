//! The parts of the library one by one.
use std::ops::Range;

use peep::app::actions::{Key, KeyCode};
use peep::app::labels::{
    bookmark_fallback_label, filtered_overlay_title, insert_search_preview, relative_age,
    search_context,
};
use peep::app::InputMode;
use peep::cli::Cli;
use peep::command::{
    input_ends_with_separator, parse_command, request_command_path, unquote, Command, HistoryScope,
};
use peep::document::{CanonicalDocument, DocumentMetadata, Section, TextStyle, TextStyleKind, TocEntry};
use peep::file_picker::{is_supported_file, list_directory, DirectoryItem, FileEntry};
use peep::filter::FilteredList;
use peep::history::{InputHistory, MAX_ENTRIES};
use peep::input::LineInput;
use peep::loose_match::LooseMatcher;
use peep::search::{
    analyze, find_next, SearchDirection, SearchError, SearchHit, SearchKind, SearchQuery,
    MAX_PATTERN_CHARS,
};
use peep::terminal::{accepts_key_kind, request_of, KeyEventKind, Request, TerminalEvent};
use peep::terminal_palette::{
    decode_color_ref, parse_default_colors, parse_osc_rgb, DefaultColors,
};
use peep::theme::{choose_colors, BaseColors, Color, Mixture, Theme, ThemeChoice};
use peep::ui::{
    body_area, centered_rect, compact_home, composer_look, cursor_column, emphasised_parts,
    fit_status, is_too_small, overlay_area, selected_row, styled_line, truncate_width,
    wrap_overlay_items, Area, Look,
};
use peep::viewport::Viewport;
use peep::wrap::wrap_columns;
use unicode_width::UnicodeWidthStr;

// -----------------------------------------------------------------------------------------
// Commands
// -----------------------------------------------------------------------------------------

#[test]
fn parses_open_path_without_splitting_spaces() {
    assert_eq!(
        parse_command("e books/my novel.epub").unwrap(),
        Command::Open("books/my novel.epub".to_owned())
    );
}

#[test]
fn parses_v2_commands_without_splitting_arguments() {
    assert_eq!(
        parse_command("mark 重要 转折").unwrap(),
        Command::Mark(Some("重要 转折".to_owned()))
    );
    assert_eq!(parse_command("mark").unwrap(), Command::Mark(None));
    assert_eq!(
        parse_command("exact 第一章 风起").unwrap(),
        Command::Exact("第一章 风起".to_owned())
    );
    assert_eq!(
        parse_command("re 第[一二]章").unwrap(),
        Command::Regex("第[一二]章".to_owned())
    );
    assert_eq!(parse_command("marks").unwrap(), Command::Marks);
    assert_eq!(parse_command("recent").unwrap(), Command::Recent);
    assert_eq!(parse_command("results").unwrap(), Command::Results);
    assert_eq!(parse_command("theme").unwrap(), Command::Theme(None));
    assert_eq!(parse_command("theme light").unwrap(), Command::Theme(Some(ThemeChoice::Light)));
    assert!(parse_command("theme sepia").is_err());
    assert_eq!(
        parse_command("history clear").unwrap(),
        Command::ClearHistory(HistoryScope::All)
    );
    assert_eq!(
        parse_command("history clear searches").unwrap(),
        Command::ClearHistory(HistoryScope::Searches)
    );
    assert!(parse_command("history").is_err());
}

#[test]
fn removes_matching_path_quotes_only() {
    assert_eq!(unquote("\"a b.txt\""), "a b.txt");
    assert_eq!(unquote("'a b.txt'"), "a b.txt");
    assert_eq!(unquote("\"a b.txt"), "\"a b.txt");
}

#[test]
fn commands_that_mean_nothing_are_refused_with_a_reason() {
    assert_eq!(parse_command("e").unwrap_err(), "Usage: :e <path>");
    assert_eq!(parse_command("exact ").unwrap_err(), "Usage: :exact <text>");
    assert_eq!(parse_command("re").unwrap_err(), "Usage: :re <pattern>");
    assert_eq!(parse_command("theme sepia").unwrap_err(), "Usage: :theme <auto|light|dark>");
    assert_eq!(
        parse_command("history clean").unwrap_err(),
        "Usage: :history clear [commands|searches|all]"
    );
    assert_eq!(parse_command("  ").unwrap_err(), "Command cannot be empty");
    assert_eq!(parse_command("fly away").unwrap_err(), "Unknown command: fly");
    assert_eq!(parse_command(" goto  38% ").unwrap(), Command::Goto("38".to_owned()));
    assert_eq!(parse_command("history clear commands").unwrap(), Command::ClearHistory(HistoryScope::Commands));
    assert_eq!(parse_command("q").unwrap(), Command::Quit);
    assert_eq!(parse_command("h").unwrap(), Command::Help);
    assert_eq!(parse_command("toc").unwrap(), Command::Toc);
    assert_eq!(parse_command("info").unwrap(), Command::Info);
}

#[test]
fn a_tilde_is_the_home_directory() {
    assert_eq!(request_command_path("~").below_home.as_deref(), Some(""));
    assert_eq!(request_command_path(" '~/a b' ").below_home.as_deref(), Some("a b"));
    let plain = request_command_path("\"a b\"");
    assert_eq!(plain.raw, "a b");
    assert_eq!(plain.below_home, None);
    assert!(input_ends_with_separator("e nested/ "));
    assert!(!input_ends_with_separator("e nested"));
}

#[test]
fn what_is_typed_and_taken_back_leaves_the_line_as_it_was() {
    let mut line = LineInput::of("ab".to_owned());
    line.move_left();
    line.insert('中');
    assert_eq!(line.text(), "a中b");
    assert_eq!(line.cursor(), 4);
    assert_eq!(line.cursor_width(), 3);
    line.backspace();
    assert_eq!(line.text(), "ab");
    assert_eq!(line.cursor(), 1);
}

// -----------------------------------------------------------------------------------------
// Files
// -----------------------------------------------------------------------------------------

fn item(name: &str, extension: Option<&str>, is_directory: bool) -> DirectoryItem {
    DirectoryItem {
        path: format!("/books/{name}"),
        name: name.to_owned(),
        extension: extension.map(str::to_owned),
        is_directory,
        is_file: !is_directory,
    }
}

#[test]
fn lists_directories_and_supported_files_in_stable_order() {
    let items = vec![
        item("z.txt", Some("txt"), false),
        item("ignored.pdf", Some("pdf"), false),
        item("subdir", None, true),
        item("A.EPUB", Some("EPUB"), false),
    ];
    let entries = list_directory(Some("/".to_owned()), items);
    assert_eq!(
        entries.iter().map(FileEntry::label).collect::<Vec<_>>(),
        ["../", "subdir/", "A.EPUB", "z.txt"]
    );
    assert_eq!(entries[0].path, "/");
    assert!(list_directory(None, Vec::new()).is_empty());
}

#[test]
fn accepts_supported_extensions_case_insensitively() {
    assert!(is_supported_file(Some("EpUb")));
    assert!(is_supported_file(Some("markdown")));
    assert!(!is_supported_file(Some("png")));
}

// -----------------------------------------------------------------------------------------
// Filters and histories
// -----------------------------------------------------------------------------------------

fn labels() -> Vec<String> {
    vec![
        "第一章 龙回故乡".to_owned(),
        "第二章 风起".to_owned(),
        "CHAPTER １２：Return".to_owned(),
    ]
}

#[test]
fn filters_with_the_same_layout_tolerance_as_search() {
    let labels = labels();
    let mut list = FilteredList::new(labels.len());
    let selected = list.update("第一章龙回".to_owned(), &labels, 0);
    assert_eq!(selected, 0);
    assert_eq!(list.items(&labels), ["第一章 龙回故乡"]);

    list.update("chapter 12 return".to_owned(), &labels, 0);
    assert_eq!(list.original_index(0), Some(2));
}

#[test]
fn preserves_the_original_selection_when_it_still_matches() {
    let labels = labels();
    let mut list = FilteredList::new(labels.len());
    let selected = list.update("章".to_owned(), &labels, 1);
    assert_eq!(selected, 1);
    assert_eq!(list.original_index(selected), Some(1));
}

#[test]
fn empty_and_unmatched_queries_have_safe_mappings() {
    let labels = labels();
    let mut list = FilteredList::new(labels.len());
    assert_eq!(list.update("没有".to_owned(), &labels, 2), 0);
    assert_eq!(list.len(), 0);
    assert_eq!(list.original_index(0), None);

    assert_eq!(list.update(String::new(), &labels, 0), 0);
    assert_eq!(list.len(), labels.len());
}

#[test]
fn navigates_oldest_to_draft_without_mutating_entries() {
    let mut history = InputHistory::new(vec!["toc".to_owned(), "recent".to_owned()]);
    assert_eq!(history.previous("draft"), Some("recent".to_owned()));
    assert_eq!(history.previous("ignored"), Some("toc".to_owned()));
    assert_eq!(history.previous("ignored"), Some("toc".to_owned()));
    assert_eq!(history.next(), Some("recent".to_owned()));
    assert_eq!(history.next(), Some("draft".to_owned()));
    assert_eq!(history.next(), None);
    assert_eq!(history.entries(), ["toc", "recent"]);
}

#[test]
fn deduplicates_moves_to_latest_and_enforces_capacity() {
    let mut history = InputHistory::new(Vec::new());
    for index in 0..=MAX_ENTRIES {
        history.record(&format!("command-{index}"));
    }
    assert_eq!(history.entries().len(), MAX_ENTRIES);
    assert_eq!(history.entries()[0], "command-1");

    history.record("command-1");
    assert_eq!(history.entries().last().map(String::as_str), Some("command-1"));
    assert_eq!(history.entries().len(), MAX_ENTRIES);
}

#[test]
fn blank_and_repeated_inputs_are_not_remembered() {
    let mut history = InputHistory::new(vec!["toc".to_owned()]);
    assert!(!history.record("  "));
    assert!(!history.record(" toc "));
    assert!(history.record("help"));
    assert_eq!(history.entries(), ["toc", "help"]);
    history.clear();
    assert!(history.entries().is_empty());
    assert_eq!(history.previous("x"), None);
}

// -----------------------------------------------------------------------------------------
// Searching
// -----------------------------------------------------------------------------------------

#[test]
fn matches_case_width_whitespace_and_punctuation_without_skipping_prose() {
    let matcher = LooseMatcher::new("chapter １２：风起");
    assert!(matcher.is_match("CHAPTER 12 风起"));
    assert!(!matcher.is_match("chapter 12 风雨起"));
}

#[test]
fn never_matches_across_a_hard_line() {
    assert!(!LooseMatcher::new("第一章风起").is_match("第一章\n风起"));
}

fn query(kind: SearchKind, pattern: &str) -> SearchQuery {
    SearchQuery::new(kind, pattern)
}

#[test]
fn exact_search_finds_unicode_and_wraps_in_both_directions() {
    let text = "第一章\n第二章";
    let exact = query(SearchKind::ExactLiteral, "章");
    let second = find_next(text, &exact, 4, SearchDirection::Forward).unwrap().unwrap();
    assert_eq!(&text[second.clone()], "章");
    let wrapped = find_next(
        text,
        &query(SearchKind::ExactLiteral, "第一"),
        text.len(),
        SearchDirection::Forward,
    )
    .unwrap()
    .unwrap();
    assert_eq!(wrapped.start, 0);
    let backward = find_next(text, &exact, 0, SearchDirection::Backward).unwrap().unwrap();
    assert_eq!(&text[backward], "章");
}

#[test]
fn loose_search_ignores_layout_but_not_prose() {
    let text = "前言\n第 一 章——風 起\n第一章 风雨将起";
    let loose = query(SearchKind::LooseLiteral, "第一章風起");
    let found = find_next(text, &loose, 0, SearchDirection::Forward).unwrap().unwrap();
    assert_eq!(&text[found], "第 一 章——風 起");

    let absent = query(SearchKind::LooseLiteral, "第一章风起");
    assert_eq!(
        find_next(text, &absent, text.find("风雨").unwrap(), SearchDirection::Forward).unwrap(),
        None
    );
}

#[test]
fn loose_search_folds_case_and_full_width_ascii() {
    let text = "ＣＨＡＰＴＥＲ：１２";
    let found = find_next(
        text,
        &query(SearchKind::LooseLiteral, "chapter 12"),
        0,
        SearchDirection::Forward,
    )
    .unwrap()
    .unwrap();
    assert_eq!(&text[found], text);
}

#[test]
fn loose_search_does_not_cross_hard_lines() {
    assert_eq!(
        find_next(
            "第一章\n风起",
            &query(SearchKind::LooseLiteral, "第一章风起"),
            0,
            SearchDirection::Forward,
        )
        .unwrap(),
        None
    );
}

#[test]
fn punctuation_only_loose_query_falls_back_to_exact() {
    let text = "正文……继续";
    let found =
        find_next(text, &query(SearchKind::LooseLiteral, "……"), 0, SearchDirection::Forward)
            .unwrap()
            .unwrap();
    assert_eq!(&text[found], "……");
}

#[test]
fn regex_reports_errors_skips_empty_and_wraps() {
    assert!(matches!(
        find_next("text", &query(SearchKind::Regex, "["), 0, SearchDirection::Forward,),
        Err(SearchError::InvalidRegex(_))
    ));
    assert_eq!(
        find_next("abc", &query(SearchKind::Regex, "^|b"), 0, SearchDirection::Forward,)
            .unwrap(),
        Some(1..2)
    );
    assert_eq!(
        find_next(
            "one 12 two 34",
            &query(SearchKind::Regex, r"\d+"),
            0,
            SearchDirection::Backward,
        )
        .unwrap(),
        Some(11..13)
    );
}

#[test]
fn analysis_counts_matches_and_centres_preview_window() {
    let analysis = analyze(
        "a a a a a",
        &query(SearchKind::ExactLiteral, "a"),
        4,
        SearchDirection::Forward,
        3,
    )
    .unwrap();
    assert_eq!(analysis.total, 5);
    assert_eq!(analysis.current.as_ref().unwrap().ordinal, 2);
    assert_eq!(analysis.previews.iter().map(|hit| hit.ordinal).collect::<Vec<_>>(), [1, 2, 3]);
}

#[test]
fn rejects_empty_and_excessively_long_queries() {
    assert_eq!(
        find_next("text", &query(SearchKind::ExactLiteral, ""), 0, SearchDirection::Forward,),
        Err(SearchError::Empty)
    );
    assert_eq!(
        find_next(
            "text",
            &query(SearchKind::ExactLiteral, &"x".repeat(MAX_PATTERN_CHARS + 1)),
            0,
            SearchDirection::Forward,
        ),
        Err(SearchError::PatternTooLong)
    );
}

#[test]
fn search_errors_say_what_is_wrong() {
    assert_eq!(SearchError::Empty.message(), "search text cannot be empty");
    assert_eq!(
        SearchError::PatternTooLong.message(),
        "search pattern cannot exceed 4096 characters"
    );
    let error = find_next("text", &query(SearchKind::Regex, "("), 0, SearchDirection::Forward)
        .unwrap_err();
    assert!(error.message().starts_with("invalid regular expression: "));
}

fn hit(ordinal: usize) -> SearchHit {
    SearchHit { range: ordinal * 10..ordinal * 10 + 1, ordinal }
}

#[test]
fn previews_keep_what_is_nearest_to_the_current_match() {
    let ordinals = |hits: &[SearchHit]| hits.iter().map(|hit| hit.ordinal).collect::<Vec<_>>();
    let shown = insert_search_preview(vec![hit(1), hit(3)], hit(2), 3);
    assert_eq!(ordinals(&shown), [1, 2, 3]);
    let shown = insert_search_preview(shown, hit(4), 3);
    assert_eq!(ordinals(&shown), [2, 3, 4]);
    let shown = insert_search_preview(shown, hit(0), 3);
    assert_eq!(ordinals(&shown), [0, 2, 3]);
    let replaced = insert_search_preview(shown, SearchHit { range: 7..9, ordinal: 2 }, 3);
    assert_eq!(replaced[1].range, 7..9);
    assert!(insert_search_preview(replaced, hit(5), 0).is_empty());
}

#[test]
fn a_match_is_shown_with_what_stands_around_it() {
    let context = search_context("before 中文 after\nnext", &(7..13), 72);
    assert_eq!(context.text, "before 中文 after");
    assert_eq!(&context.text[context.emphasis], "中文");
    let long = format!("{}match{}", "a".repeat(50), "b".repeat(50));
    let context = search_context(&long, &(50..55), 72);
    assert_eq!(context.text, format!("…{}match{}…", "a".repeat(32), "b".repeat(32)));
    assert_eq!(&context.text[context.emphasis], "match");
    let context = search_context("one\ntwo", &(2..6), 72);
    assert_eq!(context.text, "one");
    assert_eq!(context.emphasis, 2..3);
}

#[test]
fn ages_and_titles_are_told_in_words() {
    assert_eq!(relative_age(59_999), "just now");
    assert_eq!(relative_age(60_000), "1m ago");
    assert_eq!(relative_age(3_599_999), "59m ago");
    assert_eq!(relative_age(3_600_000), "1h ago");
    assert_eq!(relative_age(86_400_000), "1d ago");
    assert_eq!(filtered_overlay_title("List", 5, 2, 9), "List · 2/2 matches · 9 total");
    assert_eq!(filtered_overlay_title("List", 0, 0, 9), "List · 0/0 matches · 9 total");
}

#[test]
fn a_bookmark_without_a_label_is_named_by_its_section_or_line() {
    let text = format!("\nfirst  line\n{}\nend", "x".repeat(50));
    let document = |toc: Vec<TocEntry>| {
        CanonicalDocument::new(
            text.clone(),
            DocumentMetadata { title: None, author: None, language: None },
            vec![Section { title: "all".to_owned(), range: 0..text.len() }],
            toc,
            Vec::new(),
        )
    };
    let plain = document(Vec::new());
    assert_eq!(bookmark_fallback_label(&plain, 0), "Untitled bookmark");
    assert_eq!(bookmark_fallback_label(&plain, 4), "first line");
    assert_eq!(bookmark_fallback_label(&plain, 20), format!("{}…", "x".repeat(40)));
    let entry = TocEntry { label: "end".to_owned(), offset: text.len() - 3, depth: 0 };
    let listed = document(vec![entry]);
    assert_eq!(bookmark_fallback_label(&listed, text.len() - 1), "end");
    assert_eq!(bookmark_fallback_label(&listed, 4), "first line");
}

// -----------------------------------------------------------------------------------------
// The screen
// -----------------------------------------------------------------------------------------

#[test]
fn wraps_cjk_by_terminal_width() {
    let text = "中文测试";
    let mut viewport = Viewport::new(text, 0);
    viewport.set_width(4);
    let lines = viewport.visible_lines(text, 4);
    assert_eq!(&text[lines[0].range()], "中文");
    assert_eq!(&text[lines[1].range()], "测试");
}

#[test]
fn never_splits_combining_grapheme() {
    let text = "a\u{301}b";
    let mut viewport = Viewport::new(text, 0);
    viewport.set_width(1);
    let lines = viewport.visible_lines(text, 4);
    assert_eq!(&text[lines[0].range()], "a\u{301}");
    assert_eq!(&text[lines[1].range()], "b");
}

#[test]
fn scrolls_across_empty_hard_lines() {
    let text = "one\n\nthree";
    let mut viewport = Viewport::new(text, 0);
    viewport.set_width(20);
    viewport.scroll_by(text, 1);
    assert_eq!(viewport.anchor(), 4);
    viewport.scroll_by(text, 1);
    assert_eq!(viewport.anchor(), 5);
    viewport.scroll_by(text, -2);
    assert_eq!(viewport.anchor(), 0);
}

#[test]
fn percent_is_independent_of_wrap_width() {
    let text = "abcdefghij";
    let mut viewport = Viewport::new(text, 0);
    viewport.set_width(2);
    let total = viewport.total_chars();
    viewport.goto_char(text, (total as f64 * 50.0 / 100.0).round() as usize);
    let before = viewport.progress_chars(text);
    viewport.set_width(8);
    let after = viewport.progress_chars(text);
    assert_eq!(before, after);
}

#[test]
fn end_stops_at_the_start_of_the_last_page() {
    let text = "one\ntwo\nthree\nfour\nfive\nsix";
    let mut viewport = Viewport::new(text, 0);
    viewport.set_width(20);
    viewport.visible_lines(text, 3);
    viewport.goto_end(text);
    let lines = viewport.visible_lines(text, 3);
    assert_eq!(lines.len(), 3);
    assert_eq!(&text[lines[0].range()], "four");
    assert_eq!(&text[lines[2].range()], "six");

    viewport.scroll_by(text, 100);
    let lines = viewport.visible_lines(text, 3);
    assert_eq!(&text[lines[0].range()], "four");
    assert_eq!(&text[lines[2].range()], "six");
}

#[test]
fn short_document_does_not_move_when_goto_end_is_pressed() {
    let text = "one\ntwo";
    let mut viewport = Viewport::new(text, 0);
    viewport.set_width(20);
    viewport.visible_lines(text, 4);
    viewport.goto_end(text);
    assert_eq!(viewport.anchor(), 0);
}

#[test]
fn resizing_reclamps_an_old_end_anchor() {
    let text = "one\ntwo\nthree\nfour\nfive\nsix";
    let mut viewport = Viewport::new(text, 0);
    viewport.set_width(20);
    viewport.visible_lines(text, 3);
    viewport.goto_end(text);
    assert_eq!(&text[viewport.visible_lines(text, 3)[0].range()], "four");

    let lines = viewport.visible_lines(text, 5);
    assert_eq!(&text[lines[0].range()], "two");
    assert_eq!(&text[lines[4].range()], "six");
}

#[test]
fn accepts_press_and_repeat_but_not_release() {
    assert!(accepts_key_kind(KeyEventKind::Press));
    assert!(accepts_key_kind(KeyEventKind::Repeat));
    assert!(!accepts_key_kind(KeyEventKind::Release));
}

#[test]
fn events_become_keys_and_scrolling() {
    let key = Key { code: KeyCode::Enter, control: false, alt: false };
    let ask = |event: TerminalEvent, mouse: bool, mode: InputMode| request_of(event, mouse, mode);
    assert!(matches!(
        ask(TerminalEvent::Key { kind: KeyEventKind::Press, key }, true, InputMode::Normal),
        Request::Keys(keys) if keys == [key]
    ));
    assert!(matches!(
        ask(TerminalEvent::Key { kind: KeyEventKind::Release, key }, true, InputMode::Normal),
        Request::Nothing
    ));
    assert!(matches!(ask(TerminalEvent::WheelDown, true, InputMode::Normal), Request::Scroll(3)));
    assert!(matches!(ask(TerminalEvent::WheelUp, true, InputMode::Normal), Request::Scroll(-3)));
    assert!(matches!(ask(TerminalEvent::WheelUp, false, InputMode::Normal), Request::Nothing));
    assert!(matches!(
        ask(TerminalEvent::Paste("ab".to_owned()), true, InputMode::Normal),
        Request::Nothing
    ));
    assert!(matches!(
        ask(TerminalEvent::Paste("ab".to_owned()), true, InputMode::Search),
        Request::Keys(keys) if keys.len() == 2 && keys[1].code == KeyCode::Char('b')
    ));
    assert!(matches!(ask(TerminalEvent::Other, true, InputMode::Search), Request::Nothing));
}

#[test]
fn the_file_of_the_command_line_comes_before_the_last_one() {
    let asked = Cli { no_mouse: false, theme: None, file: Some("a.txt".to_owned()) };
    assert_eq!(asked.first_file(Some("b.txt".to_owned())).as_deref(), Some("a.txt"));
    let none = Cli { no_mouse: true, theme: Some(ThemeChoice::Dark), file: None };
    assert_eq!(none.first_file(Some("b.txt".to_owned())).as_deref(), Some("b.txt"));
    assert_eq!(none.first_file(None), None);
}

#[test]
fn parses_terminal_colors_in_either_order() {
    assert_eq!(
        parse_default_colors(b"\x1B]11;rgb:ffff/ffff/ffff\x07\x1B]10;rgb:1111/2222/3333\x1B\\"),
        Some(DefaultColors { foreground: (17, 34, 51), background: (255, 255, 255) })
    );
}

#[test]
fn colours_of_the_terminal_are_read() {
    assert_eq!(parse_osc_rgb("rgb:ff/00/7f"), Some((255, 0, 127)));
    assert_eq!(parse_osc_rgb("rgb:ff/00"), None);
    assert_eq!(parse_osc_rgb("rgb:fff/000/000"), None);
    assert_eq!(decode_color_ref(0x0030_2010), (0x10, 0x20, 0x30));
    assert_eq!(parse_default_colors(b"\x1B]10;rgb:1111/2222/3333\x07"), None);
}

fn mixed(mixture: Mixture) -> (u8, u8, u8) {
    let alpha = f32::from(mixture.hundredths) / 100.0;
    let channel =
        |top: u8, bottom: u8| (f32::from(top) * alpha + f32::from(bottom) * (1.0 - alpha)) as u8;
    (
        channel(mixture.top.0, mixture.bottom.0),
        channel(mixture.top.1, mixture.bottom.1),
        channel(mixture.top.2, mixture.bottom.2),
    )
}

fn resolve(choice: ThemeChoice, terminal: Option<DefaultColors>) -> Theme {
    match choose_colors(choice, terminal) {
        Some(colors) => Theme::from_colors(colors, mixed(colors.surface()), mixed(colors.muted())),
        None => Theme::fallback(),
    }
}

#[test]
fn auto_derives_a_low_contrast_surface_for_light_and_dark_terminals() {
    let light = resolve(
        ThemeChoice::Auto,
        Some(DefaultColors { foreground: (0, 0, 0), background: (255, 255, 255) }),
    );
    assert_eq!(light.surface.bg, Some(Color::Rgb(244, 244, 244)));
    assert!(light.surface_visible);

    let dark = resolve(
        ThemeChoice::Auto,
        Some(DefaultColors { foreground: (255, 255, 255), background: (0, 0, 0) }),
    );
    assert_eq!(dark.surface.bg, Some(Color::Rgb(30, 30, 30)));
    assert!(dark.surface_visible);
}

#[test]
fn auto_fallback_does_not_assume_a_terminal_background() {
    let theme = resolve(ThemeChoice::Auto, None);
    assert_eq!(theme.body.bg, None);
    assert_eq!(theme.surface.bg, None);
    assert!(!theme.surface_visible);
}

#[test]
fn explicit_themes_have_readable_selection_contrast() {
    let light = resolve(ThemeChoice::Light, None);
    let dark = resolve(ThemeChoice::Dark, None);
    assert_ne!(light.selected.fg, light.selected.bg);
    assert_ne!(dark.selected.fg, dark.selected.bg);
    assert!(light.surface_visible && dark.surface_visible);
}

#[test]
fn themes_are_found_by_their_names() {
    for choice in [ThemeChoice::Auto, ThemeChoice::Light, ThemeChoice::Dark] {
        assert_eq!(ThemeChoice::from_name(choice.name()), Some(choice));
    }
    assert_eq!(ThemeChoice::from_name("sepia"), None);
    let colors = BaseColors { foreground: (1, 2, 3), background: (4, 5, 6) };
    assert_eq!(colors.surface().bottom, (4, 5, 6));
}

#[test]
fn status_truncation_preserves_progress() {
    let status = fit_status("/a/very/long/path", "38%", 10);
    assert!(UnicodeWidthStr::width(status.as_str()) <= 10);
    assert!(status.ends_with("38%"));
    assert!(!status.contains("  "));
    assert_eq!(fit_status("~/repo", "38%", 80), "~/repo · 38%");
}

#[test]
fn narrow_status_lines_leave_the_left_part_out() {
    assert_eq!(fit_status("left", "38%", 0), "");
    assert_eq!(fit_status("left", "38%", 2), "3…");
    assert_eq!(fit_status("left", "38%", 3), "38%");
    assert_eq!(fit_status("left", "38%", 6), "38%");
    assert_eq!(fit_status("left", "38%", 7), "… · 38%");
    assert_eq!(truncate_width("中文测试", 5), "中文…");
    assert_eq!(truncate_width("中文", 4), "中文");
    assert_eq!(truncate_width("中文", 0), "");
}

#[test]
fn overlay_wrapping_counts_cjk_terminal_width() {
    let rows = wrap_overlay_items(&["中文测试".to_owned()], 4);
    assert_eq!(rows, ["中文", "测试"]);
}

#[test]
fn overlay_wrapping_keeps_lines_and_blank_items() {
    let rows = wrap_overlay_items(&["ab\ncd".to_owned(), String::new(), "efg".to_owned()], 2);
    assert_eq!(rows, ["ab", "cd", "", "ef", "g"]);
    assert_eq!(wrap_overlay_items(&["ab".to_owned()], 0), ["a", "b"]);
}

#[test]
fn the_home_directory_is_shown_as_a_tilde() {
    let below = |rest: &str| Some(rest.to_owned());
    assert_eq!(compact_home("/home/reader", &below("")), "~");
    assert_eq!(compact_home("/home/reader/books", &below("books")), "~/books");
    assert_eq!(compact_home("/srv/books", &None), "/srv/books");
}

#[test]
fn parts_of_the_screen_have_their_places() {
    let screen = Area { x: 0, y: 0, width: 120, height: 30 };
    assert_eq!(body_area(screen), Area { x: 2, y: 0, width: 100, height: 30 });
    let narrow = Area { x: 5, y: 1, width: 30, height: 9 };
    assert_eq!(body_area(narrow), Area { x: 7, y: 1, width: 26, height: 9 });
    assert_eq!(centered_rect(10, 4, narrow), Area { x: 15, y: 3, width: 10, height: 4 });
    assert_eq!(overlay_area(screen, 3), Area { x: 20, y: 12, width: 80, height: 5 });
    assert_eq!(overlay_area(narrow, 99), Area { x: 7, y: 1, width: 26, height: 8 });
    assert!(is_too_small(19, 30));
    assert!(is_too_small(20, 5));
    assert!(!is_too_small(20, 6));
    assert_eq!(selected_row(narrow, 4, 2), Some(3));
    assert_eq!(selected_row(narrow, 1, 2), None);
    assert_eq!(selected_row(narrow, 11, 2), None);
    assert_eq!(cursor_column(narrow, 3), 12);
    assert_eq!(cursor_column(narrow, 300), 34);
    assert_eq!(composer_look(InputMode::Normal, false, false), Look::Muted);
    assert_eq!(composer_look(InputMode::Normal, false, true), Look::Plain);
    assert_eq!(composer_look(InputMode::Normal, true, true), Look::Accent);
    assert_eq!(composer_look(InputMode::Filter, true, true), Look::Plain);
}

#[test]
fn rows_are_cut_where_their_style_changes() {
    let styles = [
        TextStyle { range: 2..6, kind: TextStyleKind::Strong },
        TextStyle { range: 4..20, kind: TextStyleKind::Emphasis },
        TextStyle { range: 30..40, kind: TextStyleKind::Code },
    ];
    let found: Option<Range<usize>> = Some(5..7);
    let spans = styled_line(&(0..10), &styles, &found);
    let seen: Vec<(Range<usize>, usize, bool)> =
        spans.iter().map(|span| (span.range.clone(), span.kinds.len(), span.matched)).collect();
    assert_eq!(
        seen,
        [
            (0..2, 0, false),
            (2..4, 1, false),
            (4..5, 2, false),
            (5..6, 2, true),
            (6..7, 1, true),
            (7..10, 1, false)
        ]
    );
    assert_eq!(spans[2].kinds, [TextStyleKind::Strong, TextStyleKind::Emphasis]);
    assert!(styled_line(&(3..3), &styles, &None).is_empty());
    assert_eq!(styled_line(&(21..25), &styles, &None).len(), 1);
}

#[test]
fn matches_in_lists_are_set_off() {
    let parts = emphasised_parts("a中b", &Some(1..4)).unwrap();
    assert_eq!((parts.before.as_str(), parts.matched.as_str(), parts.after.as_str()), ("a", "中", "b"));
    assert_eq!(emphasised_parts("a中b", &Some(1..3)), None);
    assert_eq!(emphasised_parts("a中b", &Some(1..9)), None);
    assert_eq!(emphasised_parts("a中b", &Some(1..1)), None);
    assert_eq!(emphasised_parts("a中b", &None), None);
}

#[test]
fn a_bad_pattern_is_refused_whatever_the_text() {
    let bad = query(SearchKind::Regex, "(");
    let mut messages = Vec::new();
    for text in ["", "text", "(", "one\ntwo"] {
        match find_next(text, &bad, 0, SearchDirection::Forward) {
            Err(SearchError::InvalidRegex(message)) => messages.push(message),
            other => panic!("not refused: {other:?}"),
        }
    }
    assert!(messages.iter().all(|message| *message == messages[0]));
}

#[test]
fn rows_are_filled_before_another_is_begun() {
    assert_eq!(wrap_columns(&[2, 2, 1, 2, 2], 4), vec![0, 2, 4]);
    assert_eq!(wrap_columns(&[2, 1, 2], 4), vec![0, 2]);
    assert_eq!(wrap_columns(&[5, 1, 0, 1], 2), vec![0, 1]);
    assert_eq!(wrap_columns(&[], 4), vec![0]);
    let text = "a中b文\n\nlast";
    let mut viewport = Viewport::new(text, 0);
    viewport.set_width(3);
    let lines = viewport.visible_lines(text, 9);
    let shown: Vec<&str> = lines.iter().map(|line| &text[line.range()]).collect();
    assert_eq!(shown, vec!["a中", "b文", "", "las", "t"]);
}

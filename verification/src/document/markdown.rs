//! Markdown documents.
use std::ops::Range;

use vstd::prelude::*;
use vstd::utf8::{decode_utf8, valid_utf8};

use crate::document::chapter::toc_views;
use crate::document::epub::{extension_is, has_extension, loaded_view, AdapterOutput, Loaded};
use crate::document::events::{
    markdown_events, markdown_events_of, raw_event_views, understand, understood, EventModel,
    MarkdownEvent, RawEvent, RawEventModel, TagKind, MARKDOWN_OPTIONS,
};
use crate::document::html_text::{html_fragment, shown_text, visible_html_text};
use crate::document::styled_text::{
    add_char, add_newlines, add_space, add_styled, add_text, clipped_styles, close_image,
    close_link, close_style, closed_text, entries_within, entry_views, no_text, open_image,
    open_link, open_style, place_entries, place_styles, PlacedEntry, Styled, StyledText,
};
use crate::document::table::{
    add_table, empty_table, inline_style, style_of_tag, table_step, task_marker, TableBuilder,
    TableModel,
};
use crate::document::{
    canonical, default_title, section_views, style_views, warning_views, CanonicalDocument,
    DocumentMetadata, DocumentModel, DocumentSource, LoadError, LoadFault, LoadWarning,
    MetadataModel, Section, SectionModel, SourceModel, StyleModel, TextStyle, TextStyleKind,
    TocEntry, TocModel,
};
use crate::encoding::utf8_text;
use crate::strings::{
    ascii_lower_all, begins, begins_with_text, collapse_chars, collapsed, decimal, decimal_chars,
    feed_lines, find_char, is_text, lines, lines_of, lower_all, normalise_newlines, position,
    push_text, repeat_chars, repeated, texts, trim_chars, trimmed, with_line_feeds,
};
use crate::text::{
    byte_len, byte_length, chars_of, copy_range, push_all, string_of,
};

verus! {

// ---------------------------------------------------------------------------------------
// Metadata
// ---------------------------------------------------------------------------------------

pub open spec fn no_metadata() -> MetadataModel {
    MetadataModel { title: None, author: None, language: None }
}

/// A value without the quotes around it.
pub open spec fn unquoted(value: Seq<char>) -> Seq<char> {
    if value.len() >= 2 && value[0] == value.last() && (value[0] == '"' || value[0] == '\'') {
        trimmed(value.subrange(1, value.len() - 1))
    } else {
        value
    }
}

pub open spec fn or_else(value: Option<Seq<char>>, other: Option<Seq<char>>) -> Option<Seq<char>> {
    if value is Some {
        value
    } else {
        other
    }
}

/// What a line of a metadata block adds: a key, a colon and a value that is not empty. Of
/// several values for a key the first one counts.
pub open spec fn with_metadata_line(metadata: MetadataModel, line: Seq<char>) -> MetadataModel {
    let colon = position(line, ':');
    if colon >= line.len() {
        metadata
    } else {
        let key = ascii_lower_all(trimmed(line.take(colon as int)));
        let value = unquoted(trimmed(line.skip(colon as int + 1)));
        if value.len() == 0 {
            metadata
        } else if key == "title"@ {
            MetadataModel { title: or_else(metadata.title, Some(value)), ..metadata }
        } else if key == "author"@ {
            MetadataModel { author: or_else(metadata.author, Some(value)), ..metadata }
        } else if key == "language"@ || key == "lang"@ {
            MetadataModel { language: or_else(metadata.language, Some(value)), ..metadata }
        } else {
            metadata
        }
    }
}

pub open spec fn metadata_of_lines(all: Seq<Seq<char>>) -> MetadataModel
    decreases all.len(),
{
    if all.len() == 0 {
        no_metadata()
    } else {
        with_metadata_line(metadata_of_lines(all.drop_last()), all.last())
    }
}

/// What a metadata block says.
pub open spec fn front_matter(raw: Seq<char>) -> MetadataModel {
    metadata_of_lines(lines(raw))
}

pub open spec fn merged_metadata(metadata: MetadataModel, other: MetadataModel) -> MetadataModel {
    MetadataModel {
        title: or_else(metadata.title, other.title),
        author: or_else(metadata.author, other.author),
        language: or_else(metadata.language, other.language),
    }
}

/// A value without the quotes around it.
pub fn unquote_scalar(value: &[char]) -> (result: Vec<char>)
    ensures
        result@ == unquoted(value@),
{
    let length: usize = value.len();
    if length >= 2 && value[0] == value[length - 1] && (value[0] == '"' || value[0] == '\'') {
        let inner = copy_range(value, 1, length - 1);
        trim_chars(&inner)
    } else {
        let copy = copy_range(value, 0, length);
        assert(copy@ =~= value@);
        copy
    }
}

/// What a metadata block says.
pub fn parse_front_matter(raw: &[char]) -> (metadata: DocumentMetadata)
    ensures
        metadata@ == front_matter(raw@),
{
    let all_lines = lines_of(raw);
    let ghost all = texts(all_lines@);
    let mut metadata = DocumentMetadata::default();
    let mut i: usize = 0;
    while i < all_lines.len()
        invariant
            i <= all_lines.len(),
            all == texts(all_lines@),
            metadata@ == metadata_of_lines(all.take(i as int)),
        decreases all_lines.len() - i,
    {
        assert(all.take(i + 1).drop_last() =~= all.take(i as int));
        assert(all.take(i + 1).last() == all_lines@[i as int]@);
        let line = &all_lines[i];
        assert(line@.skip(0) =~= line@);
        let colon: usize = find_char(line, ':', 0);
        if colon < line.len() {
            let before = copy_range(line, 0, colon);
            let after = copy_range(line, colon + 1, line.len());
            assert(before@ =~= line@.take(colon as int));
            assert(after@ =~= line@.skip(colon + 1));
            let trimmed_key = trim_chars(&before);
            let key = lower_all(&trimmed_key);
            let trimmed_value = trim_chars(&after);
            let value = unquote_scalar(&trimmed_value);
            if value.len() > 0 {
                if is_text(&key, "title") {
                    if metadata.title.is_none() {
                        metadata.title = Some(string_of(&value));
                    }
                } else if is_text(&key, "author") {
                    if metadata.author.is_none() {
                        metadata.author = Some(string_of(&value));
                    }
                } else if is_text(&key, "language") || is_text(&key, "lang") {
                    if metadata.language.is_none() {
                        metadata.language = Some(string_of(&value));
                    }
                }
            }
        }
        i += 1;
    }
    assert(all.take(i as int) =~= all);
    metadata
}

fn merge_metadata(metadata: &mut DocumentMetadata, other: DocumentMetadata)
    ensures
        final(metadata)@ == merged_metadata(old(metadata)@, other@),
{
    let DocumentMetadata { title, author, language } = other;
    if metadata.title.is_none() {
        metadata.title = title;
    }
    if metadata.author.is_none() {
        metadata.author = author;
    }
    if metadata.language.is_none() {
        metadata.language = language;
    }
}

// ---------------------------------------------------------------------------------------
// Rendering, as a model
// ---------------------------------------------------------------------------------------

#[verifier::ext_equal]
pub struct HeadingModel {
    pub level: u8,
    pub start: int,
    pub label: Seq<char>,
}

/// What has been rendered, and what is open: the heading, the lists with the number of the
/// next item of each, the mark of an item that has no text yet, the number of quotations, a
/// code block and whether its line begins, the table, and the text of a metadata block.
#[verifier::ext_equal]
pub struct RenderModel {
    pub sink: Styled,
    pub toc: Seq<TocModel>,
    pub heading: Option<HeadingModel>,
    pub lists: Seq<Option<u64>>,
    pub mark: Option<Seq<char>>,
    pub quotes: nat,
    pub code: Option<bool>,
    pub table: Option<TableModel>,
    pub raw: Option<Seq<char>>,
    pub metadata: MetadataModel,
}

pub open spec fn nothing_rendered() -> RenderModel {
    RenderModel {
        sink: no_text(),
        toc: seq![],
        heading: None,
        lists: seq![],
        mark: None,
        quotes: 0,
        code: None,
        table: None,
        raw: None,
        metadata: no_metadata(),
    }
}

pub open spec fn quote_prefix(depth: nat) -> Seq<char> {
    repeated("│ "@, depth)
}

/// What stands at the start of a line.
pub open spec fn add_line_prefix(t: Styled, quotes: nat) -> Styled {
    if quotes > 0 {
        add_text(t, quote_prefix(quotes))
    } else {
        t
    }
}

/// The mark of an item stands before the first text of the item.
pub open spec fn flushed(r: RenderModel) -> RenderModel {
    match r.mark {
        Some(mark) => RenderModel {
            mark: None,
            sink: add_text(add_newlines(r.sink, 1), mark),
            ..r
        },
        None => r,
    }
}

pub open spec fn labelled(r: RenderModel, value: Seq<char>) -> RenderModel {
    match r.heading {
        Some(heading) => RenderModel {
            heading: Some(HeadingModel { label: heading.label + value, ..heading }),
            ..r
        },
        None => r,
    }
}

/// One character of a code block: lines are indented, and so are tabs.
pub open spec fn add_code_char(t: Styled, begins_line: bool, quotes: nat, c: char) -> Styled {
    let begun = if begins_line {
        add_text(add_line_prefix(t, quotes), "    "@)
    } else {
        t
    };
    if c == '\n' {
        add_newlines(begun, 1)
    } else if c == '\t' {
        add_text(begun, "    "@)
    } else {
        add_char(begun, c)
    }
}

/// The text of a code block, and whether a line begins after it.
pub open spec fn add_code(t: Styled, begins_line: bool, quotes: nat, value: Seq<char>) -> (
    Styled,
    bool,
)
    decreases value.len(),
{
    if value.len() == 0 {
        (t, begins_line)
    } else {
        let (before, begins_now) = add_code(t, begins_line, quotes, value.drop_last());
        (add_code_char(before, begins_now, quotes, value.last()), value.last() == '\n')
    }
}

/// HTML: a line break, or the text that it shows.
pub open spec fn with_html(r: RenderModel, html: Seq<char>, block: bool) -> RenderModel {
    if begins(ascii_lower_all(trimmed(html)), "<br"@) {
        RenderModel { sink: add_line_prefix(add_newlines(r.sink, 1), r.quotes), ..r }
    } else {
        with_visible(r, shown_text(html_fragment(html)), block)
    }
}

pub open spec fn with_visible(r: RenderModel, visible: Seq<char>, block: bool) -> RenderModel {
    if visible.len() == 0 {
        r
    } else {
        let named = labelled(r, visible);
        RenderModel {
            sink: if block {
                add_newlines(add_text(add_newlines(r.sink, 2), visible), 2)
            } else {
                add_text(r.sink, visible)
            },
            ..named
        }
    }
}

/// The marker of the next item of the innermost list.
pub open spec fn item_marker(lists: Seq<Option<u64>>) -> Seq<char> {
    if lists.len() == 0 {
        "- "@
    } else {
        match lists.last() {
            Some(next) => decimal(next as nat) + ". "@,
            None => "- "@,
        }
    }
}

/// The lists after an item of the innermost one.
pub open spec fn counted_lists(lists: Seq<Option<u64>>) -> Seq<Option<u64>> {
    if lists.len() == 0 {
        lists
    } else {
        match lists.last() {
            Some(next) => lists.drop_last().push(
                Some(
                    if next < u64::MAX {
                        (next + 1) as u64
                    } else {
                        next
                    },
                ),
            ),
            None => lists,
        }
    }
}

pub open spec fn item_started(r: RenderModel) -> RenderModel {
    let depth: nat = if r.lists.len() > 0 {
        (r.lists.len() - 1) as nat
    } else {
        0
    };
    RenderModel {
        sink: add_newlines(r.sink, 1),
        lists: counted_lists(r.lists),
        mark: Some(quote_prefix(r.quotes) + repeated("  "@, depth) + item_marker(r.lists)),
        ..r
    }
}

/// The start of a tag that has no more to it than its name.
pub open spec fn tag_started(r: RenderModel, kind: TagKind) -> RenderModel {
    let f = flushed(r);
    match kind {
        TagKind::Paragraph => if r.mark is Some {
            f
        } else {
            RenderModel { sink: add_line_prefix(add_newlines(r.sink, 2), r.quotes), ..r }
        },
        TagKind::BlockQuote => RenderModel {
            sink: open_style(add_newlines(f.sink, 2), TextStyleKind::Quote),
            quotes: f.quotes + 1,
            ..f
        },
        TagKind::CodeBlock => RenderModel {
            sink: open_style(add_newlines(f.sink, 2), TextStyleKind::Code),
            code: Some(true),
            ..f
        },
        TagKind::Item => item_started(r),
        TagKind::Metadata => RenderModel { raw: Some(seq![]), ..r },
        _ => match inline_style(kind) {
            Some(style) => RenderModel { sink: open_style(f.sink, style), ..f },
            None => r,
        },
    }
}

pub open spec fn heading_started(r: RenderModel, level: u8) -> RenderModel {
    let f = flushed(r);
    let sink = add_line_prefix(add_newlines(f.sink, 2), f.quotes);
    RenderModel {
        sink,
        heading: Some(HeadingModel { level, start: byte_len(sink.text) as int, label: seq![] }),
        ..f
    }
}

pub open spec fn list_started(r: RenderModel, first: Option<u64>) -> RenderModel {
    let f = flushed(r);
    RenderModel {
        sink: if f.lists.len() == 0 {
            add_newlines(f.sink, 2)
        } else {
            f.sink
        },
        lists: f.lists.push(first),
        ..f
    }
}

/// The end of a heading, which becomes an entry of the table of contents.
pub open spec fn heading_ended(r: RenderModel) -> RenderModel {
    match r.heading {
        None => r,
        Some(heading) => {
            let end = byte_len(r.sink.text) as int;
            let there = heading.start < end;
            let styled = if there {
                Styled {
                    styles: r.sink.styles.push(
                        StyleModel {
                            start: heading.start,
                            end,
                            kind: TextStyleKind::Heading(heading.level),
                        },
                    ),
                    ..r.sink
                }
            } else {
                r.sink
            };
            RenderModel {
                heading: None,
                sink: add_newlines(styled, 2),
                toc: if there && collapsed(heading.label).len() > 0 {
                    r.toc.push(
                        TocModel {
                            label: collapsed(heading.label),
                            offset: heading.start,
                            depth: if heading.level > 0 {
                                heading.level - 1
                            } else {
                                0
                            },
                        },
                    )
                } else {
                    r.toc
                },
                ..r
            }
        },
    }
}

pub open spec fn list_ended(r: RenderModel) -> RenderModel {
    let rest = if r.lists.len() > 0 {
        r.lists.drop_last()
    } else {
        r.lists
    };
    RenderModel {
        lists: rest,
        mark: None,
        sink: if rest.len() == 0 {
            add_newlines(r.sink, 2)
        } else {
            r.sink
        },
        ..r
    }
}

pub open spec fn tag_ended(r: RenderModel, kind: TagKind) -> RenderModel {
    match kind {
        TagKind::Paragraph => RenderModel {
            sink: add_newlines(
                r.sink,
                if r.lists.len() == 0 {
                    2
                } else {
                    1
                },
            ),
            ..r
        },
        TagKind::Heading => heading_ended(r),
        TagKind::BlockQuote => RenderModel {
            sink: add_newlines(close_style(r.sink, TextStyleKind::Quote), 2),
            quotes: if r.quotes > 0 {
                (r.quotes - 1) as nat
            } else {
                0
            },
            ..r
        },
        TagKind::CodeBlock => RenderModel {
            code: None,
            sink: add_newlines(close_style(r.sink, TextStyleKind::Code), 2),
            ..r
        },
        TagKind::List => list_ended(r),
        TagKind::Item => RenderModel { mark: None, sink: add_newlines(r.sink, 1), ..r },
        TagKind::Link => RenderModel { sink: close_link(r.sink), ..r },
        TagKind::Image => RenderModel { sink: close_image(r.sink), ..r },
        _ => match inline_style(kind) {
            Some(style) => RenderModel { sink: close_style(r.sink, style), ..r },
            None => r,
        },
    }
}

/// An event within a metadata block.
pub open spec fn metadata_step(r: RenderModel, raw: Seq<char>, event: EventModel) -> RenderModel {
    match event {
        EventModel::End(TagKind::Metadata) => RenderModel {
            raw: None,
            metadata: merged_metadata(r.metadata, front_matter(raw)),
            ..r
        },
        EventModel::Text(text) => RenderModel { raw: Some(raw + text), ..r },
        EventModel::Code(text) => RenderModel { raw: Some(raw + text), ..r },
        EventModel::SoftBreak => RenderModel { raw: Some(raw.push('\n')), ..r },
        EventModel::HardBreak => RenderModel { raw: Some(raw.push('\n')), ..r },
        _ => r,
    }
}

/// An event within a table.
pub open spec fn in_table_step(r: RenderModel, table: TableModel, event: EventModel) -> RenderModel {
    if event matches EventModel::End(TagKind::Table) {
        RenderModel {
            table: None,
            sink: add_newlines(add_table(add_newlines(r.sink, 2), table), 2),
            ..r
        }
    } else {
        RenderModel { table: Some(table_step(table, event)), ..r }
    }
}

/// An event outside tables and metadata blocks.
pub open spec fn text_step(r: RenderModel, event: EventModel) -> RenderModel {
    let f = flushed(r);
    match event {
        EventModel::Start(kind) => tag_started(r, kind),
        EventModel::Heading(level) => heading_started(r, level),
        EventModel::List(first) => list_started(r, first),
        EventModel::Link(destination) => RenderModel {
            sink: open_link(f.sink, destination),
            ..f
        },
        EventModel::Image(destination) => RenderModel {
            sink: open_image(f.sink, destination),
            ..f
        },
        EventModel::Table(columns) => RenderModel { table: Some(empty_table(columns)), ..f },
        EventModel::End(kind) => tag_ended(r, kind),
        EventModel::Text(text) => {
            let named = labelled(f, text);
            match f.code {
                Some(begins_line) => {
                    let (sink, begins_now) = add_code(
                        f.sink,
                        begins_line,
                        f.quotes,
                        with_line_feeds(text),
                    );
                    RenderModel { sink, code: Some(begins_now), ..named }
                },
                None => RenderModel { sink: add_text(f.sink, text), ..named },
            }
        },
        EventModel::Code(text) => RenderModel {
            sink: add_styled(f.sink, text, TextStyleKind::Code),
            ..labelled(f, text)
        },
        EventModel::Html(html) => with_html(r, html, true),
        EventModel::InlineHtml(html) => with_html(r, html, false),
        EventModel::SoftBreak => RenderModel { sink: add_space(f.sink), ..labelled(f, " "@) },
        EventModel::HardBreak => RenderModel {
            sink: add_line_prefix(add_newlines(f.sink, 1), f.quotes),
            ..labelled(f, " "@)
        },
        EventModel::Rule => RenderModel {
            sink: add_newlines(
                add_text(
                    add_line_prefix(add_newlines(r.sink, 2), r.quotes),
                    "────────────────────────"@,
                ),
                2,
            ),
            ..r
        },
        EventModel::TaskMarker(checked) => RenderModel {
            sink: add_text(f.sink, task_marker(checked)),
            ..f
        },
        EventModel::Other => r,
    }
}

/// What is rendered after an event.
pub open spec fn step(r: RenderModel, event: EventModel) -> RenderModel {
    match r.raw {
        Some(raw) => metadata_step(r, raw, event),
        None => match r.table {
            Some(table) => in_table_step(r, table, event),
            None => text_step(r, event),
        },
    }
}

/// What is rendered after the events of a document.
pub open spec fn steps(events: Seq<RawEventModel>) -> RenderModel
    decreases events.len(),
{
    if events.len() == 0 {
        nothing_rendered()
    } else {
        step(steps(events.drop_last()), understood(events.last()))
    }
}

/// A rendered document.
#[verifier::ext_equal]
pub struct MarkdownModel {
    pub text: Seq<char>,
    pub styles: Seq<StyleModel>,
    pub toc: Seq<TocModel>,
    pub metadata: MetadataModel,
    pub title: Seq<char>,
}

/// The title: that of the metadata, or the first heading, or the one that is handed in.
pub open spec fn chosen_title(r: RenderModel, fallback: Seq<char>) -> Seq<char> {
    match r.metadata.title {
        Some(title) => title,
        None => if r.toc.len() > 0 {
            r.toc[0].label
        } else {
            fallback
        },
    }
}

pub open spec fn finished_markdown(r: RenderModel, fallback: Seq<char>) -> MarkdownModel {
    let sink = closed_text(r.sink);
    let title = chosen_title(r, fallback);
    MarkdownModel {
        text: sink.text,
        styles: clipped_styles(sink.styles, byte_len(sink.text) as int),
        toc: entries_within(r.toc, byte_len(sink.text) as int),
        metadata: MetadataModel { title: Some(title), ..r.metadata },
        title,
    }
}

/// The document that the events of a parser describe.
pub open spec fn rendered_markdown(events: Seq<RawEventModel>, fallback: Seq<char>) -> MarkdownModel {
    finished_markdown(steps(events), fallback)
}

// ---------------------------------------------------------------------------------------
// Rendering
// ---------------------------------------------------------------------------------------

struct HeadingFrame {
    level: u8,
    start: u128,
    label: Vec<char>,
}

impl View for HeadingFrame {
    type V = HeadingModel;

    closed spec fn view(&self) -> HeadingModel {
        HeadingModel { level: self.level, start: self.start as int, label: self.label@ }
    }
}

spec fn opt_heading(heading: Option<HeadingFrame>) -> Option<HeadingModel> {
    match heading {
        Some(frame) => Some(frame@),
        None => None,
    }
}

spec fn opt_chars(value: Option<Vec<char>>) -> Option<Seq<char>> {
    match value {
        Some(characters) => Some(characters@),
        None => None,
    }
}

spec fn opt_table(table: Option<TableBuilder>) -> Option<TableModel> {
    match table {
        Some(builder) => Some(builder@),
        None => None,
    }
}

/// A renderer of the events of a document.
struct MarkdownRenderer {
    sink: StyledText,
    toc: Vec<PlacedEntry>,
    heading: Option<HeadingFrame>,
    lists: Vec<Option<u64>>,
    pending_item_prefix: Option<Vec<char>>,
    quote_depth: usize,
    code_block: Option<bool>,
    table: Option<TableBuilder>,
    metadata_block: Option<Vec<char>>,
    metadata: DocumentMetadata,
}

impl View for MarkdownRenderer {
    type V = RenderModel;

    closed spec fn view(&self) -> RenderModel {
        RenderModel {
            sink: self.sink@,
            toc: entry_views(self.toc@),
            heading: opt_heading(self.heading),
            lists: self.lists@,
            mark: opt_chars(self.pending_item_prefix),
            quotes: self.quote_depth as nat,
            code: self.code_block,
            table: opt_table(self.table),
            raw: opt_chars(self.metadata_block),
            metadata: self.metadata@,
        }
    }
}

fn quote_prefix_chars(depth: usize) -> (prefix: Vec<char>)
    ensures
        prefix@ == quote_prefix(depth as nat),
{
    let one = chars_of("│ ");
    repeat_chars(&one, depth)
}

/// Adds what stands at the start of a line.
fn push_line_prefix(sink: &mut StyledText, quotes: usize)
    ensures
        final(sink)@ == add_line_prefix(old(sink)@, quotes as nat),
{
    if quotes > 0 {
        let prefix = quote_prefix_chars(quotes);
        sink.push_text(&prefix);
    }
}

/// Adds the text of a code block.
fn push_code(sink: &mut StyledText, begins_line: bool, quotes: usize, value: &[char]) -> (begins_now:
    bool)
    ensures
        (final(sink)@, begins_now) == add_code(old(sink)@, begins_line, quotes as nat, value@),
{
    let mut at_line_start = begins_line;
    let mut i: usize = 0;
    while i < value.len()
        invariant
            i <= value.len(),
            (sink@, at_line_start) == add_code(
                old(sink)@,
                begins_line,
                quotes as nat,
                value@.take(i as int),
            ),
        decreases value.len() - i,
    {
        assert(value@.take(i + 1).drop_last() =~= value@.take(i as int));
        let c = value[i];
        if at_line_start {
            push_line_prefix(sink, quotes);
            sink.push_literal("    ");
        }
        if c == '\n' {
            sink.ensure_newlines(1);
        } else if c == '\t' {
            sink.push_literal("    ");
        } else {
            sink.push_char(c);
        }
        at_line_start = c == '\n';
        i += 1;
    }
    assert(value@.take(i as int) =~= value@);
    at_line_start
}

impl MarkdownRenderer {
    fn new() -> (renderer: Self)
        ensures
            renderer@ == nothing_rendered(),
    {
        let renderer = MarkdownRenderer {
            sink: StyledText::new(),
            toc: Vec::new(),
            heading: None,
            lists: Vec::new(),
            pending_item_prefix: None,
            quote_depth: 0,
            code_block: None,
            table: None,
            metadata_block: None,
            metadata: DocumentMetadata::default(),
        };
        assert(renderer@ =~= nothing_rendered());
        renderer
    }

    fn flush_item_prefix(&mut self)
        ensures
            final(self)@ == flushed(old(self)@),
    {
        match self.pending_item_prefix.take() {
            Some(prefix) => {
                self.pending_item_prefix = None;
                self.sink.ensure_newlines(1);
                self.sink.push_text(&prefix);
            },
            None => {
                self.pending_item_prefix = None;
            },
        }
    }

    fn push_heading_label(&mut self, value: &[char])
        ensures
            final(self)@ == labelled(old(self)@, value@),
    {
        match self.heading.take() {
            Some(mut heading) => {
                push_all(&mut heading.label, value);
                self.heading = Some(heading);
            },
            None => {
                self.heading = None;
            },
        }
    }

    fn push_html(&mut self, html: &str, block: bool)
        ensures
            final(self)@ == with_html(old(self)@, html@, block),
    {
        let characters = chars_of(html);
        let rest = trim_chars(&characters);
        let lower = lower_all(&rest);
        if begins_with_text(&lower, "<br") {
            self.sink.ensure_newlines(1);
            push_line_prefix(&mut self.sink, self.quote_depth);
            return;
        }
        let visible = visible_html_text(html);
        if visible.len() == 0 {
            return;
        }
        self.push_heading_label(&visible);
        if block {
            self.sink.ensure_newlines(2);
        }
        self.sink.push_text(&visible);
        if block {
            self.sink.ensure_newlines(2);
        }
    }

    fn start_item(&mut self)
        ensures
            final(self)@ == item_started(old(self)@),
    {
        self.sink.ensure_newlines(1);
        let count: usize = self.lists.len();
        let depth: usize = if count > 0 {
            count - 1
        } else {
            0
        };
        let mut prefix = quote_prefix_chars(self.quote_depth);
        let step = chars_of("  ");
        let indent = repeat_chars(&step, depth);
        push_all(&mut prefix, &indent);
        if count > 0 {
            match self.lists[count - 1] {
                Some(next) => {
                    let digits = decimal_chars(next as u128);
                    push_all(&mut prefix, &digits);
                    push_text(&mut prefix, ". ");
                    let ghost before = self.lists@;
                    self.lists.set(count - 1, Some(next.saturating_add(1)));
                    assert(self.lists@ =~= counted_lists(before));
                },
                None => {
                    push_text(&mut prefix, "- ");
                },
            }
        } else {
            push_text(&mut prefix, "- ");
        }
        assert(prefix@ =~= quote_prefix(old(self)@.quotes) + repeated("  "@, depth as nat)
            + item_marker(old(self)@.lists));
        self.pending_item_prefix = Some(prefix);
    }

    /// The start of a tag that has no more to it than its name.
    fn start(&mut self, kind: TagKind)
        requires
            old(self)@.quotes < usize::MAX,
        ensures
            final(self)@ == tag_started(old(self)@, kind),
            final(self)@.quotes <= old(self)@.quotes + 1,
    {
        match kind {
            TagKind::Paragraph => {
                if self.pending_item_prefix.is_some() {
                    self.flush_item_prefix();
                } else {
                    self.sink.ensure_newlines(2);
                    push_line_prefix(&mut self.sink, self.quote_depth);
                }
            },
            TagKind::BlockQuote => {
                self.flush_item_prefix();
                self.sink.ensure_newlines(2);
                self.quote_depth += 1;
                self.sink.start_style(TextStyleKind::Quote);
            },
            TagKind::CodeBlock => {
                self.flush_item_prefix();
                self.sink.ensure_newlines(2);
                self.sink.start_style(TextStyleKind::Code);
                self.code_block = Some(true);
            },
            TagKind::Item => self.start_item(),
            TagKind::Metadata => {
                let raw: Vec<char> = Vec::new();
                assert(raw@ =~= seq![]);
                self.metadata_block = Some(raw);
            },
            _ => {
                if let Some(style) = style_of_tag(kind) {
                    self.flush_item_prefix();
                    self.sink.start_style(style);
                }
            },
        }
    }

    fn start_heading(&mut self, level: u8)
        ensures
            final(self)@ == heading_started(old(self)@, level),
    {
        self.flush_item_prefix();
        self.sink.ensure_newlines(2);
        push_line_prefix(&mut self.sink, self.quote_depth);
        let label: Vec<char> = Vec::new();
        assert(label@ =~= seq![]);
        self.heading = Some(HeadingFrame { level, start: self.sink.text.bytes(), label });
    }

    fn start_list(&mut self, first: Option<u64>)
        ensures
            final(self)@ == list_started(old(self)@, first),
    {
        self.flush_item_prefix();
        if self.lists.len() == 0 {
            self.sink.ensure_newlines(2);
        }
        self.lists.push(first);
    }

    fn finish_heading(&mut self)
        ensures
            final(self)@ == heading_ended(old(self)@),
    {
        match self.heading.take() {
            None => {
                self.heading = None;
            },
            Some(heading) => {
                self.heading = None;
                let end: u128 = self.sink.text.bytes();
                if heading.start < end {
                    self.sink.push_style(
                        heading.start,
                        end,
                        TextStyleKind::Heading(heading.level),
                    );
                    let label = collapse_chars(&heading.label);
                    if label.len() > 0 {
                        let depth: u8 = if heading.level > 0 {
                            heading.level - 1
                        } else {
                            0
                        };
                        let ghost before = self.toc@;
                        let entry = PlacedEntry { label, offset: heading.start, depth };
                        let ghost model = entry@;
                        self.toc.push(entry);
                        assert(entry_views(self.toc@) =~= entry_views(before).push(model));
                    }
                }
                self.sink.ensure_newlines(2);
            },
        }
    }

    fn end(&mut self, kind: TagKind)
        ensures
            final(self)@ == tag_ended(old(self)@, kind),
    {
        match kind {
            TagKind::Paragraph => {
                if self.lists.len() == 0 {
                    self.sink.ensure_newlines(2);
                } else {
                    self.sink.ensure_newlines(1);
                }
            },
            TagKind::Heading => self.finish_heading(),
            TagKind::BlockQuote => {
                self.sink.end_style(TextStyleKind::Quote);
                if self.quote_depth > 0 {
                    self.quote_depth -= 1;
                }
                self.sink.ensure_newlines(2);
            },
            TagKind::CodeBlock => {
                self.code_block = None;
                self.sink.end_style(TextStyleKind::Code);
                self.sink.ensure_newlines(2);
            },
            TagKind::List => {
                let ghost before = self.lists@;
                let _ = self.lists.pop();
                assert(before.len() > 0 ==> self.lists@ =~= before.drop_last());
                self.pending_item_prefix = None;
                if self.lists.len() == 0 {
                    self.sink.ensure_newlines(2);
                }
            },
            TagKind::Item => {
                self.pending_item_prefix = None;
                self.sink.ensure_newlines(1);
            },
            TagKind::Link => self.sink.end_link(),
            TagKind::Image => self.sink.end_image(),
            _ => {
                if let Some(style) = style_of_tag(kind) {
                    self.sink.end_style(style);
                }
            },
        }
    }

    fn handle_metadata(&mut self, raw: Vec<char>, event: MarkdownEvent)
        ensures
            final(self)@ == metadata_step(
                (RenderModel { raw: Some(raw@), ..old(self)@ }),
                raw@,
                event@,
            ),
    {
        let mut raw = raw;
        match event {
            MarkdownEvent::End(TagKind::Metadata) => {
                let block = parse_front_matter(&raw);
                merge_metadata(&mut self.metadata, block);
                self.metadata_block = None;
            },
            MarkdownEvent::Text(text) | MarkdownEvent::Code(text) => {
                push_text(&mut raw, text.as_str());
                self.metadata_block = Some(raw);
            },
            MarkdownEvent::SoftBreak | MarkdownEvent::HardBreak => {
                raw.push('\n');
                self.metadata_block = Some(raw);
            },
            _ => {
                self.metadata_block = Some(raw);
            },
        }
    }

    fn handle_table(&mut self, table: TableBuilder, event: MarkdownEvent)
        ensures
            final(self)@ == in_table_step(
                (RenderModel { table: Some(table@), ..old(self)@ }),
                table@,
                event@,
            ),
    {
        let mut table = table;
        match event {
            MarkdownEvent::End(TagKind::Table) => {
                self.sink.ensure_newlines(2);
                table.render_into(&mut self.sink);
                self.sink.ensure_newlines(2);
                self.table = None;
            },
            _ => {
                table.handle(&event);
                self.table = Some(table);
            },
        }
    }

    fn push_event_text(&mut self, text: &str)
        ensures
            final(self)@ == text_step(old(self)@, EventModel::Text(text@)),
    {
        self.flush_item_prefix();
        let characters = chars_of(text);
        self.push_heading_label(&characters);
        match self.code_block {
            Some(begins_line) => {
                let feeds = feed_lines(&characters);
                let begins_now = push_code(&mut self.sink, begins_line, self.quote_depth, &feeds);
                self.code_block = Some(begins_now);
            },
            None => {
                self.sink.push_text(&characters);
            },
        }
    }

    fn handle_text(&mut self, event: MarkdownEvent)
        requires
            old(self)@.quotes < usize::MAX,
        ensures
            final(self)@ == text_step(old(self)@, event@),
            final(self)@.quotes <= old(self)@.quotes + 1,
    {
        match event {
            MarkdownEvent::Start(kind) => self.start(kind),
            MarkdownEvent::Heading(level) => self.start_heading(level),
            MarkdownEvent::List(first) => self.start_list(first),
            MarkdownEvent::Link(destination) => {
                self.flush_item_prefix();
                self.sink.start_link(destination.as_str());
            },
            MarkdownEvent::Image(destination) => {
                self.flush_item_prefix();
                self.sink.start_image(destination.as_str());
            },
            MarkdownEvent::Table(columns) => {
                self.flush_item_prefix();
                self.table = Some(TableBuilder::new(columns));
            },
            MarkdownEvent::End(kind) => self.end(kind),
            MarkdownEvent::Text(text) => self.push_event_text(text.as_str()),
            MarkdownEvent::Code(text) => {
                self.flush_item_prefix();
                let characters = chars_of(text.as_str());
                self.push_heading_label(&characters);
                self.sink.push_styled(&characters, TextStyleKind::Code);
            },
            MarkdownEvent::Html(html) => self.push_html(html.as_str(), true),
            MarkdownEvent::InlineHtml(html) => self.push_html(html.as_str(), false),
            MarkdownEvent::SoftBreak => {
                self.flush_item_prefix();
                let blank = chars_of(" ");
                self.push_heading_label(&blank);
                self.sink.push_space();
            },
            MarkdownEvent::HardBreak => {
                self.flush_item_prefix();
                let blank = chars_of(" ");
                self.push_heading_label(&blank);
                self.sink.ensure_newlines(1);
                push_line_prefix(&mut self.sink, self.quote_depth);
            },
            MarkdownEvent::Rule => {
                self.sink.ensure_newlines(2);
                push_line_prefix(&mut self.sink, self.quote_depth);
                self.sink.push_literal("────────────────────────");
                self.sink.ensure_newlines(2);
            },
            MarkdownEvent::TaskMarker(checked) => {
                self.flush_item_prefix();
                if checked {
                    self.sink.push_literal("[x] ");
                } else {
                    self.sink.push_literal("[ ] ");
                }
            },
            MarkdownEvent::Other => {},
        }
    }

    /// Handles an event.
    fn handle(&mut self, event: MarkdownEvent)
        requires
            old(self)@.quotes < usize::MAX,
        ensures
            final(self)@ == step(old(self)@, event@),
            final(self)@.quotes <= old(self)@.quotes + 1,
    {
        match self.metadata_block.take() {
            Some(raw) => {
                self.handle_metadata(raw, event);
                return;
            },
            None => {
                self.metadata_block = None;
            },
        }
        match self.table.take() {
            Some(table) => {
                self.handle_table(table, event);
                return;
            },
            None => {
                self.table = None;
            },
        }
        self.handle_text(event);
    }

    fn finish(self, fallback_title: &str) -> (rendered: RenderedMarkdown)
        ensures
            rendered@ == finished_markdown(self@, fallback_title@),
    {
        let MarkdownRenderer { mut sink, toc: placed, metadata: found, .. } = self;
        let DocumentMetadata { title: own_title, author, language } = found;
        sink.finish();
        let title: String = match own_title {
            Some(title) => title,
            None => if placed.len() > 0 {
                assert(entry_views(placed@)[0] == placed@[0]@);
                string_of(&placed[0].label)
            } else {
                fallback_title.to_owned()
            },
        };
        let text = string_of(sink.text.characters());
        let end: usize = byte_length(text.as_str());
        let styles = place_styles(&sink.styles, end);
        let toc = place_entries(&placed, end);
        let metadata = DocumentMetadata { title: Some(title.clone()), author, language };
        RenderedMarkdown { text, styles, toc, metadata, section_title: title }
    }
}

/// A rendered document.
pub struct RenderedMarkdown {
    pub text: String,
    pub styles: Vec<TextStyle>,
    pub toc: Vec<TocEntry>,
    pub metadata: DocumentMetadata,
    pub section_title: String,
}

impl View for RenderedMarkdown {
    type V = MarkdownModel;

    open spec fn view(&self) -> MarkdownModel {
        MarkdownModel {
            text: self.text@,
            styles: style_views(self.styles@),
            toc: toc_views(self.toc@),
            metadata: self.metadata@,
            title: self.section_title@,
        }
    }
}

/// Renders the document that the events of a parser describe.
pub fn render_events(events: Vec<RawEvent>, fallback_title: &str) -> (rendered: RenderedMarkdown)
    ensures
        rendered@ == rendered_markdown(raw_event_views(events@), fallback_title@),
{
    let ghost all = raw_event_views(events@);
    let mut renderer = MarkdownRenderer::new();
    let mut i: usize = 0;
    assert(all.take(0) =~= seq![]);
    while i < events.len()
        invariant
            i <= events.len(),
            all == raw_event_views(events@),
            renderer@ == steps(all.take(i as int)),
            renderer@.quotes <= i,
        decreases events.len() - i,
    {
        assert(all.take(i + 1).drop_last() =~= all.take(i as int));
        assert(all.take(i + 1).last() == events@[i as int]@);
        let event = understand(&events[i]);
        renderer.handle(event);
        i += 1;
    }
    assert(all.take(i as int) =~= all);
    renderer.finish(fallback_title)
}

/// Renders a Markdown document.
pub fn render_markdown(source: &str, fallback_title: &str) -> (rendered: RenderedMarkdown)
    ensures
        rendered@ == rendered_markdown(
            markdown_events(source@, MARKDOWN_OPTIONS),
            fallback_title@,
        ),
{
    let events = markdown_events_of(source, MARKDOWN_OPTIONS);
    render_events(events, fallback_title)
}

// ---------------------------------------------------------------------------------------
// Loading
// ---------------------------------------------------------------------------------------

/// How sure it is that a file is Markdown.
pub open spec fn markdown_score(source: SourceModel) -> u8 {
    if has_extension(source, "md"@) || has_extension(source, "markdown"@) {
        95
    } else {
        0
    }
}

/// How sure it is that a file is Markdown.
pub fn probe(source: &DocumentSource) -> (score: u8)
    ensures
        score == markdown_score(source@),
{
    if extension_is(source, "md") || extension_is(source, "markdown") {
        95
    } else {
        0
    }
}

/// The bytes begin with the byte order mark of UTF-8.
pub open spec fn has_mark(bytes: Seq<u8>) -> bool {
    bytes.len() >= 3 && bytes[0] == 0xef && bytes[1] == 0xbb && bytes[2] == 0xbf
}

/// The bytes after the byte order mark of UTF-8, if there is one.
pub open spec fn without_mark(bytes: Seq<u8>) -> Seq<u8> {
    if has_mark(bytes) {
        bytes.skip(3)
    } else {
        bytes
    }
}

/// The text of bytes that are UTF-8 after a byte order mark.
pub fn marked_text(bytes: &[u8]) -> (text: Option<String>)
    ensures
        match text {
            Some(decoded) => valid_utf8(without_mark(bytes@)) && decoded@ == decode_utf8(
                without_mark(bytes@),
            ),
            None => !valid_utf8(without_mark(bytes@)),
        },
{
    if bytes.len() >= 3 && bytes[0] == 0xef && bytes[1] == 0xbb && bytes[2] == 0xbf {
        let rest = vstd::slice::slice_subrange(bytes, 3, bytes.len());
        assert(rest@ =~= without_mark(bytes@));
        utf8_text(rest)
    } else {
        utf8_text(bytes)
    }
}

pub open spec fn markdown_document(rendered: MarkdownModel) -> DocumentModel {
    canonical(
        rendered.text,
        rendered.metadata,
        seq![
            SectionModel {
                title: rendered.title,
                start: 0,
                end: byte_len(rendered.text) as int,
            },
        ],
        rendered.toc,
        rendered.styles,
    )
}

/// What a rendered document is loaded as.
pub open spec fn markdown_result(rendered: MarkdownModel, limit: int) -> Loaded {
    if byte_len(rendered.text) > limit {
        Err(LoadFault::TextTooLarge { limit })
    } else {
        Ok((markdown_document(rendered), seq![]))
    }
}

/// What the bytes of a Markdown file are loaded as.
pub open spec fn markdown_loaded(source: SourceModel, bytes: Seq<u8>, limit: int) -> Loaded {
    let rest = without_mark(bytes);
    if !valid_utf8(rest) {
        Err(LoadFault::InvalidMarkdownEncoding)
    } else if byte_len(decode_utf8(rest)) > limit {
        Err(LoadFault::TextTooLarge { limit })
    } else {
        markdown_result(
            rendered_markdown(
                markdown_events(with_line_feeds(decode_utf8(rest)), MARKDOWN_OPTIONS),
                default_title(source),
            ),
            limit,
        )
    }
}

/// Makes a document of what was rendered.
pub fn finish_document(rendered: RenderedMarkdown, max_text_bytes: usize) -> (output: Result<
    AdapterOutput,
    LoadError,
>)
    ensures
        loaded_view(output) == markdown_result(rendered@, max_text_bytes as int),
{
    let end: usize = byte_length(rendered.text.as_str());
    if end > max_text_bytes {
        return Err(LoadError::TextTooLarge { limit: max_text_bytes });
    }
    let section = Section { title: rendered.section_title, range: Range { start: 0, end } };
    let ghost model = section@;
    let mut sections: Vec<Section> = Vec::new();
    sections.push(section);
    assert(section_views(sections@) =~= seq![model]);
    let document = CanonicalDocument::new(
        rendered.text,
        rendered.metadata,
        sections,
        rendered.toc,
        rendered.styles,
    );
    let warnings: Vec<LoadWarning> = Vec::new();
    assert(warning_views(warnings@) =~= seq![]);
    Ok(AdapterOutput { document, warnings })
}

/// Loads a Markdown file.
pub fn load(source: &DocumentSource, bytes: &[u8], max_text_bytes: usize) -> (output: Result<
    AdapterOutput,
    LoadError,
>)
    ensures
        loaded_view(output) == markdown_loaded(source@, bytes@, max_text_bytes as int),
{
    let text = match marked_text(bytes) {
        Some(text) => text,
        None => {
            return Err(LoadError::InvalidMarkdownEncoding);
        },
    };
    if byte_length(text.as_str()) > max_text_bytes {
        return Err(LoadError::TextTooLarge { limit: max_text_bytes });
    }
    let normalised = normalise_newlines(text.as_str());
    let title = source.default_title();
    let rendered = render_markdown(normalised.as_str(), title.as_str());
    finish_document(rendered, max_text_bytes)
}

} // verus!

//! The events of a Markdown document.
use pulldown_cmark::Event::{Code, Html, InlineHtml, Start, Text};
use pulldown_cmark::Tag::{Image, Link, List, Table};
use pulldown_cmark::{Options, Parser};
use vstd::prelude::*;

use self::RawEvent::{
    CodeShown, HtmlShown, ImageOpened, InlineHtmlShown, LinkOpened, ListOpened, Named, Opened,
    TableOpened, TextShown,
};
use crate::document::archive::until;
use crate::strings::{
    begins, begins_with_text, find_char, is_text, split, split_on, texts, trim_chars, trimmed,
};
use crate::text::{chars_of, copy_range, string_of};

verus! {

/// Tables, strikethrough, task lists and metadata blocks in YAML style.
pub const MARKDOWN_OPTIONS: u32 = 0x9a;

/// An event as the parser has it. A tag that is opened is given by its name, and so is an event
/// without a text of its own; the columns of a table are given as a list of their names.
pub enum RawEvent {
    Opened(String),
    ListOpened(Option<u64>),
    LinkOpened(String),
    ImageOpened(String),
    TableOpened(String),
    TextShown(String),
    CodeShown(String),
    HtmlShown(String),
    InlineHtmlShown(String),
    Named(String),
}

pub enum RawEventModel {
    Opened(Seq<char>),
    ListOpened(Option<u64>),
    LinkOpened(Seq<char>),
    ImageOpened(Seq<char>),
    TableOpened(Seq<char>),
    TextShown(Seq<char>),
    CodeShown(Seq<char>),
    HtmlShown(Seq<char>),
    InlineHtmlShown(Seq<char>),
    Named(Seq<char>),
}

impl View for RawEvent {
    type V = RawEventModel;

    open spec fn view(&self) -> RawEventModel {
        match self {
            RawEvent::Opened(name) => RawEventModel::Opened(name@),
            RawEvent::ListOpened(first) => RawEventModel::ListOpened(*first),
            RawEvent::LinkOpened(destination) => RawEventModel::LinkOpened(destination@),
            RawEvent::ImageOpened(destination) => RawEventModel::ImageOpened(destination@),
            RawEvent::TableOpened(columns) => RawEventModel::TableOpened(columns@),
            RawEvent::TextShown(text) => RawEventModel::TextShown(text@),
            RawEvent::CodeShown(text) => RawEventModel::CodeShown(text@),
            RawEvent::HtmlShown(text) => RawEventModel::HtmlShown(text@),
            RawEvent::InlineHtmlShown(text) => RawEventModel::InlineHtmlShown(text@),
            RawEvent::Named(name) => RawEventModel::Named(name@),
        }
    }
}

pub open spec fn raw_event_views(events: Seq<RawEvent>) -> Seq<RawEventModel> {
    Seq::new(events.len(), |i: int| events[i]@)
}

/// The events of a Markdown document, which is read with the given options.
pub uninterp spec fn markdown_events(source: Seq<char>, options: u32) -> Seq<RawEventModel>;

/// Collects the events of `pulldown_cmark::Parser::new_ext`. A tag that is opened is given by
/// the `Debug` name of what `Tag::to_end` has for it, the columns of a table by their `Debug`
/// list, and any other event without a text by its own `Debug` name.
#[verifier::external_body]
pub(crate) fn markdown_events_of(source: &str, options: u32) -> (events: Vec<RawEvent>)
    ensures
        raw_event_views(events@) == markdown_events(source@, options),
{
    Parser::new_ext(source, Options::from_bits_truncate(options)).map(|event| match event {
        Start(List(first)) => ListOpened(first),
        Start(Link { dest_url, .. }) => LinkOpened(dest_url.into()),
        Start(Image { dest_url, .. }) => ImageOpened(dest_url.into()),
        Start(Table(columns)) => TableOpened(format!("{columns:?}")),
        Start(tag) => Opened(format!("{:?}", tag.to_end())),
        Text(text) => TextShown(text.into()),
        Code(text) => CodeShown(text.into()),
        Html(text) => HtmlShown(text.into()),
        InlineHtml(text) => InlineHtmlShown(text.into()),
        other => Named(format!("{other:?}")),
    }).collect()
}

/// What a tag is.
#[derive(Clone, Copy, Debug, PartialEq, Eq, Structural)]
pub enum TagKind {
    Paragraph,
    Heading,
    BlockQuote,
    CodeBlock,
    List,
    Item,
    Emphasis,
    Strong,
    Strikethrough,
    Link,
    Image,
    Table,
    TableHead,
    TableRow,
    TableCell,
    Metadata,
    Other,
}

/// How the text of a column is placed.
#[derive(Clone, Copy, Debug, PartialEq, Eq, Structural)]
pub enum ColumnAlign {
    Unset,
    Left,
    Center,
    Right,
}

/// What a tag of the given name is; what follows a bracket in the name does not matter.
pub open spec fn tag_kind(name: Seq<char>) -> TagKind {
    let base = until(name, '(');
    if base == "Paragraph"@ {
        TagKind::Paragraph
    } else if base == "Heading"@ {
        TagKind::Heading
    } else if base == "BlockQuote"@ {
        TagKind::BlockQuote
    } else if base == "CodeBlock"@ {
        TagKind::CodeBlock
    } else if base == "List"@ {
        TagKind::List
    } else if base == "Item"@ {
        TagKind::Item
    } else if base == "Emphasis"@ {
        TagKind::Emphasis
    } else if base == "Strong"@ {
        TagKind::Strong
    } else if base == "Strikethrough"@ {
        TagKind::Strikethrough
    } else if base == "Link"@ {
        TagKind::Link
    } else if base == "Image"@ {
        TagKind::Image
    } else if base == "Table"@ {
        TagKind::Table
    } else if base == "TableHead"@ {
        TagKind::TableHead
    } else if base == "TableRow"@ {
        TagKind::TableRow
    } else if base == "TableCell"@ {
        TagKind::TableCell
    } else if base == "MetadataBlock"@ {
        TagKind::Metadata
    } else {
        TagKind::Other
    }
}

/// What a tag of the given name is.
pub fn kind_of_tag(name: &str) -> (kind: TagKind)
    ensures
        kind == tag_kind(name@),
{
    let characters = chars_of(name);
    assert(characters@.skip(0) =~= characters@);
    let end: usize = find_char(&characters, '(', 0);
    let base = copy_range(&characters, 0, end);
    assert(base@ =~= until(name@, '('));
    if is_text(&base, "Paragraph") {
        TagKind::Paragraph
    } else if is_text(&base, "Heading") {
        TagKind::Heading
    } else if is_text(&base, "BlockQuote") {
        TagKind::BlockQuote
    } else if is_text(&base, "CodeBlock") {
        TagKind::CodeBlock
    } else if is_text(&base, "List") {
        TagKind::List
    } else if is_text(&base, "Item") {
        TagKind::Item
    } else if is_text(&base, "Emphasis") {
        TagKind::Emphasis
    } else if is_text(&base, "Strong") {
        TagKind::Strong
    } else if is_text(&base, "Strikethrough") {
        TagKind::Strikethrough
    } else if is_text(&base, "Link") {
        TagKind::Link
    } else if is_text(&base, "Image") {
        TagKind::Image
    } else if is_text(&base, "Table") {
        TagKind::Table
    } else if is_text(&base, "TableHead") {
        TagKind::TableHead
    } else if is_text(&base, "TableRow") {
        TagKind::TableRow
    } else if is_text(&base, "TableCell") {
        TagKind::TableCell
    } else if is_text(&base, "MetadataBlock") {
        TagKind::Metadata
    } else {
        TagKind::Other
    }
}

/// How the text of a column of the given name is placed.
pub open spec fn column_align(name: Seq<char>) -> ColumnAlign {
    if name == "Left"@ {
        ColumnAlign::Left
    } else if name == "Center"@ {
        ColumnAlign::Center
    } else if name == "Right"@ {
        ColumnAlign::Right
    } else {
        ColumnAlign::Unset
    }
}

fn align_of_column(name: &str) -> (align: ColumnAlign)
    ensures
        align == column_align(name@),
{
    let characters = chars_of(name);
    if is_text(&characters, "Left") {
        ColumnAlign::Left
    } else if is_text(&characters, "Center") {
        ColumnAlign::Center
    } else if is_text(&characters, "Right") {
        ColumnAlign::Right
    } else {
        ColumnAlign::Unset
    }
}

/// How the columns of a list of names are placed.
pub open spec fn column_aligns(list: Seq<char>) -> Seq<ColumnAlign> {
    if list.len() <= 2 {
        Seq::empty()
    } else {
        let names = split(list.subrange(1, list.len() - 1), ',');
        Seq::new(names.len(), |i: int| column_align(trimmed(names[i])))
    }
}

fn align_columns(list: &str) -> (aligns: Vec<ColumnAlign>)
    ensures
        aligns@ == column_aligns(list@),
{
    let characters = chars_of(list);
    let mut aligns: Vec<ColumnAlign> = Vec::new();
    if characters.len() <= 2 {
        assert(aligns@ =~= column_aligns(list@));
        return aligns;
    }
    let inner = copy_range(&characters, 1, characters.len() - 1);
    let names = split_on(&inner, ',');
    let ghost all = column_aligns(list@);
    let mut i: usize = 0;
    while i < names.len()
        invariant
            i <= names@.len(),
            list@.len() > 2,
            all == column_aligns(list@),
            texts(names@) == split(list@.subrange(1, list@.len() - 1), ','),
            aligns@.len() == i,
            forall|j: int| 0 <= j < i ==> #[trigger] aligns@[j] == all[j],
        decreases names.len() - i,
    {
        let name = string_of(&trim_chars(&names[i]));
        assert(texts(names@)[i as int] == names@[i as int]@);
        let align = align_of_column(name.as_str());
        assert(align == all[i as int]);
        aligns.push(align);
        i += 1;
    }
    assert(aligns@ =~= all);
    aligns
}

/// The level of a heading whose tag has the given name.
pub open spec fn heading_level(name: Seq<char>) -> u8 {
    if begins(name, "Heading(H2"@) {
        2
    } else if begins(name, "Heading(H3"@) {
        3
    } else if begins(name, "Heading(H4"@) {
        4
    } else if begins(name, "Heading(H5"@) {
        5
    } else if begins(name, "Heading(H6"@) {
        6
    } else {
        1
    }
}

fn level_of_heading(name: &str) -> (level: u8)
    ensures
        level == heading_level(name@),
{
    let characters = chars_of(name);
    if begins_with_text(&characters, "Heading(H2") {
        2
    } else if begins_with_text(&characters, "Heading(H3") {
        3
    } else if begins_with_text(&characters, "Heading(H4") {
        4
    } else if begins_with_text(&characters, "Heading(H5") {
        5
    } else if begins_with_text(&characters, "Heading(H6") {
        6
    } else {
        1
    }
}

/// An event of a Markdown document.
pub enum MarkdownEvent {
    Start(TagKind),
    Heading(u8),
    List(Option<u64>),
    Link(String),
    Image(String),
    Table(Vec<ColumnAlign>),
    End(TagKind),
    Text(String),
    Code(String),
    Html(String),
    InlineHtml(String),
    SoftBreak,
    HardBreak,
    Rule,
    TaskMarker(bool),
    Other,
}

/// An event, as a value of the mathematical model.
pub enum EventModel {
    Start(TagKind),
    Heading(u8),
    List(Option<u64>),
    Link(Seq<char>),
    Image(Seq<char>),
    Table(Seq<ColumnAlign>),
    End(TagKind),
    Text(Seq<char>),
    Code(Seq<char>),
    Html(Seq<char>),
    InlineHtml(Seq<char>),
    SoftBreak,
    HardBreak,
    Rule,
    TaskMarker(bool),
    Other,
}

impl View for MarkdownEvent {
    type V = EventModel;

    open spec fn view(&self) -> EventModel {
        match self {
            MarkdownEvent::Start(kind) => EventModel::Start(*kind),
            MarkdownEvent::Heading(level) => EventModel::Heading(*level),
            MarkdownEvent::List(first) => EventModel::List(*first),
            MarkdownEvent::Link(destination) => EventModel::Link(destination@),
            MarkdownEvent::Image(destination) => EventModel::Image(destination@),
            MarkdownEvent::Table(columns) => EventModel::Table(columns@),
            MarkdownEvent::End(kind) => EventModel::End(*kind),
            MarkdownEvent::Text(text) => EventModel::Text(text@),
            MarkdownEvent::Code(text) => EventModel::Code(text@),
            MarkdownEvent::Html(text) => EventModel::Html(text@),
            MarkdownEvent::InlineHtml(text) => EventModel::InlineHtml(text@),
            MarkdownEvent::SoftBreak => EventModel::SoftBreak,
            MarkdownEvent::HardBreak => EventModel::HardBreak,
            MarkdownEvent::Rule => EventModel::Rule,
            MarkdownEvent::TaskMarker(checked) => EventModel::TaskMarker(*checked),
            MarkdownEvent::Other => EventModel::Other,
        }
    }
}

/// What an event without a text means, by its name.
pub open spec fn named_event(name: Seq<char>) -> EventModel {
    if begins(name, "End("@) && name.len() > 4 {
        EventModel::End(tag_kind(name.subrange(4, name.len() - 1)))
    } else if name == "SoftBreak"@ {
        EventModel::SoftBreak
    } else if name == "HardBreak"@ {
        EventModel::HardBreak
    } else if name == "Rule"@ {
        EventModel::Rule
    } else if name == "TaskListMarker(true)"@ {
        EventModel::TaskMarker(true)
    } else if name == "TaskListMarker(false)"@ {
        EventModel::TaskMarker(false)
    } else {
        EventModel::Other
    }
}

/// What an event of the parser means.
pub open spec fn understood(event: RawEventModel) -> EventModel {
    match event {
        RawEventModel::Opened(name) => if tag_kind(name) == TagKind::Heading {
            EventModel::Heading(heading_level(name))
        } else {
            EventModel::Start(tag_kind(name))
        },
        RawEventModel::ListOpened(first) => EventModel::List(first),
        RawEventModel::LinkOpened(destination) => EventModel::Link(destination),
        RawEventModel::ImageOpened(destination) => EventModel::Image(destination),
        RawEventModel::TableOpened(columns) => EventModel::Table(column_aligns(columns)),
        RawEventModel::TextShown(text) => EventModel::Text(text),
        RawEventModel::CodeShown(text) => EventModel::Code(text),
        RawEventModel::HtmlShown(text) => EventModel::Html(text),
        RawEventModel::InlineHtmlShown(text) => EventModel::InlineHtml(text),
        RawEventModel::Named(name) => named_event(name),
    }
}

/// What an event of the parser means.
pub fn understand(event: &RawEvent) -> (meaning: MarkdownEvent)
    ensures
        meaning@ == understood(event@),
{
    match event {
        RawEvent::Opened(name) => {
            let kind = kind_of_tag(name.as_str());
            if kind == TagKind::Heading {
                MarkdownEvent::Heading(level_of_heading(name.as_str()))
            } else {
                MarkdownEvent::Start(kind)
            }
        },
        RawEvent::ListOpened(first) => MarkdownEvent::List(*first),
        RawEvent::LinkOpened(destination) => MarkdownEvent::Link(destination.clone()),
        RawEvent::ImageOpened(destination) => MarkdownEvent::Image(destination.clone()),
        RawEvent::TableOpened(columns) => MarkdownEvent::Table(align_columns(columns.as_str())),
        RawEvent::TextShown(text) => MarkdownEvent::Text(text.clone()),
        RawEvent::CodeShown(text) => MarkdownEvent::Code(text.clone()),
        RawEvent::HtmlShown(text) => MarkdownEvent::Html(text.clone()),
        RawEvent::InlineHtmlShown(text) => MarkdownEvent::InlineHtml(text.clone()),
        RawEvent::Named(name) => understand_name(name.as_str()),
    }
}

fn understand_name(name: &str) -> (meaning: MarkdownEvent)
    ensures
        meaning@ == named_event(name@),
{
    let characters = chars_of(name);
    if begins_with_text(&characters, "End(") && characters.len() > 4 {
        let tag = copy_range(&characters, 4, characters.len() - 1);
        let tag = string_of(&tag);
        MarkdownEvent::End(kind_of_tag(tag.as_str()))
    } else if is_text(&characters, "SoftBreak") {
        MarkdownEvent::SoftBreak
    } else if is_text(&characters, "HardBreak") {
        MarkdownEvent::HardBreak
    } else if is_text(&characters, "Rule") {
        MarkdownEvent::Rule
    } else if is_text(&characters, "TaskListMarker(true)") {
        MarkdownEvent::TaskMarker(true)
    } else if is_text(&characters, "TaskListMarker(false)") {
        MarkdownEvent::TaskMarker(false)
    } else {
        MarkdownEvent::Other
    }
}

} // verus!

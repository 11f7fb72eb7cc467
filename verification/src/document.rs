//! Books of every format in one form: text with a table of contents and styles.
use std::ops::Range;

use vstd::prelude::*;

use self::chapter::toc_views;
use self::toc::{
    compatible, label_is_landmark, label_is_visible_at, labels_compatible, landmark, visible_at,
};
use crate::loose_match::span;
use crate::strings::{push_number, push_text, trim_chars, trimmed, decimal};
use crate::text::{at_boundary, byte_len, byte_length, chars_of, is_boundary, string_of};

pub mod archive;
pub mod assembly;
pub mod chapter;
pub mod epub;
pub mod events;
pub mod file_laws;
pub mod heading_laws;
pub mod html_text;
pub mod load;
pub mod markdown;
pub mod markdown_block_laws;
pub mod markdown_laws;
pub mod markup;
pub mod navigation;
pub mod navigation_laws;
pub mod package;
pub mod package_laws;
pub mod sections;
pub mod styled_text;
pub mod table;
pub mod table_laws;
pub mod toc;
pub mod txt;
pub mod xhtml;
pub mod xhtml_laws;

pub use self::load::{load_document, LoadedDocument};

verus! {

/// What an optional string holds.
pub open spec fn opt_text(value: Option<String>) -> Option<Seq<char>> {
    match value {
        Some(text) => Some(text@),
        None => None,
    }
}

/// What an optional string slice holds.
pub open spec fn opt_str(value: Option<&str>) -> Option<Seq<char>> {
    match value {
        Some(text) => Some(text@),
        None => None,
    }
}

/// An optional string as an optional slice.
pub fn as_str(value: &Option<String>) -> (slice: Option<&str>)
    ensures
        opt_str(slice) == opt_text(*value),
{
    match value {
        Some(text) => Some(text.as_str()),
        None => None,
    }
}

/// A copy of an optional string.
pub fn copy_opt(value: &Option<String>) -> (copy: Option<String>)
    ensures
        opt_text(copy) == opt_text(*value),
{
    match value {
        Some(text) => Some(text.clone()),
        None => None,
    }
}

/// Where a document is read from: its path, and what the format and the title are read off.
#[derive(Debug, PartialEq, Eq)]
pub struct DocumentSource {
    path: String,
    extension: Option<String>,
    stem: Option<String>,
}

/// A document source, as a value of the mathematical model.
#[verifier::ext_equal]
pub struct SourceModel {
    pub path: Seq<char>,
    pub extension: Option<Seq<char>>,
    pub stem: Option<Seq<char>>,
}

impl View for DocumentSource {
    type V = SourceModel;

    closed spec fn view(&self) -> SourceModel {
        SourceModel {
            path: self.path@,
            extension: opt_text(self.extension),
            stem: opt_text(self.stem),
        }
    }
}

impl DocumentSource {
    /// A path with its extension and its file name without the extension, as the platform
    /// finds them.
    pub fn from_path(path: String, extension: Option<String>, stem: Option<String>) -> (source:
        Self)
        ensures
            source@ == (SourceModel {
                path: path@,
                extension: opt_text(extension),
                stem: opt_text(stem),
            }),
    {
        DocumentSource { path, extension, stem }
    }

    pub fn path(&self) -> (path: &str)
        ensures
            path@ == self@.path,
    {
        self.path.as_str()
    }

    pub fn extension(&self) -> (extension: Option<&str>)
        ensures
            opt_str(extension) == self@.extension,
    {
        as_str(&self.extension)
    }

    /// The title of a document that does not say its own.
    pub fn default_title(&self) -> (title: String)
        ensures
            title@ == default_title(self@),
    {
        match &self.stem {
            Some(stem) => stem.clone(),
            None => "Untitled".to_owned(),
        }
    }
}

pub open spec fn default_title(source: SourceModel) -> Seq<char> {
    match source.stem {
        Some(stem) => stem,
        None => "Untitled"@,
    }
}

/// How large a document may be.
#[derive(Clone, Copy, Debug)]
pub struct LoadOptions {
    pub max_input_bytes: usize,
    pub max_text_bytes: usize,
}

impl Default for LoadOptions {
    fn default() -> (options: Self)
        ensures
            options.max_input_bytes == 512 * 1024 * 1024,
            options.max_text_bytes == 100 * 1024 * 1024,
    {
        // Large covers are common; only decoded text has the product guarantee.
        LoadOptions { max_input_bytes: 512 * 1024 * 1024, max_text_bytes: 100 * 1024 * 1024 }
    }
}

#[derive(Clone, Copy, Debug, PartialEq, Eq, Structural)]
pub enum DocumentFormat {
    Epub,
    Markdown,
    Txt,
}

pub open spec fn format_name(format: DocumentFormat) -> Seq<char> {
    match format {
        DocumentFormat::Epub => "EPUB"@,
        DocumentFormat::Markdown => "MD"@,
        DocumentFormat::Txt => "TXT"@,
    }
}

impl DocumentFormat {
    /// The name that is shown.
    pub fn name(&self) -> (name: &'static str)
        ensures
            name@ == format_name(*self),
    {
        match self {
            DocumentFormat::Epub => "EPUB",
            DocumentFormat::Markdown => "MD",
            DocumentFormat::Txt => "TXT",
        }
    }
}

#[derive(Debug)]
pub struct DocumentMetadata {
    pub title: Option<String>,
    pub author: Option<String>,
    pub language: Option<String>,
}

/// The metadata of a document, as a value of the mathematical model.
#[verifier::ext_equal]
pub struct MetadataModel {
    pub title: Option<Seq<char>>,
    pub author: Option<Seq<char>>,
    pub language: Option<Seq<char>>,
}

impl View for DocumentMetadata {
    type V = MetadataModel;

    open spec fn view(&self) -> MetadataModel {
        MetadataModel {
            title: opt_text(self.title),
            author: opt_text(self.author),
            language: opt_text(self.language),
        }
    }
}

/// The metadata of a document of which only the title is known.
pub open spec fn titled(title: Seq<char>) -> MetadataModel {
    MetadataModel { title: Some(title), author: None, language: None }
}

impl Default for DocumentMetadata {
    fn default() -> (metadata: Self)
        ensures
            metadata@ == (MetadataModel { title: None, author: None, language: None }),
    {
        DocumentMetadata { title: None, author: None, language: None }
    }
}

impl Clone for DocumentMetadata {
    fn clone(&self) -> (copy: Self)
        ensures
            copy@ == self@,
    {
        DocumentMetadata {
            title: copy_opt(&self.title),
            author: copy_opt(&self.author),
            language: copy_opt(&self.language),
        }
    }
}

impl DocumentMetadata {
    pub fn title(&self) -> (title: Option<&str>)
        ensures
            opt_str(title) == self@.title,
    {
        as_str(&self.title)
    }

    pub fn author(&self) -> (author: Option<&str>)
        ensures
            opt_str(author) == self@.author,
    {
        as_str(&self.author)
    }

    pub fn language(&self) -> (language: Option<&str>)
        ensures
            opt_str(language) == self@.language,
    {
        as_str(&self.language)
    }
}

/// A part of a document that was a file, or the whole of it.
#[derive(Debug, PartialEq, Eq)]
pub struct Section {
    pub title: String,
    pub range: Range<usize>,
}

#[verifier::ext_equal]
pub struct SectionModel {
    pub title: Seq<char>,
    pub start: int,
    pub end: int,
}

impl View for Section {
    type V = SectionModel;

    open spec fn view(&self) -> SectionModel {
        SectionModel {
            title: self.title@,
            start: self.range.start as int,
            end: self.range.end as int,
        }
    }
}

impl Section {
    pub fn title(&self) -> (title: &str)
        ensures
            title@ == self@.title,
    {
        self.title.as_str()
    }

    pub fn range(&self) -> (range: Range<usize>)
        ensures
            span(range) == (self@.start, self@.end),
    {
        Range { start: self.range.start, end: self.range.end }
    }
}

impl Clone for Section {
    fn clone(&self) -> (copy: Self)
        ensures
            copy@ == self@,
    {
        Section { title: self.title.clone(), range: self.range() }
    }
}

pub open spec fn section_views(sections: Seq<Section>) -> Seq<SectionModel> {
    Seq::new(sections.len(), |i: int| sections[i]@)
}

/// An entry of a table of contents.
#[derive(Debug, PartialEq, Eq)]
pub struct TocEntry {
    pub label: String,
    pub offset: usize,
    pub depth: u8,
}

/// An entry of a table of contents, as a value of the mathematical model.
#[verifier::ext_equal]
pub struct TocModel {
    pub label: Seq<char>,
    pub offset: int,
    pub depth: int,
}

impl View for TocEntry {
    type V = TocModel;

    open spec fn view(&self) -> TocModel {
        TocModel { label: self.label@, offset: self.offset as int, depth: self.depth as int }
    }
}

impl TocEntry {
    pub fn label(&self) -> (label: &str)
        ensures
            label@ == self@.label,
    {
        self.label.as_str()
    }

    pub fn offset(&self) -> (offset: usize)
        ensures
            offset == self@.offset,
    {
        self.offset
    }

    pub fn depth(&self) -> (depth: u8)
        ensures
            depth == self@.depth,
    {
        self.depth
    }
}

impl Clone for TocEntry {
    fn clone(&self) -> (copy: Self)
        ensures
            copy@ == self@,
    {
        TocEntry { label: self.label.clone(), offset: self.offset, depth: self.depth }
    }
}

#[derive(Clone, Copy, Debug, PartialEq, Eq, Structural)]
pub enum TextStyleKind {
    Code,
    Emphasis,
    Link,
    Quote,
    Strikethrough,
    Strong,
    Heading(u8),
}

/// A range of bytes of the text that is shown in a style.
#[derive(Debug, PartialEq, Eq)]
pub struct TextStyle {
    pub range: Range<usize>,
    pub kind: TextStyleKind,
}

#[verifier::ext_equal]
pub struct StyleModel {
    pub start: int,
    pub end: int,
    pub kind: TextStyleKind,
}

impl View for TextStyle {
    type V = StyleModel;

    open spec fn view(&self) -> StyleModel {
        StyleModel {
            start: self.range.start as int,
            end: self.range.end as int,
            kind: self.kind,
        }
    }
}

impl TextStyle {
    pub fn range(&self) -> (range: Range<usize>)
        ensures
            span(range) == (self@.start, self@.end),
    {
        Range { start: self.range.start, end: self.range.end }
    }

    pub fn kind(&self) -> (kind: TextStyleKind)
        ensures
            kind == self@.kind,
    {
        self.kind
    }
}

impl Clone for TextStyle {
    fn clone(&self) -> (copy: Self)
        ensures
            copy@ == self@,
    {
        TextStyle { range: self.range(), kind: self.kind }
    }
}

pub open spec fn style_views(styles: Seq<TextStyle>) -> Seq<StyleModel> {
    Seq::new(styles.len(), |i: int| styles[i]@)
}

// ---------------------------------------------------------------------------------------
// The table of contents and the styles of a document
// ---------------------------------------------------------------------------------------

/// An entry that leads to a place of the text at which its label can be read, or to a part of
/// the book that has no heading.
pub open spec fn usable_entry(s: Seq<char>, entry: TocModel) -> bool {
    &&& entry.offset < byte_len(s)
    &&& is_boundary(s, entry.offset)
    &&& trimmed(entry.label).len() > 0
    &&& landmark(entry.label) || visible_at(s, entry.label, entry.offset)
}

/// The usable ones of `entries`.
pub open spec fn usable_entries(s: Seq<char>, entries: Seq<TocModel>) -> Seq<TocModel>
    decreases entries.len(),
{
    if entries.len() == 0 {
        seq![]
    } else if usable_entry(s, entries.last()) {
        usable_entries(s, entries.drop_last()).push(entries.last())
    } else {
        usable_entries(s, entries.drop_last())
    }
}

/// Sorted entries with one more, which goes after those with the same offset.
pub open spec fn with_entry(sorted: Seq<TocModel>, entry: TocModel) -> Seq<TocModel>
    decreases sorted.len(),
{
    if sorted.len() == 0 || sorted.last().offset <= entry.offset {
        sorted.push(entry)
    } else {
        with_entry(sorted.drop_last(), entry).push(sorted.last())
    }
}

/// The entries in the order of their offsets; those with the same offset stay in their order.
pub open spec fn sorted_entries(entries: Seq<TocModel>) -> Seq<TocModel>
    decreases entries.len(),
{
    if entries.len() == 0 {
        seq![]
    } else {
        with_entry(sorted_entries(entries.drop_last()), entries.last())
    }
}

/// An entry at the place and the depth of the one before it stays where their labels may
/// belong to the same heading.
pub open spec fn kept_after(previous: TocModel, entry: TocModel) -> bool {
    previous.offset != entry.offset || previous.depth != entry.depth || compatible(
        previous.label,
        entry.label,
    )
}

/// The entries without those that contradict the one before them.
pub open spec fn merged_entries(entries: Seq<TocModel>) -> Seq<TocModel>
    decreases entries.len(),
{
    if entries.len() == 0 {
        seq![]
    } else {
        let before = merged_entries(entries.drop_last());
        if before.len() == 0 || kept_after(before.last(), entries.last()) {
            before.push(entries.last())
        } else {
            before
        }
    }
}

/// The table of contents that a document has of the given entries.
pub open spec fn cleaned_toc(s: Seq<char>, entries: Seq<TocModel>) -> Seq<TocModel> {
    merged_entries(sorted_entries(usable_entries(s, entries)))
}

/// A style whose range lies in the text between two characters.
pub open spec fn usable_style(s: Seq<char>, style: StyleModel) -> bool {
    &&& style.start <= style.end <= byte_len(s)
    &&& is_boundary(s, style.start)
    &&& is_boundary(s, style.end)
}

pub open spec fn usable_styles(s: Seq<char>, styles: Seq<StyleModel>) -> Seq<StyleModel>
    decreases styles.len(),
{
    if styles.len() == 0 {
        seq![]
    } else if usable_style(s, styles.last()) {
        usable_styles(s, styles.drop_last()).push(styles.last())
    } else {
        usable_styles(s, styles.drop_last())
    }
}

fn entry_is_usable(text: &str, entry: &TocEntry) -> (usable: bool)
    ensures
        usable == usable_entry(text@, entry@),
{
    let length: usize = byte_length(text);
    if entry.offset >= length || !at_boundary(text, entry.offset) {
        return false;
    }
    let label = chars_of(entry.label.as_str());
    if trim_chars(&label).len() == 0 {
        return false;
    }
    label_is_landmark(entry.label.as_str()) || label_is_visible_at(
        text,
        entry.label.as_str(),
        entry.offset,
    )
}

fn keep_usable(text: &str, entries: &[TocEntry]) -> (kept: Vec<TocEntry>)
    ensures
        toc_views(kept@) == usable_entries(text@, toc_views(entries@)),
{
    let ghost all = toc_views(entries@);
    let mut kept: Vec<TocEntry> = Vec::new();
    let mut i: usize = 0;
    assert(toc_views(kept@) =~= seq![]);
    while i < entries.len()
        invariant
            i <= entries.len(),
            all == toc_views(entries@),
            toc_views(kept@) == usable_entries(text@, all.take(i as int)),
        decreases entries.len() - i,
    {
        assert(all.take(i + 1).drop_last() =~= all.take(i as int));
        assert(all.take(i + 1).last() == entries@[i as int]@);
        if entry_is_usable(text, &entries[i]) {
            let ghost before = kept@;
            kept.push(entries[i].clone());
            assert(toc_views(kept@) =~= toc_views(before).push(all[i as int]));
        }
        i += 1;
    }
    assert(all.take(all.len() as int) =~= all);
    kept
}

proof fn lemma_with_entry(sorted: Seq<TocModel>, entry: TocModel, at: int)
    requires
        0 <= at <= sorted.len(),
        forall|j: int| at <= j < sorted.len() ==> (#[trigger] sorted[j]).offset > entry.offset,
        at > 0 ==> sorted[at - 1].offset <= entry.offset,
    ensures
        with_entry(sorted, entry) == sorted.insert(at, entry),
    decreases sorted.len(),
{
    if at < sorted.len() {
        lemma_with_entry(sorted.drop_last(), entry, at);
        assert(sorted.insert(at, entry) =~= sorted.drop_last().insert(at, entry).push(
            sorted.last(),
        ));
    } else {
        assert(sorted.insert(at, entry) =~= sorted.push(entry));
    }
}

fn sort_entries(entries: Vec<TocEntry>) -> (sorted: Vec<TocEntry>)
    ensures
        toc_views(sorted@) == sorted_entries(toc_views(entries@)),
{
    let ghost all = toc_views(entries@);
    let mut sorted: Vec<TocEntry> = Vec::new();
    let mut i: usize = 0;
    assert(toc_views(sorted@) =~= seq![]);
    while i < entries.len()
        invariant
            i <= entries.len(),
            all == toc_views(entries@),
            sorted@.len() == i,
            toc_views(sorted@) == sorted_entries(all.take(i as int)),
        decreases entries.len() - i,
    {
        let entry = entries[i].clone();
        let mut at: usize = sorted.len();
        while at > 0 && sorted[at - 1].offset > entry.offset
            invariant
                at <= sorted.len(),
                forall|j: int|
                    at <= j < sorted@.len() ==> (#[trigger] sorted@[j]).offset > entry.offset,
            decreases at,
        {
            at -= 1;
        }
        let ghost before = sorted@;
        let ghost model = entry@;
        sorted.insert(at, entry);
        proof {
            let views = toc_views(before);
            assert forall|j: int| at <= j < views.len() implies (#[trigger] views[j]).offset
                > model.offset by {
                assert(before[j].offset > model.offset);
            }
            lemma_with_entry(views, model, at as int);
            assert(toc_views(sorted@) =~= views.insert(at as int, model));
            assert(all.take(i + 1).drop_last() =~= all.take(i as int));
            assert(all.take(i + 1).last() == all[i as int]);
        }
        i += 1;
    }
    assert(all.take(all.len() as int) =~= all);
    sorted
}

pub(crate) fn merge_entries(entries: Vec<TocEntry>) -> (merged: Vec<TocEntry>)
    ensures
        toc_views(merged@) == merged_entries(toc_views(entries@)),
{
    let ghost all = toc_views(entries@);
    let mut merged: Vec<TocEntry> = Vec::new();
    let mut i: usize = 0;
    assert(toc_views(merged@) =~= seq![]);
    while i < entries.len()
        invariant
            i <= entries.len(),
            all == toc_views(entries@),
            toc_views(merged@) == merged_entries(all.take(i as int)),
        decreases entries.len() - i,
    {
        assert(all.take(i + 1).drop_last() =~= all.take(i as int));
        assert(all.take(i + 1).last() == entries@[i as int]@);
        let entry = entries[i].clone();
        let keep: bool = if merged.len() == 0 {
            true
        } else {
            let previous = &merged[merged.len() - 1];
            assert(toc_views(merged@).last() == previous@);
            previous.offset != entry.offset || previous.depth != entry.depth || labels_compatible(
                previous.label.as_str(),
                entry.label.as_str(),
            )
        };
        if keep {
            let ghost before = merged@;
            let ghost model = entry@;
            merged.push(entry);
            assert(toc_views(merged@) =~= toc_views(before).push(model));
        }
        i += 1;
    }
    assert(all.take(all.len() as int) =~= all);
    merged
}

fn keep_styles(text: &str, styles: &[TextStyle]) -> (kept: Vec<TextStyle>)
    ensures
        style_views(kept@) == usable_styles(text@, style_views(styles@)),
{
    let length: usize = byte_length(text);
    let ghost all = style_views(styles@);
    let mut kept: Vec<TextStyle> = Vec::new();
    let mut i: usize = 0;
    assert(style_views(kept@) =~= seq![]);
    while i < styles.len()
        invariant
            i <= styles.len(),
            length == byte_len(text@),
            all == style_views(styles@),
            style_views(kept@) == usable_styles(text@, all.take(i as int)),
        decreases styles.len() - i,
    {
        assert(all.take(i + 1).drop_last() =~= all.take(i as int));
        assert(all.take(i + 1).last() == styles@[i as int]@);
        let start: usize = styles[i].range.start;
        let end: usize = styles[i].range.end;
        if start <= end && end <= length && at_boundary(text, start) && at_boundary(text, end) {
            let ghost before = kept@;
            kept.push(styles[i].clone());
            assert(style_views(kept@) =~= style_views(before).push(all[i as int]));
        }
        i += 1;
    }
    assert(all.take(all.len() as int) =~= all);
    kept
}

/// A book in the form that the reader works on.
#[derive(Debug)]
pub struct CanonicalDocument {
    text: String,
    total_chars: usize,
    metadata: DocumentMetadata,
    sections: Vec<Section>,
    toc: Vec<TocEntry>,
    styles: Vec<TextStyle>,
}

/// A book, as a value of the mathematical model.
#[verifier::ext_equal]
pub struct DocumentModel {
    pub text: Seq<char>,
    pub metadata: MetadataModel,
    pub sections: Seq<SectionModel>,
    pub toc: Seq<TocModel>,
    pub styles: Seq<StyleModel>,
}

impl View for CanonicalDocument {
    type V = DocumentModel;

    closed spec fn view(&self) -> DocumentModel {
        DocumentModel {
            text: self.text@,
            metadata: self.metadata@,
            sections: section_views(self.sections@),
            toc: toc_views(self.toc@),
            styles: style_views(self.styles@),
        }
    }
}

/// The document of a text, with what is usable of the entries and the styles.
pub open spec fn canonical(
    text: Seq<char>,
    metadata: MetadataModel,
    sections: Seq<SectionModel>,
    toc: Seq<TocModel>,
    styles: Seq<StyleModel>,
) -> DocumentModel {
    DocumentModel {
        text,
        metadata,
        sections,
        toc: cleaned_toc(text, toc),
        styles: usable_styles(text, styles),
    }
}

impl CanonicalDocument {
    #[verifier::type_invariant]
    spec fn well_formed(self) -> bool {
        self.total_chars == self.text@.len()
    }

    pub fn new(
        text: String,
        metadata: DocumentMetadata,
        sections: Vec<Section>,
        toc: Vec<TocEntry>,
        styles: Vec<TextStyle>,
    ) -> (document: Self)
        ensures
            document@ == canonical(
                text@,
                metadata@,
                section_views(sections@),
                toc_views(toc@),
                style_views(styles@),
            ),
    {
        let usable = keep_usable(text.as_str(), &toc);
        let sorted = sort_entries(usable);
        let merged = merge_entries(sorted);
        let kept = keep_styles(text.as_str(), &styles);
        let total_chars: usize = chars_of(text.as_str()).len();
        CanonicalDocument { text, total_chars, metadata, sections, toc: merged, styles: kept }
    }

    pub fn text(&self) -> (text: &str)
        ensures
            text@ == self@.text,
    {
        self.text.as_str()
    }

    pub fn total_chars(&self) -> (total: usize)
        ensures
            total == self@.text.len(),
    {
        proof {
            use_type_invariant(self);
        }
        self.total_chars
    }

    pub fn metadata(&self) -> (metadata: &DocumentMetadata)
        ensures
            metadata@ == self@.metadata,
    {
        &self.metadata
    }

    pub fn sections(&self) -> (sections: &[Section])
        ensures
            section_views(sections@) == self@.sections,
    {
        self.sections.as_slice()
    }

    pub fn toc(&self) -> (toc: &[TocEntry])
        ensures
            toc_views(toc@) == self@.toc,
    {
        self.toc.as_slice()
    }

    pub fn styles(&self) -> (styles: &[TextStyle])
        ensures
            style_views(styles@) == self@.styles,
    {
        self.styles.as_slice()
    }
}

/// The document of one section that is the whole text.
pub open spec fn plain(
    text: Seq<char>,
    metadata: MetadataModel,
    title: Seq<char>,
    toc: Seq<TocModel>,
) -> DocumentModel {
    canonical(
        text,
        metadata,
        seq![SectionModel { title, start: 0, end: byte_len(text) as int }],
        toc,
        seq![],
    )
}

/// A document of one section without styles.
pub fn plain_document(
    text: String,
    metadata: DocumentMetadata,
    section_title: String,
    toc: Vec<TocEntry>,
) -> (document: CanonicalDocument)
    ensures
        document@ == plain(text@, metadata@, section_title@, toc_views(toc@)),
{
    let end: usize = byte_length(text.as_str());
    let section = Section { title: section_title, range: Range { start: 0, end } };
    let ghost model = section@;
    let mut sections: Vec<Section> = Vec::new();
    sections.push(section);
    let styles: Vec<TextStyle> = Vec::new();
    assert(section_views(sections@) =~= seq![model]);
    assert(style_views(styles@) =~= seq![]);
    CanonicalDocument::new(text, metadata, sections, toc, styles)
}

// ---------------------------------------------------------------------------------------
// Warnings and errors
// ---------------------------------------------------------------------------------------

/// Something that was mended while a document was read.
#[derive(Debug, PartialEq, Eq)]
pub struct LoadWarning {
    code: String,
    message: String,
}

#[verifier::ext_equal]
pub struct WarningModel {
    pub code: Seq<char>,
    pub message: Seq<char>,
}

impl View for LoadWarning {
    type V = WarningModel;

    closed spec fn view(&self) -> WarningModel {
        WarningModel { code: self.code@, message: self.message@ }
    }
}

impl LoadWarning {
    pub fn new(code: &str, message: &str) -> (warning: Self)
        ensures
            warning@ == (WarningModel { code: code@, message: message@ }),
    {
        LoadWarning { code: code.to_owned(), message: message.to_owned() }
    }

    pub fn code(&self) -> (code: &str)
        ensures
            code@ == self@.code,
    {
        self.code.as_str()
    }

    pub fn message(&self) -> (message: &str)
        ensures
            message@ == self@.message,
    {
        self.message.as_str()
    }
}

impl Clone for LoadWarning {
    fn clone(&self) -> (copy: Self)
        ensures
            copy@ == self@,
    {
        LoadWarning { code: self.code.clone(), message: self.message.clone() }
    }
}

pub open spec fn warning_views(warnings: Seq<LoadWarning>) -> Seq<WarningModel> {
    Seq::new(warnings.len(), |i: int| warnings[i]@)
}

/// Appends a warning.
pub fn warn(warnings: &mut Vec<LoadWarning>, code: &str, message: &str)
    ensures
        warning_views(final(warnings)@) == warning_views(old(warnings)@).push(
            WarningModel { code: code@, message: message@ },
        ),
{
    let warning = LoadWarning::new(code, message);
    warnings.push(warning);
    assert(warning_views(warnings@) =~= warning_views(old(warnings)@).push(
        WarningModel { code: code@, message: message@ },
    ));
}

/// Why a document cannot be read.
#[derive(Debug, PartialEq, Eq)]
pub enum LoadError {
    Open { path: String, source: String },
    Read { path: String, source: String },
    InputTooLarge { path: String, limit: usize },
    TextTooLarge { limit: usize },
    UnsupportedFormat(String),
    InvalidTextEncoding,
    InvalidMarkdownEncoding,
    InvalidEpub(String),
}

/// Why a document cannot be read, as a value of the mathematical model.
pub enum LoadFault {
    Open { path: Seq<char>, source: Seq<char> },
    Read { path: Seq<char>, source: Seq<char> },
    InputTooLarge { path: Seq<char>, limit: int },
    TextTooLarge { limit: int },
    UnsupportedFormat(Seq<char>),
    InvalidTextEncoding,
    InvalidMarkdownEncoding,
    InvalidEpub(Seq<char>),
}

impl View for LoadError {
    type V = LoadFault;

    open spec fn view(&self) -> LoadFault {
        match self {
            LoadError::Open { path, source } => LoadFault::Open { path: path@, source: source@ },
            LoadError::Read { path, source } => LoadFault::Read { path: path@, source: source@ },
            LoadError::InputTooLarge { path, limit } => LoadFault::InputTooLarge {
                path: path@,
                limit: *limit as int,
            },
            LoadError::TextTooLarge { limit } => LoadFault::TextTooLarge { limit: *limit as int },
            LoadError::UnsupportedFormat(path) => LoadFault::UnsupportedFormat(path@),
            LoadError::InvalidTextEncoding => LoadFault::InvalidTextEncoding,
            LoadError::InvalidMarkdownEncoding => LoadFault::InvalidMarkdownEncoding,
            LoadError::InvalidEpub(message) => LoadFault::InvalidEpub(message@),
        }
    }
}

pub open spec fn load_fault_text(fault: LoadFault) -> Seq<char> {
    match fault {
        LoadFault::Open { path, source } => "cannot open "@ + path + ": "@ + source,
        LoadFault::Read { path, source } => "cannot read "@ + path + ": "@ + source,
        LoadFault::InputTooLarge { path, limit } => path + " is larger than the "@ + decimal(
            limit as nat,
        ) + " byte input limit"@,
        LoadFault::TextTooLarge { limit } => "the decoded text is larger than the "@ + decimal(
            limit as nat,
        ) + " byte limit"@,
        LoadFault::UnsupportedFormat(path) => "unsupported or unrecognised document format: "@
            + path,
        LoadFault::InvalidTextEncoding => "TXT is neither valid UTF-8 nor valid GB18030"@,
        LoadFault::InvalidMarkdownEncoding => "Markdown is not valid UTF-8"@,
        LoadFault::InvalidEpub(message) => "invalid EPUB: "@ + message,
    }
}

impl LoadError {
    /// The message for the reader.
    pub fn message(&self) -> (text: String)
        ensures
            text@ == load_fault_text(self@),
    {
        let mut text: Vec<char> = Vec::new();
        match self {
            LoadError::Open { path, source } => {
                push_text(&mut text, "cannot open ");
                push_text(&mut text, path.as_str());
                push_text(&mut text, ": ");
                push_text(&mut text, source.as_str());
            },
            LoadError::Read { path, source } => {
                push_text(&mut text, "cannot read ");
                push_text(&mut text, path.as_str());
                push_text(&mut text, ": ");
                push_text(&mut text, source.as_str());
            },
            LoadError::InputTooLarge { path, limit } => {
                push_text(&mut text, path.as_str());
                push_text(&mut text, " is larger than the ");
                push_number(&mut text, *limit);
                push_text(&mut text, " byte input limit");
            },
            LoadError::TextTooLarge { limit } => {
                push_text(&mut text, "the decoded text is larger than the ");
                push_number(&mut text, *limit);
                push_text(&mut text, " byte limit");
            },
            LoadError::UnsupportedFormat(path) => {
                push_text(&mut text, "unsupported or unrecognised document format: ");
                push_text(&mut text, path.as_str());
            },
            LoadError::InvalidTextEncoding => {
                push_text(&mut text, "TXT is neither valid UTF-8 nor valid GB18030");
            },
            LoadError::InvalidMarkdownEncoding => {
                push_text(&mut text, "Markdown is not valid UTF-8");
            },
            LoadError::InvalidEpub(message) => {
                push_text(&mut text, "invalid EPUB: ");
                push_text(&mut text, message.as_str());
            },
        }
        assert(text@ =~= load_fault_text(self@));
        string_of(&text)
    }
}

// ---------------------------------------------------------------------------------------
// Laws
// ---------------------------------------------------------------------------------------

proof fn lemma_usable(s: Seq<char>, entries: Seq<TocModel>)
    ensures
        forall|i: int|
            0 <= i < usable_entries(s, entries).len() ==> usable_entry(
                s,
                #[trigger] usable_entries(s, entries)[i],
            ),
    decreases entries.len(),
{
    if entries.len() > 0 {
        let before = usable_entries(s, entries.drop_last());
        let all = usable_entries(s, entries);
        lemma_usable(s, entries.drop_last());
        assert forall|i: int| 0 <= i < all.len() implies usable_entry(s, #[trigger] all[i]) by {
            if i < before.len() {
                assert(all[i] == before[i]);
            }
        }
    }
}

pub open spec fn in_order(entries: Seq<TocModel>) -> bool {
    forall|i: int, j: int|
        0 <= i < j < entries.len() ==> (#[trigger] entries[i]).offset <= (
        #[trigger] entries[j]).offset
}

proof fn lemma_with_entry_sorted(sorted: Seq<TocModel>, entry: TocModel)
    requires
        in_order(sorted),
    ensures
        in_order(with_entry(sorted, entry)),
        with_entry(sorted, entry).to_multiset() == sorted.to_multiset().insert(entry),
        with_entry(sorted, entry).len() == sorted.len() + 1,
        forall|i: int|
            0 <= i < with_entry(sorted, entry).len() ==> sorted.contains(
                #[trigger] with_entry(sorted, entry)[i],
            ) || with_entry(sorted, entry)[i] == entry,
    decreases sorted.len(),
{
    broadcast use vstd::seq_lib::group_to_multiset_ensures;

    if sorted.len() > 0 && sorted.last().offset > entry.offset {
        let t = sorted.drop_last();
        lemma_with_entry_sorted(t, entry);
        let inner = with_entry(t, entry);
        let all = with_entry(sorted, entry);
        assert(sorted =~= t.push(sorted.last()));
        assert forall|i: int| 0 <= i < all.len() implies sorted.contains(#[trigger] all[i])
            || all[i] == entry by {
            if i < inner.len() {
                assert(all[i] == inner[i]);
                if inner[i] != entry {
                    let k = choose|k: int| 0 <= k < t.len() && t[k] == inner[i];
                    assert(sorted[k] == all[i]);
                }
            } else {
                assert(sorted[sorted.len() - 1] == all[i]);
            }
        }
        assert forall|i: int, j: int| 0 <= i < j < all.len() implies (#[trigger] all[i]).offset <= (
        #[trigger] all[j]).offset by {
            if j == inner.len() {
                if inner[i] != entry {
                    let k = choose|k: int| 0 <= k < t.len() && t[k] == inner[i];
                    assert(sorted[k].offset <= sorted[sorted.len() - 1].offset);
                }
            }
        }
    } else {
        let all = with_entry(sorted, entry);
        assert forall|i: int| 0 <= i < all.len() implies sorted.contains(#[trigger] all[i])
            || all[i] == entry by {
            if i < sorted.len() {
                assert(sorted[i] == all[i]);
            }
        }
        if sorted.len() > 0 {
            assert forall|i: int| 0 <= i < sorted.len() implies (#[trigger] sorted[i]).offset
                <= entry.offset by {
                if i < sorted.len() - 1 {
                    assert(sorted[i].offset <= sorted[sorted.len() - 1].offset);
                }
            }
        }
    }
}

/// Sorting puts the entries in the order of their offsets and neither adds nor drops any.
pub proof fn law_sorting_keeps_entries(entries: Seq<TocModel>)
    ensures
        in_order(sorted_entries(entries)),
        sorted_entries(entries).to_multiset() == entries.to_multiset(),
    decreases entries.len(),
{
    broadcast use vstd::seq_lib::group_to_multiset_ensures;

    if entries.len() > 0 {
        let t = entries.drop_last();
        law_sorting_keeps_entries(t);
        lemma_with_entry_sorted(sorted_entries(t), entries.last());
        assert(entries =~= t.push(entries.last()));
    } else {
        assert(sorted_entries(entries) =~= entries);
    }
}

proof fn lemma_merged(entries: Seq<TocModel>)
    requires
        in_order(entries),
    ensures
        in_order(merged_entries(entries)),
        merged_entries(entries).len() > 0 <==> entries.len() > 0,
        merged_entries(entries).len() > 0 ==> merged_entries(entries).last().offset
            <= entries.last().offset,
        forall|i: int|
            0 <= i < merged_entries(entries).len() ==> entries.contains(
                #[trigger] merged_entries(entries)[i],
            ),
        forall|i: int, j: int|
            0 <= i && j == i + 1 && j < merged_entries(entries).len() ==> kept_after(
                #[trigger] merged_entries(entries)[i],
                #[trigger] merged_entries(entries)[j],
            ),
    decreases entries.len(),
{
    if entries.len() > 0 {
        let t = entries.drop_last();
        lemma_merged(t);
        let before = merged_entries(t);
        let all = merged_entries(entries);
        if t.len() > 0 {
            assert(entries[t.len() - 1].offset <= entries[t.len() as int].offset);
        }
        assert forall|i: int| 0 <= i < all.len() implies entries.contains(#[trigger] all[i]) by {
            if i < before.len() {
                let k = choose|k: int| 0 <= k < t.len() && t[k] == before[i];
                assert(entries[k] == all[i]);
            } else {
                assert(entries[entries.len() - 1] == all[i]);
            }
        }
        assert forall|i: int, j: int| 0 <= i < j < all.len() implies (#[trigger] all[i]).offset <= (
        #[trigger] all[j]).offset by {
            if j < before.len() {
                assert(before[i].offset <= before[j].offset);
            } else {
                let k = choose|k: int| 0 <= k < t.len() && t[k] == before[i];
                assert(entries[k].offset <= entries[entries.len() - 1].offset);
            }
        }
        assert forall|i: int, j: int| 0 <= i && j == i + 1 && j < all.len() implies kept_after(
            #[trigger] all[i],
            #[trigger] all[j],
        ) by {
            if j < before.len() {
                assert(kept_after(before[i], before[j]));
            }
        }
    }
}

/// The table of contents of a document is in the order of the text. Each entry leads to a
/// character of the text, and its label can be read there unless it names a part of a book
/// that has no heading. Of two neighbours at the same place and depth the labels may belong to
/// the same heading.
pub proof fn law_table_of_contents(s: Seq<char>, entries: Seq<TocModel>)
    ensures
        in_order(cleaned_toc(s, entries)),
        forall|i: int|
            0 <= i < cleaned_toc(s, entries).len() ==> usable_entry(
                s,
                #[trigger] cleaned_toc(s, entries)[i],
            ),
        forall|i: int, j: int|
            0 <= i && j == i + 1 && j < cleaned_toc(s, entries).len() ==> kept_after(
                #[trigger] cleaned_toc(s, entries)[i],
                #[trigger] cleaned_toc(s, entries)[j],
            ),
{
    broadcast use vstd::seq_lib::group_to_multiset_ensures;

    let usable = usable_entries(s, entries);
    let sorted = sorted_entries(usable);
    let cleaned = cleaned_toc(s, entries);
    lemma_usable(s, entries);
    law_sorting_keeps_entries(usable);
    lemma_merged(sorted);
    assert forall|i: int| 0 <= i < cleaned.len() implies usable_entry(
        s,
        #[trigger] cleaned[i],
    ) by {
        assert(sorted.contains(cleaned[i]));
        assert(sorted.to_multiset().count(cleaned[i]) > 0);
        assert(usable.to_multiset().count(cleaned[i]) > 0);
        assert(usable.contains(cleaned[i]));
    }
}

/// The styles of a document lie in its text between two characters.
pub proof fn law_styles(s: Seq<char>, styles: Seq<StyleModel>)
    ensures
        forall|i: int|
            0 <= i < usable_styles(s, styles).len() ==> usable_style(
                s,
                #[trigger] usable_styles(s, styles)[i],
            ),
    decreases styles.len(),
{
    if styles.len() > 0 {
        let before = usable_styles(s, styles.drop_last());
        let all = usable_styles(s, styles);
        law_styles(s, styles.drop_last());
        assert forall|i: int| 0 <= i < all.len() implies usable_style(s, #[trigger] all[i]) by {
            if i < before.len() {
                assert(all[i] == before[i]);
            }
        }
    }
}

} // verus!

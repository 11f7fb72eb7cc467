//! Putting the chapters of an EPUB together.
use std::ops::Range;

use vstd::prelude::*;

use crate::buffer::{trailing_feeds, with_feeds};
use crate::document::archive::{
    archive_name, file_stem, normalise_archive_name, read_outcome, stem_of, ArchiveModel,
    ArchiveReader,
};
use crate::document::chapter::toc_views;
use crate::document::xhtml::{
    anchor_views, content_fits, lemma_rendered_fits, render, rendered, ContentModel,
    RenderedContent,
};
use crate::document::{
    opt_str, section_views, style_views, warn, warning_views, LoadError, LoadFault, LoadWarning,
    Section, SectionModel, StyleModel, TextStyle, TocEntry, TocModel, WarningModel,
};
use crate::strings::{push_text, repeated, trim_chars, trimmed};
use crate::text::{
    byte_len, byte_length, bytes_between, chars_of, index_at, is_boundary, lemma_boundary_index,
    lemma_byte_len_at_least_len, lemma_byte_len_concat, lemma_byte_len_single,
    lemma_index_of_offset, lemma_offset_ends, string_of,
};
use crate::unicode::string_texts;

verus! {

/// A chapter in the text of a book: its file, its bytes, and its headings and anchors at byte
/// offsets of the book.
#[verifier::ext_equal]
pub struct RenderedModel {
    pub path: Seq<char>,
    pub start: int,
    pub end: int,
    pub headings: Seq<TocModel>,
    pub anchors: Seq<(Seq<char>, int)>,
}

/// A book that is put together.
#[verifier::ext_equal]
pub struct AssembledModel {
    pub text: Seq<char>,
    pub sections: Seq<SectionModel>,
    pub styles: Seq<StyleModel>,
    pub headings: Seq<TocModel>,
    pub rendered: Seq<RenderedModel>,
    pub warnings: Seq<WarningModel>,
}

pub open spec fn empty_assembly() -> AssembledModel {
    AssembledModel {
        text: seq![],
        sections: seq![],
        styles: seq![],
        headings: seq![],
        rendered: seq![],
        warnings: seq![],
    }
}

pub open spec fn shifted_styles(styles: Seq<StyleModel>, by: int) -> Seq<StyleModel> {
    Seq::new(
        styles.len(),
        |i: int|
            StyleModel {
                start: styles[i].start + by,
                end: styles[i].end + by,
                kind: styles[i].kind,
            },
    )
}

pub open spec fn shifted_entries(entries: Seq<TocModel>, by: int) -> Seq<TocModel> {
    Seq::new(
        entries.len(),
        |i: int| TocModel { offset: entries[i].offset + by, ..entries[i] },
    )
}

pub open spec fn shifted_anchors(anchors: Seq<(Seq<char>, int)>, by: int) -> Seq<
    (Seq<char>, int),
> {
    Seq::new(anchors.len(), |i: int| (anchors[i].0, anchors[i].1 + by))
}

/// The title of a chapter: its first heading, the title of the book where it is the only
/// chapter, or the name of its file.
pub open spec fn chapter_title(
    content: ContentModel,
    book_title: Option<Seq<char>>,
    only: bool,
    path: Seq<char>,
) -> Seq<char> {
    if content.headings.len() > 0 {
        content.headings[0].label
    } else {
        match book_title {
            Some(title) => if only {
                title
            } else {
                stem_of(path)
            },
            None => stem_of(path),
        }
    }
}

/// The text of the book so far, at the place where the next chapter begins.
pub open spec fn before_chapter(text: Seq<char>) -> Seq<char> {
    if text.len() == 0 {
        text
    } else {
        with_feeds(text, 2)
    }
}

/// The book with one more chapter, which has any text.
pub open spec fn with_chapter(
    book: AssembledModel,
    path: Seq<char>,
    content: ContentModel,
    title: Seq<char>,
) -> AssembledModel {
    let text = before_chapter(book.text) + content.text;
    let start = byte_len(before_chapter(book.text)) as int;
    let end = byte_len(text) as int;
    let headings = shifted_entries(content.headings, start);
    AssembledModel {
        text,
        sections: book.sections.push(SectionModel { title, start, end }),
        styles: book.styles + shifted_styles(content.styles, start),
        headings: book.headings + headings,
        rendered: book.rendered.push(
            RenderedModel {
                path: archive_name(path),
                start,
                end,
                headings,
                anchors: shifted_anchors(content.anchors, start),
            },
        ),
        warnings: book.warnings,
    }
}

pub open spec fn missing_warning(path: Seq<char>) -> WarningModel {
    WarningModel {
        code: "epub.spine_item_missing"@,
        message: "spine item "@ + path + " is missing"@,
    }
}

/// The book after the first `n` of the given files, with what may still be read of the
/// archive, or why it cannot be put together.
pub open spec fn assembled(
    archive: ArchiveModel,
    paths: Seq<Seq<char>>,
    book_title: Option<Seq<char>>,
    text_limit: int,
    n: int,
) -> (Result<AssembledModel, LoadFault>, ArchiveModel)
    decreases n,
{
    if n <= 0 {
        (Ok(empty_assembly()), archive)
    } else {
        let (before, open) = assembled(archive, paths, book_title, text_limit, n - 1);
        let path = paths[n - 1];
        match before {
            Err(fault) => (Err(fault), open),
            Ok(book) => {
                let (read, budget) = read_outcome(open, path, open.budget);
                let next = ArchiveModel { budget, ..open };
                match read {
                    Err(fault) => (Err(fault), next),
                    Ok(None) => (
                        Ok(
                            AssembledModel {
                                warnings: book.warnings.push(missing_warning(path)),
                                ..book
                            },
                        ),
                        next,
                    ),
                    Ok(Some(source)) => {
                        let content = rendered(source);
                        if trimmed(content.text).len() == 0 {
                            (Ok(book), next)
                        } else {
                            let after = with_chapter(
                                book,
                                path,
                                content,
                                chapter_title(content, book_title, paths.len() == 1, path),
                            );
                            if byte_len(after.text) > text_limit {
                                (Err(LoadFault::TextTooLarge { limit: text_limit }), next)
                            } else {
                                (Ok(after), next)
                            }
                        }
                    },
                }
            },
        }
    }
}

/// A whole book, which has at least one chapter.
pub open spec fn assembly(
    archive: ArchiveModel,
    paths: Seq<Seq<char>>,
    book_title: Option<Seq<char>>,
    text_limit: int,
) -> (Result<AssembledModel, LoadFault>, ArchiveModel) {
    let (result, open) = assembled(
        archive,
        paths,
        book_title,
        text_limit,
        paths.len() as int,
    );
    match result {
        Ok(book) => if book.sections.len() == 0 {
            (Err(LoadFault::InvalidEpub("the EPUB contains no readable text"@)), open)
        } else {
            (Ok(book), open)
        },
        Err(fault) => (Err(fault), open),
    }
}

/// A chapter in the text of a book.
pub struct RenderedSection {
    pub path: String,
    pub range: Range<usize>,
    pub headings: Vec<TocEntry>,
    pub anchors: Vec<(String, usize)>,
}

impl View for RenderedSection {
    type V = RenderedModel;

    open spec fn view(&self) -> RenderedModel {
        RenderedModel {
            path: self.path@,
            start: self.range.start as int,
            end: self.range.end as int,
            headings: toc_views(self.headings@),
            anchors: anchor_views(self.anchors@),
        }
    }
}

pub open spec fn rendered_views(sections: Seq<RenderedSection>) -> Seq<RenderedModel> {
    Seq::new(sections.len(), |i: int| sections[i]@)
}

/// A book that is put together.
pub struct AssembledDocument {
    pub text: String,
    pub sections: Vec<Section>,
    pub styles: Vec<TextStyle>,
    pub heading_toc: Vec<TocEntry>,
    pub rendered_sections: Vec<RenderedSection>,
    pub warnings: Vec<LoadWarning>,
    pub trailing: usize,
}

impl View for AssembledDocument {
    type V = AssembledModel;

    open spec fn view(&self) -> AssembledModel {
        AssembledModel {
            text: self.text@,
            sections: section_views(self.sections@),
            styles: style_views(self.styles@),
            headings: toc_views(self.heading_toc@),
            rendered: rendered_views(self.rendered_sections@),
            warnings: warning_views(self.warnings@),
        }
    }
}

impl AssembledDocument {
    /// The number of line feeds at the end of the text is known.
    pub open spec fn ready(&self) -> bool {
        self.trailing == trailing_feeds(self.text@)
    }

    pub fn new() -> (book: Self)
        ensures
            book@ == empty_assembly(),
            book.ready(),
    {
        let empty: Vec<char> = Vec::new();
        let book = AssembledDocument {
            text: string_of(&empty),
            sections: Vec::new(),
            styles: Vec::new(),
            heading_toc: Vec::new(),
            rendered_sections: Vec::new(),
            warnings: Vec::new(),
            trailing: 0,
        };
        assert(book@ =~= empty_assembly());
        book
    }

    /// Appends a chapter, if the text does not become longer than the limit.
    pub fn append(&mut self, path: &str, content: &RenderedContent, title: String, limit: usize) -> (
    fits: bool)
        requires
            old(self).ready(),
            content_fits(content@),
        ensures
            fits == (byte_len(with_chapter(old(self)@, path@, content@, title@).text) <= limit),
            final(self)@ == (if fits {
                with_chapter(old(self)@, path@, content@, title@)
            } else {
                old(self)@
            }),
            final(self).ready(),
    {
        let ghost book = self@;
        let ghost content_text = content@.text;
        let current: usize = byte_length(self.text.as_str());
        let trailing: usize = self.trailing;
        let feeds: usize = if current > 0 && trailing < 2 {
            2 - trailing
        } else {
            0
        };
        proof {
            lemma_byte_len_at_least_len(book.text);
            lemma_feeds(feeds as nat);
            lemma_byte_len_concat(book.text, repeated(seq!['\n'], feeds as nat));
            lemma_byte_len_concat(before_chapter(book.text), content_text);
            assert(before_chapter(book.text) =~= book.text + repeated(seq!['\n'], feeds as nat));
        }
        let start: usize = match current.checked_add(feeds) {
            Some(start) => start,
            None => {
                return false;
            },
        };
        let end: usize = match start.checked_add(byte_length(content.text.as_str())) {
            Some(end) => end,
            None => {
                return false;
            },
        };
        if end > limit {
            return false;
        }
        let mut i: usize = 0;
        assert(shifted_styles(content@.styles, start as int).take(0) =~= seq![]);
        while i < content.styles.len()
            invariant
                i <= content.styles.len(),
                content_fits(content@),
                start + byte_len(content@.text) <= usize::MAX,
                style_views(self.styles@) == book.styles + shifted_styles(
                    content@.styles,
                    start as int,
                ).take(i as int),
                self@ == (AssembledModel { styles: style_views(self.styles@), ..book }),
            decreases content.styles.len() - i,
        {
            let style = &content.styles[i];
            let ghost before = self.styles@;
            assert(content@.styles[i as int] == style@);
            self.styles.push(
                TextStyle {
                    range: Range { start: style.range.start + start, end: style.range.end + start },
                    kind: style.kind,
                },
            );
            assert(style_views(self.styles@) =~= style_views(before).push(
                shifted_styles(content@.styles, start as int)[i as int],
            ));
            i += 1;
            assert(style_views(self.styles@) =~= book.styles + shifted_styles(
                content@.styles,
                start as int,
            ).take(i as int));
        }
        assert(shifted_styles(content@.styles, start as int).take(i as int) =~= shifted_styles(
            content@.styles,
            start as int,
        ));
        let ghost styled = self@;
        let ghost shifted = shifted_entries(content@.headings, start as int);
        let mut headings: Vec<TocEntry> = Vec::new();
        let mut i: usize = 0;
        assert(shifted.take(0) =~= seq![]);
        while i < content.headings.len()
            invariant
                i <= content.headings.len(),
                content_fits(content@),
                start + byte_len(content@.text) <= usize::MAX,
                shifted == shifted_entries(content@.headings, start as int),
                toc_views(headings@) == shifted.take(i as int),
                toc_views(self.heading_toc@) == book.headings + shifted.take(i as int),
                self@ == (AssembledModel { headings: toc_views(self.heading_toc@), ..styled }),
            decreases content.headings.len() - i,
        {
            let heading = &content.headings[i];
            assert(content@.headings[i as int] == heading@);
            let entry = TocEntry {
                label: heading.label.clone(),
                offset: heading.offset + start,
                depth: heading.depth,
            };
            let ghost before = headings@;
            let ghost before_toc = self.heading_toc@;
            assert(entry@ == shifted[i as int]);
            let copy = entry.clone();
            headings.push(entry);
            self.heading_toc.push(copy);
            i += 1;
            assert(toc_views(headings@) =~= toc_views(before).push(shifted[i - 1]));
            assert(toc_views(self.heading_toc@) =~= toc_views(before_toc).push(shifted[i - 1]));
            assert(toc_views(headings@) =~= shifted.take(i as int));
            assert(toc_views(self.heading_toc@) =~= book.headings + shifted.take(i as int));
        }
        assert(shifted.take(i as int) =~= shifted);
        let ghost moved = shifted_anchors(content@.anchors, start as int);
        let mut anchors: Vec<(String, usize)> = Vec::new();
        let mut i: usize = 0;
        assert(moved.take(0) =~= seq![]);
        while i < content.anchors.len()
            invariant
                i <= content.anchors.len(),
                content_fits(content@),
                start + byte_len(content@.text) <= usize::MAX,
                moved == shifted_anchors(content@.anchors, start as int),
                anchor_views(anchors@) == moved.take(i as int),
            decreases content.anchors.len() - i,
        {
            let ghost before = anchors@;
            assert(content@.anchors[i as int] == (
                content.anchors@[i as int].0@,
                content.anchors@[i as int].1 as int,
            ));
            anchors.push((content.anchors[i].0.clone(), content.anchors[i].1 + start));
            assert(anchor_views(anchors@) =~= anchor_views(before).push(moved[i as int]));
            assert(moved.take(i + 1) =~= moved.take(i as int).push(moved[i as int]));
            i += 1;
        }
        assert(moved.take(i as int) =~= moved);
        let ghost before_sections = self.sections@;
        let ghost before_rendered = self.rendered_sections@;
        self.sections.push(Section { title, range: Range { start, end } });
        self.rendered_sections.push(
            RenderedSection {
                path: normalise_archive_name(path),
                range: Range { start, end },
                headings,
                anchors,
            },
        );
        proof {
            let after = with_chapter(book, path@, content@, title@);
            assert(section_views(self.sections@) =~= after.sections);
            assert(rendered_views(self.rendered_sections@) =~= after.rendered);
        }
        let mut made: usize = 0;
        assert(self.text@ =~= book.text + repeated(seq!['\n'], 0));
        while made < feeds
            invariant
                made <= feeds,
                self.text@ == book.text + repeated(seq!['\n'], made as nat),
                section_views(self.sections@) == with_chapter(
                    book,
                    path@,
                    content@,
                    title@,
                ).sections,
                rendered_views(self.rendered_sections@) == with_chapter(
                    book,
                    path@,
                    content@,
                    title@,
                ).rendered,
                style_views(self.styles@) == with_chapter(book, path@, content@, title@).styles,
                toc_views(self.heading_toc@) == with_chapter(
                    book,
                    path@,
                    content@,
                    title@,
                ).headings,
                warning_views(self.warnings@) == book.warnings,
            decreases feeds - made,
        {
            self.text.push('\n');
            made += 1;
            assert(self.text@ =~= book.text + repeated(seq!['\n'], made as nat));
        }
        self.text.append(content.text.as_str());
        let characters = chars_of(content.text.as_str());
        let ends: usize = count_feeds(&characters);
        proof {
            lemma_trailing_concat(book.text, repeated(seq!['\n'], feeds as nat));
            lemma_trailing_repeated(feeds as nat);
            lemma_trailing_concat(before_chapter(book.text), content_text);
            lemma_trailing_at_most(self.text@);
            lemma_byte_len_at_least_len(self.text@);
            assert(byte_len(self.text@) == end);
        }
        self.trailing = if ends == characters.len() {
            trailing + feeds + ends
        } else {
            ends
        };
        proof {
            assert(self@ =~= with_chapter(book, path@, content@, title@));
        }
        true
    }
}

/// The number of line feeds at the end.
fn count_feeds(characters: &[char]) -> (count: usize)
    ensures
        count == trailing_feeds(characters@),
{
    let ghost s = characters@;
    let length: usize = characters.len();
    let mut count: usize = 0;
    assert(s.take(length as int) =~= s);
    while count < length && characters[length - 1 - count] == '\n'
        invariant
            count <= length == characters@.len(),
            s == characters@,
            trailing_feeds(s) == count + trailing_feeds(s.take(length - count)),
        decreases length - count,
    {
        assert(s.take(length - count).drop_last() =~= s.take(length - count - 1));
        count += 1;
    }
    count
}

proof fn lemma_trailing_at_most(s: Seq<char>)
    ensures
        trailing_feeds(s) <= s.len(),
    decreases s.len(),
{
    if s.len() > 0 {
        lemma_trailing_at_most(s.drop_last());
    }
}

proof fn lemma_trailing_repeated(n: nat)
    ensures
        trailing_feeds(repeated(seq!['\n'], n)) == n,
        repeated(seq!['\n'], n).len() == n,
    decreases n,
{
    if n > 0 {
        lemma_trailing_repeated((n - 1) as nat);
        assert(repeated(seq!['\n'], n).drop_last() =~= repeated(seq!['\n'], (n - 1) as nat));
    }
}

proof fn lemma_trailing_concat(a: Seq<char>, b: Seq<char>)
    ensures
        trailing_feeds(a + b) == (if trailing_feeds(b) == b.len() {
            trailing_feeds(a) + b.len()
        } else {
            trailing_feeds(b)
        }),
    decreases b.len(),
{
    if b.len() == 0 {
        assert(a + b =~= a);
    } else {
        assert((a + b).drop_last() =~= a + b.drop_last());
        lemma_trailing_concat(a, b.drop_last());
        lemma_trailing_at_most(b.drop_last());
    }
}

proof fn lemma_feeds(n: nat)
    ensures
        byte_len(repeated(seq!['\n'], n)) == n,
    decreases n,
{
    if n > 0 {
        lemma_feeds((n - 1) as nat);
        lemma_byte_len_concat(repeated(seq!['\n'], (n - 1) as nat), seq!['\n']);
        lemma_byte_len_single('\n');
    }
}

/// The title of a chapter.
pub fn title_of(content: &RenderedContent, book_title: Option<&str>, only: bool, path: &str) -> (
title: String)
    ensures
        title@ == chapter_title(content@, opt_str(book_title), only, path@),
{
    if content.headings.len() > 0 {
        assert(content@.headings[0] == content.headings@[0]@);
        return content.headings[0].label.clone();
    }
    if only {
        if let Some(title) = book_title {
            return title.to_owned();
        }
    }
    file_stem(path)
}

/// Puts the given files of an archive together.
pub fn assemble_document(
    archive: &mut ArchiveReader<'_>,
    paths: &[String],
    book_title: Option<&str>,
    text_limit: usize,
) -> (book: Result<AssembledDocument, LoadError>)
    ensures
        ({
            let (result, open) = assembly(
                old(archive)@,
                string_texts(paths@),
                opt_str(book_title),
                text_limit as int,
            );
            &&& match result {
                Ok(model) => book matches Ok(found) && found@ == model,
                Err(fault) => book matches Err(error) && error@ == fault,
            }
            &&& book is Ok ==> final(archive)@ == open
        }),
{
    let ghost all = string_texts(paths@);
    let ghost start = archive@;
    let ghost named = opt_str(book_title);
    let mut book = AssembledDocument::new();
    let mut i: usize = 0;
    while i < paths.len()
        invariant
            i <= paths.len(),
            all == string_texts(paths@),
            named == opt_str(book_title),
            start == old(archive)@,
            book.ready(),
            assembled(start, all, named, text_limit as int, i as int) == (
                Ok::<AssembledModel, LoadFault>(book@),
                archive@,
            ),
        decreases paths.len() - i,
    {
        assert(all[i as int] == paths@[i as int]@);
        let path = paths[i].as_str();
        let budget: usize = archive.budget();
        let ghost step = assembled(start, all, named, text_limit as int, i + 1);
        match archive.read_text(path, budget) {
            Err(error) => {
                proof {
                    assert(step.0 == Err::<AssembledModel, LoadFault>(error@));
                    lemma_assembled_fails(start, all, named, text_limit as int, i + 1);
                }
                return Err(error);
            },
            Ok(None) => {
                let mut message: Vec<char> = Vec::new();
                push_text(&mut message, "spine item ");
                push_text(&mut message, path);
                push_text(&mut message, " is missing");
                assert(message@ =~= missing_warning(path@).message);
                let ghost before = book@;
                let text = string_of(&message);
                warn(&mut book.warnings, "epub.spine_item_missing", text.as_str());
                assert(book@ =~= (AssembledModel {
                    warnings: before.warnings.push(missing_warning(path@)),
                    ..before
                }));
            },
            Ok(Some(source)) => {
                let content = render(source.as_str());
                if trim_chars(&chars_of(content.text.as_str())).len() > 0 {
                    proof {
                        lemma_rendered_fits(source@);
                    }
                    let title = title_of(&content, book_title, paths.len() == 1, path);
                    if !book.append(path, &content, title, text_limit) {
                        proof {
                            assert(step.0 == Err::<AssembledModel, LoadFault>(
                                LoadFault::TextTooLarge { limit: text_limit as int },
                            ));
                            lemma_assembled_fails(start, all, named, text_limit as int, i + 1);
                        }
                        return Err(LoadError::TextTooLarge { limit: text_limit });
                    }
                }
            },
        }
        i += 1;
    }
    if book.sections.len() == 0 {
        return Err(LoadError::InvalidEpub("the EPUB contains no readable text".to_owned()));
    }
    Ok(book)
}

/// Once a book cannot be put together, no further file changes that.
proof fn lemma_assembled_fails(
    archive: ArchiveModel,
    paths: Seq<Seq<char>>,
    book_title: Option<Seq<char>>,
    text_limit: int,
    n: int,
)
    requires
        0 <= n <= paths.len(),
        assembled(archive, paths, book_title, text_limit, n).0 is Err,
    ensures
        assembled(archive, paths, book_title, text_limit, paths.len() as int).0 == assembled(
            archive,
            paths,
            book_title,
            text_limit,
            n,
        ).0,
    decreases paths.len() - n,
{
    if n < paths.len() {
        lemma_assembled_fails(archive, paths, book_title, text_limit, n + 1);
    }
}

// ---------------------------------------------------------------------------------------
// Laws
// ---------------------------------------------------------------------------------------

/// The headings and the anchors of a chapter lead into it.
pub open spec fn places_within(chapter: RenderedModel) -> bool {
    &&& forall|k: int|
        0 <= k < chapter.headings.len() ==> chapter.start <= (#[trigger] chapter.headings[k]).offset
            <= chapter.end
    &&& forall|k: int|
        0 <= k < chapter.anchors.len() ==> chapter.start <= (#[trigger] chapter.anchors[k]).1
            <= chapter.end
}

/// The chapters of a book stand one after the other in its text, and none is empty.
pub open spec fn chapters_in_order(book: AssembledModel) -> bool {
    &&& book.rendered.len() == book.sections.len()
    &&& forall|i: int|
        0 <= i < book.sections.len() ==> {
            &&& 0 <= (#[trigger] book.sections[i]).start < book.sections[i].end <= byte_len(
                book.text,
            )
            &&& is_boundary(book.text, book.sections[i].start)
            &&& is_boundary(book.text, book.sections[i].end)
            &&& book.rendered[i].start == book.sections[i].start
            &&& book.rendered[i].end == book.sections[i].end
            &&& places_within(book.rendered[i])
        }
    &&& forall|i: int, j: int|
        0 <= i < j < book.sections.len() ==> (#[trigger] book.sections[i]).end <= (
        #[trigger] book.sections[j]).start
}

/// The chapters of a book that is put together stand one after the other in its text, none is
/// empty, and whatever leads to a place of a chapter leads into that chapter. The text is not
/// longer than it may be.
pub proof fn law_chapters_in_order(
    archive: ArchiveModel,
    paths: Seq<Seq<char>>,
    book_title: Option<Seq<char>>,
    text_limit: int,
    n: int,
)
    ensures
        assembled(archive, paths, book_title, text_limit, n).0 matches Ok(book)
            ==> chapters_in_order(book) && (n > 0 && book.sections.len() > 0 ==> byte_len(book.text)
            <= text_limit),
    decreases n,
{
    if n > 0 {
        law_chapters_in_order(archive, paths, book_title, text_limit, n - 1);
        let (before, open) = assembled(archive, paths, book_title, text_limit, n - 1);
        if let Ok(book) = before {
            let path = paths[n - 1];
            let (read, budget) = read_outcome(open, path, open.budget);
            if let Ok(Some(source)) = read {
                let content = rendered(source);
                if trimmed(content.text).len() > 0 {
                    lemma_rendered_fits(source);
                    let title = chapter_title(content, book_title, paths.len() == 1, path);
                    lemma_with_chapter(book, path, content, title);
                }
            }
        }
    }
}

proof fn lemma_boundary_in_longer(a: Seq<char>, b: Seq<char>, offset: int)
    requires
        is_boundary(a, offset),
    ensures
        is_boundary(a + b, offset),
{
    lemma_boundary_index(a, offset);
    let k = index_at(a, offset);
    assert((a + b).take(k) =~= a.take(k));
    lemma_index_of_offset(a + b, k);
}

proof fn lemma_with_chapter(
    book: AssembledModel,
    path: Seq<char>,
    content: ContentModel,
    title: Seq<char>,
)
    requires
        chapters_in_order(book),
        content_fits(content),
        content.text.len() > 0,
    ensures
        chapters_in_order(with_chapter(book, path, content, title)),
{
    let head = before_chapter(book.text);
    let after = with_chapter(book, path, content, title);
    let more = head.skip(book.text.len() as int);
    assert(head =~= book.text + more);
    let n = book.sections.len() as int;
    lemma_byte_len_concat(book.text, more);
    lemma_byte_len_concat(head, content.text);
    lemma_byte_len_at_least_len(content.text);
    assert(after.text.take(head.len() as int) =~= head);
    lemma_index_of_offset(after.text, head.len() as int);
    lemma_index_of_offset(after.text, after.text.len() as int);
    lemma_offset_ends(after.text);
    assert forall|i: int| 0 <= i < after.sections.len() implies {
        &&& 0 <= (#[trigger] after.sections[i]).start < after.sections[i].end <= byte_len(
            after.text,
        )
        &&& is_boundary(after.text, after.sections[i].start)
        &&& is_boundary(after.text, after.sections[i].end)
        &&& after.rendered[i].start == after.sections[i].start
        &&& after.rendered[i].end == after.sections[i].end
        &&& places_within(after.rendered[i])
    } by {
        if i < n {
            assert(after.sections[i] == book.sections[i]);
            assert(after.rendered[i] == book.rendered[i]);
            assert(after.text =~= book.text + (more + content.text));
            lemma_boundary_in_longer(book.text, more + content.text, book.sections[i].start);
            lemma_boundary_in_longer(book.text, more + content.text, book.sections[i].end);
        } else {
            let chapter = after.rendered[i];
            assert forall|k: int| 0 <= k < chapter.headings.len() implies chapter.start <= (
            #[trigger] chapter.headings[k]).offset <= chapter.end by {
                assert(0 <= content.headings[k].offset <= byte_len(content.text));
            }
            assert forall|k: int| 0 <= k < chapter.anchors.len() implies chapter.start <= (
            #[trigger] chapter.anchors[k]).1 <= chapter.end by {
                assert(0 <= content.anchors[k].1 <= byte_len(content.text));
            }
        }
    }
    assert forall|i: int, j: int| 0 <= i < j < after.sections.len() implies (
    #[trigger] after.sections[i]).end <= (#[trigger] after.sections[j]).start by {
        assert(after.sections[i] == book.sections[i]);
        if j < n {
            assert(after.sections[j] == book.sections[j]);
        }
    }
}

/// A chapter stands apart from those before it by an empty line, and its text is what stands
/// between its ends. Its headings move along with it.
pub proof fn law_chapter_is_added(
    book: AssembledModel,
    path: Seq<char>,
    content: ContentModel,
    title: Seq<char>,
    k: int,
)
    requires
        book.text.len() == 0 || book.text.last() != '\n',
    ensures
        ({
            let after = with_chapter(book, path, content, title);
            let section = after.sections.last();
            &&& book.text.len() == 0 ==> after.text == content.text
            &&& book.text.len() > 0 ==> after.text == book.text + seq!['\n', '\n'] + content.text
            &&& after.sections.len() == book.sections.len() + 1 && section.title == title
            &&& bytes_between(after.text, section.start, section.end) == content.text
            &&& 0 <= k < content.headings.len() ==> after.headings[book.headings.len() + k].label
                == content.headings[k].label && after.headings[book.headings.len() + k].offset
                == section.start + content.headings[k].offset
        }),
{
    let head = before_chapter(book.text);
    let after = with_chapter(book, path, content, title);
    crate::document::xhtml_laws::lemma_feeds();
    assert(head.len() == 0 || head =~= book.text + seq!['\n', '\n']);
    assert(after.text.take(head.len() as int) =~= head);
    assert(after.text.take(after.text.len() as int) =~= after.text);
    lemma_index_of_offset(after.text, head.len() as int);
    lemma_index_of_offset(after.text, after.text.len() as int);
    lemma_offset_ends(after.text);
    assert(after.text.subrange(head.len() as int, after.text.len() as int) =~= content.text);
    if book.text.len() == 0 {
        assert(after.text =~= content.text);
    }
}

} // verus!

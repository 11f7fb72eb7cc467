//! What the sections of a document are, for books of every format.
use vstd::prelude::*;

use crate::buffer::with_feeds;
use crate::document::archive::{
    files_of, first_package_of, html_files_of, read_outcome, zip_listing, ArchiveModel,
};
use crate::document::assembly::{
    assembled, assembly, before_chapter, chapter_title, with_chapter, AssembledModel,
};
use crate::document::epub::{
    content_paths, epub_book, warning, with_package, with_package_path, with_package_text,
    without_package, CONTAINER_LIMIT, PACKAGE_LIMIT,
};
use crate::document::load::loaded_document;
use crate::document::markup::{html_tree, xml_tree};
use crate::document::package::{container_result, package_result, PackageModel};
use crate::document::xhtml::{
    empty_sink, render_nodes, rendered, ContentModel, XML_NODES_LIMIT,
};
use crate::document::{
    default_title, DocumentFormat, DocumentModel, LoadOptions, SectionModel, SourceModel,
    WarningModel,
};
use crate::strings::{is_space, lemma_trimmed_end, repeated, trimmed, trimmed_start};
use crate::text::{
    byte_len, bytes_between, index_at, is_boundary, lemma_boundary_index, lemma_boundary_order,
    lemma_byte_len_at_least_len, lemma_byte_len_concat, lemma_index_of_offset,
};

verus! {

// ---------------------------------------------------------------------------------------
// The files of a book
// ---------------------------------------------------------------------------------------

/// The archive after the first `n` of the given files were read.
pub open spec fn archive_after(archive: ArchiveModel, paths: Seq<Seq<char>>, n: int) -> ArchiveModel
    decreases n,
{
    if n <= 0 {
        archive
    } else {
        let open = archive_after(archive, paths, n - 1);
        ArchiveModel { budget: read_outcome(open, paths[n - 1], open.budget).1, ..open }
    }
}

/// What the file with the index `i` is rendered as; `None` where it cannot be read.
pub open spec fn content_of(archive: ArchiveModel, paths: Seq<Seq<char>>, i: int) -> Option<
    ContentModel,
> {
    let open = archive_after(archive, paths, i);
    match read_outcome(open, paths[i], open.budget).0 {
        Ok(Some(source)) => Some(rendered(source)),
        _ => None,
    }
}

/// The file with the index `i` can be read and holds more than white space.
pub open spec fn has_text(archive: ArchiveModel, paths: Seq<Seq<char>>, i: int) -> bool {
    content_of(archive, paths, i) matches Some(content) && trimmed(content.text).len() > 0
}

/// The indices of those of the first `n` files that have any text.
pub open spec fn files_with_text(archive: ArchiveModel, paths: Seq<Seq<char>>, n: int) -> Seq<int>
    decreases n,
{
    if n <= 0 {
        seq![]
    } else if has_text(archive, paths, n - 1) {
        files_with_text(archive, paths, n - 1).push(n - 1)
    } else {
        files_with_text(archive, paths, n - 1)
    }
}

// ---------------------------------------------------------------------------------------
// The sections of a book
// ---------------------------------------------------------------------------------------

/// The section begins and ends at characters of the text, and is not empty.
pub open spec fn section_stands(text: Seq<char>, section: SectionModel) -> bool {
    &&& is_boundary(text, section.start)
    &&& is_boundary(text, section.end)
    &&& section.start < section.end
}

/// There are two line feeds between one section and the next.
pub open spec fn sections_join(
    text: Seq<char>,
    section: SectionModel,
    next: SectionModel,
) -> bool {
    section.end < next.start && bytes_between(text, section.end, next.start) == seq!['\n', '\n']
}

/// The sections are the whole text, with two line feeds between one and the next.
pub open spec fn sections_tile(text: Seq<char>, sections: Seq<SectionModel>) -> bool {
    &&& sections.len() == 0 ==> text.len() == 0
    &&& sections.len() > 0 ==> sections[0].start == 0 && sections.last().end == byte_len(text)
    &&& forall|i: int| 0 <= i < sections.len() ==> section_stands(text, #[trigger] sections[i])
    &&& forall|i: int, j: int|
        0 <= i && j == i + 1 && j < sections.len() ==> sections_join(
            text,
            #[trigger] sections[i],
            #[trigger] sections[j],
        )
}

/// The section is the file with the index `file`: it has its text and its title.
pub open spec fn section_is_file(
    text: Seq<char>,
    section: SectionModel,
    archive: ArchiveModel,
    paths: Seq<Seq<char>>,
    book_title: Option<Seq<char>>,
    file: int,
) -> bool {
    content_of(archive, paths, file) matches Some(content) && bytes_between(
        text,
        section.start,
        section.end,
    ) == content.text && section.title == chapter_title(
        content,
        book_title,
        paths.len() == 1,
        paths[file],
    )
}

/// The sections are those of the first `n` files that have any text, in the order of the files.
pub open spec fn sections_are_files(
    text: Seq<char>,
    sections: Seq<SectionModel>,
    archive: ArchiveModel,
    paths: Seq<Seq<char>>,
    book_title: Option<Seq<char>>,
    n: int,
) -> bool {
    let files = files_with_text(archive, paths, n);
    &&& sections.len() == files.len()
    &&& forall|i: int|
        0 <= i < sections.len() ==> section_is_file(
            text,
            #[trigger] sections[i],
            archive,
            paths,
            book_title,
            files[i],
        )
}

// ---------------------------------------------------------------------------------------
// Proofs
// ---------------------------------------------------------------------------------------

proof fn lemma_part_of_longer(a: Seq<char>, b: Seq<char>, start: int, end: int)
    requires
        is_boundary(a, start),
        is_boundary(a, end),
        start <= end,
    ensures
        is_boundary(a + b, start),
        is_boundary(a + b, end),
        bytes_between(a + b, start, end) == bytes_between(a, start, end),
{
    lemma_boundary_index(a, start);
    lemma_boundary_index(a, end);
    let (i, j) = (index_at(a, start), index_at(a, end));
    assert((a + b).take(i) =~= a.take(i));
    assert((a + b).take(j) =~= a.take(j));
    lemma_index_of_offset(a + b, i);
    lemma_index_of_offset(a + b, j);
    lemma_boundary_order(a, start, end);
    assert((a + b).subrange(i, j) =~= a.subrange(i, j));
}

proof fn lemma_middle(a: Seq<char>, middle: Seq<char>, b: Seq<char>)
    ensures
        ({
            let whole = a + middle + b;
            let (start, end) = (byte_len(a) as int, byte_len(a + middle) as int);
            &&& is_boundary(whole, start)
            &&& is_boundary(whole, end)
            &&& start <= end
            &&& middle.len() > 0 ==> start < end
            &&& bytes_between(whole, start, end) == middle
        }),
{
    let whole = a + middle + b;
    let (i, j) = (a.len() as int, (a + middle).len() as int);
    assert(whole.take(i) =~= a);
    assert(whole.take(j) =~= a + middle);
    lemma_index_of_offset(whole, i);
    lemma_index_of_offset(whole, j);
    lemma_byte_len_concat(a, middle);
    lemma_byte_len_at_least_len(middle);
    assert(whole.subrange(i, j) =~= middle);
}

proof fn lemma_content_ends(source: Seq<char>)
    ensures
        rendered(source).text.len() > 0 ==> !is_space(rendered(source).text.last()),
{
    match xml_tree(source, true, XML_NODES_LIMIT) {
        Ok(nodes) => {
            let sink = render_nodes(nodes, 0, nodes.len() as int, true, false, empty_sink());
            lemma_trimmed_end(sink.text);
        },
        Err(_) => {
            let nodes = html_tree(source);
            let sink = render_nodes(nodes, 0, nodes.len() as int, false, false, empty_sink());
            lemma_trimmed_end(sink.text);
        },
    }
}

proof fn lemma_two_feeds(text: Seq<char>)
    requires
        text.len() > 0,
        !is_space(text.last()),
    ensures
        before_chapter(text) == text + seq!['\n', '\n'],
{
    reveal_with_fuel(repeated, 3);
    assert(repeated(seq!['\n'], 2) =~= seq!['\n', '\n']);
    assert(with_feeds(text, 2) == text + repeated(seq!['\n'], 2));
}

/// What a section of a text holds does not change when something is added to the text.
proof fn lemma_section_in_longer(text: Seq<char>, section: SectionModel, rest: Seq<char>)
    requires
        section_stands(text, section),
    ensures
        section_stands(text + rest, section),
        bytes_between(text + rest, section.start, section.end) == bytes_between(
            text,
            section.start,
            section.end,
        ),
{
    lemma_part_of_longer(text, rest, section.start, section.end);
}

/// What is between two sections does not change when something is added to the text.
proof fn lemma_join_in_longer(
    text: Seq<char>,
    section: SectionModel,
    next: SectionModel,
    rest: Seq<char>,
)
    requires
        section_stands(text, section),
        section_stands(text, next),
        sections_join(text, section, next),
    ensures
        sections_join(text + rest, section, next),
{
    lemma_part_of_longer(text, rest, section.end, next.start);
}

/// One more section after the sections of a text.
proof fn lemma_tiles_with(
    text: Seq<char>,
    sections: Seq<SectionModel>,
    gap: Seq<char>,
    more: Seq<char>,
    section: SectionModel,
)
    requires
        sections_tile(text, sections),
        more.len() > 0,
        sections.len() > 0 ==> gap == seq!['\n', '\n'],
        sections.len() == 0 ==> gap.len() == 0,
        section.start == byte_len(text + gap),
        section.end == byte_len(text + gap + more),
    ensures
        sections_tile(text + gap + more, sections.push(section)),
        bytes_between(text + gap + more, section.start, section.end) == more,
{
    let whole = text + gap + more;
    let after = sections.push(section);
    let m = sections.len() as int;
    assert(whole =~= text + (gap + more));
    assert(whole =~= (text + gap) + more + Seq::<char>::empty());
    lemma_middle(text + gap, more, seq![]);
    lemma_middle(text, gap, more);
    if m == 0 {
        assert(text + gap =~= Seq::<char>::empty());
    }
    assert forall|i: int| 0 <= i < after.len() implies section_stands(
        whole,
        #[trigger] after[i],
    ) by {
        if i < m {
            assert(after[i] == sections[i]);
            lemma_section_in_longer(text, sections[i], gap + more);
        }
    }
    assert forall|i: int, j: int| 0 <= i && j == i + 1 && j < after.len() implies sections_join(
        whole,
        #[trigger] after[i],
        #[trigger] after[j],
    ) by {
        assert(after[i] == sections[i]);
        if j < m {
            assert(after[j] == sections[j]);
            lemma_join_in_longer(text, sections[i], sections[j], gap + more);
        }
    }
}

/// One more section among those that are files.
proof fn lemma_files_with(
    text: Seq<char>,
    sections: Seq<SectionModel>,
    rest: Seq<char>,
    section: SectionModel,
    archive: ArchiveModel,
    paths: Seq<Seq<char>>,
    book_title: Option<Seq<char>>,
    n: int,
)
    requires
        0 < n,
        sections_tile(text, sections),
        sections_are_files(text, sections, archive, paths, book_title, n - 1),
        has_text(archive, paths, n - 1),
        section_is_file(text + rest, section, archive, paths, book_title, n - 1),
    ensures
        sections_are_files(text + rest, sections.push(section), archive, paths, book_title, n),
{
    let before = files_with_text(archive, paths, n - 1);
    let files = files_with_text(archive, paths, n);
    let after = sections.push(section);
    assert forall|i: int| 0 <= i < after.len() implies section_is_file(
        text + rest,
        #[trigger] after[i],
        archive,
        paths,
        book_title,
        files[i],
    ) by {
        if i < sections.len() {
            assert(after[i] == sections[i]);
            assert(files[i] == before[i]);
            lemma_section_in_longer(text, sections[i], rest);
            assert(section_is_file(text, sections[i], archive, paths, book_title, before[i]));
        }
    }
}

/// One more chapter.
proof fn lemma_one_more(
    book: AssembledModel,
    archive: ArchiveModel,
    paths: Seq<Seq<char>>,
    book_title: Option<Seq<char>>,
    content: ContentModel,
    n: int,
)
    requires
        0 < n,
        sections_tile(book.text, book.sections),
        book.text.len() > 0 ==> !is_space(book.text.last()),
        book.text.len() > 0 <==> book.sections.len() > 0,
        sections_are_files(book.text, book.sections, archive, paths, book_title, n - 1),
        content_of(archive, paths, n - 1) == Some(content),
        trimmed(content.text).len() > 0,
        content.text.len() > 0,
    ensures
        ({
            let title = chapter_title(content, book_title, paths.len() == 1, paths[n - 1]);
            let after = with_chapter(book, paths[n - 1], content, title);
            &&& sections_tile(after.text, after.sections)
            &&& sections_are_files(after.text, after.sections, archive, paths, book_title, n)
            &&& after.text.len() > 0
            &&& after.text.last() == content.text.last()
        }),
{
    let title = chapter_title(content, book_title, paths.len() == 1, paths[n - 1]);
    let after = with_chapter(book, paths[n - 1], content, title);
    let gap = before_chapter(book.text).skip(book.text.len() as int);
    let section = after.sections.last();
    if book.text.len() > 0 {
        lemma_two_feeds(book.text);
        assert(gap =~= seq!['\n', '\n']);
    }
    assert(before_chapter(book.text) =~= book.text + gap);
    assert(after.text == book.text + gap + content.text);
    assert(after.text =~= book.text + (gap + content.text));
    assert(after.sections == book.sections.push(section));
    lemma_tiles_with(book.text, book.sections, gap, content.text, section);
    assert(section_is_file(after.text, section, archive, paths, book_title, n - 1));
    lemma_files_with(
        book.text,
        book.sections,
        gap + content.text,
        section,
        archive,
        paths,
        book_title,
        n,
    );
}

proof fn lemma_sections(
    archive: ArchiveModel,
    paths: Seq<Seq<char>>,
    book_title: Option<Seq<char>>,
    text_limit: int,
    n: int,
)
    requires
        0 <= n,
    ensures
        assembled(archive, paths, book_title, text_limit, n).0 matches Ok(book) ==> {
            &&& assembled(archive, paths, book_title, text_limit, n).1 == archive_after(
                archive,
                paths,
                n,
            )
            &&& sections_tile(book.text, book.sections)
            &&& sections_are_files(book.text, book.sections, archive, paths, book_title, n)
            &&& book.text.len() > 0 ==> !is_space(book.text.last())
            &&& book.text.len() > 0 <==> book.sections.len() > 0
        },
    decreases n,
{
    if n > 0 {
        lemma_sections(archive, paths, book_title, text_limit, n - 1);
        let (before, open) = assembled(archive, paths, book_title, text_limit, n - 1);
        if let Ok(book) = before {
            let (read, budget) = read_outcome(open, paths[n - 1], open.budget);
            if let Ok(Some(source)) = read {
                let content = rendered(source);
                assert(content_of(archive, paths, n - 1) == Some(content));
                if trimmed(content.text).len() > 0 {
                    lemma_content_ends(source);
                    if content.text.len() == 0 {
                        assert(trimmed_start(content.text) =~= content.text);
                        lemma_trimmed_end(content.text);
                    }
                    lemma_one_more(book, archive, paths, book_title, content, n);
                }
            }
        }
    }
}

// ---------------------------------------------------------------------------------------
// Laws
// ---------------------------------------------------------------------------------------

/// The files that have any text: they stand in the order in which they are read, each once,
/// and every file that has any text is among them.
pub proof fn law_files_with_text(archive: ArchiveModel, paths: Seq<Seq<char>>, n: int)
    ensures
        ({
            let files = files_with_text(archive, paths, n);
            &&& forall|i: int|
                0 <= i < files.len() ==> 0 <= #[trigger] files[i] < n && has_text(
                    archive,
                    paths,
                    files[i],
                )
            &&& forall|i: int, j: int|
                0 <= i < j < files.len() ==> #[trigger] files[i] < #[trigger] files[j]
            &&& forall|k: int|
                0 <= k < n && #[trigger] has_text(archive, paths, k) ==> files.contains(k)
        }),
    decreases n,
{
    if n > 0 {
        law_files_with_text(archive, paths, n - 1);
        let before = files_with_text(archive, paths, n - 1);
        let files = files_with_text(archive, paths, n);
        assert forall|k: int| 0 <= k < n && #[trigger] has_text(archive, paths, k) implies
            files.contains(k) by {
            if k < n - 1 {
                assert(before.contains(k));
                let i = choose|i: int| 0 <= i < before.len() && before[i] == k;
                assert(files[i] == k);
            } else {
                assert(files[files.len() - 1] == k);
            }
        }
    }
}

/// The sections of a book that is put together begin at the start of its text and end at its
/// end, with two line feeds between one and the next. There is one for every file that has any
/// text, in the order in which the files are read, and it has the text of the file.
pub proof fn law_sections_of_files(
    archive: ArchiveModel,
    paths: Seq<Seq<char>>,
    book_title: Option<Seq<char>>,
    text_limit: int,
)
    ensures
        assembly(archive, paths, book_title, text_limit).0 matches Ok(book) ==> {
            &&& book.sections.len() > 0
            &&& sections_tile(book.text, book.sections)
            &&& sections_are_files(
                book.text,
                book.sections,
                archive,
                paths,
                book_title,
                paths.len() as int,
            )
        },
{
    lemma_sections(archive, paths, book_title, text_limit, paths.len() as int);
}

/// The sections of a book with a package file are the files of its spine that have any text,
/// or those of its manifest in the order of their names.
pub proof fn law_sections_with_package(
    archive: ArchiveModel,
    package: PackageModel,
    text_limit: int,
    warnings: Seq<WarningModel>,
)
    ensures
        with_package(archive, package, text_limit, warnings) matches Ok((document, _)) ==> {
            let paths = content_paths(package).0;
            &&& document.sections.len() > 0
            &&& sections_tile(document.text, document.sections)
            &&& sections_are_files(
                document.text,
                document.sections,
                archive,
                paths,
                package.metadata.title,
                paths.len() as int,
            )
        },
{
    law_sections_of_files(
        archive,
        content_paths(package).0,
        package.metadata.title,
        text_limit,
    );
}

/// The sections of a book without a package file are the HTML files of its archive that have
/// any text.
pub proof fn law_sections_without_package(
    archive: ArchiveModel,
    source: SourceModel,
    warnings: Seq<WarningModel>,
)
    ensures
        without_package(archive, source, warnings) matches Ok((document, _)) ==> {
            let paths = html_files_of(archive);
            &&& document.sections.len() > 0
            &&& sections_tile(document.text, document.sections)
            &&& sections_are_files(
                document.text,
                document.sections,
                archive,
                paths,
                Some(default_title(source)),
                paths.len() as int,
            )
        },
{
    law_sections_of_files(
        archive,
        html_files_of(archive),
        Some(default_title(source)),
        archive.budget,
    );
}

/// What holds of the sections of a document.
pub open spec fn sections_hold(document: DocumentModel, format: DocumentFormat) -> bool {
    match format {
        DocumentFormat::Epub => document.sections.len() > 0 && sections_tile(
            document.text,
            document.sections,
        ),
        _ => document.sections.len() == 1 && document.sections[0].start == 0
            && document.sections[0].end == byte_len(document.text),
    }
}

proof fn lemma_without_package(archive: ArchiveModel, source: SourceModel)
    ensures
        forall|warnings: Seq<WarningModel>|
            #[trigger] without_package(archive, source, warnings) matches Ok((document, _))
                ==> sections_hold(document, DocumentFormat::Epub),
{
    assert forall|warnings: Seq<WarningModel>|
        #[trigger] without_package(archive, source, warnings) matches Ok((document, _)) implies
        sections_hold(without_package(archive, source, warnings)->Ok_0.0, DocumentFormat::Epub) by {
        law_sections_without_package(archive, source, warnings);
    }
}

proof fn lemma_package_text(
    archive: ArchiveModel,
    source: SourceModel,
    xml: Seq<char>,
    opf_path: Seq<char>,
    text_limit: int,
    warnings: Seq<WarningModel>,
)
    ensures
        with_package_text(archive, source, xml, opf_path, text_limit, warnings) matches Ok(
            (document, _),
        ) ==> sections_hold(document, DocumentFormat::Epub),
{
    lemma_without_package(archive, source);
    if let Ok(package) = package_result(xml, opf_path) {
        law_sections_with_package(archive, package, text_limit, warnings);
    }
}

proof fn lemma_package_path(
    archive: ArchiveModel,
    source: SourceModel,
    opf_path: Seq<char>,
    text_limit: int,
    warnings: Seq<WarningModel>,
)
    ensures
        with_package_path(archive, source, opf_path, text_limit, warnings) matches Ok(
            (document, _),
        ) ==> sections_hold(document, DocumentFormat::Epub),
{
    let (read, budget) = read_outcome(archive, opf_path, PACKAGE_LIMIT as int);
    let open = ArchiveModel { budget, ..archive };
    lemma_without_package(open, source);
    match read {
        Ok(Some(xml)) => {
            lemma_package_text(open, source, xml, opf_path, text_limit, warnings);
        },
        Ok(None) => {
            if let Some(other) = first_package_of(open) {
                let told = warnings.push(
                    warning(
                        "epub.package_path_recovered"@,
                        "package file "@ + opf_path + " was missing; used "@ + other
                            + " instead"@,
                    ),
                );
                let (again, budget_after) = read_outcome(open, other, PACKAGE_LIMIT as int);
                let after = ArchiveModel { budget: budget_after, ..open };
                if let Ok(Some(xml)) = again {
                    lemma_package_text(after, source, xml, other, text_limit, told);
                }
            }
        },
        Err(_) => {},
    }
}

/// The sections of an EPUB begin at the start of its text and end at its end, with two line
/// feeds between one and the next, and there is at least one.
pub proof fn law_sections_of_an_epub(bytes: Seq<u8>, source: SourceModel, max_text: int)
    ensures
        epub_book(bytes, source, max_text) matches Ok((document, _)) ==> sections_hold(
            document,
            DocumentFormat::Epub,
        ),
{
    if let Ok(listing) = zip_listing(bytes) {
        let archive = ArchiveModel { bytes, names: files_of(listing), budget: max_text };
        let (read, budget) = read_outcome(
            archive,
            "META-INF/container.xml"@,
            CONTAINER_LIMIT as int,
        );
        let open = ArchiveModel { budget, ..archive };
        lemma_without_package(open, source);
        if let Ok(text) = read {
            let named = match text {
                Some(xml) => container_result(xml),
                None => None,
            };
            match (named, first_package_of(open)) {
                (Some(path), _) => {
                    lemma_package_path(open, source, path, max_text, seq![]);
                },
                (None, Some(path)) => {
                    lemma_package_path(
                        open,
                        source,
                        path,
                        max_text,
                        seq![
                            warning(
                                "epub.container_recovered"@,
                                "META-INF/container.xml was missing or invalid; located the OPF package directly"@,
                            ),
                        ],
                    );
                },
                (None, None) => {},
            }
        }
    }
}

/// A plain text and a Markdown file have one section, which is the whole text. The sections of
/// an EPUB are the whole text with two line feeds between one and the next.
pub proof fn law_sections_of_a_document(
    source: SourceModel,
    path: Seq<char>,
    bytes: Seq<u8>,
    options: LoadOptions,
)
    ensures
        loaded_document(source, path, bytes, options) matches Ok(loaded) ==> sections_hold(
            loaded.document,
            loaded.format,
        ),
{
    law_sections_of_an_epub(bytes, source, options.max_text_bytes as int);
}

} // verus!

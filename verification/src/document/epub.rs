//! Reading EPUB books, also where parts of them are missing or wrong.
use vstd::prelude::*;

use crate::document::archive::{
    files_of, first_package_of, html_files_of, read_outcome, zip_listing, ArchiveModel,
    ArchiveReader,
};
use crate::document::assembly::{
    assemble_document, assembly, AssembledDocument, AssembledModel,
};
use crate::document::chapter::{chapter_headings, detect_chapter_headings, toc_views};
use crate::document::navigation::{
    best_of, choose_best, nav_result, ncx_result, parse_nav, parse_ncx, raw_views, resolve,
    resolved, RawTocEntry,
};
use crate::document::package::{
    container_result, package_result, parse_container_path, parse_package, Package, PackageModel,
};
use crate::document::{
    as_str, canonical, default_title, opt_text, titled, warn, warning_views, CanonicalDocument,
    DocumentMetadata, DocumentModel, DocumentSource, LoadError, LoadFault, LoadWarning, SourceModel,
    TocEntry, TocModel, WarningModel,
};
use crate::natural::{sort_names, sorted_names};
use crate::strings::{
    contains_chars, eq_ignore_ascii_case, occurs, push_text, same_ignoring_ascii_case,
};
use crate::text::{chars_of, string_of};
use crate::unicode::string_texts;

verus! {

pub const CONTAINER_LIMIT: usize = 1048576;

pub const PACKAGE_LIMIT: usize = 4194304;

pub const NAVIGATION_LIMIT: usize = 8388608;

/// The bytes with which a ZIP archive begins.
pub open spec fn begins_as_zip(prefix: Seq<u8>) -> bool {
    prefix.len() >= 4 && prefix[0] == 0x50 && prefix[1] == 0x4b && prefix[2] == 3 && prefix[3] == 4
}

/// Whether bytes begin as a ZIP archive does.
pub fn looks_like_zip(prefix: &[u8]) -> (zip: bool)
    ensures
        zip == begins_as_zip(prefix@),
{
    prefix.len() >= 4 && prefix[0] == 0x50 && prefix[1] == 0x4b && prefix[2] == 3 && prefix[3] == 4
}

/// The extension is the given one, whatever its case.
pub open spec fn has_extension(source: SourceModel, extension: Seq<char>) -> bool {
    source.extension matches Some(own) && same_ignoring_ascii_case(own, extension)
}

/// Whether the extension of a source is the given one.
pub fn extension_is(source: &DocumentSource, extension: &str) -> (same: bool)
    ensures
        same == has_extension(source@, extension@),
{
    match source.extension() {
        Some(own) => eq_ignore_ascii_case(&chars_of(own), &chars_of(extension)),
        None => false,
    }
}

/// How sure it is that a file is an EPUB.
pub open spec fn epub_score(source: SourceModel, prefix: Seq<u8>) -> u8 {
    if !begins_as_zip(prefix) {
        0
    } else if has_extension(source, "epub"@) {
        100
    } else {
        70
    }
}

/// How sure it is that a file is an EPUB.
pub fn probe(source: &DocumentSource, prefix: &[u8]) -> (score: u8)
    ensures
        score == epub_score(source@, prefix@),
{
    if !looks_like_zip(prefix) {
        0
    } else if extension_is(source, "epub") {
        100
    } else {
        70
    }
}

/// All entries are at the same place, of which there is more than one; or there are none.
pub open spec fn collapsed_offsets(toc: Seq<TocModel>) -> bool {
    toc.len() != 1 && forall|i: int|
        0 <= i < toc.len() ==> (#[trigger] toc[i]).offset == toc[0].offset
}

/// Whether a table of contents leads to one place only.
pub fn toc_has_collapsed_offsets(toc: &[TocEntry]) -> (collapsed: bool)
    ensures
        collapsed == collapsed_offsets(toc_views(toc@)),
{
    let ghost all = toc_views(toc@);
    if toc.len() <= 1 {
        return toc.len() == 0;
    }
    let first: usize = toc[0].offset;
    let mut i: usize = 0;
    assert(all[0] == toc@[0]@);
    while i < toc.len()
        invariant
            1 < toc@.len(),
            i <= toc.len(),
            all == toc_views(toc@),
            first == all[0].offset,
            forall|j: int| 0 <= j < i ==> (#[trigger] all[j]).offset == first,
        decreases toc.len() - i,
    {
        assert(all[i as int] == toc@[i as int]@);
        if toc[i].offset != first {
            return false;
        }
        i += 1;
    }
    true
}

pub open spec fn warning(code: Seq<char>, message: Seq<char>) -> WarningModel {
    WarningModel { code, message }
}

pub type Loaded = Result<(DocumentModel, Seq<WarningModel>), LoadFault>;

/// A book of which only the HTML files of its archive are known.
pub open spec fn without_package(
    archive: ArchiveModel,
    source: SourceModel,
    warnings: Seq<WarningModel>,
) -> Loaded {
    let paths = html_files_of(archive);
    if paths.len() == 0 {
        Err(LoadFault::InvalidEpub("the archive contains no readable HTML content"@))
    } else {
        let title = default_title(source);
        match assembly(archive, paths, Some(title), archive.budget).0 {
            Err(fault) => Err(fault),
            Ok(book) => {
                let told = warnings.push(
                    warning(
                        "epub.spine_recovered"@,
                        "ordered HTML content by filename because no usable spine was available"@,
                    ),
                ) + book.warnings;
                Ok(
                    (
                        canonical(
                            book.text,
                            titled(title),
                            book.sections,
                            book.headings,
                            book.styles,
                        ),
                        if book.headings.len() > 0 {
                            told.push(
                                warning(
                                    "epub.toc_recovered"@,
                                    "built a table of contents from headings"@,
                                ),
                            )
                        } else {
                            told
                        },
                    ),
                )
            },
        }
    }
}

/// The files that are read, and what is to be told of them.
pub open spec fn content_paths(package: PackageModel) -> (Seq<Seq<char>>, Seq<WarningModel>) {
    if package.spine.len() > 0 {
        (package.spine, seq![])
    } else {
        (
            sorted_names(package.html_items),
            seq![
                warning(
                    "epub.spine_recovered"@,
                    "the EPUB spine was missing or empty; ordered manifest HTML items by filename"@,
                ),
            ],
        )
    }
}

/// The text of a file that need not be there, and the archive after reading it.
pub open spec fn optional_text(archive: ArchiveModel, path: Option<Seq<char>>) -> (
    Option<Seq<char>>,
    ArchiveModel,
) {
    match path {
        Some(name) => {
            let (read, budget) = read_outcome(archive, name, NAVIGATION_LIMIT as int);
            (
                match read {
                    Ok(text) => text,
                    Err(_) => None,
                },
                ArchiveModel { budget, ..archive },
            )
        },
        None => (None, archive),
    }
}

/// The table of contents that the files of a book give, if it is any good.
pub open spec fn declared_toc(
    archive: ArchiveModel,
    package: PackageModel,
    book: AssembledModel,
) -> Seq<TocModel> {
    let (nav, after_nav) = optional_text(archive, package.nav_path);
    let (ncx, _) = optional_text(after_nav, package.ncx_path);
    let nav_raw = match (nav, package.nav_path) {
        (Some(text), Some(path)) => nav_result(text, path),
        _ => seq![],
    };
    let ncx_raw = match (ncx, package.ncx_path) {
        (Some(text), Some(path)) => ncx_result(text, path),
        _ => seq![],
    };
    let best = best_of(resolved(ncx_raw, book), resolved(nav_raw, book));
    if collapsed_offsets(best) {
        seq![]
    } else {
        best
    }
}

/// The table of contents of a book, and what is to be told of it: that of its files, its
/// headings, or the lines that look like headings.
pub open spec fn book_toc(declared: Seq<TocModel>, book: AssembledModel) -> (
    Seq<TocModel>,
    Seq<WarningModel>,
) {
    if declared.len() > 0 {
        (declared, seq![])
    } else if book.headings.len() > 0 {
        (
            book.headings,
            seq![
                warning(
                    "epub.toc_recovered"@,
                    "the EPUB navigation was missing or ambiguous; built a table of contents from headings"@,
                ),
            ],
        )
    } else {
        let found = chapter_headings(book.text);
        (
            found,
            if found.len() > 0 {
                seq![
                    warning(
                        "epub.toc_recovered"@,
                        "the EPUB had no usable navigation; detected chapter headings from text"@,
                    ),
                ]
            } else {
                seq![]
            },
        )
    }
}

/// A book with a package file.
pub open spec fn with_package(
    archive: ArchiveModel,
    package: PackageModel,
    text_limit: int,
    warnings: Seq<WarningModel>,
) -> Loaded {
    let (paths, told) = content_paths(package);
    if paths.len() == 0 {
        Err(LoadFault::InvalidEpub("the archive contains no readable HTML content"@))
    } else {
        let (result, open) = assembly(archive, paths, package.metadata.title, text_limit);
        match result {
            Err(fault) => Err(fault),
            Ok(book) => {
                let (toc, more) = book_toc(declared_toc(open, package, book), book);
                Ok(
                    (
                        canonical(book.text, package.metadata, book.sections, toc, book.styles),
                        warnings + told + book.warnings + more,
                    ),
                )
            },
        }
    }
}

/// A book with the text `xml` of a package file at the path `opf_path`.
pub open spec fn with_package_text(
    archive: ArchiveModel,
    source: SourceModel,
    xml: Seq<char>,
    opf_path: Seq<char>,
    text_limit: int,
    warnings: Seq<WarningModel>,
) -> Loaded {
    match package_result(xml, opf_path) {
        Ok(package) => with_package(archive, package, text_limit, warnings),
        Err(message) => if occurs(message, "fixed-layout"@) {
            Err(LoadFault::InvalidEpub(message))
        } else {
            without_package(
                archive,
                source,
                warnings.push(
                    warning(
                        "epub.package_recovered"@,
                        "the OPF package was invalid ("@ + message
                            + "); recovered HTML files by filename"@,
                    ),
                ),
            )
        },
    }
}

/// A book whose package file should be at the path `opf_path`.
pub open spec fn with_package_path(
    archive: ArchiveModel,
    source: SourceModel,
    opf_path: Seq<char>,
    text_limit: int,
    warnings: Seq<WarningModel>,
) -> Loaded {
    let (read, budget) = read_outcome(archive, opf_path, PACKAGE_LIMIT as int);
    let open = ArchiveModel { budget, ..archive };
    match read {
        Err(fault) => Err(fault),
        Ok(Some(xml)) => with_package_text(open, source, xml, opf_path, text_limit, warnings),
        Ok(None) => match first_package_of(open) {
            Some(other) => {
                let told = warnings.push(
                    warning(
                        "epub.package_path_recovered"@,
                        "package file "@ + opf_path + " was missing; used "@ + other
                            + " instead"@,
                    ),
                );
                let (again, budget_after) = read_outcome(open, other, PACKAGE_LIMIT as int);
                let after = ArchiveModel { budget: budget_after, ..open };
                match again {
                    Err(fault) => Err(fault),
                    Ok(Some(xml)) => with_package_text(
                        after,
                        source,
                        xml,
                        other,
                        text_limit,
                        told,
                    ),
                    Ok(None) => Err(
                        LoadFault::InvalidEpub("package file "@ + other + " is missing"@),
                    ),
                }
            },
            None => without_package(
                open,
                source,
                warnings.push(
                    warning(
                        "epub.package_missing"@,
                        "the declared OPF package was missing; recovered readable HTML files by filename"@,
                    ),
                ),
            ),
        },
    }
}

/// A book in an archive.
pub open spec fn book_in(archive: ArchiveModel, source: SourceModel, text_limit: int) -> Loaded {
    let (read, budget) = read_outcome(
        archive,
        "META-INF/container.xml"@,
        CONTAINER_LIMIT as int,
    );
    let open = ArchiveModel { budget, ..archive };
    match read {
        Err(fault) => Err(fault),
        Ok(text) => {
            let named = match text {
                Some(xml) => container_result(xml),
                None => None,
            };
            match (named, first_package_of(open)) {
                (Some(path), _) => with_package_path(open, source, path, text_limit, seq![]),
                (None, Some(path)) => with_package_path(
                    open,
                    source,
                    path,
                    text_limit,
                    seq![
                        warning(
                            "epub.container_recovered"@,
                            "META-INF/container.xml was missing or invalid; located the OPF package directly"@,
                        ),
                    ],
                ),
                (None, None) => without_package(
                    open,
                    source,
                    seq![
                        warning(
                            "epub.package_missing"@,
                            "the OPF package was missing; recovered readable HTML files by filename"@,
                        ),
                    ],
                ),
            }
        },
    }
}

/// The book of an EPUB file.
pub open spec fn epub_book(bytes: Seq<u8>, source: SourceModel, max_text: int) -> Loaded {
    match zip_listing(bytes) {
        Err(message) => Err(LoadFault::InvalidEpub(message)),
        Ok(listing) => book_in(
            ArchiveModel { bytes, names: files_of(listing), budget: max_text },
            source,
            max_text,
        ),
    }
}

/// A document with its warnings.
pub struct AdapterOutput {
    pub document: CanonicalDocument,
    pub warnings: Vec<LoadWarning>,
}

/// What the result of a loading function says, as a value of the mathematical model.
pub open spec fn loaded_view(result: Result<AdapterOutput, LoadError>) -> Loaded {
    match result {
        Ok(output) => Ok((output.document@, warning_views(output.warnings@))),
        Err(error) => Err(error@),
    }
}

fn extend_warnings(warnings: &mut Vec<LoadWarning>, more: &[LoadWarning])
    ensures
        warning_views(final(warnings)@) == warning_views(old(warnings)@) + warning_views(more@),
{
    let ghost start = warning_views(warnings@);
    let ghost all = warning_views(more@);
    let mut i: usize = 0;
    assert(start + all.take(0) =~= start);
    while i < more.len()
        invariant
            i <= more.len(),
            all == warning_views(more@),
            warning_views(warnings@) == start + all.take(i as int),
        decreases more.len() - i,
    {
        let ghost before = warnings@;
        warnings.push(more[i].clone());
        assert(warning_views(warnings@) =~= warning_views(before).push(all[i as int]));
        assert(all.take(i + 1) =~= all.take(i as int).push(all[i as int]));
        i += 1;
        assert(warning_views(warnings@) =~= start + all.take(i as int));
    }
    assert(all.take(i as int) =~= all);
}

fn load_without_package(
    archive: &mut ArchiveReader<'_>,
    source: &DocumentSource,
    warnings: Vec<LoadWarning>,
) -> (output: Result<AdapterOutput, LoadError>)
    ensures
        loaded_view(output) == without_package(
            old(archive)@,
            source@,
            warning_views(warnings@),
        ),
{
    let mut warnings = warnings;
    let paths = archive.html_files();
    if paths.len() == 0 {
        return Err(
            LoadError::InvalidEpub("the archive contains no readable HTML content".to_owned()),
        );
    }
    warn(
        &mut warnings,
        "epub.spine_recovered",
        "ordered HTML content by filename because no usable spine was available",
    );
    let title = source.default_title();
    let metadata = DocumentMetadata { title: Some(title.clone()), author: None, language: None };
    let text_limit: usize = archive.budget();
    let book = match assemble_document(archive, &paths, Some(title.as_str()), text_limit) {
        Ok(book) => book,
        Err(error) => {
            return Err(error);
        },
    };
    extend_warnings(&mut warnings, &book.warnings);
    if book.heading_toc.len() > 0 {
        warn(&mut warnings, "epub.toc_recovered", "built a table of contents from headings");
    }
    let document = CanonicalDocument::new(
        book.text,
        metadata,
        book.sections,
        book.heading_toc,
        book.styles,
    );
    Ok(AdapterOutput { document, warnings })
}

fn read_optional(archive: &mut ArchiveReader<'_>, path: &Option<String>) -> (text: Option<String>)
    ensures
        opt_text(text) == optional_text(old(archive)@, opt_text(*path)).0,
        final(archive)@ == optional_text(old(archive)@, opt_text(*path)).1,
{
    match path {
        Some(name) => match archive.read_text(name.as_str(), NAVIGATION_LIMIT) {
            Ok(text) => text,
            Err(_) => None,
        },
        None => None,
    }
}

fn find_toc(archive: &mut ArchiveReader<'_>, package: &Package, book: &AssembledDocument) -> (toc:
    Vec<TocEntry>)
    ensures
        toc_views(toc@) == declared_toc(old(archive)@, package@, book@),
{
    let nav = read_optional(archive, &package.nav_path);
    let ncx = read_optional(archive, &package.ncx_path);
    let nav_raw: Vec<RawTocEntry> = match (&nav, &package.nav_path) {
        (Some(text), Some(path)) => parse_nav(text.as_str(), path.as_str()),
        _ => Vec::new(),
    };
    let ncx_raw: Vec<RawTocEntry> = match (&ncx, &package.ncx_path) {
        (Some(text), Some(path)) => parse_ncx(text.as_str(), path.as_str()),
        _ => Vec::new(),
    };
    let ghost nav_model = match (opt_text(nav), opt_text(package.nav_path)) {
        (Some(text), Some(path)) => nav_result(text, path),
        _ => seq![],
    };
    let ghost ncx_model = match (opt_text(ncx), opt_text(package.ncx_path)) {
        (Some(text), Some(path)) => ncx_result(text, path),
        _ => seq![],
    };
    assert(raw_views(nav_raw@) =~= nav_model);
    assert(raw_views(ncx_raw@) =~= ncx_model);
    let best = choose_best(resolve(&ncx_raw, book), resolve(&nav_raw, book));
    if toc_has_collapsed_offsets(&best) {
        let empty: Vec<TocEntry> = Vec::new();
        assert(toc_views(empty@) =~= seq![]);
        empty
    } else {
        best
    }
}

fn load_with_package(
    archive: &mut ArchiveReader<'_>,
    package: Package,
    text_limit: usize,
    warnings: Vec<LoadWarning>,
) -> (output: Result<AdapterOutput, LoadError>)
    ensures
        loaded_view(output) == with_package(
            old(archive)@,
            package@,
            text_limit as int,
            warning_views(warnings@),
        ),
{
    let ghost told = warning_views(warnings@);
    let ghost (all_paths, spine_told) = content_paths(package@);
    let mut warnings = warnings;
    let sorted: Vec<String>;
    let recovered: bool = package.spine.len() == 0;
    if recovered {
        sorted = sort_names(&package.html_items);
        warn(
            &mut warnings,
            "epub.spine_recovered",
            "the EPUB spine was missing or empty; ordered manifest HTML items by filename",
        );
    } else {
        sorted = Vec::new();
    }
    let paths: &Vec<String> = if recovered {
        &sorted
    } else {
        &package.spine
    };
    assert(string_texts(paths@) == all_paths);
    assert(warning_views(warnings@) =~= told + spine_told);
    if paths.len() == 0 {
        return Err(
            LoadError::InvalidEpub("the archive contains no readable HTML content".to_owned()),
        );
    }
    let title = as_str(&package.metadata.title);
    let book = match assemble_document(archive, paths, title, text_limit) {
        Ok(book) => book,
        Err(error) => {
            return Err(error);
        },
    };
    extend_warnings(&mut warnings, &book.warnings);
    let mut toc = find_toc(archive, &package, &book);
    let ghost declared = toc_views(toc@);
    let ghost (final_toc, more) = book_toc(declared, book@);
    let ghost before = warning_views(warnings@);
    if toc.len() == 0 {
        if book.heading_toc.len() > 0 {
            toc = copy_entries(&book.heading_toc);
            warn(
                &mut warnings,
                "epub.toc_recovered",
                "the EPUB navigation was missing or ambiguous; built a table of contents from headings",
            );
        } else {
            toc = detect_chapter_headings(book.text.as_str());
            if toc.len() > 0 {
                warn(
                    &mut warnings,
                    "epub.toc_recovered",
                    "the EPUB had no usable navigation; detected chapter headings from text",
                );
            }
        }
    }
    assert(toc_views(toc@) =~= final_toc);
    assert(warning_views(warnings@) =~= before + more);
    let document = CanonicalDocument::new(
        book.text,
        package.metadata,
        book.sections,
        toc,
        book.styles,
    );
    Ok(AdapterOutput { document, warnings })
}

fn copy_entries(entries: &[TocEntry]) -> (copy: Vec<TocEntry>)
    ensures
        toc_views(copy@) == toc_views(entries@),
{
    let ghost all = toc_views(entries@);
    let mut copy: Vec<TocEntry> = Vec::new();
    let mut i: usize = 0;
    while i < entries.len()
        invariant
            i <= entries.len(),
            all == toc_views(entries@),
            toc_views(copy@) == all.take(i as int),
        decreases entries.len() - i,
    {
        let ghost before = copy@;
        copy.push(entries[i].clone());
        assert(toc_views(copy@) =~= toc_views(before).push(all[i as int]));
        i += 1;
        assert(toc_views(copy@) =~= all.take(i as int));
    }
    assert(all.take(i as int) =~= all);
    copy
}

fn load_package_text(
    archive: &mut ArchiveReader<'_>,
    source: &DocumentSource,
    xml: &str,
    opf_path: &str,
    text_limit: usize,
    warnings: Vec<LoadWarning>,
) -> (output: Result<AdapterOutput, LoadError>)
    ensures
        loaded_view(output) == with_package_text(
            old(archive)@,
            source@,
            xml@,
            opf_path@,
            text_limit as int,
            warning_views(warnings@),
        ),
{
    match parse_package(xml, opf_path) {
        Ok(package) => load_with_package(archive, package, text_limit, warnings),
        Err(message) => {
            if contains_chars(&chars_of(message.as_str()), &chars_of("fixed-layout")) {
                return Err(LoadError::InvalidEpub(message));
            }
            let mut warnings = warnings;
            let mut text: Vec<char> = Vec::new();
            push_text(&mut text, "the OPF package was invalid (");
            push_text(&mut text, message.as_str());
            push_text(&mut text, "); recovered HTML files by filename");
            assert(text@ =~= "the OPF package was invalid ("@ + message@
                + "); recovered HTML files by filename"@);
            warn(&mut warnings, "epub.package_recovered", string_of(&text).as_str());
            load_without_package(archive, source, warnings)
        },
    }
}

fn load_package_path(
    archive: &mut ArchiveReader<'_>,
    source: &DocumentSource,
    opf_path: &str,
    text_limit: usize,
    warnings: Vec<LoadWarning>,
) -> (output: Result<AdapterOutput, LoadError>)
    ensures
        loaded_view(output) == with_package_path(
            old(archive)@,
            source@,
            opf_path@,
            text_limit as int,
            warning_views(warnings@),
        ),
{
    let mut warnings = warnings;
    match archive.read_text(opf_path, PACKAGE_LIMIT) {
        Err(error) => Err(error),
        Ok(Some(xml)) => load_package_text(
            archive,
            source,
            xml.as_str(),
            opf_path,
            text_limit,
            warnings,
        ),
        Ok(None) => match archive.first_package() {
            Some(other) => {
                let mut text: Vec<char> = Vec::new();
                push_text(&mut text, "package file ");
                push_text(&mut text, opf_path);
                push_text(&mut text, " was missing; used ");
                push_text(&mut text, other.as_str());
                push_text(&mut text, " instead");
                assert(text@ =~= "package file "@ + opf_path@ + " was missing; used "@ + other@
                    + " instead"@);
                warn(&mut warnings, "epub.package_path_recovered", string_of(&text).as_str());
                match archive.read_text(other.as_str(), PACKAGE_LIMIT) {
                    Err(error) => Err(error),
                    Ok(Some(xml)) => load_package_text(
                        archive,
                        source,
                        xml.as_str(),
                        other.as_str(),
                        text_limit,
                        warnings,
                    ),
                    Ok(None) => {
                        let mut message: Vec<char> = Vec::new();
                        push_text(&mut message, "package file ");
                        push_text(&mut message, other.as_str());
                        push_text(&mut message, " is missing");
                        assert(message@ =~= "package file "@ + other@ + " is missing"@);
                        Err(LoadError::InvalidEpub(string_of(&message)))
                    },
                }
            },
            None => {
                warn(
                    &mut warnings,
                    "epub.package_missing",
                    "the declared OPF package was missing; recovered readable HTML files by filename",
                );
                load_without_package(archive, source, warnings)
            },
        },
    }
}

/// Reads an EPUB book.
pub fn load(source: &DocumentSource, bytes: &[u8], max_text_bytes: usize) -> (output: Result<
    AdapterOutput,
    LoadError,
>)
    ensures
        loaded_view(output) == epub_book(bytes@, source@, max_text_bytes as int),
{
    let mut archive = match ArchiveReader::new(bytes, max_text_bytes) {
        Ok(archive) => archive,
        Err(error) => {
            return Err(error);
        },
    };
    let named = match archive.read_text("META-INF/container.xml", CONTAINER_LIMIT) {
        Err(error) => {
            return Err(error);
        },
        Ok(Some(xml)) => parse_container_path(xml.as_str()),
        Ok(None) => None,
    };
    let mut warnings: Vec<LoadWarning> = Vec::new();
    assert(warning_views(warnings@) =~= seq![]);
    if let Some(path) = named {
        return load_package_path(&mut archive, source, path.as_str(), max_text_bytes, warnings);
    }
    match archive.first_package() {
        Some(path) => {
            warn(
                &mut warnings,
                "epub.container_recovered",
                "META-INF/container.xml was missing or invalid; located the OPF package directly",
            );
            assert(warning_views(warnings@) =~= seq![
                warning(
                    "epub.container_recovered"@,
                    "META-INF/container.xml was missing or invalid; located the OPF package directly"@,
                ),
            ]);
            load_package_path(&mut archive, source, path.as_str(), max_text_bytes, warnings)
        },
        None => {
            warn(
                &mut warnings,
                "epub.package_missing",
                "the OPF package was missing; recovered readable HTML files by filename",
            );
            assert(warning_views(warnings@) =~= seq![
                warning(
                    "epub.package_missing"@,
                    "the OPF package was missing; recovered readable HTML files by filename"@,
                ),
            ]);
            load_without_package(&mut archive, source, warnings)
        },
    }
}

} // verus!

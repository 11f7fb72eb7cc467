//! What files are taken for, and what their bytes are read as.
use vstd::prelude::*;
use vstd::utf8::{decode_utf8, valid_utf8};

use crate::document::assembly::AssembledModel;
use crate::document::chapter::chapter_headings;
use crate::document::epub::{begins_as_zip, book_toc, content_paths, has_extension};
use crate::document::load::{format_of, PROBE_BYTES};
use crate::document::markdown::has_mark;
use crate::document::package::PackageModel;
use crate::document::txt::{decoded_text, is_binary, is_suspicious, suspicious_count, txt_loaded};
use crate::document::{default_title, DocumentFormat, LoadFault, SourceModel, TocModel};
use crate::encoding::gbk_text;
use crate::natural::sorted_names;
use crate::strings::{is_control_char, law_line_feeds};
use crate::text::{byte_len, least};

verus! {

/// A file that begins as an archive is a book, unless it is named as Markdown; another file is
/// Markdown where its name says so, and plain text where it does not.
pub proof fn law_formats(source: SourceModel, bytes: Seq<u8>)
    ensures
        ({
            let named = has_extension(source, "md"@) || has_extension(source, "markdown"@);
            let txt = has_extension(source, "txt"@);
            &&& begins_as_zip(bytes) && !named ==> format_of(source, bytes) == Some(
                DocumentFormat::Epub,
            )
            &&& !begins_as_zip(bytes) && named && !txt ==> format_of(source, bytes) == Some(
                DocumentFormat::Markdown,
            )
            &&& !begins_as_zip(bytes) && !named ==> format_of(source, bytes) == Some(
                DocumentFormat::Txt,
            )
        }),
{
    let prefix = bytes.take(least(bytes.len() as int, PROBE_BYTES as int));
    assert(begins_as_zip(prefix) == begins_as_zip(bytes));
}

// ---------------------------------------------------------------------------------------
// Plain text
// ---------------------------------------------------------------------------------------

/// Text in UTF-8 is read as it is, without the mark that it may begin with.
pub proof fn law_mark_is_no_text(bytes: Seq<u8>)
    requires
        valid_utf8(bytes),
    ensures
        decoded_text(seq![0xefu8, 0xbb, 0xbf] + bytes) == Ok::<_, LoadFault>(
            (decode_utf8(bytes), false),
        ),
        !has_mark(bytes) ==> decoded_text(bytes) == Ok::<_, LoadFault>((decode_utf8(bytes), false)),
{
    let marked = seq![0xefu8, 0xbb, 0xbf] + bytes;
    assert(marked.skip(3) =~= bytes);
}

/// A text file is one section under the name of the file; its text stays as it is where it has
/// no carriage returns, and its table of contents are its headings.
pub proof fn law_plain_text_is_kept(source: SourceModel, bytes: Seq<u8>, limit: int)
    requires
        valid_utf8(bytes),
        !has_mark(bytes),
        !decode_utf8(bytes).contains('\r'),
    ensures
        ({
            let text = decode_utf8(bytes);
            let loaded = txt_loaded(source, bytes, limit);
            &&& byte_len(text) > limit ==> loaded is Err && loaded->Err_0 == (
            LoadFault::TextTooLarge { limit })
            &&& byte_len(text) <= limit && is_binary(text) ==> loaded is Err && loaded->Err_0
                == LoadFault::UnsupportedFormat(source.path)
            &&& byte_len(text) <= limit && !is_binary(text) ==> {
                &&& loaded is Ok
                &&& loaded->Ok_0.0.text == text
                &&& loaded->Ok_0.0.metadata.title == Some(default_title(source))
                &&& loaded->Ok_0.0.metadata.author is None
                &&& loaded->Ok_0.1.len() == 0
            }
        }),
{
    law_line_feeds(decode_utf8(bytes));
}

/// What is no UTF-8 is read as GB18030, and that is told; what is not that either is refused.
pub proof fn law_other_encoding(source: SourceModel, bytes: Seq<u8>, limit: int)
    requires
        !valid_utf8(bytes),
        !has_mark(bytes),
        gbk_text(bytes).1 || !gbk_text(bytes).0.contains('\r'),
    ensures
        ({
            let (text, broken) = gbk_text(bytes);
            let loaded = txt_loaded(source, bytes, limit);
            &&& broken ==> loaded is Err && loaded->Err_0 == LoadFault::InvalidTextEncoding
            &&& !broken && byte_len(text) <= limit && !is_binary(text) ==> {
                &&& loaded is Ok
                &&& loaded->Ok_0.0.text == text
                &&& loaded->Ok_0.1.len() == 1
                &&& loaded->Ok_0.1[0].code == "txt.gb18030"@
            }
        }),
{
    law_line_feeds(gbk_text(bytes).0);
}

/// A control character that is no line feed, carriage return or tabulator.
pub open spec fn is_strange(c: char) -> bool {
    is_control_char(c) && !"\n\r\t"@.contains(c)
}

proof fn lemma_strange(c: char)
    ensures
        is_strange(c) == is_suspicious(c),
{
    reveal_strlit("\n\r\t");
    let kept = "\n\r\t"@;
    assert(kept[0] == '\n' && kept[1] == '\r' && kept[2] == '\t');
}

proof fn lemma_strange_count(s: Seq<char>)
    ensures
        suspicious_count(s) == s.filter(|c: char| is_strange(c)).len(),
    decreases s.len(),
{
    reveal(Seq::filter);
    if s.len() > 0 {
        lemma_strange_count(s.drop_last());
        lemma_strange(s.last());
    }
}

/// A text with the character zero is no text, and neither is one of whose first characters more
/// than one in twenty are strange; every other is.
pub proof fn law_text_is_no_data(s: Seq<char>)
    ensures
        ({
            let first = s.take(least(s.len() as int, 4096));
            is_binary(s) <==> s.contains('\0') || first.filter(|c: char| is_strange(c)).len() * 20
                > first.len()
        }),
{
    lemma_strange_count(s.take(least(s.len() as int, 4096)));
}

// ---------------------------------------------------------------------------------------
// Books
// ---------------------------------------------------------------------------------------

/// A book is read in the order of its spine; without one its files are read by their names, and
/// that is told.
pub proof fn law_files_of_a_book(package: PackageModel)
    ensures
        package.spine.len() > 0 ==> content_paths(package).0 == package.spine && content_paths(
            package,
        ).1.len() == 0,
        package.spine.len() == 0 ==> content_paths(package).0 == sorted_names(package.html_items)
            && content_paths(package).1.len() == 1 && content_paths(package).1[0].code
            == "epub.spine_recovered"@,
{
}

/// The table of contents of a book is the one that it declares; without one its headings are
/// taken, and without any the lines that look like headings. What is made up is told.
pub proof fn law_table_of_a_book(declared: Seq<TocModel>, book: AssembledModel)
    ensures
        ({
            let (toc, told) = book_toc(declared, book);
            let found = chapter_headings(book.text);
            &&& declared.len() > 0 ==> toc == declared && told.len() == 0
            &&& declared.len() == 0 && book.headings.len() > 0 ==> toc == book.headings
                && told.len() == 1 && told[0].code == "epub.toc_recovered"@
            &&& declared.len() == 0 && book.headings.len() == 0 && found.len() > 0 ==> toc == found
                && told.len() == 1 && told[0].code == "epub.toc_recovered"@
            &&& declared.len() == 0 && book.headings.len() == 0 && found.len() == 0 ==> toc.len()
                == 0 && told.len() == 0
        }),
{
}

} // verus!

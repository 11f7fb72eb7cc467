//! Plain text documents.
use vstd::prelude::*;
use vstd::utf8::{decode_utf8, valid_utf8};

use crate::document::chapter::{chapter_headings, detect_chapter_headings};
use crate::document::epub::{
    begins_as_zip, extension_is, has_extension, loaded_view, looks_like_zip, AdapterOutput, Loaded,
};
use crate::document::markdown::{marked_text, without_mark};
use crate::document::{
    default_title, plain, plain_document, titled, warn, warning_views, DocumentMetadata,
    DocumentSource, LoadError, LoadFault, LoadWarning, SourceModel, WarningModel,
};
use crate::encoding::{gbk_text, gbk_text_of};
use crate::strings::{
    contains_char, is_control, is_control_char, normalise_newlines, with_line_feeds,
};
use crate::text::{byte_len, byte_length, chars_of, least};

verus! {

/// The number of characters by which a text is judged.
pub const SAMPLE_CHARS: usize = 4096;

/// How sure it is that a file is plain text.
pub open spec fn txt_score(source: SourceModel, prefix: Seq<u8>) -> u8 {
    if begins_as_zip(prefix) {
        0
    } else if has_extension(source, "txt"@) {
        90
    } else if valid_utf8(without_mark(prefix)) {
        40
    } else {
        10
    }
}

/// How sure it is that a file is plain text.
pub fn probe(source: &DocumentSource, prefix: &[u8]) -> (score: u8)
    ensures
        score == txt_score(source@, prefix@),
{
    if looks_like_zip(prefix) {
        0
    } else if extension_is(source, "txt") {
        90
    } else if marked_text(prefix).is_some() {
        40
    } else {
        10
    }
}

/// The text of a file and whether it was decoded as GB18030, which is done where the file is
/// no UTF-8.
pub open spec fn decoded_text(bytes: Seq<u8>) -> Result<(Seq<char>, bool), LoadFault> {
    if valid_utf8(without_mark(bytes)) {
        Ok((decode_utf8(without_mark(bytes)), false))
    } else if gbk_text(bytes).1 {
        Err(LoadFault::InvalidTextEncoding)
    } else {
        Ok((gbk_text(bytes).0, true))
    }
}

/// Decodes the text of a file.
pub fn decode(bytes: &[u8]) -> (text: Result<(String, bool), LoadError>)
    requires
        bytes@.len() <= usize::MAX / 16,
    ensures
        match text {
            Ok((decoded, fallback)) => decoded_text(bytes@) == Ok::<_, LoadFault>(
                (decoded@, fallback),
            ),
            Err(error) => decoded_text(bytes@) == Err::<(Seq<char>, bool), _>(error@),
        },
{
    if let Some(text) = marked_text(bytes) {
        return Ok((text, false));
    }
    let (text, had_errors) = gbk_text_of(bytes);
    if had_errors {
        Err(LoadError::InvalidTextEncoding)
    } else {
        Ok((text, true))
    }
}

pub open spec fn is_suspicious(c: char) -> bool {
    is_control_char(c) && c != '\n' && c != '\r' && c != '\t'
}

pub open spec fn suspicious_count(s: Seq<char>) -> nat
    decreases s.len(),
{
    if s.len() == 0 {
        0
    } else {
        suspicious_count(s.drop_last()) + (if is_suspicious(s.last()) {
            1nat
        } else {
            0
        })
    }
}

/// The text holds the character zero, or more than one in twenty of its first characters are
/// control characters.
pub open spec fn is_binary(s: Seq<char>) -> bool {
    let sample = s.take(least(s.len() as int, SAMPLE_CHARS as int));
    s.contains('\0') || suspicious_count(sample) * 20 > sample.len()
}

/// Whether a text is rather some other data.
pub fn looks_binary(text: &str) -> (binary: bool)
    ensures
        binary == is_binary(text@),
{
    let characters = chars_of(text);
    if contains_char(&characters, '\0') {
        return true;
    }
    let total: usize = if characters.len() < SAMPLE_CHARS {
        characters.len()
    } else {
        SAMPLE_CHARS
    };
    let mut suspicious: usize = 0;
    let mut i: usize = 0;
    while i < total
        invariant
            i <= total <= characters@.len(),
            total <= SAMPLE_CHARS,
            suspicious <= i,
            suspicious == suspicious_count(characters@.take(i as int)),
        decreases total - i,
    {
        assert(characters@.take(i + 1).drop_last() =~= characters@.take(i as int));
        let c = characters[i];
        if is_control(c) && c != '\n' && c != '\r' && c != '\t' {
            suspicious += 1;
        }
        i += 1;
    }
    suspicious * 20 > total
}

/// What a decoded text is loaded as.
pub open spec fn text_loaded(
    source: SourceModel,
    decoded: Seq<char>,
    fallback: bool,
    limit: int,
) -> Loaded {
    let text = with_line_feeds(decoded);
    let title = default_title(source);
    if byte_len(text) > limit {
        Err(LoadFault::TextTooLarge { limit })
    } else if is_binary(text) {
        Err(LoadFault::UnsupportedFormat(source.path))
    } else {
        Ok(
            (
                plain(text, titled(title), title, chapter_headings(text)),
                if fallback {
                    seq![
                        WarningModel {
                            code: "txt.gb18030"@,
                            message: "TXT was decoded as GB18030 because it was not valid UTF-8"@,
                        },
                    ]
                } else {
                    seq![]
                },
            ),
        )
    }
}

/// What the bytes of a plain text file are loaded as.
pub open spec fn txt_loaded(source: SourceModel, bytes: Seq<u8>, limit: int) -> Loaded {
    match decoded_text(bytes) {
        Ok((decoded, fallback)) => text_loaded(source, decoded, fallback, limit),
        Err(fault) => Err(fault),
    }
}

/// Makes a document of a decoded text.
pub fn load_text(
    source: &DocumentSource,
    decoded: &str,
    fallback: bool,
    max_text_bytes: usize,
) -> (output: Result<AdapterOutput, LoadError>)
    ensures
        loaded_view(output) == text_loaded(source@, decoded@, fallback, max_text_bytes as int),
{
    let text = normalise_newlines(decoded);
    if byte_length(text.as_str()) > max_text_bytes {
        return Err(LoadError::TextTooLarge { limit: max_text_bytes });
    }
    if looks_binary(text.as_str()) {
        return Err(LoadError::UnsupportedFormat(source.path().to_owned()));
    }
    let title = source.default_title();
    let metadata = DocumentMetadata { title: Some(title.clone()), author: None, language: None };
    let mut warnings: Vec<LoadWarning> = Vec::new();
    assert(warning_views(warnings@) =~= seq![]);
    if fallback {
        warn(
            &mut warnings,
            "txt.gb18030",
            "TXT was decoded as GB18030 because it was not valid UTF-8",
        );
    }
    let toc = detect_chapter_headings(text.as_str());
    let document = plain_document(text, metadata, title, toc);
    Ok(AdapterOutput { document, warnings })
}

/// Loads a plain text file.
pub fn load(source: &DocumentSource, bytes: &[u8], max_text_bytes: usize) -> (output: Result<
    AdapterOutput,
    LoadError,
>)
    requires
        bytes@.len() <= usize::MAX / 16,
    ensures
        loaded_view(output) == txt_loaded(source@, bytes@, max_text_bytes as int),
{
    match decode(bytes) {
        Ok((decoded, fallback)) => load_text(source, decoded.as_str(), fallback, max_text_bytes),
        Err(error) => Err(error),
    }
}

} // verus!

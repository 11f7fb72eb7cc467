//! Loading a file of any of the formats.
use vstd::prelude::*;

use crate::document::epub::{epub_book, epub_score, AdapterOutput, Loaded};
use crate::document::markdown::{markdown_loaded, markdown_score};
use crate::document::txt::{txt_loaded, txt_score};
use crate::document::{
    epub, markdown, txt, warning_views, CanonicalDocument, DocumentFormat, DocumentModel,
    DocumentSource, LoadError, LoadFault, LoadOptions, LoadWarning, SourceModel, WarningModel,
};
use crate::encoding::{blake3_hex, blake3_hex_of};
use crate::text::least;

verus! {

/// The number of bytes by which the format of a file is judged.
pub const PROBE_BYTES: usize = 4096;

/// A document with the file that it was read from.
#[derive(Debug)]
pub struct LoadedDocument {
    path: String,
    fingerprint: String,
    format: DocumentFormat,
    document: CanonicalDocument,
    warnings: Vec<LoadWarning>,
}

/// A loaded document, as a value of the mathematical model.
#[verifier::ext_equal]
pub struct LoadedModel {
    pub path: Seq<char>,
    pub fingerprint: Seq<char>,
    pub format: DocumentFormat,
    pub document: DocumentModel,
    pub warnings: Seq<WarningModel>,
}

impl View for LoadedDocument {
    type V = LoadedModel;

    closed spec fn view(&self) -> LoadedModel {
        LoadedModel {
            path: self.path@,
            fingerprint: self.fingerprint@,
            format: self.format,
            document: self.document@,
            warnings: warning_views(self.warnings@),
        }
    }
}

impl LoadedDocument {
    pub fn path(&self) -> (path: &str)
        ensures
            path@ == self@.path,
    {
        self.path.as_str()
    }

    pub fn fingerprint(&self) -> (fingerprint: &str)
        ensures
            fingerprint@ == self@.fingerprint,
    {
        self.fingerprint.as_str()
    }

    pub fn format(&self) -> (format: DocumentFormat)
        ensures
            format == self@.format,
    {
        self.format
    }

    pub fn document(&self) -> (document: &CanonicalDocument)
        ensures
            document@ == self@.document,
    {
        &self.document
    }

    pub fn warnings(&self) -> (warnings: &[LoadWarning])
        ensures
            warning_views(warnings@) == self@.warnings,
    {
        self.warnings.as_slice()
    }
}

/// The format with the greatest score, and of several the one that is looked for last.
pub open spec fn best_format(epub: u8, markdown: u8, txt: u8) -> Option<DocumentFormat> {
    if epub == 0 && markdown == 0 && txt == 0 {
        None
    } else if txt >= markdown && txt >= epub {
        Some(DocumentFormat::Txt)
    } else if markdown >= epub {
        Some(DocumentFormat::Markdown)
    } else {
        Some(DocumentFormat::Epub)
    }
}

/// The format of a file.
pub open spec fn format_of(source: SourceModel, bytes: Seq<u8>) -> Option<DocumentFormat> {
    let prefix = bytes.take(least(bytes.len() as int, PROBE_BYTES as int));
    best_format(epub_score(source, prefix), markdown_score(source), txt_score(source, prefix))
}

/// The format of a file.
pub fn detect_format(source: &DocumentSource, bytes: &[u8]) -> (format: Option<DocumentFormat>)
    ensures
        format == format_of(source@, bytes@),
{
    let length: usize = if bytes.len() < PROBE_BYTES {
        bytes.len()
    } else {
        PROBE_BYTES
    };
    let prefix = vstd::slice::slice_subrange(bytes, 0, length);
    assert(prefix@ =~= bytes@.take(length as int));
    let epub: u8 = epub::probe(source, prefix);
    let markdown: u8 = markdown::probe(source);
    let txt: u8 = txt::probe(source, prefix);
    if epub == 0 && markdown == 0 && txt == 0 {
        None
    } else if txt >= markdown && txt >= epub {
        Some(DocumentFormat::Txt)
    } else if markdown >= epub {
        Some(DocumentFormat::Markdown)
    } else {
        Some(DocumentFormat::Epub)
    }
}

/// Whether a file of the given number of bytes may be read.
pub fn check_input_length(source: &DocumentSource, length: u64, options: &LoadOptions) -> (result:
    Result<(), LoadError>)
    ensures
        match result {
            Ok(_) => length <= options.max_input_bytes,
            Err(error) => length > options.max_input_bytes && error@
                == (LoadFault::InputTooLarge {
                path: source@.path,
                limit: options.max_input_bytes as int,
            }),
        },
{
    if length > options.max_input_bytes as u64 {
        Err(
            LoadError::InputTooLarge {
                path: source.path().to_owned(),
                limit: options.max_input_bytes,
            },
        )
    } else {
        Ok(())
    }
}

/// What a file of a known format is loaded as.
pub open spec fn loaded_as(
    format: DocumentFormat,
    source: SourceModel,
    bytes: Seq<u8>,
    limit: int,
) -> Loaded {
    match format {
        DocumentFormat::Epub => epub_book(bytes, source, limit),
        DocumentFormat::Markdown => markdown_loaded(source, bytes, limit),
        DocumentFormat::Txt => txt_loaded(source, bytes, limit),
    }
}

/// What a file is loaded as, under the path by which it is known from then on.
pub open spec fn loaded_document(
    source: SourceModel,
    path: Seq<char>,
    bytes: Seq<u8>,
    options: LoadOptions,
) -> Result<LoadedModel, LoadFault> {
    if bytes.len() > options.max_input_bytes {
        Err(
            LoadFault::InputTooLarge {
                path: source.path,
                limit: options.max_input_bytes as int,
            },
        )
    } else {
        match format_of(source, bytes) {
            None => Err(LoadFault::UnsupportedFormat(source.path)),
            Some(format) => match loaded_as(format, source, bytes, options.max_text_bytes as int) {
                Err(fault) => Err(fault),
                Ok((document, warnings)) => Ok(
                    LoadedModel {
                        path,
                        fingerprint: blake3_hex(bytes),
                        format,
                        document,
                        warnings,
                    },
                ),
            },
        }
    }
}

pub open spec fn document_view(result: Result<LoadedDocument, LoadError>) -> Result<
    LoadedModel,
    LoadFault,
> {
    match result {
        Ok(document) => Ok(document@),
        Err(error) => Err(error@),
    }
}

/// Loads the bytes of a file.
pub fn load_document(
    source: &DocumentSource,
    path: String,
    bytes: &[u8],
    options: LoadOptions,
) -> (result: Result<LoadedDocument, LoadError>)
    requires
        bytes@.len() <= usize::MAX / 16,
    ensures
        document_view(result) == loaded_document(source@, path@, bytes@, options),
        result matches Ok(loaded) ==> loaded@.fingerprint.len() == 64,
{
    match check_input_length(source, bytes.len() as u64, &options) {
        Ok(_) => {},
        Err(error) => {
            return Err(error);
        },
    }
    let format = match detect_format(source, bytes) {
        Some(format) => format,
        None => {
            return Err(LoadError::UnsupportedFormat(source.path().to_owned()));
        },
    };
    let output = match format {
        DocumentFormat::Epub => epub::load(source, bytes, options.max_text_bytes),
        DocumentFormat::Markdown => markdown::load(source, bytes, options.max_text_bytes),
        DocumentFormat::Txt => txt::load(source, bytes, options.max_text_bytes),
    };
    match output {
        Ok(output) => {
            let AdapterOutput { document, warnings } = output;
            Ok(
                LoadedDocument {
                    path,
                    fingerprint: blake3_hex_of(bytes),
                    format,
                    document,
                    warnings,
                },
            )
        },
        Err(error) => Err(error),
    }
}

/// Every file has a format, whatever its bytes and its name: what is no book otherwise is
/// taken for plain text.
pub proof fn law_every_file_has_a_format(source: SourceModel, bytes: Seq<u8>)
    ensures
        format_of(source, bytes) is Some,
{
}

/// A loaded document is under the path that was asked for, has the fingerprint of its bytes,
/// and was not too large.
pub proof fn law_loaded_document(
    source: SourceModel,
    path: Seq<char>,
    bytes: Seq<u8>,
    options: LoadOptions,
)
    ensures
        loaded_document(source, path, bytes, options) matches Ok(loaded) ==> {
            &&& loaded.path == path
            &&& loaded.fingerprint == blake3_hex(bytes)
            &&& bytes.len() <= options.max_input_bytes
            &&& format_of(source, bytes) == Some(loaded.format)
        },
{
}

} // verus!

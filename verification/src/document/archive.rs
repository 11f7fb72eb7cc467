//! The files of an EPUB archive: their names and their text.
use std::io::{Cursor, Read};

use percent_encoding::percent_decode_str;
use vstd::prelude::*;
use zip::ZipArchive;

use crate::document::{LoadError, LoadFault};
use crate::encoding::{lossy_text, lossy_text_of};
use crate::natural::{sort_names, sorted_names};
use crate::strings::{
    ascii_lower_all, contains_char, ends, ends_with_text, find_char, is_text, join, join_parts,
    lemma_texts_push, lower_all, position, split, split_on, texts,
};
use crate::text::{chars_of, copy_range, least, same_text, string_of};
use crate::unicode::string_texts;

verus! {

// ---------------------------------------------------------------------------------------
// Paths within the archive
// ---------------------------------------------------------------------------------------

/// `s` with slashes for its backslashes.
pub open spec fn slashed(s: Seq<char>) -> Seq<char> {
    Seq::new(
        s.len(),
        |i: int|
            if s[i] == '\\' {
                '/'
            } else {
                s[i]
            },
    )
}

fn with_slashes(characters: &[char]) -> (result: Vec<char>)
    ensures
        result@ == slashed(characters@),
{
    let mut result: Vec<char> = Vec::new();
    let mut i: usize = 0;
    while i < characters.len()
        invariant
            i <= characters.len(),
            result@ == slashed(characters@).take(i as int),
        decreases characters.len() - i,
    {
        result.push(
            if characters[i] == '\\' {
                '/'
            } else {
                characters[i]
            },
        );
        i += 1;
        assert(result@ =~= slashed(characters@).take(i as int));
    }
    assert(slashed(characters@).take(i as int) =~= slashed(characters@));
    result
}

/// The directories after one more part of a path, unless it leads out of the archive.
pub open spec fn path_step(stack: Seq<Seq<char>>, part: Seq<char>) -> Option<Seq<Seq<char>>> {
    if part.len() == 0 || part == "."@ {
        Some(stack)
    } else if part == ".."@ {
        if stack.len() == 0 {
            None
        } else {
            Some(stack.drop_last())
        }
    } else {
        Some(stack.push(part))
    }
}

/// The path of the given parts; what leads out of the archive is ignored.
pub open spec fn lenient_path(parts: Seq<Seq<char>>) -> Seq<Seq<char>>
    decreases parts.len(),
{
    if parts.len() == 0 {
        seq![]
    } else {
        let before = lenient_path(parts.drop_last());
        match path_step(before, parts.last()) {
            Some(stack) => stack,
            None => before,
        }
    }
}

/// The path of the given parts below `base`, unless it leads out of the archive.
pub open spec fn strict_path(base: Seq<Seq<char>>, parts: Seq<Seq<char>>) -> Option<
    Seq<Seq<char>>,
>
    decreases parts.len(),
{
    if parts.len() == 0 {
        Some(base)
    } else {
        match strict_path(base, parts.drop_last()) {
            Some(before) => path_step(before, parts.last()),
            None => None,
        }
    }
}

/// The name by which a file of the archive is known.
pub open spec fn archive_name(name: Seq<char>) -> Seq<char> {
    join(lenient_path(split(slashed(name), '/')), "/"@)
}

/// The parts that are not empty.
pub open spec fn non_empty(parts: Seq<Seq<char>>) -> Seq<Seq<char>>
    decreases parts.len(),
{
    if parts.len() == 0 {
        seq![]
    } else if parts.last().len() == 0 {
        non_empty(parts.drop_last())
    } else {
        non_empty(parts.drop_last()).push(parts.last())
    }
}

/// One more part of a path; false where it leads out of the archive.
fn step(stack: &mut Vec<Vec<char>>, part: &[char]) -> (inside: bool)
    ensures
        match path_step(texts(old(stack)@), part@) {
            Some(after) => inside && texts(final(stack)@) == after,
            None => !inside && texts(final(stack)@) == texts(old(stack)@),
        },
{
    proof {
        reveal_strlit("");
    }
    if part.len() == 0 || is_text(part, ".") {
        true
    } else if is_text(part, "..") {
        if stack.len() == 0 {
            false
        } else {
            stack.pop();
            assert(texts(stack@) =~= texts(old(stack)@).drop_last());
            true
        }
    } else {
        let copy = copy_range(part, 0, part.len());
        assert(copy@ =~= part@);
        proof {
            lemma_texts_push(stack@, copy);
        }
        stack.push(copy);
        true
    }
}

/// The name by which a file of the archive is known.
pub fn normalise_archive_name(name: &str) -> (result: String)
    ensures
        result@ == archive_name(name@),
{
    let characters = with_slashes(&chars_of(name));
    let parts = split_on(&characters, '/');
    let ghost all = texts(parts@);
    let mut stack: Vec<Vec<char>> = Vec::new();
    let mut i: usize = 0;
    assert(texts(stack@) =~= seq![]);
    while i < parts.len()
        invariant
            i <= parts.len(),
            all == texts(parts@),
            texts(stack@) == lenient_path(all.take(i as int)),
        decreases parts.len() - i,
    {
        assert(all.take(i + 1).drop_last() =~= all.take(i as int));
        assert(all.take(i + 1).last() == parts@[i as int]@);
        step(&mut stack, &parts[i]);
        i += 1;
    }
    assert(all.take(i as int) =~= all);
    let separator = chars_of("/");
    let joined = join_parts(&stack, &separator);
    string_of(&joined)
}

/// The path of a decoded reference below `base`, unless it is absolute, has a scheme, leads
/// out of the archive or leads nowhere.
pub open spec fn resolved_path(base: Seq<char>, decoded: Seq<char>) -> Option<Seq<char>> {
    if (decoded.len() > 0 && decoded[0] == '/') || decoded.contains(':') {
        None
    } else {
        match strict_path(non_empty(split(base, '/')), split(slashed(decoded), '/')) {
            Some(parts) => if parts.len() > 0 {
                Some(join(parts, "/"@))
            } else {
                None
            },
            None => None,
        }
    }
}

/// The path of a decoded reference.
pub fn resolve_decoded(base: &str, decoded: &str) -> (path: Option<String>)
    ensures
        crate::document::opt_text(path) == resolved_path(base@, decoded@),
{
    let reference = chars_of(decoded);
    if (reference.len() > 0 && reference[0] == '/') || contains_char(&reference, ':') {
        return None;
    }
    let base_parts = split_on(&chars_of(base), '/');
    let ghost all_base = texts(base_parts@);
    let mut stack: Vec<Vec<char>> = Vec::new();
    let mut i: usize = 0;
    assert(texts(stack@) =~= seq![]);
    while i < base_parts.len()
        invariant
            i <= base_parts.len(),
            all_base == texts(base_parts@),
            texts(stack@) == non_empty(all_base.take(i as int)),
        decreases base_parts.len() - i,
    {
        assert(all_base.take(i + 1).drop_last() =~= all_base.take(i as int));
        assert(all_base.take(i + 1).last() == base_parts@[i as int]@);
        if base_parts[i].len() > 0 {
            let copy = copy_range(&base_parts[i], 0, base_parts[i].len());
            assert(copy@ =~= base_parts@[i as int]@);
            proof {
                lemma_texts_push(stack@, copy);
            }
            stack.push(copy);
        }
        i += 1;
    }
    assert(all_base.take(i as int) =~= all_base);
    let ghost start = texts(stack@);
    let slashes = with_slashes(&reference);
    let parts = split_on(&slashes, '/');
    let ghost all = texts(parts@);
    let mut i: usize = 0;
    while i < parts.len()
        invariant
            i <= parts.len(),
            all == texts(parts@),
            all == split(slashed(decoded@), '/'),
            start == non_empty(split(base@, '/')),
            !(decoded@.len() > 0 && decoded@[0] == '/') && !decoded@.contains(':'),
            strict_path(start, all.take(i as int)) == Some(texts(stack@)),
        decreases parts.len() - i,
    {
        assert(all.take(i + 1).drop_last() =~= all.take(i as int));
        assert(all.take(i + 1).last() == parts@[i as int]@);
        if !step(&mut stack, &parts[i]) {
            proof {
                lemma_strict_none(start, all, i + 1);
            }
            return None;
        }
        i += 1;
    }
    assert(all.take(i as int) =~= all);
    if stack.len() == 0 {
        return None;
    }
    let separator = chars_of("/");
    let joined = join_parts(&stack, &separator);
    Some(string_of(&joined))
}

proof fn lemma_strict_none(base: Seq<Seq<char>>, parts: Seq<Seq<char>>, n: int)
    requires
        0 <= n <= parts.len(),
        strict_path(base, parts.take(n)) is None,
    ensures
        strict_path(base, parts) is None,
    decreases parts.len() - n,
{
    if n < parts.len() {
        assert(parts.take(n + 1).drop_last() =~= parts.take(n));
        lemma_strict_none(base, parts, n + 1);
    } else {
        assert(parts.take(n) =~= parts);
    }
}

/// A reference without its percent-encoding.
pub uninterp spec fn percent_decoded(s: Seq<char>) -> Seq<char>;

/// Calls `percent_encoding::percent_decode_str` and `PercentDecode::decode_utf8_lossy`.
#[verifier::external_body]
pub(crate) fn percent_decoded_of(text: &str) -> (decoded: String)
    ensures
        decoded@ == percent_decoded(text@),
{
    percent_decode_str(text).decode_utf8_lossy().into_owned()
}

/// `s` up to the first `c`.
pub open spec fn until(s: Seq<char>, c: char) -> Seq<char> {
    s.take(position(s, c) as int)
}

fn take_until(characters: &[char], c: char) -> (head: Vec<char>)
    ensures
        head@ == until(characters@, c),
{
    assert(characters@.skip(0) =~= characters@);
    let end: usize = find_char(characters, c, 0);
    let head = copy_range(characters, 0, end);
    assert(head@ =~= characters@.take(end as int));
    head
}

/// The path of a reference of a file in the directory `base`, without query and fragment.
pub open spec fn reference_path(base: Seq<char>, href: Seq<char>) -> Option<Seq<char>> {
    resolved_path(base, percent_decoded(until(until(href, '#'), '?')))
}

/// The path of a reference of a file in the directory `base`.
pub fn normalise_relative_archive_path(base: &str, href: &str) -> (path: Option<String>)
    ensures
        crate::document::opt_text(path) == reference_path(base@, href@),
{
    let head = take_until(&chars_of(href), '#');
    let plain = take_until(&head, '?');
    let decoded = percent_decoded_of(string_of(&plain).as_str());
    resolve_decoded(base, decoded.as_str())
}

/// The index of the last `c`, or -1.
pub open spec fn last_position(s: Seq<char>, c: char) -> int
    decreases s.len(),
{
    if s.len() == 0 {
        -1
    } else if s.last() == c {
        s.len() - 1
    } else {
        last_position(s.drop_last(), c)
    }
}

fn find_last(characters: &[char], c: char) -> (index: Option<usize>)
    ensures
        match index {
            Some(i) => last_position(characters@, c) == i && i < characters@.len(),
            None => last_position(characters@, c) == -1,
        },
{
    let mut n: usize = characters.len();
    assert(characters@.take(n as int) =~= characters@);
    while n > 0
        invariant
            n <= characters.len(),
            last_position(characters@, c) == last_position(characters@.take(n as int), c),
        decreases n,
    {
        assert(characters@.take(n as int).drop_last() =~= characters@.take(n - 1));
        if characters[n - 1] == c {
            return Some(n - 1);
        }
        n -= 1;
    }
    assert(characters@.take(0) =~= seq![]);
    None
}

/// The directory of a file.
pub open spec fn parent_of(path: Seq<char>) -> Seq<char> {
    let i = last_position(path, '/');
    if i < 0 {
        seq![]
    } else {
        path.take(i)
    }
}

/// The directory of a file.
pub fn archive_parent(path: &str) -> (parent: String)
    ensures
        parent@ == parent_of(path@),
{
    let characters = chars_of(path);
    match find_last(&characters, '/') {
        Some(i) => {
            let head = copy_range(&characters, 0, i);
            assert(head@ =~= path@.take(i as int));
            string_of(&head)
        },
        None => {
            let empty: Vec<char> = Vec::new();
            string_of(&empty)
        },
    }
}

/// The name of a file without its extension; the whole path where it has none.
pub open spec fn stem_of(path: Seq<char>) -> Seq<char> {
    let file = path.skip(last_position(path, '/') + 1);
    let dot = last_position(file, '.');
    if dot < 0 {
        path
    } else {
        file.take(dot)
    }
}

/// The name of a file without its extension.
pub fn file_stem(path: &str) -> (stem: String)
    ensures
        stem@ == stem_of(path@),
{
    let characters = chars_of(path);
    let total: usize = characters.len();
    let start: usize = match find_last(&characters, '/') {
        Some(i) => i + 1,
        None => 0,
    };
    let file = copy_range(&characters, start, total);
    assert(file@ =~= path@.skip(start as int));
    match find_last(&file, '.') {
        Some(i) => {
            let stem = copy_range(&file, 0, i);
            assert(stem@ =~= file@.take(i as int));
            string_of(&stem)
        },
        None => path.to_owned(),
    }
}

// ---------------------------------------------------------------------------------------
// The archive
// ---------------------------------------------------------------------------------------

/// The names of the entries of a ZIP archive, with whether each is a directory, or why the
/// bytes are no archive.
pub uninterp spec fn zip_listing(bytes: Seq<u8>) -> Result<Seq<(Seq<char>, bool)>, Seq<char>>;

pub open spec fn listing_views(entries: Seq<(String, bool)>) -> Seq<(Seq<char>, bool)> {
    Seq::new(entries.len(), |i: int| (entries[i].0@, entries[i].1))
}

/// Opens the bytes with `zip::ZipArchive::new` and lists `ZipFile::name` and `ZipFile::is_dir`
/// of `ZipArchive::by_index`; an error becomes its message.
#[verifier::external_body]
pub(crate) fn zip_listing_of(bytes: &[u8]) -> (listing: Result<Vec<(String, bool)>, String>)
    ensures
        match listing {
            Ok(entries) => zip_listing(bytes@) == Ok::<Seq<(Seq<char>, bool)>, Seq<char>>(
                listing_views(entries@),
            ),
            Err(message) => zip_listing(bytes@) == Err::<Seq<(Seq<char>, bool)>, Seq<char>>(
                message@,
            ),
        },
{
    let mut archive = ZipArchive::new(Cursor::new(bytes)).map_err(|error| error.to_string())?;
    let mut entries = Vec::new();
    for index in 0..archive.len() {
        let file = archive.by_index(index).map_err(|error| error.to_string())?;
        let name = file.name().map_err(|error| error.to_string())?.into_owned();
        entries.push((name, file.is_dir()));
    }
    Ok(entries)
}

/// The size that a ZIP archive gives for an entry, or why there is none.
pub uninterp spec fn zip_size(bytes: Seq<u8>, name: Seq<char>) -> Result<u64, Seq<char>>;

/// Opens the bytes with `zip::ZipArchive::new` and returns `ZipFile::size` of
/// `ZipArchive::by_name`; an error becomes its message.
#[verifier::external_body]
pub(crate) fn zip_size_of(bytes: &[u8], name: &str) -> (size: Result<u64, String>)
    ensures
        match size {
            Ok(number) => zip_size(bytes@, name@) == Ok::<u64, Seq<char>>(number),
            Err(message) => zip_size(bytes@, name@) == Err::<u64, Seq<char>>(message@),
        },
{
    let mut archive = ZipArchive::new(Cursor::new(bytes)).map_err(|error| error.to_string())?;
    let size = archive.by_name(name).map(|file| file.size()).map_err(|error| error.to_string());
    size
}

/// At most `limit` bytes of an entry of a ZIP archive, or why they cannot be read.
pub uninterp spec fn zip_content(bytes: Seq<u8>, name: Seq<char>, limit: u64) -> Result<
    Seq<u8>,
    Seq<char>,
>;

/// Opens the bytes with `zip::ZipArchive::new` and reads `ZipArchive::by_name` to its end or
/// to the limit, whichever comes first; an error becomes its message.
#[verifier::external_body]
pub(crate) fn zip_content_of(bytes: &[u8], name: &str, limit: u64) -> (content: Result<
    Vec<u8>,
    String,
>)
    ensures
        match content {
            Ok(data) => zip_content(bytes@, name@, limit) == Ok::<Seq<u8>, Seq<char>>(data@)
                && data@.len() <= limit,
            Err(message) => zip_content(bytes@, name@, limit) == Err::<Seq<u8>, Seq<char>>(
                message@,
            ),
        },
{
    let mut archive = ZipArchive::new(Cursor::new(bytes)).map_err(|error| error.to_string())?;
    let file = archive.by_name(name).map_err(|error| error.to_string())?;
    let mut data = Vec::new();
    file.take(limit).read_to_end(&mut data).map_err(|error| error.to_string())?;
    Ok(data)
}

/// Known names of files with the names under which the archive has them.
pub type Names = Seq<(Seq<char>, Seq<char>)>;

/// The names with one more file; a later file of the same known name takes its place.
pub open spec fn with_file(names: Names, key: Seq<char>, actual: Seq<char>) -> Names
    decreases names.len(),
{
    if names.len() == 0 {
        seq![(key, actual)]
    } else if names[0].0 == key {
        names.update(0, (key, actual))
    } else {
        seq![names[0]] + with_file(names.drop_first(), key, actual)
    }
}

/// The files of a listing.
pub open spec fn files_of(listing: Seq<(Seq<char>, bool)>) -> Names
    decreases listing.len(),
{
    if listing.len() == 0 {
        seq![]
    } else {
        let before = files_of(listing.drop_last());
        if listing.last().1 {
            before
        } else {
            with_file(before, archive_name(listing.last().0), listing.last().0)
        }
    }
}

/// The name under which the archive has a file.
pub open spec fn actual_name(names: Names, key: Seq<char>) -> Option<Seq<char>>
    decreases names.len(),
{
    if names.len() == 0 {
        None
    } else if names[0].0 == key {
        Some(names[0].1)
    } else {
        actual_name(names.drop_first(), key)
    }
}

/// The known names that end with one of the suffixes, whatever their case.
pub open spec fn named_like(names: Names, suffixes: Seq<Seq<char>>) -> Seq<Seq<char>>
    decreases names.len(),
{
    if names.len() == 0 {
        seq![]
    } else {
        let before = named_like(names.drop_last(), suffixes);
        if ends_like(names.last().0, suffixes) {
            before.push(names.last().0)
        } else {
            before
        }
    }
}

/// `s` in lower case ends with one of the suffixes.
pub open spec fn ends_like(s: Seq<char>, suffixes: Seq<Seq<char>>) -> bool {
    exists|i: int| 0 <= i < suffixes.len() && ends(ascii_lower_all(s), #[trigger] suffixes[i])
}

pub open spec fn html_suffixes() -> Seq<Seq<char>> {
    seq![".xhtml"@, ".html"@, ".htm"@]
}

/// Whether a name is that of an HTML file.
pub fn is_html_name(name: &str) -> (html: bool)
    ensures
        html == ends_like(name@, html_suffixes()),
{
    let characters = lower_all(&chars_of(name));
    let ghost all = html_suffixes();
    let result = ends_with_text(&characters, ".xhtml") || ends_with_text(&characters, ".html")
        || ends_with_text(&characters, ".htm");
    proof {
        assert(all[0] == ".xhtml"@ && all[1] == ".html"@ && all[2] == ".htm"@);
        if result {
            if ends(ascii_lower_all(name@), all[0]) {
            } else if ends(ascii_lower_all(name@), all[1]) {
            } else {
                assert(ends(ascii_lower_all(name@), all[2]));
            }
        }
    }
    result
}

/// An open archive, and how much of its text may still be read.
pub struct ArchiveReader<'a> {
    bytes: &'a [u8],
    names: Vec<(String, String)>,
    text_budget_remaining: usize,
}

/// An open archive, as a value of the mathematical model.
#[verifier::ext_equal]
pub struct ArchiveModel {
    pub bytes: Seq<u8>,
    pub names: Names,
    pub budget: int,
}

pub open spec fn name_views(names: Seq<(String, String)>) -> Names {
    Seq::new(names.len(), |i: int| (names[i].0@, names[i].1@))
}

impl<'a> View for ArchiveReader<'a> {
    type V = ArchiveModel;

    closed spec fn view(&self) -> ArchiveModel {
        ArchiveModel {
            bytes: self.bytes@,
            names: name_views(self.names@),
            budget: self.text_budget_remaining as int,
        }
    }
}

/// What reading the text of a file gives, and what may be read after it.
pub open spec fn read_outcome(archive: ArchiveModel, name: Seq<char>, limit: int) -> (
    Result<Option<Seq<char>>, LoadFault>,
    int,
) {
    let budget = archive.budget;
    let allowed = least(limit, budget);
    match actual_name(archive.names, archive_name(name)) {
        None => (Ok(None), budget),
        Some(actual) => match zip_size(archive.bytes, actual) {
            Err(message) => (Err(LoadFault::InvalidEpub(message)), budget),
            Ok(size) => if size > allowed {
                (Err(LoadFault::TextTooLarge { limit: budget }), budget)
            } else {
                match zip_content(
                    archive.bytes,
                    actual,
                    crate::wrap::saturated(allowed + 1) as u64,
                ) {
                    Err(message) => (Err(LoadFault::InvalidEpub(message)), budget),
                    Ok(data) => if data.len() > allowed {
                        (Err(LoadFault::TextTooLarge { limit: budget }), budget)
                    } else {
                        (Ok(Some(lossy_text(data))), budget - data.len())
                    },
                }
            },
        },
    }
}

/// What the result of a reading function says, as a value of the mathematical model.
pub open spec fn read_view(result: Result<Option<String>, LoadError>) -> Result<
    Option<Seq<char>>,
    LoadFault,
> {
    match result {
        Ok(text) => Ok(crate::document::opt_text(text)),
        Err(error) => Err(error@),
    }
}

fn put_name(names: &mut Vec<(String, String)>, key: String, actual: String)
    ensures
        name_views(final(names)@) == with_file(name_views(old(names)@), key@, actual@),
{
    let ghost all = name_views(names@);
    let ghost k = key@;
    let ghost a = actual@;
    let mut i: usize = 0;
    assert(all.skip(0) =~= all);
    assert(all.take(0) + with_file(all, k, a) =~= with_file(all, k, a));
    while i < names.len()
        invariant
            i <= names.len(),
            all == name_views(names@),
            names@ == old(names)@,
            k == key@,
            a == actual@,
            all.take(i as int) + with_file(all.skip(i as int), k, a) == with_file(all, k, a),
        decreases names.len() - i,
    {
        let ghost rest = all.skip(i as int);
        assert(rest[0] == all[i as int]);
        assert(rest.drop_first() =~= all.skip(i + 1));
        if same_text(names[i].0.as_str(), key.as_str()) {
            names.set(i, (key, actual));
            proof {
                assert(all.take(i as int) + rest.update(0, (k, a)) =~= name_views(names@));
            }
            return;
        }
        assert(all.take(i as int) + with_file(rest, k, a) =~= all.take(i + 1) + with_file(
            all.skip(i + 1),
            k,
            a,
        ));
        i += 1;
    }
    names.push((key, actual));
    proof {
        assert(all.skip(i as int) =~= seq![]);
        assert(name_views(names@) =~= all.take(i as int) + seq![(k, a)]);
    }
}

impl<'a> ArchiveReader<'a> {
    /// Opens an archive.
    pub fn new(bytes: &'a [u8], text_budget: usize) -> (archive: Result<Self, LoadError>)
        ensures
            match zip_listing(bytes@) {
                Ok(listing) => archive matches Ok(reader) && reader@ == (ArchiveModel {
                    bytes: bytes@,
                    names: files_of(listing),
                    budget: text_budget as int,
                }),
                Err(message) => archive matches Err(error) && error@ == LoadFault::InvalidEpub(
                    message,
                ),
            },
    {
        let entries = match zip_listing_of(bytes) {
            Ok(entries) => entries,
            Err(message) => {
                return Err(LoadError::InvalidEpub(message));
            },
        };
        let ghost all = listing_views(entries@);
        let mut names: Vec<(String, String)> = Vec::new();
        let mut i: usize = 0;
        assert(name_views(names@) =~= seq![]);
        while i < entries.len()
            invariant
                i <= entries.len(),
                all == listing_views(entries@),
                name_views(names@) == files_of(all.take(i as int)),
            decreases entries.len() - i,
        {
            assert(all.take(i + 1).drop_last() =~= all.take(i as int));
            assert(all.take(i + 1).last() == (entries@[i as int].0@, entries@[i as int].1));
            if !entries[i].1 {
                let key = normalise_archive_name(entries[i].0.as_str());
                put_name(&mut names, key, entries[i].0.clone());
            }
            i += 1;
        }
        assert(all.take(i as int) =~= all);
        Ok(ArchiveReader { bytes, names, text_budget_remaining: text_budget })
    }

    /// How many bytes of text may still be read.
    pub fn budget(&self) -> (budget: usize)
        ensures
            budget == self@.budget,
    {
        self.text_budget_remaining
    }

    /// The first file by name with the extension `.opf`.
    pub fn first_package(&self) -> (name: Option<String>)
        ensures
            crate::document::opt_text(name) == first_package_of(self@),
    {
        let ghost all = self@.names;
        let ghost suffixes = seq![".opf"@];
        let mut matches: Vec<String> = Vec::new();
        let mut i: usize = 0;
        assert(string_texts(matches@) =~= seq![]);
        while i < self.names.len()
            invariant
                i <= self.names.len(),
                all == name_views(self.names@),
                suffixes == seq![".opf"@],
                string_texts(matches@) == named_like(all.take(i as int), suffixes),
            decreases self.names.len() - i,
        {
            assert(all.take(i + 1).drop_last() =~= all.take(i as int));
            assert(all.take(i + 1).last().0 == self.names@[i as int].0@);
            let characters = lower_all(&chars_of(self.names[i].0.as_str()));
            assert(suffixes[0] == ".opf"@);
            if ends_with_text(&characters, ".opf") {
                let ghost before = matches@;
                matches.push(self.names[i].0.clone());
                assert(string_texts(matches@) =~= string_texts(before).push(all[i as int].0));
            }
            i += 1;
        }
        assert(all.take(i as int) =~= all);
        let sorted = sort_names(&matches);
        if sorted.len() == 0 {
            None
        } else {
            assert(string_texts(sorted@)[0] == sorted@[0]@);
            Some(sorted[0].clone())
        }
    }

    /// The HTML files in the natural order of their names.
    pub fn html_files(&self) -> (names: Vec<String>)
        ensures
            string_texts(names@) == html_files_of(self@),
    {
        let ghost all = self@.names;
        let mut matches: Vec<String> = Vec::new();
        let mut i: usize = 0;
        assert(string_texts(matches@) =~= seq![]);
        while i < self.names.len()
            invariant
                i <= self.names.len(),
                all == name_views(self.names@),
                string_texts(matches@) == named_like(all.take(i as int), html_suffixes()),
            decreases self.names.len() - i,
        {
            assert(all.take(i + 1).drop_last() =~= all.take(i as int));
            assert(all.take(i + 1).last().0 == self.names@[i as int].0@);
            if is_html_name(self.names[i].0.as_str()) {
                let ghost before = matches@;
                matches.push(self.names[i].0.clone());
                assert(string_texts(matches@) =~= string_texts(before).push(all[i as int].0));
            }
            i += 1;
        }
        assert(all.take(i as int) =~= all);
        sort_names(&matches)
    }

    /// The name under which the archive has a file.
    fn find(&self, key: &str) -> (name: Option<&str>)
        ensures
            crate::document::opt_str(name) == actual_name(self@.names, key@),
    {
        let ghost all = self@.names;
        let mut i: usize = 0;
        assert(all.skip(0) =~= all);
        while i < self.names.len()
            invariant
                i <= self.names.len(),
                all == name_views(self.names@),
                all == self@.names,
                actual_name(all, key@) == actual_name(all.skip(i as int), key@),
            decreases self.names.len() - i,
        {
            assert(all.skip(i as int)[0] == all[i as int]);
            assert(all.skip(i as int).drop_first() =~= all.skip(i + 1));
            if same_text(self.names[i].0.as_str(), key) {
                return Some(self.names[i].1.as_str());
            }
            i += 1;
        }
        assert(all.skip(i as int) =~= seq![]);
        None
    }

    /// Reads the text of a file of at most `per_file_limit` bytes, if there is such a file.
    pub fn read_text(&mut self, name: &str, per_file_limit: usize) -> (text: Result<
        Option<String>,
        LoadError,
    >)
        ensures
            read_view(text) == read_outcome(old(self)@, name@, per_file_limit as int).0,
            final(self)@ == (ArchiveModel {
                budget: read_outcome(old(self)@, name@, per_file_limit as int).1,
                ..old(self)@
            }),
    {
        let key = normalise_archive_name(name);
        let actual = match self.find(key.as_str()) {
            Some(actual) => actual.to_owned(),
            None => {
                return Ok(None);
            },
        };
        let budget: usize = self.text_budget_remaining;
        let allowed: usize = if per_file_limit <= budget {
            per_file_limit
        } else {
            budget
        };
        match zip_size_of(self.bytes, actual.as_str()) {
            Err(message) => {
                return Err(LoadError::InvalidEpub(message));
            },
            Ok(size) => {
                if size > allowed as u64 {
                    return Err(LoadError::TextTooLarge { limit: budget });
                }
            },
        }
        let most: usize = allowed.saturating_add(1);
        match zip_content_of(self.bytes, actual.as_str(), most as u64) {
            Err(message) => Err(LoadError::InvalidEpub(message)),
            Ok(data) => {
                if data.len() > allowed {
                    return Err(LoadError::TextTooLarge { limit: budget });
                }
                self.text_budget_remaining = budget - data.len();
                Ok(Some(lossy_text_of(&data)))
            },
        }
    }
}

/// The first file by name with the extension `.opf`.
pub open spec fn first_package_of(archive: ArchiveModel) -> Option<Seq<char>> {
    let sorted = sorted_names(named_like(archive.names, seq![".opf"@]));
    if sorted.len() == 0 {
        None
    } else {
        Some(sorted[0])
    }
}

/// The HTML files in the natural order of their names.
pub open spec fn html_files_of(archive: ArchiveModel) -> Seq<Seq<char>> {
    sorted_names(named_like(archive.names, html_suffixes()))
}

/// The parts of a path lead down one after the other. An empty part and a dot lead nowhere, two
/// dots lead up, and a path that leads out of the archive stays without a place in it.
pub proof fn law_parts_of_paths(base: Seq<Seq<char>>, parts: Seq<Seq<char>>, name: Seq<char>)
    requires
        name.len() > 0,
        name != "."@ && name != ".."@,
    ensures
        ({
            let to = |part: Seq<char>| strict_path(base, parts.push(part));
            match strict_path(base, parts) {
                Some(stack) => {
                    &&& to(name) == Some(stack.push(name))
                    &&& to("."@) == Some(stack)
                    &&& to(seq![]) == Some(stack)
                    &&& stack.len() > 0 ==> to(".."@) == Some(stack.drop_last())
                    &&& stack.len() == 0 ==> to(".."@) is None
                },
                None => to(name) is None && to("."@) is None && to(".."@) is None,
            }
        }),
{
    reveal_strlit(".");
    reveal_strlit("..");
    assert(parts.push(name).drop_last() =~= parts);
    assert(parts.push("."@).drop_last() =~= parts);
    assert(parts.push(".."@).drop_last() =~= parts);
    assert(parts.push(seq![]).drop_last() =~= parts);
    assert("."@.len() == 1 && ".."@.len() == 2);
}

proof fn lemma_with_file(names: Names, key: Seq<char>, actual: Seq<char>, other: Seq<char>)
    ensures
        actual_name(with_file(names, key, actual), other) == (if other == key {
            Some(actual)
        } else {
            actual_name(names, other)
        }),
    decreases names.len(),
{
    let all = with_file(names, key, actual);
    if names.len() == 0 {
        assert(all.drop_first() =~= seq![]);
        assert(actual_name(all.drop_first(), other) is None);
    } else if names[0].0 == key {
        assert(all.drop_first() =~= names.drop_first());
    } else {
        lemma_with_file(names.drop_first(), key, actual, other);
        assert(all.drop_first() =~= with_file(names.drop_first(), key, actual));
    }
}

/// A file of an archive is found by its name; of several files of one name the last is found.
/// Directories are no files.
pub proof fn law_files_are_found(listing: Seq<(Seq<char>, bool)>, k: int)
    requires
        0 <= k < listing.len(),
        !listing[k].1,
        forall|j: int|
            k < j < listing.len() && !listing[j].1 ==> archive_name((#[trigger] listing[j]).0)
                != archive_name(listing[k].0),
    ensures
        actual_name(files_of(listing), archive_name(listing[k].0)) == Some(listing[k].0),
    decreases listing.len(),
{
    let less = listing.drop_last();
    let last = listing.last();
    lemma_with_file(files_of(less), archive_name(last.0), last.0, archive_name(listing[k].0));
    if k < listing.len() - 1 {
        assert(less[k] == listing[k]);
        assert(listing[listing.len() - 1] == last);
        assert forall|j: int| k < j < less.len() && !less[j].1 implies archive_name(
            (#[trigger] less[j]).0,
        ) != archive_name(less[k].0) by {
            assert(less[j] == listing[j]);
        }
        law_files_are_found(less, k);
    }
}

} // verus!

//! Finding the headings of chapters in plain text.
use vstd::prelude::*;

use super::{TocEntry, TocModel};
use crate::strings::{
    begins, begins_with_text, is_digit_char, is_ascii_digit, is_space, is_whitespace, position,
    lemma_position, split, split_on, texts, trim_chars, trim_end_chars, trimmed, trimmed_end,
    trimmed_start, count_leading, lemma_leading_spaces,
};
use crate::text::{
    byte_len, byte_length_of, chars_of, copy_range, is_boundary, lemma_byte_len_concat,
    lemma_byte_len_single, offset_at, same_chars, string_of,
};

verus! {

/// A digit, or a Chinese numeral.
pub open spec fn is_number_char(c: char) -> bool {
    is_digit_char(c) || match c {
        '零' | '〇' | '一' | '二' | '三' | '四' | '五' | '六' | '七' | '八' | '九' | '十'
        | '百' | '千' | '万' | '萬' | '壹' | '贰' | '貳' | '叁' | '參' | '肆' | '伍' | '陆'
        | '陸' | '柒' | '捌' | '玖' | '拾' | '佰' | '仟' => true,
        _ => false,
    }
}

fn is_number_character(character: char) -> (number: bool)
    ensures
        number == is_number_char(character),
{
    is_ascii_digit(character) || match character {
        '零' | '〇' | '一' | '二' | '三' | '四' | '五' | '六' | '七' | '八' | '九' | '十'
        | '百' | '千' | '万' | '萬' | '壹' | '贰' | '貳' | '叁' | '參' | '肆' | '伍' | '陆'
        | '陸' | '柒' | '捌' | '玖' | '拾' | '佰' | '仟' => true,
        _ => false,
    }
}

/// The number of characters of a number at the start of `s`.
pub open spec fn number_len(s: Seq<char>) -> nat
    decreases s.len(),
{
    if s.len() > 0 && is_number_char(s[0]) {
        1 + number_len(s.drop_first())
    } else {
        0
    }
}

/// The number of digits at the start of `s`.
pub open spec fn digits_len(s: Seq<char>) -> nat
    decreases s.len(),
{
    if s.len() > 0 && is_digit_char(s[0]) {
        1 + digits_len(s.drop_first())
    } else {
        0
    }
}

/// What may stand between the number of a volume and its title.
pub open spec fn is_boundary_char(c: char) -> bool {
    is_space(c) || match c {
        ':' | '：' | '-' | '—' | '–' | '·' | '、' | '.' | '．' => true,
        _ => false,
    }
}

fn is_heading_boundary(character: char) -> (boundary: bool)
    ensures
        boundary == is_boundary_char(character),
{
    is_whitespace(character) || match character {
        ':' | '：' | '-' | '—' | '–' | '·' | '、' | '.' | '．' => true,
        _ => false,
    }
}

#[derive(Clone, Copy, Debug, PartialEq, Eq, Structural)]
pub enum MarkerKind {
    Volume,
    Chapter,
}

/// A number such as 第一章 at the index `start` of a line, with the index after it.
pub struct MarkerModel {
    pub start: int,
    pub end: int,
    pub unit: char,
    pub kind: MarkerKind,
}

pub open spec fn unit_kind(unit: char) -> Option<MarkerKind> {
    if unit == '卷' || unit == '部' || unit == '集' {
        Some(MarkerKind::Volume)
    } else if unit == '章' || unit == '回' {
        Some(MarkerKind::Chapter)
    } else {
        None
    }
}

/// The marker that stands at the index `start` of a line.
pub open spec fn marker_at(line: Seq<char>, start: int) -> Option<MarkerModel> {
    if 0 <= start < line.len() && line[start] == '第' {
        let n = number_len(line.skip(start + 1)) as int;
        let at = start + 1 + n;
        if n > 0 && at < line.len() {
            match unit_kind(line[at]) {
                Some(kind) => Some(MarkerModel { start, end: at + 1, unit: line[at], kind }),
                None => None,
            }
        } else {
            None
        }
    } else {
        None
    }
}

/// A title follows the number of a volume after a separator only.
pub open spec fn volume_bounded(line: Seq<char>, end: int) -> bool {
    end >= line.len() || is_boundary_char(line[end])
}

/// 第二回合 is no number of a chapter.
pub open spec fn chapter_valid(line: Seq<char>, marker: MarkerModel) -> bool {
    marker.unit != '回' || !(marker.end < line.len() && line[marker.end] == '合')
}

/// A marker of a chapter, after a separator, at the index `i` of a line.
pub open spec fn compound_at(line: Seq<char>, i: int) -> bool {
    &&& 0 < i < line.len()
    &&& is_boundary_char(line[i - 1])
    &&& marker_at(line, i) matches Some(marker) && marker.kind == MarkerKind::Chapter
        && chapter_valid(line, marker)
}

/// The first index from `i` on at which a chapter follows in the heading of its volume.
pub open spec fn find_compound(line: Seq<char>, i: int) -> Option<int>
    decreases line.len() - i,
{
    if i >= line.len() {
        None
    } else if compound_at(line, i) {
        Some(i)
    } else {
        find_compound(line, i + 1)
    }
}

/// Headings that have no number.
pub open spec fn special_headings() -> Seq<Seq<char>> {
    seq![
        "序章"@,
        "终章"@,
        "尾声"@,
        "楔子"@,
        "引子"@,
        "番外"@,
        "代序"@,
        "跋"@,
        "尾聲"@,
    ]
}

/// The first of `names` with which the line begins.
pub open spec fn first_name(line: Seq<char>, names: Seq<Seq<char>>) -> Option<Seq<char>>
    decreases names.len(),
{
    if names.len() == 0 {
        None
    } else if begins(line, names[0]) {
        Some(names[0])
    } else {
        first_name(line, names.drop_first())
    }
}

/// The label of a heading that stands alone, and is not a number such as 第一章.
pub open spec fn standalone(line: Seq<char>) -> Option<Seq<char>> {
    match first_name(line, special_headings()) {
        Some(name) => Some(name),
        None => if begins(line, "Chapter "@) || begins(line, "CHAPTER "@) {
            let n = digits_len(line.skip(8)) as int;
            if n > 0 {
                Some(line.take(8 + n))
            } else {
                None
            }
        } else {
            None
        },
    }
}

/// What is known after some lines: the headings, the names of the volumes so far, whether one
/// of them is open, and the byte offset of the next line.
#[verifier::ext_equal]
pub struct Scan {
    pub entries: Seq<TocModel>,
    pub volumes: Seq<Seq<char>>,
    pub inside: bool,
    pub offset: int,
}

/// What the next line adds.
pub open spec fn scan_line(scan: Scan, line: Seq<char>) -> Scan {
    let heading = trimmed(line);
    let at = scan.offset + byte_len(line) - byte_len(trimmed_start(line));
    let next = Scan { offset: scan.offset + byte_len(line) + 1, ..scan };
    match marker_at(heading, 0) {
        Some(marker) => match marker.kind {
            MarkerKind::Volume => if volume_bounded(heading, marker.end) {
                let chapter = find_compound(heading, marker.end);
                let volume = trimmed_end(
                    match chapter {
                        Some(i) => heading.take(i),
                        None => heading,
                    },
                );
                let known = scan.volumes.contains(volume);
                let entries = if known {
                    scan.entries
                } else {
                    scan.entries.push(TocModel { label: volume, offset: at, depth: 0 })
                };
                Scan {
                    entries: match chapter {
                        Some(i) => entries.push(
                            TocModel { label: trimmed_end(heading.skip(i)), offset: at, depth: 1 },
                        ),
                        None => entries,
                    },
                    volumes: if known {
                        scan.volumes
                    } else {
                        scan.volumes.push(volume)
                    },
                    inside: true,
                    ..next
                }
            } else {
                next
            },
            MarkerKind::Chapter => if chapter_valid(heading, marker) {
                Scan {
                    entries: scan.entries.push(
                        TocModel {
                            label: heading,
                            offset: at,
                            depth: if scan.inside {
                                1
                            } else {
                                0
                            },
                        },
                    ),
                    ..next
                }
            } else {
                next
            },
        },
        None => match standalone(heading) {
            Some(label) => Scan {
                entries: scan.entries.push(TocModel { label, offset: at, depth: 0 }),
                ..next
            },
            None => next,
        },
    }
}

/// What is known after the given lines.
pub open spec fn scan(lines: Seq<Seq<char>>) -> Scan
    decreases lines.len(),
{
    if lines.len() == 0 {
        Scan { entries: seq![], volumes: seq![], inside: false, offset: 0 }
    } else {
        scan_line(scan(lines.drop_last()), lines.last())
    }
}

/// The headings of a text.
pub open spec fn chapter_headings(s: Seq<char>) -> Seq<TocModel> {
    scan(split(s, '\n')).entries
}

#[derive(Clone, Copy)]
struct Marker {
    start: usize,
    end: usize,
    unit: char,
    kind: MarkerKind,
}

impl View for Marker {
    type V = MarkerModel;

    closed spec fn view(&self) -> MarkerModel {
        MarkerModel {
            start: self.start as int,
            end: self.end as int,
            unit: self.unit,
            kind: self.kind,
        }
    }
}

pub proof fn lemma_number_len_is(s: Seq<char>, n: int)
    requires
        0 <= n <= s.len(),
        forall|i: int| 0 <= i < n ==> is_number_char(#[trigger] s[i]),
        n < s.len() ==> !is_number_char(s[n]),
    ensures
        number_len(s) == n,
    decreases s.len(),
{
    if n > 0 {
        let t = s.drop_first();
        assert forall|i: int| 0 <= i < n - 1 implies is_number_char(#[trigger] t[i]) by {
            assert(t[i] == s[i + 1]);
        }
        lemma_number_len_is(t, n - 1);
    }
}

pub proof fn lemma_digits_len_is(s: Seq<char>, n: int)
    requires
        0 <= n <= s.len(),
        forall|i: int| 0 <= i < n ==> is_digit_char(#[trigger] s[i]),
        n < s.len() ==> !is_digit_char(s[n]),
    ensures
        digits_len(s) == n,
    decreases s.len(),
{
    if n > 0 {
        let t = s.drop_first();
        assert forall|i: int| 0 <= i < n - 1 implies is_digit_char(#[trigger] t[i]) by {
            assert(t[i] == s[i + 1]);
        }
        lemma_digits_len_is(t, n - 1);
    }
}

/// The marker at the index `start` of a line.
fn parse_marker(line: &[char], start: usize) -> (marker: Option<Marker>)
    ensures
        match marker {
            Some(found) => marker_at(line@, start as int) == Some(found@) && found.end
                <= line@.len() && start < found.end,
            None => marker_at(line@, start as int) is None,
        },
{
    if start >= line.len() || line[start] != '第' {
        return None;
    }
    let mut at: usize = start + 1;
    while at < line.len() && is_number_character(line[at])
        invariant
            start < at <= line.len(),
            forall|i: int| start + 1 <= i < at ==> is_number_char(#[trigger] line@[i]),
        decreases line.len() - at,
    {
        at += 1;
    }
    proof {
        lemma_number_len_is(line@.skip(start + 1), at - (start + 1));
    }
    if at == start + 1 || at >= line.len() {
        return None;
    }
    let unit = line[at];
    if unit == '卷' || unit == '部' || unit == '集' {
        Some(Marker { start, end: at + 1, unit, kind: MarkerKind::Volume })
    } else if unit == '章' || unit == '回' {
        Some(Marker { start, end: at + 1, unit, kind: MarkerKind::Chapter })
    } else {
        None
    }
}

fn volume_has_boundary(line: &[char], marker_end: usize) -> (bounded: bool)
    ensures
        bounded == volume_bounded(line@, marker_end as int),
{
    marker_end >= line.len() || is_heading_boundary(line[marker_end])
}

fn chapter_marker_is_valid(line: &[char], marker: &Marker) -> (valid: bool)
    ensures
        valid == chapter_valid(line@, marker@),
{
    marker.unit != '回' || !(marker.end < line.len() && line[marker.end] == '合')
}

fn find_compound_chapter(line: &[char], after_volume: usize) -> (index: Option<usize>)
    requires
        0 < after_volume <= line@.len(),
    ensures
        match index {
            Some(i) => find_compound(line@, after_volume as int) == Some(i as int) && i
                <= line@.len(),
            None => find_compound(line@, after_volume as int) is None,
        },
{
    let mut i: usize = after_volume;
    while i < line.len()
        invariant
            0 < i <= line.len(),
            find_compound(line@, after_volume as int) == find_compound(line@, i as int),
        decreases line.len() - i,
    {
        if line[i] == '第' && is_heading_boundary(line[i - 1]) {
            if let Some(marker) = parse_marker(line, i) {
                if marker.kind == MarkerKind::Chapter && chapter_marker_is_valid(line, &marker) {
                    return Some(i);
                }
            }
        }
        i += 1;
    }
    None
}

fn begins_special(line: &[char]) -> (name: Option<&'static str>)
    ensures
        match name {
            Some(text) => first_name(line@, special_headings()) == Some(text@),
            None => first_name(line@, special_headings()) is None,
        },
{
    let names = ["序章", "终章", "尾声", "楔子", "引子", "番外", "代序", "跋", "尾聲"];
    let ghost all = special_headings();
    assert(all.skip(0) =~= all);
    let mut i: usize = 0;
    while i < 9
        invariant
            i <= 9,
            names@.len() == 9,
            all == special_headings(),
            all.len() == 9,
            forall|j: int| 0 <= j < 9 ==> (#[trigger] names@[j])@ == all[j],
            first_name(line@, all) == first_name(line@, all.skip(i as int)),
        decreases 9 - i,
    {
        assert(all.skip(i as int)[0] == all[i as int]);
        assert(all.skip(i as int).drop_first() =~= all.skip(i + 1));
        let name = names[i];
        if begins_with_text(line, name) {
            return Some(name);
        }
        i += 1;
    }
    assert(all.skip(9) =~= seq![]);
    None
}

fn match_standalone_heading(line: &[char]) -> (label: Option<Vec<char>>)
    ensures
        match label {
            Some(found) => standalone(line@) == Some(found@),
            None => standalone(line@) is None,
        },
{
    if let Some(name) = begins_special(line) {
        return Some(chars_of(name));
    }
    proof {
        reveal_strlit("Chapter ");
        reveal_strlit("CHAPTER ");
    }
    if begins_with_text(line, "Chapter ") || begins_with_text(line, "CHAPTER ") {
        assert(line@.len() >= 8);
        let mut end: usize = 8;
        while end < line.len() && is_ascii_digit(line[end])
            invariant
                8 <= end <= line.len(),
                forall|i: int| 8 <= i < end ==> is_digit_char(#[trigger] line@[i]),
            decreases line.len() - end,
        {
            end += 1;
        }
        proof {
            lemma_digits_len_is(line@.skip(8), end - 8);
        }
        if end > 8 {
            let label = copy_range(line, 0, end);
            assert(label@ =~= line@.take(end as int));
            return Some(label);
        }
    }
    None
}

/// The bytes before the line `n`, with one for every line feed.
pub open spec fn bytes_before(lines: Seq<Seq<char>>, n: int) -> int
    decreases n,
{
    if n <= 0 {
        0
    } else {
        bytes_before(lines, n - 1) + byte_len(lines[n - 1]) + 1
    }
}

proof fn lemma_bytes_before_first(first: Seq<char>, rest: Seq<Seq<char>>, n: int)
    requires
        1 <= n <= rest.len() + 1,
    ensures
        bytes_before(seq![first] + rest, n) == byte_len(first) + 1 + bytes_before(rest, n - 1),
    decreases n,
{
    let all = seq![first] + rest;
    if n > 1 {
        lemma_bytes_before_first(first, rest, n - 1);
        assert(all[n - 1] == rest[n - 2]);
    } else {
        assert(all[0] == first);
        assert(bytes_before(all, 0) == 0);
    }
}

/// The lines of a text and their line feeds are all its bytes.
proof fn lemma_split_bytes(s: Seq<char>)
    ensures
        split(s, '\n').len() >= 1,
        bytes_before(split(s, '\n'), split(s, '\n').len() as int) == byte_len(s) + 1,
    decreases s.len(),
{
    let k = position(s, '\n') as int;
    lemma_position(s, '\n');
    if k >= s.len() {
        assert(split(s, '\n') =~= seq![s]);
        assert(bytes_before(seq![s], 0) == 0);
    } else {
        let rest = s.skip(k + 1);
        lemma_split_bytes(rest);
        let n = split(rest, '\n').len() as int;
        lemma_bytes_before_first(s.take(k), split(rest, '\n'), n + 1);
        assert(s =~= s.take(k) + seq!['\n'] + rest);
        lemma_byte_len_concat(s.take(k) + seq!['\n'], rest);
        lemma_byte_len_concat(s.take(k), seq!['\n']);
        lemma_byte_len_single('\n');
    }
}

proof fn lemma_bytes_before_order(lines: Seq<Seq<char>>, i: int, j: int)
    requires
        0 <= i <= j <= lines.len(),
    ensures
        bytes_before(lines, i) <= bytes_before(lines, j),
    decreases j,
{
    if i < j {
        lemma_bytes_before_order(lines, i, j - 1);
    }
}

proof fn lemma_scan_offset(lines: Seq<Seq<char>>, n: int)
    requires
        0 <= n <= lines.len(),
    ensures
        scan(lines.take(n)).offset == bytes_before(lines, n),
    decreases n,
{
    if n > 0 {
        lemma_scan_offset(lines, n - 1);
        assert(lines.take(n).drop_last() =~= lines.take(n - 1));
    }
}

/// Whether one of the names is `name`.
fn holds(names: &[Vec<char>], name: &[char]) -> (found: bool)
    ensures
        found == texts(names@).contains(name@),
{
    let mut i: usize = 0;
    while i < names.len()
        invariant
            i <= names.len(),
            forall|j: int| 0 <= j < i ==> (#[trigger] names@[j])@ != name@,
        decreases names.len() - i,
    {
        if same_chars(&names[i], name) {
            assert(texts(names@)[i as int] == name@);
            return true;
        }
        i += 1;
    }
    assert forall|j: int| 0 <= j < texts(names@).len() implies texts(names@)[j] != name@ by {
        assert(names@[j]@ != name@);
    }
    false
}

pub open spec fn toc_views(entries: Seq<TocEntry>) -> Seq<TocModel> {
    Seq::new(entries.len(), |i: int| entries[i]@)
}

fn push_entry(entries: &mut Vec<TocEntry>, label: &[char], offset: usize, depth: u8)
    ensures
        toc_views(final(entries)@) == toc_views(old(entries)@).push(
            TocModel { label: label@, offset: offset as int, depth: depth as int },
        ),
{
    let entry = TocEntry { label: string_of(label), offset, depth };
    entries.push(entry);
    assert(toc_views(entries@) =~= toc_views(old(entries)@).push(
        TocModel { label: label@, offset: offset as int, depth: depth as int },
    ));
}

/// The headings of the volumes and chapters of a plain text.
pub fn detect_chapter_headings(text: &str) -> (entries: Vec<TocEntry>)
    ensures
        toc_views(entries@) == chapter_headings(text@),
{
    let characters = chars_of(text);
    let lines = split_on(&characters, '\n');
    let ghost all = texts(lines@);
    let mut entries: Vec<TocEntry> = Vec::new();
    let mut volumes: Vec<Vec<char>> = Vec::new();
    let mut inside: bool = false;
    let mut offset: usize = 0;
    let mut i: usize = 0;
    proof {
        lemma_split_bytes(text@);
        assert(all.take(0) =~= seq![]);
        assert(toc_views(entries@) =~= seq![]);
        assert(texts(volumes@) =~= seq![]);
    }
    while i < lines.len()
        invariant
            i <= lines.len(),
            all == texts(lines@),
            bytes_before(all, all.len() as int) <= usize::MAX + 1,
            offset == (if i < lines.len() {
                bytes_before(all, i as int)
            } else {
                offset as int
            }),
            ({
                let so_far = scan(all.take(i as int));
                &&& toc_views(entries@) == so_far.entries
                &&& texts(volumes@) == so_far.volumes
                &&& inside == so_far.inside
            }),
        decreases lines.len() - i,
    {
        let line = &lines[i];
        let ghost before = scan(all.take(i as int));
        proof {
            assert(all[i as int] == line@);
            assert(all.take(i + 1).drop_last() =~= all.take(i as int));
            assert(all.take(i + 1).last() == line@);
            assert(scan(all.take(i + 1)) == scan_line(before, line@));
            lemma_scan_offset(all, i as int);
            lemma_bytes_before_order(all, i + 1, all.len() as int);
            lemma_leading_spaces(line@);
            let k = crate::strings::leading_spaces(line@) as int;
            assert(line@ =~= line@.take(k) + line@.skip(k));
            lemma_byte_len_concat(line@.take(k), line@.skip(k));
        }
        let lead: usize = count_leading(line);
        let indent = copy_range(line, 0, lead);
        assert(indent@ =~= line@.take(lead as int));
        let line_offset: usize = offset + byte_length_of(&indent);
        let heading = trim_chars(line);
        if let Some(marker) = parse_marker(&heading, 0) {
            if marker.kind == MarkerKind::Volume {
                if volume_has_boundary(&heading, marker.end) {
                    let chapter = find_compound_chapter(&heading, marker.end);
                    let volume_end: usize = match chapter {
                        Some(start) => start,
                        None => heading.len(),
                    };
                    let head = copy_range(&heading, 0, volume_end);
                    assert(head@ =~= heading@.take(volume_end as int));
                    assert(heading@.take(heading@.len() as int) =~= heading@);
                    let volume = trim_end_chars(&head);
                    if !holds(&volumes, &volume) {
                        push_entry(&mut entries, &volume, line_offset, 0);
                        proof {
                            crate::strings::lemma_texts_push(volumes@, volume);
                        }
                        volumes.push(volume);
                    }
                    inside = true;
                    if let Some(start) = chapter {
                        let tail = copy_range(&heading, start, heading.len());
                        assert(tail@ =~= heading@.skip(start as int));
                        let label = trim_end_chars(&tail);
                        push_entry(&mut entries, &label, line_offset, 1);
                    }
                }
            } else if chapter_marker_is_valid(&heading, &marker) {
                let depth: u8 = if inside {
                    1
                } else {
                    0
                };
                push_entry(&mut entries, &heading, line_offset, depth);
            }
        } else if let Some(label) = match_standalone_heading(&heading) {
            push_entry(&mut entries, &label, line_offset, 0);
        }
        i += 1;
        if i < lines.len() {
            proof {
                lemma_bytes_before_order(all, i + 1, all.len() as int);
            }
            offset = offset + byte_length_of(line) + 1;
        }
    }
    assert(all.take(all.len() as int) =~= all);
    entries
}

// ---------------------------------------------------------------------------------------
// Laws
// ---------------------------------------------------------------------------------------

/// The characters before the line `n`, with one for every line feed.
pub open spec fn chars_before(lines: Seq<Seq<char>>, n: int) -> int
    decreases n,
{
    if n <= 0 {
        0
    } else {
        chars_before(lines, n - 1) + lines[n - 1].len() + 1
    }
}

proof fn lemma_chars_before_first(first: Seq<char>, rest: Seq<Seq<char>>, n: int)
    requires
        1 <= n <= rest.len() + 1,
    ensures
        chars_before(seq![first] + rest, n) == first.len() + 1 + chars_before(rest, n - 1),
    decreases n,
{
    let all = seq![first] + rest;
    if n > 1 {
        lemma_chars_before_first(first, rest, n - 1);
        assert(all[n - 1] == rest[n - 2]);
    } else {
        assert(all[0] == first);
        assert(chars_before(all, 0) == 0);
    }
}

/// Every line stands in the text where the lines before it end.
proof fn lemma_line_place(s: Seq<char>, n: int)
    requires
        0 <= n < split(s, '\n').len(),
    ensures
        0 <= chars_before(split(s, '\n'), n),
        chars_before(split(s, '\n'), n) + split(s, '\n')[n].len() <= s.len(),
        s.subrange(
            chars_before(split(s, '\n'), n),
            chars_before(split(s, '\n'), n) + split(s, '\n')[n].len(),
        ) == split(s, '\n')[n],
        offset_at(s, chars_before(split(s, '\n'), n)) == bytes_before(split(s, '\n'), n),
    decreases s.len(),
{
    let k = position(s, '\n') as int;
    lemma_position(s, '\n');
    let all = split(s, '\n');
    if n == 0 {
        assert(chars_before(all, 0) == 0 && bytes_before(all, 0) == 0);
        assert(s.take(0) =~= seq![]);
        if k >= s.len() {
            assert(s.subrange(0, s.len() as int) =~= s);
        } else {
            assert(s.subrange(0, k) =~= s.take(k));
        }
    } else {
        let rest = s.skip(k + 1);
        let parts = split(rest, '\n');
        lemma_line_place(rest, n - 1);
        lemma_chars_before_first(s.take(k), parts, n);
        lemma_bytes_before_first(s.take(k), parts, n);
        let c = chars_before(parts, n - 1);
        let len = parts[n - 1].len() as int;
        assert(all[n] == parts[n - 1]);
        assert(s.subrange(k + 1 + c, k + 1 + c + len) =~= rest.subrange(c, c + len));
        assert(s.take(k + 1 + c) =~= s.take(k) + seq!['\n'] + rest.take(c));
        lemma_byte_len_concat(s.take(k) + seq!['\n'], rest.take(c));
        lemma_byte_len_concat(s.take(k), seq!['\n']);
        lemma_byte_len_single('\n');
    }
}

/// Entries come in the order of their offsets, all of them before `end`.
pub open spec fn entries_in_order(entries: Seq<TocModel>, end: int) -> bool {
    &&& forall|i: int| 0 <= i < entries.len() ==> 0 <= (#[trigger] entries[i]).offset < end
    &&& forall|i: int, j: int|
        0 <= i < j < entries.len() ==> (#[trigger] entries[i]).offset <= (
        #[trigger] entries[j]).offset
}

proof fn lemma_scan_in_order(s: Seq<char>, n: int)
    requires
        0 <= n <= split(s, '\n').len(),
    ensures
        ({
            let all = split(s, '\n');
            let so_far = scan(all.take(n));
            &&& so_far.offset == bytes_before(all, n)
            &&& entries_in_order(so_far.entries, so_far.offset)
            &&& forall|i: int|
                0 <= i < so_far.entries.len() ==> is_boundary(
                    s,
                    (#[trigger] so_far.entries[i]).offset,
                )
        }),
    decreases n,
{
    let all = split(s, '\n');
    lemma_scan_offset(all, n);
    if n > 0 {
        lemma_scan_in_order(s, n - 1);
        let line = all[n - 1];
        assert(all.take(n).drop_last() =~= all.take(n - 1));
        assert(all.take(n).last() == line);
        let before = scan(all.take(n - 1));
        let after = scan(all.take(n));
        assert(after == scan_line(before, line));
        lemma_leading_spaces(line);
        let k = crate::strings::leading_spaces(line) as int;
        assert(line =~= line.take(k) + line.skip(k));
        lemma_byte_len_concat(line.take(k), line.skip(k));
        let at = before.offset + byte_len(line) - byte_len(trimmed_start(line));
        lemma_line_place(s, n - 1);
        let c = chars_before(all, n - 1);
        assert(s.take(c + k) =~= s.take(c) + line.take(k));
        lemma_byte_len_concat(s.take(c), line.take(k));
        assert(at == offset_at(s, c + k));
        assert(is_boundary(s, at));
        assert(before.offset <= at < after.offset);
        assert forall|i: int|
            before.entries.len() <= i < after.entries.len() implies (#[trigger] after.entries[i]).offset
            == at by {}
        assert forall|i: int| 0 <= i < before.entries.len() implies #[trigger] after.entries[i]
            == before.entries[i] by {}
    }
}

/// The headings of a text come in the order in which they stand in it, and each of their
/// offsets is that of a character of the text or its end.
pub proof fn law_headings_in_order(s: Seq<char>)
    ensures
        entries_in_order(chapter_headings(s), byte_len(s) as int + 1),
        forall|i: int|
            0 <= i < chapter_headings(s).len() ==> is_boundary(
                s,
                (#[trigger] chapter_headings(s)[i]).offset,
            ),
{
    let all = split(s, '\n');
    lemma_scan_in_order(s, all.len() as int);
    lemma_split_bytes(s);
    assert(all.take(all.len() as int) =~= all);
}

/// How the line of a heading begins: with 第 and a number, with a heading that has no number, or
/// with an English chapter.
pub open spec fn begins_as_heading(heading: Seq<char>) -> bool {
    ||| heading.len() > 0 && heading[0] == '第' && number_len(heading.skip(1)) > 0
    ||| first_name(heading, special_headings()) is Some
    ||| begins(heading, "Chapter "@)
    ||| begins(heading, "CHAPTER "@)
}

/// Only what stands at the start of a line, but for white space, makes it a heading: a number of
/// a chapter within a line of prose adds nothing. What a line adds leads to its first character
/// that is no white space.
pub proof fn law_headings_begin_their_lines(before: Scan, line: Seq<char>)
    ensures
        scan_line(before, line).entries != before.entries ==> begins_as_heading(trimmed(line)),
        scan_line(before, line).entries.len() >= before.entries.len(),
        forall|i: int|
            0 <= i < before.entries.len() ==> #[trigger] scan_line(before, line).entries[i]
                == before.entries[i],
        forall|i: int|
            before.entries.len() <= i < scan_line(before, line).entries.len() ==> (
            #[trigger] scan_line(before, line).entries[i]).offset == before.offset + byte_len(line)
                - byte_len(trimmed_start(line)),
{
}

/// A volume is entered once: no name of a volume occurs twice.
pub proof fn law_volumes_are_distinct(lines: Seq<Seq<char>>)
    ensures
        scan(lines).volumes.no_duplicates(),
    decreases lines.len(),
{
    if lines.len() > 0 {
        law_volumes_are_distinct(lines.drop_last());
    }
}

} // verus!

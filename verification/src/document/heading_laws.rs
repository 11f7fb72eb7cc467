//! Which lines of a plain text are headings, and what they are entered as.
use vstd::prelude::*;

use crate::document::chapter::{
    chapter_headings, compound_at, find_compound, first_name, is_boundary_char, is_number_char,
    lemma_digits_len_is, lemma_number_len_is, marker_at, number_len, scan, scan_line,
    special_headings, MarkerKind, MarkerModel, Scan,
};
use crate::document::TocModel;
use crate::strings::{begins, is_space, split, trimmed, trimmed_end, trimmed_start};
use crate::text::byte_len;

verus! {

/// The numerals with which volumes and chapters are counted, besides the digits.
pub open spec fn numerals() -> Seq<char> {
    "零〇一二三四五六七八九十百千万萬壹贰貳叁參肆伍陆陸柒捌玖拾佰仟"@
}

/// The characters besides white space that may follow the number of a volume.
pub open spec fn separators() -> Seq<char> {
    ":：-—–·、.．"@
}

pub open spec fn is_numeral(c: char) -> bool {
    '0' <= c <= '9' || numerals().contains(c)
}

pub open spec fn is_separator(c: char) -> bool {
    is_space(c) || separators().contains(c)
}

/// At the index `i` of the line stand 第, a number of `n` characters, and the unit.
pub open spec fn is_marked(line: Seq<char>, i: int, n: int, unit: char) -> bool {
    &&& 0 <= i && 1 <= n && i + 1 + n < line.len()
    &&& line[i] == '第'
    &&& forall|k: int| i < k <= i + n ==> is_numeral(#[trigger] line[k])
    &&& line[i + 1 + n] == unit
}

pub open spec fn is_volume_unit(unit: char) -> bool {
    unit == '卷' || unit == '部' || unit == '集'
}

pub open spec fn is_chapter_unit(unit: char) -> bool {
    unit == '章' || unit == '回'
}

/// The line begins with the number of a volume, which ends the line or is followed by a
/// separator.
pub open spec fn is_volume_line(line: Seq<char>, n: int, unit: char) -> bool {
    &&& is_marked(line, 0, n, unit)
    &&& is_volume_unit(unit)
    &&& line.len() == n + 2 || is_separator(line[n + 2])
}

/// The number of a chapter stands at the index `i` of the line; that of a bout is none.
pub open spec fn is_chapter_at(line: Seq<char>, i: int, n: int, unit: char) -> bool {
    &&& is_marked(line, i, n, unit)
    &&& is_chapter_unit(unit)
    &&& !(unit == '回' && i + n + 2 < line.len() && line[i + n + 2] == '合')
}

/// A chapter follows after a separator at the index `i` of the line of its volume.
pub open spec fn chapter_follows(line: Seq<char>, i: int, n: int, unit: char) -> bool {
    0 < i && is_separator(line[i - 1]) && is_chapter_at(line, i, n, unit)
}

// ---------------------------------------------------------------------------------------
// Proofs
// ---------------------------------------------------------------------------------------

proof fn lemma_numeral(c: char)
    ensures
        is_numeral(c) == is_number_char(c),
{
    reveal_strlit("零〇一二三四五六七八九十百千万萬壹贰貳叁參肆伍陆陸柒捌玖拾佰仟");
    let all = numerals();
    assert(all.len() == 31);
    if all.contains(c) {
        let i = choose|i: int| 0 <= i < all.len() && all[i] == c;
        assert(is_number_char(all[i]));
    }
    if is_number_char(c) && !('0' <= c <= '9') {
        assert(exists|i: int| 0 <= i < all.len() && #[trigger] all[i] == c) by {
            assert(all[0] == '零' && all[1] == '〇' && all[2] == '一' && all[3] == '二' && all[4]
                == '三' && all[5] == '四' && all[6] == '五' && all[7] == '六' && all[8] == '七'
                && all[9] == '八' && all[10] == '九' && all[11] == '十' && all[12] == '百'
                && all[13] == '千' && all[14] == '万' && all[15] == '萬' && all[16] == '壹'
                && all[17] == '贰' && all[18] == '貳' && all[19] == '叁' && all[20] == '參'
                && all[21] == '肆' && all[22] == '伍' && all[23] == '陆' && all[24] == '陸'
                && all[25] == '柒' && all[26] == '捌' && all[27] == '玖' && all[28] == '拾'
                && all[29] == '佰' && all[30] == '仟');
        }
    }
}

proof fn lemma_separator(c: char)
    ensures
        is_separator(c) == is_boundary_char(c),
{
    reveal_strlit(":：-—–·、.．");
    let all = separators();
    assert(all.len() == 9);
    assert(all[0] == ':' && all[1] == '：' && all[2] == '-' && all[3] == '—' && all[4] == '–'
        && all[5] == '·' && all[6] == '、' && all[7] == '.' && all[8] == '．');
}

proof fn lemma_marked(line: Seq<char>, i: int, n: int, unit: char)
    requires
        is_marked(line, i, n, unit),
        is_volume_unit(unit) || is_chapter_unit(unit),
    ensures
        marker_at(line, i) == Some(
            MarkerModel {
                start: i,
                end: i + n + 2,
                unit,
                kind: if is_volume_unit(unit) {
                    MarkerKind::Volume
                } else {
                    MarkerKind::Chapter
                },
            },
        ),
{
    let rest = line.skip(i + 1);
    assert forall|k: int| 0 <= k < n implies is_number_char(#[trigger] rest[k]) by {
        assert(rest[k] == line[i + 1 + k]);
        lemma_numeral(line[i + 1 + k]);
    }
    assert(rest[n] == unit);
    lemma_number_len_is(rest, n);
}

/// A marker that is found is one.
proof fn lemma_found_marker(line: Seq<char>, i: int) -> (n: int)
    requires
        marker_at(line, i) is Some,
    ensures
        is_marked(line, i, n, marker_at(line, i)->0.unit),
        marker_at(line, i)->0.end == i + n + 2,
        marker_at(line, i)->0.kind == MarkerKind::Volume <==> is_volume_unit(
            marker_at(line, i)->0.unit,
        ),
        marker_at(line, i)->0.kind == MarkerKind::Chapter <==> is_chapter_unit(
            marker_at(line, i)->0.unit,
        ),
{
    let rest = line.skip(i + 1);
    let n = number_len(rest) as int;
    lemma_number_run(rest);
    assert forall|k: int| i < k <= i + n implies is_numeral(#[trigger] line[k]) by {
        assert(rest[k - i - 1] == line[k]);
        lemma_numeral(line[k]);
    }
    n
}

proof fn lemma_number_run(s: Seq<char>)
    ensures
        number_len(s) <= s.len(),
        forall|k: int| 0 <= k < number_len(s) ==> is_number_char(#[trigger] s[k]),
    decreases s.len(),
{
    if s.len() > 0 && is_number_char(s[0]) {
        lemma_number_run(s.drop_first());
        assert forall|k: int| 0 <= k < number_len(s) implies is_number_char(#[trigger] s[k]) by {
            if k > 0 {
                assert(s.drop_first()[k - 1] == s[k]);
            }
        }
    }
}

proof fn lemma_chapter_follows(line: Seq<char>, i: int, n: int, unit: char)
    requires
        chapter_follows(line, i, n, unit),
    ensures
        compound_at(line, i),
{
    lemma_marked(line, i, n, unit);
    lemma_separator(line[i - 1]);
}

proof fn lemma_compound(line: Seq<char>, i: int)
    requires
        compound_at(line, i),
    ensures
        exists|n: int, unit: char| #[trigger] chapter_follows(line, i, n, unit),
{
    let n = lemma_found_marker(line, i);
    lemma_separator(line[i - 1]);
    assert(chapter_follows(line, i, n, marker_at(line, i)->0.unit));
}

proof fn lemma_find_compound(line: Seq<char>, from: int)
    ensures
        find_compound(line, from) matches Some(i) ==> from <= i < line.len() && compound_at(line, i)
            && forall|j: int| from <= j < i ==> !#[trigger] compound_at(line, j),
        find_compound(line, from) is None ==> forall|j: int|
            from <= j < line.len() ==> !#[trigger] compound_at(line, j),
    decreases line.len() - from,
{
    if from < line.len() && !compound_at(line, from) {
        lemma_find_compound(line, from + 1);
    }
}

// ---------------------------------------------------------------------------------------
// Laws
// ---------------------------------------------------------------------------------------

/// Where the first character of a line that is no white space stands in the text.
pub open spec fn place_in_text(before: Scan, line: Seq<char>) -> int {
    before.offset + byte_len(line) - byte_len(trimmed_start(line))
}

/// The line of a volume without a chapter is entered whole, with the depth 0, unless a volume
/// of that name was entered before; and it makes no other entry.
pub proof fn law_volume_line(before: Scan, line: Seq<char>, n: int, unit: char)
    requires
        is_volume_line(trimmed(line), n, unit),
        forall|i: int, m: int, other: char|
            n + 2 <= i ==> !#[trigger] chapter_follows(trimmed(line), i, m, other),
    ensures
        ({
            let label = trimmed(line);
            let after = scan_line(before, line);
            &&& !before.volumes.contains(label) ==> after.entries == before.entries.push(
                TocModel { label, offset: place_in_text(before, line), depth: 0 },
            )
            &&& before.volumes.contains(label) ==> after.entries == before.entries
            &&& after.volumes.contains(label)
            &&& after.inside
        }),
{
    let heading = trimmed(line);
    lemma_marked(heading, 0, n, unit);
    if heading.len() > n + 2 {
        lemma_separator(heading[n + 2]);
    }
    lemma_find_compound(heading, n + 2);
    if let Some(i) = find_compound(heading, n + 2) {
        lemma_compound(heading, i);
    }
    lemma_trimmed_end_of(line);
    let after = scan_line(before, line);
    if !before.volumes.contains(heading) {
        assert(after.volumes[before.volumes.len() as int] == heading);
    }
}

proof fn lemma_trimmed_end_of(line: Seq<char>)
    ensures
        trimmed_end(trimmed(line)) == trimmed(line),
{
    crate::strings::lemma_trimmed_end(trimmed_start(line));
}

/// The line of a volume with a chapter in it is entered twice: the volume up to the chapter with
/// the depth 0, unless that name was entered before, and the chapter with the depth 1. It is
/// the first chapter of the line that counts.
pub proof fn law_volume_line_with_chapter(
    before: Scan,
    line: Seq<char>,
    n: int,
    unit: char,
    i: int,
    m: int,
    chapter: char,
)
    requires
        is_volume_line(trimmed(line), n, unit),
        n + 2 <= i,
        chapter_follows(trimmed(line), i, m, chapter),
        forall|j: int, k: int, other: char|
            n + 2 <= j < i ==> !#[trigger] chapter_follows(trimmed(line), j, k, other),
    ensures
        ({
            let at = place_in_text(before, line);
            let label = trimmed_end(trimmed(line).take(i));
            let volume = TocModel { label, offset: at, depth: 0 };
            let entry = TocModel { label: trimmed(line).skip(i), offset: at, depth: 1 };
            let after = scan_line(before, line);
            &&& !before.volumes.contains(label) ==> after.entries == before.entries.push(
                volume,
            ).push(entry)
            &&& before.volumes.contains(label) ==> after.entries == before.entries.push(entry)
            &&& after.volumes.contains(label)
            &&& after.inside
        }),
{
    let heading = trimmed(line);
    lemma_marked(heading, 0, n, unit);
    if heading.len() > n + 2 {
        lemma_separator(heading[n + 2]);
    }
    lemma_find_compound(heading, n + 2);
    lemma_chapter_follows(heading, i, m, chapter);
    let found = find_compound(heading, n + 2)->0;
    lemma_compound(heading, found);
    assert(found == i);
    lemma_trimmed_end_of(line);
    crate::strings::lemma_trimmed_end(heading);
    crate::strings::lemma_trimmed_end_is(heading.skip(i), heading.len() - i);
    assert(heading.skip(i).take(heading.len() - i) =~= heading.skip(i));
    let after = scan_line(before, line);
    let label = trimmed_end(heading.take(i));
    if !before.volumes.contains(label) {
        assert(after.volumes[before.volumes.len() as int] == label);
    }
}

/// One of the lines is that of a volume.
pub open spec fn has_volume(lines: Seq<Seq<char>>) -> bool {
    exists|i: int, n: int, unit: char|
        0 <= i < lines.len() && #[trigger] is_volume_line(trimmed(lines[i]), n, unit)
}

proof fn lemma_inside(lines: Seq<Seq<char>>)
    ensures
        scan(lines).inside == has_volume(lines),
    decreases lines.len(),
{
    if lines.len() > 0 {
        let less = lines.drop_last();
        let heading = trimmed(lines.last());
        let last = lines.len() - 1;
        lemma_inside(less);
        if has_volume(less) {
            let (i, n, unit) = choose|i: int, n: int, unit: char|
                0 <= i < less.len() && #[trigger] is_volume_line(trimmed(less[i]), n, unit);
            assert(is_volume_line(trimmed(lines[i]), n, unit));
        }
        if has_volume(lines) && !has_volume(less) {
            let (i, n, unit) = choose|i: int, n: int, unit: char|
                0 <= i < lines.len() && #[trigger] is_volume_line(trimmed(lines[i]), n, unit);
            if i < last {
                assert(is_volume_line(trimmed(less[i]), n, unit));
            }
            lemma_marked(heading, 0, n, unit);
            if heading.len() > n + 2 {
                lemma_separator(heading[n + 2]);
            }
        }
        if scan(lines).inside && !scan(less).inside {
            let n = lemma_found_marker(heading, 0);
            if n + 2 < heading.len() {
                lemma_separator(heading[n + 2]);
            }
            assert(is_volume_line(trimmed(lines[last]), n, marker_at(heading, 0)->0.unit));
        }
    }
}

/// The line of a chapter is entered whole: below the volumes, with the depth 1, where the line
/// of a volume stands before it, and with the depth 0 where there is none. It makes no other
/// entry.
pub proof fn law_chapter_line(before: Seq<Seq<char>>, line: Seq<char>, n: int, unit: char)
    requires
        is_chapter_at(trimmed(line), 0, n, unit),
    ensures
        ({
            let so_far = scan(before);
            scan(before.push(line)).entries == so_far.entries.push(
                TocModel {
                    label: trimmed(line),
                    offset: place_in_text(so_far, line),
                    depth: if has_volume(before) {
                        1
                    } else {
                        0
                    },
                },
            )
        }),
{
    lemma_marked(trimmed(line), 0, n, unit);
    lemma_inside(before);
    assert(before.push(line).drop_last() =~= before);
}

/// The headings without a number: a line that begins with one is entered by it, with the depth
/// 0, and it makes no other entry.
pub proof fn law_unnumbered_heading(before: Scan, line: Seq<char>, name: Seq<char>)
    requires
        name == "序章"@ || name == "终章"@ || name == "尾声"@ || name == "楔子"@ || name == "引子"@ || name
            == "番外"@ || name == "代序"@ || name == "跋"@ || name == "尾聲"@,
        begins(trimmed(line), name),
    ensures
        scan_line(before, line).entries == before.entries.push(
            TocModel { label: name, offset: place_in_text(before, line), depth: 0 },
        ),
        scan_line(before, line).inside == before.inside,
{
    reveal_strlit("序章");
    reveal_strlit("终章");
    reveal_strlit("尾声");
    reveal_strlit("楔子");
    reveal_strlit("引子");
    reveal_strlit("番外");
    reveal_strlit("代序");
    reveal_strlit("跋");
    reveal_strlit("尾聲");
    let heading = trimmed(line);
    assert(heading[0] == name[0]);
    if name.len() > 1 {
        assert(heading[1] == name[1]);
    }
    lemma_first_name(heading, special_headings(), name);
}

proof fn lemma_first_name(line: Seq<char>, names: Seq<Seq<char>>, name: Seq<char>)
    requires
        names.contains(name),
        begins(line, name),
        forall|i: int|
            0 <= i < names.len() && begins(line, #[trigger] names[i]) ==> names[i] == name,
    ensures
        first_name(line, names) == Some(name),
    decreases names.len(),
{
    if !begins(line, names[0]) {
        let rest = names.drop_first();
        let k = choose|k: int| 0 <= k < names.len() && names[k] == name;
        assert(rest[k - 1] == name);
        assert forall|i: int| 0 <= i < rest.len() && begins(line, #[trigger] rest[i]) implies rest[i]
            == name by {
            assert(names[i + 1] == rest[i]);
        }
        lemma_first_name(line, rest, name);
    }
}

/// A line that begins with Chapter, or with CHAPTER, a blank and a number is entered by these
/// with the depth 0, and it makes no other entry.
pub proof fn law_english_chapter(before: Scan, line: Seq<char>, word: Seq<char>, number: Seq<char>)
    requires
        word == "Chapter "@ || word == "CHAPTER "@,
        number.len() > 0,
        forall|i: int| 0 <= i < number.len() ==> '0' <= #[trigger] number[i] <= '9',
        begins(trimmed(line), word + number),
        trimmed(line).len() > word.len() + number.len() ==> !('0' <= trimmed(line)[(word.len()
            + number.len()) as int] <= '9'),
    ensures
        scan_line(before, line).entries == before.entries.push(
            TocModel { label: word + number, offset: place_in_text(before, line), depth: 0 },
        ),
        scan_line(before, line).inside == before.inside,
{
    reveal_strlit("Chapter ");
    reveal_strlit("CHAPTER ");
    let heading = trimmed(line);
    let n = number.len() as int;
    let whole = word + number;
    assert(heading.take(8 + n) == whole);
    assert forall|i: int| 0 <= i < 8 implies #[trigger] heading[i] == word[i] by {
        assert(heading.take(8 + n)[i] == whole[i]);
    }
    assert(heading.take(8) =~= word);
    assert(begins(heading, word));
    let rest = heading.skip(8);
    assert forall|i: int| 0 <= i < n implies '0' <= #[trigger] rest[i] <= '9' by {
        assert(heading.take(8 + n)[8 + i] == whole[8 + i]);
        assert(rest[i] == number[i]);
    }
    lemma_digits_len_is(rest, n);
    assert(heading[0] == 'C');
    lemma_no_special_name(heading);
}

proof fn lemma_no_special_name(line: Seq<char>)
    requires
        line.len() > 0,
        line[0] == 'C',
    ensures
        first_name(line, special_headings()) is None,
{
    reveal_strlit("序章");
    reveal_strlit("终章");
    reveal_strlit("尾声");
    reveal_strlit("楔子");
    reveal_strlit("引子");
    reveal_strlit("番外");
    reveal_strlit("代序");
    reveal_strlit("跋");
    reveal_strlit("尾聲");
    lemma_no_name(line, special_headings());
}

proof fn lemma_no_name(line: Seq<char>, names: Seq<Seq<char>>)
    requires
        line.len() > 0,
        forall|i: int|
            0 <= i < names.len() ==> (#[trigger] names[i]).len() > 0 && names[i][0] != line[0],
    ensures
        first_name(line, names) is None,
    decreases names.len(),
{
    if names.len() > 0 {
        assert(!begins(line, names[0])) by {
            if begins(line, names[0]) {
                assert(line.take(names[0].len() as int)[0] == names[0][0]);
            }
        }
        let rest = names.drop_first();
        assert forall|i: int| 0 <= i < rest.len() implies (#[trigger] rest[i]).len() > 0
            && rest[i][0] != line[0] by {
            assert(names[i + 1] == rest[i]);
        }
        lemma_no_name(line, rest);
    }
}

/// A text is read line by line: what the first lines make is kept, and the headings of a text
/// are those of all its lines.
pub proof fn law_headings_are_those_of_the_lines(s: Seq<char>, n: int)
    requires
        0 <= n < split(s, '\n').len(),
    ensures
        ({
            let lines = split(s, '\n');
            let before = scan(lines.take(n)).entries;
            let after = scan(lines.take(n + 1)).entries;
            let all = chapter_headings(s);
            &&& after == scan(lines.take(n).push(lines[n])).entries
            &&& after.len() <= all.len() && all.take(after.len() as int) == after
            &&& before.len() <= after.len() && after.take(before.len() as int) == before
        }),
{
    let lines = split(s, '\n');
    assert(lines.take(n + 1) =~= lines.take(n).push(lines[n]));
    lemma_entries_stay(lines, n, n + 1);
    lemma_entries_stay(lines, n + 1, lines.len() as int);
    assert(lines.take(lines.len() as int) =~= lines);
}

proof fn lemma_entries_stay(lines: Seq<Seq<char>>, n: int, m: int)
    requires
        0 <= n <= m <= lines.len(),
    ensures
        scan(lines.take(n)).entries.len() <= scan(lines.take(m)).entries.len(),
        scan(lines.take(m)).entries.take(scan(lines.take(n)).entries.len() as int) =~= scan(
            lines.take(n),
        ).entries,
    decreases m - n,
{
    if n < m {
        lemma_entries_stay(lines, n, m - 1);
        assert(lines.take(m).drop_last() =~= lines.take(m - 1));
        crate::document::chapter::law_headings_begin_their_lines(
            scan(lines.take(m - 1)),
            lines[m - 1],
        );
        assert(scan(lines.take(m)) == scan_line(scan(lines.take(m - 1)), lines[m - 1]));
        let first = scan(lines.take(n)).entries;
        let before = scan(lines.take(m - 1)).entries;
        let after = scan(lines.take(m)).entries;
        assert forall|i: int| 0 <= i < first.len() implies after[i] == first[i] by {
            assert(before.take(first.len() as int)[i] == first[i]);
            assert(after[i] == before[i]);
        }
    }
}

} // verus!

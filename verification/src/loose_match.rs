//! Matching that ignores case, width, white space and punctuation, within one line.
use std::ops::Range;

use vstd::prelude::*;

use crate::matching::{
    find_occurrences, is_prefix_table, keys, lemma_occurrences, lemma_occurrences_exist, lifted,
    occurrences, prefix_table, Unit,
};
use crate::strings::{is_space, is_whitespace, occurs_at};
use crate::text::{
    byte_len, chars_of, lemma_offset_ends, lemma_offset_monotone, lemma_offset_step, offset_at,
    push_all, width_of,
};
use crate::unicode::{lowercase, lowercase_of};

verus! {

// ---------------------------------------------------------------------------------------
// Characters
// ---------------------------------------------------------------------------------------

/// The ASCII character that the full-width form `c` stands for; any other character as it is.
pub open spec fn folded(c: char) -> char {
    if '\u{ff01}' <= c <= '\u{ff5e}' {
        ((c as u32) - 0xfee0) as char
    } else {
        c
    }
}

/// Turns a full-width form of an ASCII character into that character.
pub fn fold_width(character: char) -> (result: char)
    ensures
        result == folded(character),
{
    if '\u{ff01}' <= character && character <= '\u{ff5e}' {
        let code: u32 = character as u32;
        let low: u8 = (code - 0xfee0) as u8;
        low as char
    } else {
        character
    }
}

pub open spec fn is_ascii_punct(c: char) -> bool {
    ||| '!' <= c <= '/'
    ||| ':' <= c <= '@'
    ||| '[' <= c <= '`'
    ||| '{' <= c <= '~'
}

/// The punctuation of East Asian and of typographic text that separates nothing.
pub open spec fn is_wide_punct(c: char) -> bool {
    match c {
        '、' | '。' | '，' | '；' | '：' | '！' | '？' | '…' | '—' | '–' | '·' | '・'
        | '“' | '”' | '‘' | '’' | '「' | '」' | '『' | '』' | '《' | '》' | '〈' | '〉'
        | '【' | '】' | '〔' | '〕' | '〖' | '〗' | '（' | '）' | '［' | '］' | '｛' | '｝'
        | '～' | '﹏' => true,
        _ => false,
    }
}

/// A character that ends a line.
pub open spec fn is_line_break(c: char) -> bool {
    c == '\n' || c == '\r'
}

/// A character that loose matching passes over: white space within a line and punctuation.
pub open spec fn is_separator(c: char) -> bool {
    ||| is_space(c) && !is_line_break(c)
    ||| is_ascii_punct(folded(c))
    ||| is_wide_punct(c)
}

/// Whether loose matching passes over `character`.
pub fn is_loose_separator(character: char) -> (separator: bool)
    ensures
        separator == is_separator(character),
{
    let narrow = fold_width(character);
    let ascii = ('!' <= narrow && narrow <= '/') || (':' <= narrow && narrow <= '@') || ('['
        <= narrow && narrow <= '`') || ('{' <= narrow && narrow <= '~');
    let wide = match character {
        '、' | '。' | '，' | '；' | '：' | '！' | '？' | '…' | '—' | '–' | '·' | '・'
        | '“' | '”' | '‘' | '’' | '「' | '」' | '『' | '』' | '《' | '》' | '〈' | '〉'
        | '【' | '】' | '〔' | '〕' | '〖' | '〗' | '（' | '）' | '［' | '］' | '｛' | '｝'
        | '～' | '﹏' => true,
        _ => false,
    };
    (is_whitespace(character) && character != '\n' && character != '\r') || ascii || wide
}

/// The characters that `c` is compared by.
pub open spec fn normalized(c: char) -> Seq<char> {
    lowercase(folded(c))
}

/// The characters that `character` is compared by: its narrow form in lower case.
pub fn normalize_character(character: char) -> (result: Vec<char>)
    ensures
        result@ == normalized(character),
        result@.len() >= 1,
{
    lowercase_of(fold_width(character))
}

// ---------------------------------------------------------------------------------------
// Texts
// ---------------------------------------------------------------------------------------

/// What is compared of a text: keys, each with the index of its character. A line break
/// has no key.
pub type Stream = Seq<(Option<char>, int)>;

pub open spec fn stream_keys(stream: Stream) -> Seq<Option<char>> {
    Seq::new(stream.len(), |i: int| stream[i].0)
}

/// What one character at the index `index` adds to the stream of its text.
pub open spec fn loose_part(c: char, index: int) -> Stream {
    if is_line_break(c) {
        seq![(None, index)]
    } else if is_separator(c) {
        seq![]
    } else {
        Seq::new(normalized(c).len(), |i: int| (Some(normalized(c)[i]), index))
    }
}

/// What loose matching compares of the text `s`.
pub open spec fn loose_stream(s: Seq<char>) -> Stream
    decreases s.len(),
{
    if s.len() == 0 {
        seq![]
    } else {
        loose_stream(s.drop_last()) + loose_part(s.last(), s.len() - 1)
    }
}

/// What exact matching compares of the text `s`: its characters.
pub open spec fn exact_stream(s: Seq<char>) -> Stream {
    Seq::new(s.len(), |i: int| (Some(s[i]), i))
}

/// The characters that a query asks for: line breaks and separators ask for nothing.
pub open spec fn loose_pattern(query: Seq<char>) -> Seq<char>
    decreases query.len(),
{
    if query.len() == 0 {
        seq![]
    } else {
        let c = query.last();
        loose_pattern(query.drop_last()) + if is_line_break(c) || is_separator(c) {
            seq![]
        } else {
            normalized(c)
        }
    }
}

/// The bytes of the text `s` from the character of the key at `place` to the end of that of
/// the key `count - 1` places later.
pub open spec fn span_of(s: Seq<char>, stream: Stream, place: int, count: int) -> (int, int) {
    (offset_at(s, stream[place].1) as int, offset_at(s, stream[place + count - 1].1 + 1) as int)
}

/// The bytes of the text `s` at which `pattern` stands in its stream.
pub open spec fn spans(s: Seq<char>, stream: Stream, pattern: Seq<char>) -> Seq<(int, int)> {
    let places = occurrences(stream_keys(stream), lifted(pattern), 0);
    Seq::new(places.len(), |i: int| span_of(s, stream, places[i], pattern.len() as int))
}

/// `units` is the stream of the text `s`, with byte offsets in place of indices.
pub open spec fn units_are(units: Seq<Unit>, s: Seq<char>, stream: Stream) -> bool {
    &&& units.len() == stream.len()
    &&& forall|i: int|
        0 <= i < units.len() ==> {
            &&& (#[trigger] units[i]).key == stream[i].0
            &&& 0 <= stream[i].1 < s.len()
            &&& units[i].start == offset_at(s, stream[i].1)
            &&& units[i].end == offset_at(s, stream[i].1 + 1)
        }
}

/// The start and the end of a range.
pub open spec fn span(range: Range<usize>) -> (int, int) {
    (range.start as int, range.end as int)
}

pub open spec fn ranges_are(ranges: Seq<Range<usize>>, spans: Seq<(int, int)>) -> bool {
    &&& ranges.len() == spans.len()
    &&& forall|i: int| 0 <= i < ranges.len() ==> span(#[trigger] ranges[i]) == spans[i]
}

/// Each of `ranges` is the bytes of the `count` units from the place with the same index.
pub open spec fn ranges_of_places(
    ranges: Seq<Range<usize>>,
    units: Seq<Unit>,
    places: Seq<int>,
    count: int,
) -> bool {
    &&& ranges.len() == places.len()
    &&& forall|i: int|
        #![trigger ranges[i]]
        #![trigger places[i]]
        0 <= i < ranges.len() ==> {
            &&& 0 <= places[i] && places[i] + count <= units.len()
            &&& ranges[i].start == units[places[i]].start
            &&& ranges[i].end == units[places[i] + count - 1].end
        }
}

/// The stream that loose matching compares.
pub fn loose_units(text: &str) -> (units: Vec<Unit>)
    ensures
        units_are(units@, text@, loose_stream(text@)),
{
    let ghost s = text@;
    let characters = chars_of(text);
    let mut units: Vec<Unit> = Vec::new();
    let mut offset: usize = 0;
    let mut i: usize = 0;
    while i < characters.len()
        invariant
            i <= characters.len(),
            characters@ == s,
            byte_len(s) <= usize::MAX,
            offset == offset_at(s, i as int),
            units_are(units@, s, loose_stream(s.take(i as int))),
        decreases characters.len() - i,
    {
        let c = characters[i];
        proof {
            lemma_offset_step(s, i as int);
            lemma_offset_monotone(s, i + 1, s.len() as int);
            lemma_offset_ends(s);
            assert(s.take(i + 1).drop_last() =~= s.take(i as int));
        }
        let ghost before = loose_stream(s.take(i as int));
        let ghost after = loose_stream(s.take(i + 1));
        let end: usize = offset + width_of(c);
        if c == '\n' || c == '\r' {
            units.push(Unit { key: None, start: offset, end });
        } else if !is_loose_separator(c) {
            let parts = normalize_character(c);
            let mut j: usize = 0;
            while j < parts.len()
                invariant
                    j <= parts.len(),
                    parts@ == normalized(c),
                    0 <= i < s.len(),
                    c == s[i as int],
                    !is_line_break(c),
                    !is_separator(c),
                    after == before + loose_part(c, i as int),
                    offset == offset_at(s, i as int),
                    end == offset_at(s, i + 1),
                    units@.len() == before.len() + j,
                    units_are(units@, s, after.take(units@.len() as int)),
                decreases parts.len() - j,
            {
                units.push(Unit { key: Some(parts[j]), start: offset, end });
                j += 1;
            }
            assert(after.take(units@.len() as int) =~= after);
        }
        offset = end;
        i += 1;
    }
    assert(s.take(s.len() as int) =~= s);
    units
}

/// The stream that exact matching compares.
pub fn exact_units(text: &str) -> (units: Vec<Unit>)
    ensures
        units_are(units@, text@, exact_stream(text@)),
{
    let ghost s = text@;
    let characters = chars_of(text);
    let mut units: Vec<Unit> = Vec::new();
    let mut offset: usize = 0;
    let mut i: usize = 0;
    while i < characters.len()
        invariant
            i <= characters.len(),
            characters@ == s,
            byte_len(s) <= usize::MAX,
            offset == offset_at(s, i as int),
            units@.len() == i,
            units_are(units@, s, exact_stream(s).take(i as int)),
        decreases characters.len() - i,
    {
        let c = characters[i];
        proof {
            lemma_offset_step(s, i as int);
            lemma_offset_monotone(s, i + 1, s.len() as int);
            lemma_offset_ends(s);
        }
        let end: usize = offset + width_of(c);
        units.push(Unit { key: Some(c), start: offset, end });
        offset = end;
        i += 1;
    }
    assert(exact_stream(s).take(i as int) =~= exact_stream(s));
    units
}

/// The bytes at which the occurrences among `units` stand.
fn ranges_at(units: &[Unit], places: &[usize], count: usize) -> (ranges: Vec<Range<usize>>)
    requires
        count > 0,
        forall|i: int| 0 <= i < places@.len() ==> (#[trigger] places@[i]) + count <= units@.len(),
    ensures
        ranges_of_places(
            ranges@,
            units@,
            Seq::new(places@.len(), |i: int| places@[i] as int),
            count as int,
        ),
{
    let mut ranges: Vec<Range<usize>> = Vec::new();
    let mut i: usize = 0;
    while i < places.len()
        invariant
            i <= places.len(),
            count > 0,
            forall|j: int|
                0 <= j < places@.len() ==> (#[trigger] places@[j]) + count <= units@.len(),
            ranges@.len() == i,
            forall|j: int|
                0 <= j < i ==> (#[trigger] ranges@[j]).start == units@[places@[j] as int].start
                    && ranges@[j].end == units@[places@[j] + count - 1].end,
        decreases places.len() - i,
    {
        let place: usize = places[i];
        assert(places@[i as int] + count <= units@.len());
        ranges.push(Range { start: units[place].start, end: units[place + (count - 1)].end });
        i += 1;
    }
    ranges
}

/// A pattern that is made ready for searching.
pub struct LooseMatcher {
    characters: Vec<char>,
    prefix: Vec<usize>,
}

impl View for LooseMatcher {
    type V = Seq<char>;

    closed spec fn view(&self) -> Seq<char> {
        self.characters@
    }
}

impl LooseMatcher {
    #[verifier::type_invariant]
    spec fn well_formed(self) -> bool {
        is_prefix_table(self.characters@, self.prefix@)
    }

    /// The pattern of a query for loose matching.
    pub fn new(query: &str) -> (matcher: Self)
        ensures
            matcher@ == loose_pattern(query@),
    {
        let text = chars_of(query);
        let mut characters: Vec<char> = Vec::new();
        let mut i: usize = 0;
        while i < text.len()
            invariant
                i <= text.len(),
                text@ == query@,
                characters@ == loose_pattern(text@.take(i as int)),
            decreases text.len() - i,
        {
            let c = text[i];
            assert(text@.take(i + 1).drop_last() =~= text@.take(i as int));
            if c != '\n' && c != '\r' && !is_loose_separator(c) {
                let parts = normalize_character(c);
                push_all(&mut characters, &parts);
            }
            i += 1;
            assert(characters@ =~= loose_pattern(text@.take(i as int)));
        }
        assert(text@.take(text@.len() as int) =~= text@);
        let prefix = prefix_table(&characters);
        LooseMatcher { characters, prefix }
    }

    /// A pattern of exactly the given characters.
    pub fn exact(pattern: &str) -> (matcher: Self)
        ensures
            matcher@ == pattern@,
    {
        let characters = chars_of(pattern);
        let prefix = prefix_table(&characters);
        LooseMatcher { characters, prefix }
    }

    /// Whether the pattern asks for nothing.
    pub fn is_empty(&self) -> (empty: bool)
        ensures
            empty == (self@.len() == 0),
    {
        self.characters.len() == 0
    }

    /// The bytes at which the pattern stands in the text of `units`.
    pub fn find_in(&self, units: &[Unit]) -> (ranges: Vec<Range<usize>>)
        requires
            self@.len() > 0,
        ensures
            ranges_of_places(
                ranges@,
                units@,
                occurrences(keys(units@), lifted(self@), 0),
                self@.len() as int,
            ),
    {
        proof {
            use_type_invariant(self);
        }
        let places = find_occurrences(units, &self.characters, &self.prefix);
        assert(Seq::new(places@.len(), |i: int| places@[i] as int) =~= occurrences(
            keys(units@),
            lifted(self@),
            0,
        ));
        ranges_at(units, &places, self.characters.len())
    }

    /// The bytes of `text` that match loosely.
    pub fn find_all(&self, text: &str) -> (ranges: Vec<Range<usize>>)
        requires
            self@.len() > 0,
        ensures
            ranges_are(ranges@, spans(text@, loose_stream(text@), self@)),
    {
        let units = loose_units(text);
        let ranges = self.find_in(&units);
        proof {
            lemma_units_spans(units@, text@, loose_stream(text@), self@, ranges@);
        }
        ranges
    }

    /// The bytes of `text` that match exactly.
    pub fn find_exact(&self, text: &str) -> (ranges: Vec<Range<usize>>)
        requires
            self@.len() > 0,
        ensures
            ranges_are(ranges@, spans(text@, exact_stream(text@), self@)),
    {
        let units = exact_units(text);
        let ranges = self.find_in(&units);
        proof {
            lemma_units_spans(units@, text@, exact_stream(text@), self@, ranges@);
        }
        ranges
    }

    /// Whether `text` holds the pattern. A pattern that asks for nothing is found nowhere.
    pub fn is_match(&self, text: &str) -> (found: bool)
        ensures
            found == loose_match(self@, text@),
    {
        if self.is_empty() {
            return false;
        }
        let ranges = self.find_all(text);
        proof {
            lemma_occurrences_exist(stream_keys(loose_stream(text@)), lifted(self@));
        }
        ranges.len() > 0
    }
}

/// `pattern` stands somewhere in what is compared of the text `s`.
pub open spec fn loose_match(pattern: Seq<char>, s: Seq<char>) -> bool {
    pattern.len() > 0 && exists|i: int|
        occurs_at(stream_keys(loose_stream(s)), lifted(pattern), i)
}

proof fn lemma_units_spans(
    units: Seq<Unit>,
    s: Seq<char>,
    stream: Stream,
    pattern: Seq<char>,
    ranges: Seq<Range<usize>>,
)
    requires
        units_are(units, s, stream),
        pattern.len() > 0,
        ranges_of_places(
            ranges,
            units,
            occurrences(keys(units), lifted(pattern), 0),
            pattern.len() as int,
        ),
    ensures
        ranges_are(ranges, spans(s, stream, pattern)),
{
    assert(keys(units) =~= stream_keys(stream));
    let places = occurrences(keys(units), lifted(pattern), 0);
    assert forall|i: int| 0 <= i < ranges.len() implies span(#[trigger] ranges[i]) == spans(
        s,
        stream,
        pattern,
    )[i] by {
        assert(units[places[i]].key == stream[places[i]].0);
        assert(units[places[i] + pattern.len() - 1].key == stream[places[i] + pattern.len() - 1].0);
    }
}

// ---------------------------------------------------------------------------------------
// Laws
// ---------------------------------------------------------------------------------------

proof fn lemma_keys_concat(a: Seq<char>, b: Seq<char>)
    ensures
        stream_keys(loose_stream(a + b)) == stream_keys(loose_stream(a)) + stream_keys(
            loose_stream(b),
        ),
    decreases b.len(),
{
    if b.len() == 0 {
        assert(a + b =~= a);
        assert(stream_keys(loose_stream(b)) =~= seq![]);
    } else {
        let t = b.drop_last();
        lemma_keys_concat(a, t);
        assert((a + b).drop_last() =~= a + t);
        let long = loose_part(b.last(), (a + b).len() - 1);
        let short = loose_part(b.last(), b.len() - 1);
        assert(stream_keys(long) =~= stream_keys(short));
        assert(stream_keys(loose_stream(a + b)) =~= stream_keys(loose_stream(a + t)) + stream_keys(
            long,
        ));
        assert(stream_keys(loose_stream(b)) =~= stream_keys(loose_stream(t)) + stream_keys(short));
    }
}

proof fn lemma_pattern_concat(a: Seq<char>, b: Seq<char>)
    ensures
        loose_pattern(a + b) == loose_pattern(a) + loose_pattern(b),
    decreases b.len(),
{
    if b.len() == 0 {
        assert(a + b =~= a);
    } else {
        lemma_pattern_concat(a, b.drop_last());
        assert((a + b).drop_last() =~= a + b.drop_last());
        assert(loose_pattern(a + b) =~= loose_pattern(a) + loose_pattern(b));
    }
}

/// White space and punctuation within a line of the text change no match.
pub proof fn law_text_separators_do_not_matter(
    pattern: Seq<char>,
    before: Seq<char>,
    separator: char,
    after: Seq<char>,
)
    requires
        is_separator(separator),
    ensures
        loose_match(pattern, before.push(separator) + after) == loose_match(
            pattern,
            before + after,
        ),
{
    lemma_keys_concat(before.push(separator), after);
    lemma_keys_concat(before, after);
    assert(before.push(separator).drop_last() =~= before);
    assert(stream_keys(loose_stream(before.push(separator))) =~= stream_keys(loose_stream(before)));
}

/// White space and punctuation of the query change nothing in what it asks for.
pub proof fn law_query_separators_do_not_matter(
    before: Seq<char>,
    separator: char,
    after: Seq<char>,
)
    requires
        is_separator(separator),
    ensures
        loose_pattern(before.push(separator) + after) == loose_pattern(before + after),
{
    lemma_pattern_concat(before.push(separator), after);
    lemma_pattern_concat(before, after);
    assert(before.push(separator).drop_last() =~= before);
    assert(loose_pattern(before.push(separator)) =~= loose_pattern(before));
}

/// A text with its full-width forms made narrow has the same matches.
pub proof fn law_width_does_not_matter(pattern: Seq<char>, s: Seq<char>)
    ensures
        loose_match(pattern, s.map_values(|c: char| folded(c))) == loose_match(pattern, s),
{
    lemma_width_keys(s);
}

proof fn lemma_width_keys(s: Seq<char>)
    ensures
        stream_keys(loose_stream(s.map_values(|c: char| folded(c)))) == stream_keys(
            loose_stream(s),
        ),
    decreases s.len(),
{
    let narrow = s.map_values(|c: char| folded(c));
    if s.len() > 0 {
        lemma_width_keys(s.drop_last());
        assert(narrow.drop_last() =~= s.drop_last().map_values(|c: char| folded(c)));
        let c = s.last();
        assert(folded(folded(c)) == folded(c));
        assert(is_separator(folded(c)) == is_separator(c));
        assert(is_line_break(folded(c)) == is_line_break(c));
        assert(loose_part(narrow.last(), s.len() - 1) =~= loose_part(c, s.len() - 1));
        assert(stream_keys(loose_stream(narrow)) =~= stream_keys(loose_stream(narrow.drop_last()))
            + stream_keys(loose_part(c, s.len() - 1)));
        assert(stream_keys(loose_stream(s)) =~= stream_keys(loose_stream(s.drop_last()))
            + stream_keys(loose_part(c, s.len() - 1)));
    } else {
        assert(narrow =~= s);
    }
}

/// Two characters are compared alike: they are the same, or letters that differ in case or
/// width only.
pub open spec fn same_letter(a: char, b: char) -> bool {
    a == b || (normalized(a) == normalized(b) && !is_separator(a) && !is_separator(b)
        && !is_line_break(a) && !is_line_break(b))
}

/// Two texts that differ in the case of letters only have the same matches, at the same
/// characters.
pub proof fn law_case_does_not_matter(pattern: Seq<char>, s: Seq<char>, t: Seq<char>)
    requires
        s.len() == t.len(),
        forall|i: int| #![auto] 0 <= i < s.len() ==> same_letter(s[i], t[i]),
    ensures
        loose_stream(s) == loose_stream(t),
        loose_match(pattern, s) == loose_match(pattern, t),
    decreases s.len(),
{
    if s.len() > 0 {
        assert forall|i: int| #![auto] 0 <= i < s.drop_last().len() implies same_letter(
            s.drop_last()[i],
            t.drop_last()[i],
        ) by {
            assert(same_letter(s[i], t[i]));
        }
        law_case_does_not_matter(pattern, s.drop_last(), t.drop_last());
        assert(same_letter(s[s.len() - 1], t[t.len() - 1]));
        assert(loose_part(s.last(), s.len() - 1) =~= loose_part(t.last(), t.len() - 1));
    }
}

/// The stream follows the text: indices never go back, and a line break has its place.
proof fn lemma_stream_order(s: Seq<char>)
    ensures
        forall|i: int|
            0 <= i < loose_stream(s).len() ==> 0 <= (#[trigger] loose_stream(s)[i]).1 < s.len(),
        forall|i: int, j: int|
            0 <= i <= j < loose_stream(s).len() ==> (#[trigger] loose_stream(s)[i]).1 <= (
            #[trigger] loose_stream(s)[j]).1,
        forall|k: int|
            0 <= k < s.len() && is_line_break(#[trigger] s[k]) ==> exists|i: int|
                0 <= i < loose_stream(s).len() && #[trigger] loose_stream(s)[i] == (
                    None::<char>,
                    k,
                ),
        forall|i: int|
            0 <= i < loose_stream(s).len() && (#[trigger] loose_stream(s)[i]).0 is Some
                ==> !is_line_break(s[loose_stream(s)[i].1]),
    decreases s.len(),
{
    if s.len() > 0 {
        let t = s.drop_last();
        lemma_stream_order(t);
        let before = loose_stream(t);
        let part = loose_part(s.last(), s.len() - 1);
        let all = loose_stream(s);
        assert(all == before + part);
        assert forall|i: int| 0 <= i < all.len() implies 0 <= (#[trigger] all[i]).1 < s.len() && (
        all[i].0 is Some ==> !is_line_break(s[all[i].1])) by {
            if i < before.len() {
                assert(all[i] == before[i]);
            } else {
                assert(all[i] == part[i - before.len()]);
            }
        }
        assert forall|i: int, j: int| 0 <= i <= j < all.len() implies (#[trigger] all[i]).1 <= (
        #[trigger] all[j]).1 by {
            if i < before.len() {
                assert(all[i] == before[i]);
            } else {
                assert(all[i] == part[i - before.len()]);
            }
            if j < before.len() {
                assert(all[j] == before[j]);
            } else {
                assert(all[j] == part[j - before.len()]);
            }
        }
        assert forall|k: int| 0 <= k < s.len() && is_line_break(#[trigger] s[k]) implies exists|
            i: int,
        |
            0 <= i < all.len() && #[trigger] all[i] == (None::<char>, k) by {
            if k < t.len() {
                assert(t[k] == s[k]);
                let i = choose|i: int|
                    0 <= i < before.len() && #[trigger] before[i] == (None::<char>, k);
                assert(all[i] == (None::<char>, k));
            } else {
                assert(all[before.len() as int] == part[0]);
            }
        }
    }
}

/// No match goes across a line break: none of its characters is one.
pub proof fn law_no_match_across_lines(s: Seq<char>, pattern: Seq<char>, n: int, k: int)
    requires
        0 <= n < spans(s, loose_stream(s), pattern).len(),
        0 <= k < s.len(),
        spans(s, loose_stream(s), pattern)[n].0 <= offset_at(s, k) < spans(
            s,
            loose_stream(s),
            pattern,
        )[n].1,
    ensures
        !is_line_break(s[k]),
{
    let stream = loose_stream(s);
    let m = pattern.len() as int;
    let place = occurrences(stream_keys(stream), lifted(pattern), 0)[n];
    lemma_occurrences(stream_keys(stream), lifted(pattern), 0);
    lemma_stream_order(s);
    let found = stream_keys(stream).subrange(place, place + m);
    assert(found == lifted(pattern));
    assert forall|i: int| place <= i < place + m implies (#[trigger] stream[i]).0 is Some by {
        assert(found[i - place] == lifted(pattern)[i - place]);
    }
    let first = stream[place].1;
    let last = stream[place + m - 1].1;
    if k < first {
        lemma_offset_step(s, k);
        lemma_offset_monotone(s, k + 1, first);
    }
    if last < k {
        lemma_offset_monotone(s, last + 1, k);
    }
    if is_line_break(s[k]) {
        let i = choose|i: int| 0 <= i < stream.len() && #[trigger] stream[i] == (None::<char>, k);
        if i < place {
            assert(stream[i].1 <= stream[place].1);
            assert(stream[place].1 == k);
        } else if i >= place + m {
            assert(stream[place + m - 1].1 <= stream[i].1);
            assert(stream[place + m - 1].1 == k);
        }
    }
}

/// What is compared of a text begins with what is compared of its start; the rest comes of
/// later characters.
proof fn lemma_stream_prefix(s: Seq<char>, k: int)
    requires
        0 <= k <= s.len(),
    ensures
        loose_stream(s.take(k)).len() <= loose_stream(s).len(),
        loose_stream(s).take(loose_stream(s.take(k)).len() as int) == loose_stream(s.take(k)),
        forall|i: int|
            loose_stream(s.take(k)).len() <= i < loose_stream(s).len() ==> (
            #[trigger] loose_stream(s)[i]).1 >= k,
    decreases s.len(),
{
    if k == s.len() {
        assert(s.take(k) =~= s);
        assert(loose_stream(s).take(loose_stream(s).len() as int) =~= loose_stream(s));
    } else {
        let t = s.drop_last();
        lemma_stream_prefix(t, k);
        assert(t.take(k) =~= s.take(k));
        let n = loose_stream(s.take(k)).len() as int;
        let part = loose_part(s.last(), s.len() - 1);
        assert(loose_stream(s) == loose_stream(t) + part);
        assert(loose_stream(s).take(n) =~= loose_stream(t).take(n));
        assert forall|i: int| n <= i < loose_stream(s).len() implies (
        #[trigger] loose_stream(s)[i]).1 >= k by {
            if i < loose_stream(t).len() {
                assert(loose_stream(s)[i] == loose_stream(t)[i]);
            } else {
                assert(loose_stream(s)[i] == part[i - loose_stream(t).len()]);
            }
        }
    }
}

/// Of a text without line breaks the same is compared whether it is searched or asked for.
proof fn lemma_keys_of_line(s: Seq<char>)
    requires
        forall|i: int| 0 <= i < s.len() ==> !is_line_break(#[trigger] s[i]),
    ensures
        stream_keys(loose_stream(s)) == lifted(loose_pattern(s)),
    decreases s.len(),
{
    if s.len() > 0 {
        let t = s.drop_last();
        assert forall|i: int| 0 <= i < t.len() implies !is_line_break(#[trigger] t[i]) by {
            assert(t[i] == s[i]);
        }
        lemma_keys_of_line(t);
        assert(!is_line_break(s[s.len() - 1]));
        assert(stream_keys(loose_stream(s)) =~= stream_keys(loose_stream(t)) + stream_keys(
            loose_part(s.last(), s.len() - 1),
        ));
        assert(lifted(loose_pattern(s)) =~= stream_keys(loose_stream(s)));
    } else {
        assert(stream_keys(loose_stream(s)) =~= lifted(loose_pattern(s)));
    }
}

/// A match is what was asked for, and skips nothing but white space and punctuation: what is
/// compared of it is the pattern. Only where its first or its last character is compared by
/// several, some of these may stand before or behind the pattern.
pub proof fn law_match_skips_nothing(s: Seq<char>, pattern: Seq<char>, n: int) -> (around: (
    Seq<char>,
    Seq<char>,
))
    requires
        pattern.len() > 0,
        0 <= n < spans(s, loose_stream(s), pattern).len(),
    ensures
        ({
            let found = spans(s, loose_stream(s), pattern)[n];
            let text = crate::text::bytes_between(s, found.0, found.1);
            &&& text.len() > 0
            &&& loose_pattern(text) == around.0 + pattern + around.1
            &&& around.0.len() < normalized(text[0]).len()
            &&& around.1.len() < normalized(text.last()).len()
        }),
{
    let stream = loose_stream(s);
    let m = pattern.len() as int;
    let place = occurrences(stream_keys(stream), lifted(pattern), 0)[n];
    lemma_occurrences(stream_keys(stream), lifted(pattern), 0);
    assert(occurs_at(stream_keys(stream), lifted(pattern), place));
    lemma_stream_order(s);
    let first = stream[place].1;
    let last = stream[place + m - 1].1;
    let text = s.subrange(first, last + 1);
    crate::text::lemma_index_of_offset(s, first);
    crate::text::lemma_index_of_offset(s, last + 1);
    // Before the first character.
    lemma_stream_prefix(s, first);
    lemma_stream_prefix(s, first + 1);
    lemma_stream_order(s.take(first));
    let p = loose_stream(s.take(first)).len() as int;
    assert(s.take(first + 1).drop_last() =~= s.take(first));
    if place < p {
        assert(stream.take(p)[place] == stream[place]);
    }
    // Behind the last character.
    lemma_stream_prefix(s, last);
    lemma_stream_prefix(s, last + 1);
    lemma_stream_order(s.take(last));
    let q = loose_stream(s.take(last + 1)).len() as int;
    let r = loose_stream(s.take(last)).len() as int;
    assert(s.take(last + 1).drop_last() =~= s.take(last));
    if place + m - 1 < r {
        assert(stream.take(r)[place + m - 1] == stream[place + m - 1]);
    }
    // What is compared of the match.
    lemma_keys_concat(s.take(first), text);
    assert(s.take(first) + text =~= s.take(last + 1));
    let own = stream_keys(loose_stream(text));
    assert(own =~= stream_keys(stream).subrange(p, q)) by {
        let start = stream_keys(loose_stream(s.take(first)));
        let whole = stream_keys(loose_stream(s.take(last + 1)));
        assert(whole == start + own);
        assert(start.len() == p);
        assert(whole.len() == q);
        assert((start + own).len() == start.len() + own.len());
        assert forall|j: int| 0 <= j < q implies #[trigger] whole[j] == stream_keys(
            stream,
        )[j] by {
            assert(stream.take(q)[j] == stream[j]);
        }
        assert forall|j: int| 0 <= j < own.len() implies own[j] == stream_keys(stream)[p + j] by {
            assert((start + own)[p + j] == own[j]);
            assert(whole[p + j] == stream_keys(stream)[p + j]);
        }
    }
    assert forall|k: int| 0 <= k < text.len() implies !is_line_break(#[trigger] text[k]) by {
        lemma_offset_monotone(s, first, first + k);
        lemma_offset_step(s, first + k);
        lemma_offset_monotone(s, first + k + 1, last + 1);
        law_no_match_across_lines(s, pattern, n, first + k);
    }
    lemma_keys_of_line(text);
    let all = loose_pattern(text);
    let around = (all.take(place - p), all.skip(place - p + m));
    assert(lifted(all).len() == all.len());
    assert forall|i: int| 0 <= i < m implies all[place - p + i] == pattern[i] by {
        assert(lifted(all)[place - p + i] == own[place - p + i]);
        assert(own[place - p + i] == stream_keys(stream)[place + i]);
        assert(stream_keys(stream).subrange(place, place + m)[i] == lifted(pattern)[i]);
    }
    assert(all =~= around.0 + pattern + around.1);
    around
}

/// Every match has at least one character, lies in the text between two boundaries, and starts
/// no earlier than the match before it.
pub proof fn law_matches_are_in_order(s: Seq<char>, pattern: Seq<char>)
    requires
        pattern.len() > 0,
    ensures
        spans_in_order(s, spans(s, loose_stream(s), pattern)),
{
    lemma_stream_order(s);
    lemma_spans_in_order(s, loose_stream(s), pattern);
}

/// Each span has a character and lies between two boundaries; none starts before the one
/// ahead of it.
pub open spec fn spans_in_order(s: Seq<char>, all: Seq<(int, int)>) -> bool {
    &&& forall|n: int|
        0 <= n < all.len() ==> {
            &&& 0 <= (#[trigger] all[n]).0 < all[n].1 <= byte_len(s)
            &&& crate::text::is_boundary(s, all[n].0)
            &&& crate::text::is_boundary(s, all[n].1)
        }
    &&& forall|a: int, b: int| 0 <= a < b < all.len() ==> (#[trigger] all[a]).0 <= (#[trigger] all[b]).0
}

proof fn lemma_spans_in_order(s: Seq<char>, stream: Stream, pattern: Seq<char>)
    requires
        pattern.len() > 0,
        forall|i: int| 0 <= i < stream.len() ==> 0 <= (#[trigger] stream[i]).1 < s.len(),
        forall|i: int, j: int|
            0 <= i <= j < stream.len() ==> (#[trigger] stream[i]).1 <= (#[trigger] stream[j]).1,
    ensures
        spans_in_order(s, spans(s, stream, pattern)),
{
    let all = spans(s, stream, pattern);
    let places = occurrences(stream_keys(stream), lifted(pattern), 0);
    let m = pattern.len() as int;
    lemma_occurrences(stream_keys(stream), lifted(pattern), 0);
    assert forall|n: int| 0 <= n < all.len() implies {
        &&& 0 <= (#[trigger] all[n]).0 < all[n].1 <= byte_len(s)
        &&& crate::text::is_boundary(s, all[n].0)
        &&& crate::text::is_boundary(s, all[n].1)
    } by {
        assert(occurs_at(stream_keys(stream), lifted(pattern), places[n]));
        let first = stream[places[n]].1;
        let last = stream[places[n] + m - 1].1;
        lemma_offset_step(s, first);
        lemma_offset_monotone(s, first + 1, last + 1);
        lemma_offset_monotone(s, last + 1, s.len() as int);
        lemma_offset_ends(s);
    }
    assert forall|a: int, b: int| 0 <= a < b < all.len() implies (#[trigger] all[a]).0 <= (
    #[trigger] all[b]).0 by {
        assert(occurs_at(stream_keys(stream), lifted(pattern), places[a]));
        assert(occurs_at(stream_keys(stream), lifted(pattern), places[b]));
        assert(places[a] + m <= places[b]);
        lemma_offset_monotone(s, stream[places[a]].1, stream[places[b]].1);
    }
}

/// Exact matches do not overlap, and each is the characters of the pattern.
pub proof fn law_exact_matches(s: Seq<char>, pattern: Seq<char>)
    requires
        pattern.len() > 0,
    ensures
        spans_in_order(s, spans(s, exact_stream(s), pattern)),
        forall|a: int, b: int|
            0 <= a < b < spans(s, exact_stream(s), pattern).len() ==> (#[trigger] spans(
                s,
                exact_stream(s),
                pattern,
            )[a]).1 <= (#[trigger] spans(s, exact_stream(s), pattern)[b]).0,
        forall|n: int|
            0 <= n < spans(s, exact_stream(s), pattern).len() ==> crate::text::bytes_between(
                s,
                (#[trigger] spans(s, exact_stream(s), pattern)[n]).0,
                spans(s, exact_stream(s), pattern)[n].1,
            ) == pattern,
{
    let stream = exact_stream(s);
    let m = pattern.len() as int;
    lemma_spans_in_order(s, stream, pattern);
    let all = spans(s, stream, pattern);
    let places = occurrences(stream_keys(stream), lifted(pattern), 0);
    lemma_occurrences(stream_keys(stream), lifted(pattern), 0);
    assert forall|a: int, b: int| 0 <= a < b < all.len() implies (#[trigger] all[a]).1 <= (
    #[trigger] all[b]).0 by {
        assert(occurs_at(stream_keys(stream), lifted(pattern), places[b]));
        assert(places[a] + m <= places[b]);
        lemma_offset_monotone(s, places[a] + m, places[b]);
    }
    assert forall|n: int| 0 <= n < all.len() implies crate::text::bytes_between(
        s,
        (#[trigger] all[n]).0,
        all[n].1,
    ) == pattern by {
        assert(occurs_at(stream_keys(stream), lifted(pattern), places[n]));
        crate::text::lemma_index_of_offset(s, places[n]);
        crate::text::lemma_index_of_offset(s, places[n] + m);
        let found = stream_keys(stream).subrange(places[n], places[n] + m);
        assert forall|i: int| 0 <= i < m implies s.subrange(places[n], places[n] + m)[i]
            == pattern[i] by {
            assert(found[i] == lifted(pattern)[i]);
        }
        assert(s.subrange(places[n], places[n] + m) =~= pattern);
    }
}

} // verus!

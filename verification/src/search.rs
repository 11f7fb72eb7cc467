//! Searching a document: exactly, loosely, or for a regular expression.
use std::ops::Range;

use regex::RegexBuilder;
use vstd::prelude::*;

use crate::loose_match::{exact_stream, loose_pattern, loose_stream, span, spans, LooseMatcher};
use crate::text::{
    byte_len, chars_of, floor_boundary, floor_char_boundary, greatest, is_boundary, least,
};

verus! {

/// The longest pattern that is searched for, in characters.
pub const MAX_PATTERN_CHARS: usize = 4096;

/// The most bytes that a compiled regular expression may take.
pub const REGEX_SIZE_LIMIT: usize = 10485760;

/// Where the next match is looked for.
#[derive(Clone, Copy, Debug, PartialEq, Eq, Structural)]
pub enum SearchDirection {
    Forward,
    Backward,
}

/// How a pattern is compared with the text.
#[derive(Clone, Copy, Debug, PartialEq, Eq, Structural)]
pub enum SearchKind {
    LooseLiteral,
    ExactLiteral,
    Regex,
}

/// What is searched for.
#[derive(Debug, PartialEq, Eq)]
pub struct SearchQuery {
    pub kind: SearchKind,
    pub pattern: String,
}

impl View for SearchQuery {
    type V = (SearchKind, Seq<char>);

    open spec fn view(&self) -> (SearchKind, Seq<char>) {
        (self.kind, self.pattern@)
    }
}

impl Clone for SearchQuery {
    fn clone(&self) -> (copy: Self)
        ensures
            copy@ == self@,
    {
        SearchQuery { kind: self.kind, pattern: self.pattern.clone() }
    }
}

impl SearchQuery {
    pub fn new(kind: SearchKind, pattern: &str) -> (query: Self)
        ensures
            query@ == (kind, pattern@),
    {
        SearchQuery { kind, pattern: pattern.to_owned() }
    }
}

/// One match, with its number among all matches.
#[derive(Debug, PartialEq, Eq)]
pub struct SearchHit {
    pub range: Range<usize>,
    pub ordinal: usize,
}

impl View for SearchHit {
    type V = ((int, int), int);

    open spec fn view(&self) -> ((int, int), int) {
        (span(self.range), self.ordinal as int)
    }
}

impl Clone for SearchHit {
    fn clone(&self) -> (copy: Self)
        ensures
            copy@ == self@,
    {
        SearchHit {
            range: Range { start: self.range.start, end: self.range.end },
            ordinal: self.ordinal,
        }
    }
}

/// All that is shown of a search: the match that was gone to, how many there are, and those
/// around it.
#[derive(Debug, PartialEq, Eq)]
pub struct SearchAnalysis {
    pub current: Option<SearchHit>,
    pub total: usize,
    pub previews: Vec<SearchHit>,
}

/// Why a search cannot be made.
#[derive(Debug, PartialEq, Eq)]
pub enum SearchError {
    Empty,
    PatternTooLong,
    InvalidRegex(String),
}

/// What a search error says, as a value of the mathematical model.
pub enum SearchFault {
    Empty,
    PatternTooLong,
    InvalidRegex(Seq<char>),
}

impl View for SearchError {
    type V = SearchFault;

    open spec fn view(&self) -> SearchFault {
        match self {
            SearchError::Empty => SearchFault::Empty,
            SearchError::PatternTooLong => SearchFault::PatternTooLong,
            SearchError::InvalidRegex(message) => SearchFault::InvalidRegex(message@),
        }
    }
}

impl Clone for SearchError {
    fn clone(&self) -> (copy: Self)
        ensures
            copy@ == self@,
    {
        match self {
            SearchError::Empty => SearchError::Empty,
            SearchError::PatternTooLong => SearchError::PatternTooLong,
            SearchError::InvalidRegex(message) => SearchError::InvalidRegex(message.clone()),
        }
    }
}

impl SearchError {
    /// The message for the reader.
    pub fn message(&self) -> (text: String)
        ensures
            text@ == search_fault_text(self@),
    {
        match self {
            SearchError::Empty => "search text cannot be empty".to_owned(),
            SearchError::PatternTooLong => {
                "search pattern cannot exceed 4096 characters".to_owned()
            },
            SearchError::InvalidRegex(error) => {
                let mut text = "invalid regular expression: ".to_owned();
                text.append(error.as_str());
                text
            },
        }
    }
}

pub open spec fn search_fault_text(fault: SearchFault) -> Seq<char> {
    match fault {
        SearchFault::Empty => "search text cannot be empty"@,
        SearchFault::PatternTooLong => "search pattern cannot exceed 4096 characters"@,
        SearchFault::InvalidRegex(error) => "invalid regular expression: "@ + error,
    }
}

// ---------------------------------------------------------------------------------------
// Matches
// ---------------------------------------------------------------------------------------

/// Why a regular expression is refused under a size limit, if it is.
pub uninterp spec fn regex_refusal(pattern: Seq<char>, size_limit: nat) -> Option<Seq<char>>;

/// The matches of a regular expression in a text as byte offsets.
pub uninterp spec fn regex_matches(pattern: Seq<char>, size_limit: nat, text: Seq<char>) -> Seq<
    (int, int),
>;

pub open spec fn range_spans(ranges: Seq<Range<usize>>) -> Seq<(int, int)> {
    Seq::new(ranges.len(), |i: int| span(ranges[i]))
}

/// Builds the expression with `regex::RegexBuilder::build` under a size limit, which does not
/// see the text, and collects the ranges of `Regex::find_iter`; a refusal becomes its message.
/// The ranges lie in the text between two boundaries, and each begins where the one before it
/// ends or later.
#[verifier::external_body]
pub(crate) fn regex_ranges(pattern: &str, size_limit: usize, text: &str) -> (found: Result<
    Vec<Range<usize>>,
    String,
>)
    ensures
        match found {
            Ok(ranges) => regex_refusal(pattern@, size_limit as nat) is None && range_spans(ranges@)
                == regex_matches(pattern@, size_limit as nat, text@),
            Err(message) => regex_refusal(pattern@, size_limit as nat) == Some(message@),
        },
        found matches Ok(ranges) ==> forall|i: int|
            0 <= i < ranges@.len() ==> {
                &&& (#[trigger] ranges@[i]).start <= ranges@[i].end <= byte_len(text@)
                &&& is_boundary(text@, ranges@[i].start as int)
                &&& is_boundary(text@, ranges@[i].end as int)
            },
        found matches Ok(ranges) ==> forall|i: int, j: int|
            0 <= i < j < ranges@.len() ==> (#[trigger] ranges@[i]).end <= (
            #[trigger] ranges@[j]).start,
{
    match RegexBuilder::new(pattern).size_limit(size_limit).build() {
        Ok(regex) => Ok(regex.find_iter(text).map(|found| found.range()).collect()),
        Err(error) => Err(error.to_string()),
    }
}

/// The spans that hold at least one byte.
pub open spec fn without_empty(all: Seq<(int, int)>) -> Seq<(int, int)>
    decreases all.len(),
{
    if all.len() == 0 {
        seq![]
    } else if all.last().0 == all.last().1 {
        without_empty(all.drop_last())
    } else {
        without_empty(all.drop_last()).push(all.last())
    }
}

/// The ranges that hold at least one byte.
pub fn drop_empty(ranges: &[Range<usize>]) -> (kept: Vec<Range<usize>>)
    ensures
        range_spans(kept@) == without_empty(range_spans(ranges@)),
{
    let mut kept: Vec<Range<usize>> = Vec::new();
    let mut i: usize = 0;
    while i < ranges.len()
        invariant
            i <= ranges.len(),
            range_spans(kept@) == without_empty(range_spans(ranges@).take(i as int)),
        decreases ranges.len() - i,
    {
        assert(range_spans(ranges@).take(i + 1).drop_last() =~= range_spans(ranges@).take(i as int));
        let start: usize = ranges[i].start;
        let end: usize = ranges[i].end;
        let ghost before = kept@;
        if start != end {
            kept.push(Range { start, end });
            assert(range_spans(kept@) =~= range_spans(before).push((start as int, end as int)));
        }
        i += 1;
    }
    assert(range_spans(ranges@).take(i as int) =~= range_spans(ranges@));
    kept
}

/// All matches of a query in a text, or why it cannot be searched for.
pub open spec fn query_result(kind: SearchKind, pattern: Seq<char>, text: Seq<char>) -> Result<
    Seq<(int, int)>,
    SearchFault,
> {
    if pattern.len() == 0 {
        Err(SearchFault::Empty)
    } else if pattern.len() > MAX_PATTERN_CHARS {
        Err(SearchFault::PatternTooLong)
    } else {
        match kind {
            SearchKind::ExactLiteral => Ok(spans(text, exact_stream(text), pattern)),
            SearchKind::LooseLiteral => if loose_pattern(pattern).len() == 0 {
                Ok(spans(text, exact_stream(text), pattern))
            } else {
                Ok(spans(text, loose_stream(text), loose_pattern(pattern)))
            },
            SearchKind::Regex => match regex_refusal(pattern, REGEX_SIZE_LIMIT as nat) {
                Some(message) => Err(SearchFault::InvalidRegex(message)),
                None => Ok(
                    without_empty(regex_matches(pattern, REGEX_SIZE_LIMIT as nat, text)),
                ),
            },
        }
    }
}

/// All matches of a query.
pub fn find_matches(text: &str, query: &SearchQuery) -> (found: Result<
    Vec<Range<usize>>,
    SearchError,
>)
    ensures
        match found {
            Ok(ranges) => query_result(query@.0, query@.1, text@) == Ok::<
                Seq<(int, int)>,
                SearchFault,
            >(range_spans(ranges@)),
            Err(error) => query_result(query@.0, query@.1, text@) == Err::<
                Seq<(int, int)>,
                SearchFault,
            >(error@),
        },
{
    let characters = chars_of(query.pattern.as_str());
    if characters.len() == 0 {
        return Err(SearchError::Empty);
    }
    if characters.len() > MAX_PATTERN_CHARS {
        return Err(SearchError::PatternTooLong);
    }
    match query.kind {
        SearchKind::ExactLiteral => {
            let matcher = LooseMatcher::exact(query.pattern.as_str());
            let ranges = matcher.find_exact(text);
            assert(range_spans(ranges@) =~= spans(text@, exact_stream(text@), query.pattern@));
            Ok(ranges)
        },
        SearchKind::LooseLiteral => {
            let matcher = LooseMatcher::new(query.pattern.as_str());
            if matcher.is_empty() {
                let exact = LooseMatcher::exact(query.pattern.as_str());
                let ranges = exact.find_exact(text);
                assert(range_spans(ranges@) =~= spans(text@, exact_stream(text@), query.pattern@));
                Ok(ranges)
            } else {
                let ranges = matcher.find_all(text);
                assert(range_spans(ranges@) =~= spans(text@, loose_stream(text@), matcher@));
                Ok(ranges)
            }
        },
        SearchKind::Regex => match regex_ranges(query.pattern.as_str(), REGEX_SIZE_LIMIT, text) {
            Ok(ranges) => Ok(drop_empty(&ranges)),
            Err(message) => Err(SearchError::InvalidRegex(message)),
        },
    }
}

// ---------------------------------------------------------------------------------------
// Choosing a match
// ---------------------------------------------------------------------------------------

/// The first span from the index `i` on that starts at `from` or later, or their number.
pub open spec fn first_from(all: Seq<(int, int)>, from: int, i: int) -> int
    decreases all.len() - i,
{
    if i < 0 || i >= all.len() {
        all.len() as int
    } else if all[i].0 >= from {
        i
    } else {
        first_from(all, from, i + 1)
    }
}

/// The last span before the index `n` that ends at `from` or earlier, or -1.
pub open spec fn last_until(all: Seq<(int, int)>, from: int, n: int) -> int
    decreases n,
{
    if n <= 0 || n > all.len() {
        -1
    } else if all[n - 1].1 <= from {
        n - 1
    } else {
        last_until(all, from, n - 1)
    }
}

/// The match that a search from the offset `from` goes to; at the edge of the document the
/// search goes on at the other one.
pub open spec fn chosen(
    all: Seq<(int, int)>,
    from: int,
    direction: SearchDirection,
) -> Option<int> {
    if all.len() == 0 {
        None
    } else {
        match direction {
            SearchDirection::Forward => {
                let i = first_from(all, from, 0);
                Some(if i < all.len() {
                    i
                } else {
                    0
                })
            },
            SearchDirection::Backward => {
                let i = last_until(all, from, all.len() as int);
                Some(if i >= 0 {
                    i
                } else {
                    all.len() - 1
                })
            },
        }
    }
}

/// The index of the match that a search from `from` goes to.
pub fn choose_match(ranges: &[Range<usize>], from: usize, direction: SearchDirection) -> (index:
    Option<usize>)
    ensures
        match index {
            Some(i) => i < ranges@.len() && chosen(range_spans(ranges@), from as int, direction)
                == Some(i as int),
            None => chosen(range_spans(ranges@), from as int, direction) is None,
        },
{
    let ghost all = range_spans(ranges@);
    if ranges.len() == 0 {
        return None;
    }
    match direction {
        SearchDirection::Forward => {
            let mut i: usize = 0;
            while i < ranges.len()
                invariant
                    i <= ranges.len(),
                    all == range_spans(ranges@),
                    direction == SearchDirection::Forward,
                    first_from(all, from as int, 0) == first_from(all, from as int, i as int),
                decreases ranges.len() - i,
            {
                assert(all[i as int] == span(ranges@[i as int]));
                if ranges[i].start >= from {
                    return Some(i);
                }
                i += 1;
            }
            Some(0)
        },
        SearchDirection::Backward => {
            let mut n: usize = ranges.len();
            while n > 0
                invariant
                    n <= ranges.len(),
                    all == range_spans(ranges@),
                    direction == SearchDirection::Backward,
                    last_until(all, from as int, all.len() as int) == last_until(
                        all,
                        from as int,
                        n as int,
                    ),
                decreases n,
            {
                assert(all[n - 1] == span(ranges@[n - 1]));
                if ranges[n - 1].end <= from {
                    return Some(n - 1);
                }
                n -= 1;
            }
            Some(ranges.len() - 1)
        },
    }
}

/// Finds one match and wraps at the document edge.
pub fn find_next(
    text: &str,
    query: &SearchQuery,
    from: usize,
    direction: SearchDirection,
) -> (found: Result<Option<Range<usize>>, SearchError>)
    ensures
        match query_result(query@.0, query@.1, text@) {
            Err(fault) => found matches Err(error) && error@ == fault,
            Ok(all) => match chosen(all, floor_boundary(text@, from as int) as int, direction) {
                None => found matches Ok(None),
                Some(i) => found matches Ok(Some(range)) && span(range) == all[i],
            },
        },
{
    match find_matches(text, query) {
        Err(error) => Err(error),
        Ok(ranges) => {
            let start: usize = floor_char_boundary(text, from);
            match choose_match(&ranges, start, direction) {
                None => Ok(None),
                Some(i) => Ok(Some(Range { start: ranges[i].start, end: ranges[i].end })),
            }
        },
    }
}

// ---------------------------------------------------------------------------------------
// Previews
// ---------------------------------------------------------------------------------------

/// The number of the first match that is shown: half of the others before the current one,
/// but no empty places at the end while there are matches before.
pub open spec fn window_start(current: int, total: int, limit: int) -> int {
    least(greatest(current - limit / 2, 0), greatest(total - limit, 0))
}

/// The number after that of the last match that is shown.
pub open spec fn window_end(current: int, total: int, limit: int) -> int {
    least(window_start(current, total, limit) + limit, total)
}

/// The matches from `start` to `end` with their numbers.
pub open spec fn hits(all: Seq<(int, int)>, start: int, end: int) -> Seq<((int, int), int)> {
    Seq::new((end - start) as nat, |i: int| (all[start + i], start + i))
}

pub open spec fn hit_views(hits: Seq<SearchHit>) -> Seq<((int, int), int)> {
    Seq::new(hits.len(), |i: int| hits[i]@)
}

/// The hit with the number `ordinal`.
fn hit_at(ranges: &[Range<usize>], ordinal: usize) -> (hit: SearchHit)
    requires
        ordinal < ranges@.len(),
    ensures
        hit@ == (span(ranges@[ordinal as int]), ordinal as int),
{
    SearchHit {
        range: Range { start: ranges[ordinal].start, end: ranges[ordinal].end },
        ordinal,
    }
}

/// Counts all matches and retains a bounded preview window around the selected hit.
pub fn analyze(
    text: &str,
    query: &SearchQuery,
    from: usize,
    direction: SearchDirection,
    preview_limit: usize,
) -> (found: Result<SearchAnalysis, SearchError>)
    ensures
        match query_result(query@.0, query@.1, text@) {
            Err(fault) => found matches Err(error) && error@ == fault,
            Ok(all) => found matches Ok(analysis) && analysis.total == all.len() && match chosen(
                all,
                floor_boundary(text@, from as int) as int,
                direction,
            ) {
                None => analysis.current is None && analysis.previews@.len() == 0,
                Some(i) => {
                    &&& analysis.current matches Some(hit) && hit@ == (all[i], i)
                    &&& hit_views(analysis.previews@) == hits(
                        all,
                        window_start(i, all.len() as int, preview_limit as int),
                        window_end(i, all.len() as int, preview_limit as int),
                    )
                },
            },
        },
{
    let ranges = match find_matches(text, query) {
        Err(error) => {
            return Err(error);
        },
        Ok(ranges) => ranges,
    };
    let ghost all = range_spans(ranges@);
    let total: usize = ranges.len();
    let offset: usize = floor_char_boundary(text, from);
    let current: usize = match choose_match(&ranges, offset, direction) {
        None => {
            return Ok(SearchAnalysis { current: None, total: 0, previews: Vec::new() });
        },
        Some(current) => current,
    };
    let centred: usize = current.saturating_sub(preview_limit / 2);
    let full: usize = total.saturating_sub(preview_limit);
    let start: usize = if centred <= full {
        centred
    } else {
        full
    };
    let reach: usize = start.saturating_add(preview_limit);
    let end: usize = if reach <= total {
        reach
    } else {
        total
    };
    let mut previews: Vec<SearchHit> = Vec::new();
    let mut ordinal: usize = start;
    while ordinal < end
        invariant
            start <= ordinal <= end <= ranges@.len(),
            all == range_spans(ranges@),
            hit_views(previews@) == hits(all, start as int, ordinal as int),
        decreases end - ordinal,
    {
        let hit = hit_at(&ranges, ordinal);
        let ghost before = previews@;
        previews.push(hit);
        assert(hit_views(previews@) =~= hit_views(before).push(hit@));
        assert(hits(all, start as int, ordinal + 1) =~= hits(
            all,
            start as int,
            ordinal as int,
        ).push((all[ordinal as int], ordinal as int)));
        ordinal += 1;
    }
    Ok(SearchAnalysis { current: Some(hit_at(&ranges, current)), total, previews })
}

// ---------------------------------------------------------------------------------------
// Laws
// ---------------------------------------------------------------------------------------

/// A query is refused for what it is, whatever text is searched: for the same reason in every
/// text, and in none that it is not refused in another.
pub proof fn law_refusal_is_of_the_query(
    kind: SearchKind,
    pattern: Seq<char>,
    text: Seq<char>,
    other: Seq<char>,
)
    ensures
        query_result(kind, pattern, text) is Err <==> query_result(kind, pattern, other) is Err,
        query_result(kind, pattern, text) matches Err(fault) ==> query_result(kind, pattern, other)
            == Err::<Seq<(int, int)>, SearchFault>(fault),
{
}

proof fn lemma_first_from(all: Seq<(int, int)>, from: int, i: int)
    requires
        0 <= i <= all.len(),
    ensures
        i <= first_from(all, from, i) <= all.len(),
        first_from(all, from, i) < all.len() ==> all[first_from(all, from, i)].0 >= from,
        forall|j: int| i <= j < first_from(all, from, i) ==> (#[trigger] all[j]).0 < from,
    decreases all.len() - i,
{
    if i < all.len() && all[i].0 < from {
        lemma_first_from(all, from, i + 1);
    }
}

proof fn lemma_last_until(all: Seq<(int, int)>, from: int, n: int)
    requires
        0 <= n <= all.len(),
    ensures
        -1 <= last_until(all, from, n) < n,
        last_until(all, from, n) >= 0 ==> all[last_until(all, from, n)].1 <= from,
        forall|j: int| last_until(all, from, n) < j < n ==> (#[trigger] all[j]).1 > from,
    decreases n,
{
    if n > 0 && all[n - 1].1 > from {
        lemma_last_until(all, from, n - 1);
    }
}

/// A search goes somewhere exactly where there is a match. Forward it goes to the first match
/// that starts at the offset or later, and to the first of all where there is none; backward
/// to the last that ends at the offset or earlier, and to the last of all where there is none.
pub proof fn law_search_wraps(all: Seq<(int, int)>, from: int, direction: SearchDirection)
    ensures
        chosen(all, from, direction) is Some <==> all.len() > 0,
        chosen(all, from, direction) matches Some(i) ==> {
            &&& 0 <= i < all.len()
            &&& direction == SearchDirection::Forward ==> {
                ||| all[i].0 >= from && forall|j: int| 0 <= j < i ==> (#[trigger] all[j]).0 < from
                ||| i == 0 && forall|j: int| 0 <= j < all.len() ==> (#[trigger] all[j]).0 < from
            }
            &&& direction == SearchDirection::Backward ==> {
                ||| all[i].1 <= from && forall|j: int|
                    i < j < all.len() ==> (#[trigger] all[j]).1 > from
                ||| i == all.len() - 1 && forall|j: int|
                    0 <= j < all.len() ==> (#[trigger] all[j]).1 > from
            }
        },
{
    lemma_first_from(all, from, 0);
    lemma_last_until(all, from, all.len() as int);
}

/// The preview window lies among the matches, is as large as the limit and the matches allow,
/// and holds the current match where it holds any.
pub proof fn law_preview_window(current: int, total: int, limit: int)
    requires
        0 <= current < total,
        0 <= limit,
    ensures
        0 <= window_start(current, total, limit) <= window_end(current, total, limit) <= total,
        window_end(current, total, limit) - window_start(current, total, limit) == least(
            limit,
            total,
        ),
        limit > 0 ==> window_start(current, total, limit) <= current < window_end(
            current,
            total,
            limit,
        ),
{
}

/// The matches of a regular expression that remain are those that hold a byte, in their order.
pub proof fn law_no_empty_match(all: Seq<(int, int)>)
    ensures
        forall|i: int|
            0 <= i < without_empty(all).len() ==> (#[trigger] without_empty(all)[i]).0
                != without_empty(all)[i].1 && all.contains(without_empty(all)[i]),
        forall|i: int|
            0 <= i < all.len() && (#[trigger] all[i]).0 != all[i].1 ==> without_empty(
                all,
            ).contains(all[i]),
    decreases all.len(),
{
    if all.len() > 0 {
        let t = all.drop_last();
        law_no_empty_match(t);
        let kept = without_empty(all);
        assert forall|i: int| 0 <= i < kept.len() implies (#[trigger] kept[i]).0 != kept[i].1
            && all.contains(kept[i]) by {
            if i < without_empty(t).len() {
                let j = choose|j: int| 0 <= j < t.len() && t[j] == without_empty(t)[i];
                assert(all[j] == kept[i]);
            } else {
                assert(all[all.len() - 1] == kept[i]);
            }
        }
        assert forall|i: int| 0 <= i < all.len() && (#[trigger] all[i]).0
            != all[i].1 implies kept.contains(all[i]) by {
            if i < t.len() {
                assert(t[i] == all[i]);
                let j = choose|j: int|
                    0 <= j < without_empty(t).len() && without_empty(t)[j] == t[i];
                assert(kept[j] == all[i]);
            } else {
                assert(kept[kept.len() - 1] == all[i]);
            }
        }
    }
}

} // verus!

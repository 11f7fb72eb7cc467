//! The texts of the lists that are shown over the document.
use std::ops::Range;

use vstd::prelude::*;

use crate::document::chapter::toc_views;
use crate::document::{CanonicalDocument, DocumentModel, TocModel};
use crate::loose_match::span;
use crate::order::{ordered, sort_items, views_of, with_item, Ordered};
use crate::search::SearchHit;
use crate::strings::{
    collapse_chars, collapsed, decimal, decimal_chars, find_char, lemma_position, position,
    push_number, push_text,
};
use crate::text::{
    byte_len, chars_of, copy_range, floor_boundary, floor_char_boundary, greatest, index_at,
    is_boundary, least, lemma_boundary_index, lemma_floor_boundary, push_all, string_of,
};

verus! {

/// The number of characters of a line that stand for a bookmark without a label.
pub const FALLBACK_LABEL_CHARS: usize = 40;

/// A number that counts from one.
pub open spec fn counted(n: int) -> int {
    least(n + 1, usize::MAX as int)
}

// ---------------------------------------------------------------------------------------
// Titles
// ---------------------------------------------------------------------------------------

/// The number of the item that is selected, or none of an empty list.
pub open spec fn selected_number(selected: int, total: int) -> int {
    if total == 0 {
        0
    } else {
        least(selected, total - 1) + 1
    }
}

fn selected_number_of(selected: usize, total: usize) -> (number: usize)
    ensures
        number == selected_number(selected as int, total as int),
{
    if total == 0 {
        0
    } else if selected < total - 1 {
        selected + 1
    } else {
        total
    }
}

pub open spec fn counted_title(name: Seq<char>, current: int, total: int) -> Seq<char> {
    name + " · "@ + decimal(current as nat) + "/"@ + decimal(total as nat)
}

/// The title of a list, with the number of the item that is current.
pub(crate) fn title_with_count(name: &str, current: usize, total: usize) -> (title: String)
    ensures
        title@ == counted_title(name@, current as int, total as int),
{
    let mut title = chars_of(name);
    push_text(&mut title, " · ");
    push_number(&mut title, current);
    push_text(&mut title, "/");
    push_number(&mut title, total);
    string_of(&title)
}

pub open spec fn filtered_title(
    name: Seq<char>,
    selected: int,
    matches: int,
    total: int,
) -> Seq<char> {
    name + " · "@ + decimal(selected_number(selected, matches) as nat) + "/"@ + decimal(
        matches as nat,
    ) + " matches · "@ + decimal(total as nat) + " total"@
}

/// The title of a list of which only the matching items are shown.
pub fn filtered_overlay_title(name: &str, selected: usize, matches: usize, total: usize) -> (title:
    String)
    ensures
        title@ == filtered_title(name@, selected as int, matches as int, total as int),
{
    let current: usize = selected_number_of(selected, matches);
    let mut title = chars_of(name);
    push_text(&mut title, " · ");
    push_number(&mut title, current);
    push_text(&mut title, "/");
    push_number(&mut title, matches);
    push_text(&mut title, " matches · ");
    push_number(&mut title, total);
    push_text(&mut title, " total");
    string_of(&title)
}

/// The title of a list, whether it is filtered or not.
pub open spec fn list_title(
    name: Seq<char>,
    selected: int,
    total: int,
    matches: Option<int>,
) -> Seq<char> {
    match matches {
        Some(matches) => filtered_title(name, selected, matches, total),
        None => counted_title(name, selected_number(selected, total), total),
    }
}

pub open spec fn opt_int(n: Option<usize>) -> Option<int> {
    match n {
        Some(n) => Some(n as int),
        None => None,
    }
}

pub(crate) fn title_of_list(name: &str, selected: usize, total: usize, matches: Option<usize>) -> (title:
    String)
    ensures
        title@ == list_title(name@, selected as int, total as int, opt_int(matches)),
{
    match matches {
        Some(matches) => filtered_overlay_title(name, selected, matches, total),
        None => {
            let current: usize = selected_number_of(selected, total);
            title_with_count(name, current, total)
        },
    }
}

// ---------------------------------------------------------------------------------------
// Ages
// ---------------------------------------------------------------------------------------

/// How long ago something was.
pub open spec fn age_text(milliseconds: int) -> Seq<char> {
    let seconds = milliseconds / 1000;
    if seconds < 60 {
        "just now"@
    } else if seconds < 3600 {
        decimal((seconds / 60) as nat) + "m ago"@
    } else if seconds < 86400 {
        decimal((seconds / 3600) as nat) + "h ago"@
    } else {
        decimal((seconds / 86400) as nat) + "d ago"@
    }
}

/// How long ago something was.
pub fn relative_age(milliseconds: u128) -> (age: String)
    ensures
        age@ == age_text(milliseconds as int),
{
    let seconds: u128 = milliseconds / 1000;
    if seconds < 60 {
        return "just now".to_owned();
    }
    let (count, unit): (u128, &str) = if seconds < 3600 {
        (seconds / 60, "m ago")
    } else if seconds < 86400 {
        (seconds / 3600, "h ago")
    } else {
        (seconds / 86400, "d ago")
    };
    let mut age = decimal_chars(count);
    push_text(&mut age, unit);
    string_of(&age)
}

// ---------------------------------------------------------------------------------------
// Lines of a text
// ---------------------------------------------------------------------------------------

/// Where the line of the character `k` begins.
pub open spec fn line_start(s: Seq<char>, k: int) -> int
    decreases k,
{
    if k <= 0 {
        0
    } else if s[k - 1] == '\n' {
        k
    } else {
        line_start(s, k - 1)
    }
}

/// Where the line of the character `k` ends.
pub open spec fn line_end(s: Seq<char>, k: int) -> int {
    k + position(s.skip(k), '\n')
}

fn find_line_start(characters: &[char], k: usize) -> (start: usize)
    requires
        k <= characters@.len(),
    ensures
        start == line_start(characters@, k as int),
        start <= k,
{
    let mut start: usize = k;
    while start > 0 && characters[start - 1] != '\n'
        invariant
            start <= k <= characters@.len(),
            line_start(characters@, k as int) == line_start(characters@, start as int),
        decreases start,
    {
        start -= 1;
    }
    start
}

fn find_line_end(characters: &[char], k: usize) -> (end: usize)
    requires
        k <= characters@.len(),
    ensures
        end == line_end(characters@, k as int),
        k <= end <= characters@.len(),
{
    proof {
        lemma_position(characters@.skip(k as int), '\n');
    }
    find_char(characters, '\n', k)
}

/// The index of the character at an offset, or of the one that holds it.
pub open spec fn index_below(s: Seq<char>, offset: int) -> int {
    index_at(s, floor_boundary(s, offset) as int)
}

/// The index of the character at an offset, or of the one that holds it.
pub(crate) fn char_index(text: &str, offset: usize) -> (index: usize)
    ensures
        index == index_below(text@, offset as int),
        index <= text@.len(),
{
    let floor: usize = floor_char_boundary(text, offset);
    proof {
        lemma_floor_boundary(text@, offset as int);
        lemma_boundary_index(text@, floor as int);
        crate::text::lemma_index_of_offset(text@, 0);
        crate::text::lemma_offset_ends(text@);
    }
    let head = crate::text::slice(text, 0, floor);
    let characters = chars_of(head);
    assert(characters@.len() == index_at(text@, floor as int));
    characters.len()
}

// ---------------------------------------------------------------------------------------
// Bookmarks
// ---------------------------------------------------------------------------------------

/// The last entry of a table of contents that is not below a position.
pub open spec fn entry_before(toc: Seq<TocModel>, position: int) -> Option<TocModel>
    decreases toc.len(),
{
    if toc.len() == 0 {
        None
    } else if toc.last().offset <= position {
        Some(toc.last())
    } else {
        entry_before(toc.drop_last(), position)
    }
}

/// The start of a text, with an ellipsis for the rest.
pub open spec fn shortened(s: Seq<char>) -> Seq<char> {
    if s.len() > FALLBACK_LABEL_CHARS {
        s.take(FALLBACK_LABEL_CHARS as int) + "…"@
    } else {
        s
    }
}

/// What stands for a bookmark without a label: the section that it is in, or its line.
pub open spec fn fallback_label(document: DocumentModel, position: int) -> Seq<char> {
    match entry_before(document.toc, position) {
        Some(entry) => entry.label,
        None => {
            let s = document.text;
            let k = index_at(s, position);
            let line = collapsed(s.subrange(line_start(s, k), line_end(s, k)));
            if line.len() == 0 {
                "Untitled bookmark"@
            } else {
                shortened(line)
            }
        },
    }
}

/// What stands for a bookmark without a label.
pub fn bookmark_fallback_label(document: &CanonicalDocument, position: usize) -> (label: String)
    requires
        is_boundary(document@.text, position as int),
    ensures
        label@ == fallback_label(document@, position as int),
{
    let toc = document.toc();
    let ghost entries = toc_views(toc@);
    let mut i: usize = toc.len();
    assert(entries.take(i as int) =~= entries);
    while i > 0 && toc[i - 1].offset() > position
        invariant
            i <= toc@.len(),
            entries == toc_views(toc@),
            entry_before(entries, position as int) == entry_before(
                entries.take(i as int),
                position as int,
            ),
        decreases i,
    {
        assert(entries.take(i as int).drop_last() =~= entries.take(i - 1));
        i -= 1;
    }
    if i > 0 {
        assert(entries.take(i as int).last() == toc@[i - 1]@);
        return toc[i - 1].label().to_owned();
    }
    let text = document.text();
    proof {
        lemma_floor_boundary(text@, position as int);
    }
    let k: usize = char_index(text, position);
    let characters = chars_of(text);
    let start: usize = find_line_start(&characters, k);
    let end: usize = find_line_end(&characters, k);
    let line = copy_range(&characters, start, end);
    let words = collapse_chars(&line);
    if words.len() == 0 {
        "Untitled bookmark".to_owned()
    } else if words.len() > FALLBACK_LABEL_CHARS {
        let mut label = copy_range(&words, 0, FALLBACK_LABEL_CHARS);
        assert(label@ =~= words@.take(FALLBACK_LABEL_CHARS as int));
        push_text(&mut label, "…");
        string_of(&label)
    } else {
        string_of(&words)
    }
}

// ---------------------------------------------------------------------------------------
// Search results
// ---------------------------------------------------------------------------------------

/// A match with what stands around it, and where the match is in that.
#[derive(Debug, PartialEq, Eq)]
pub struct SearchContext {
    pub text: String,
    pub emphasis: Range<usize>,
}

#[verifier::ext_equal]
pub struct ContextModel {
    pub text: Seq<char>,
    pub start: int,
    pub end: int,
}

impl View for SearchContext {
    type V = ContextModel;

    open spec fn view(&self) -> ContextModel {
        ContextModel {
            text: self.text@,
            start: self.emphasis.start as int,
            end: self.emphasis.end as int,
        }
    }
}

/// At most the last `n` of the characters, after an ellipsis if some are left out.
pub open spec fn shortened_front(s: Seq<char>, n: int) -> Seq<char> {
    if s.len() > n {
        seq!['…'] + s.skip(s.len() - n)
    } else {
        s
    }
}

/// At most the first `n` of the characters, before an ellipsis if some are left out.
pub open spec fn shortened_back(s: Seq<char>, n: int) -> Seq<char> {
    if s.len() > n {
        s.take(n).push('…')
    } else {
        s
    }
}

/// A match in its line, cut to a width.
pub open spec fn context_of(s: Seq<char>, range: (int, int), width: int) -> ContextModel {
    let start = index_below(s, range.0);
    let first = line_start(s, start);
    let last = line_end(s, start);
    let end = least(greatest(index_below(s, range.1), start), last);
    let side = greatest(width - 8, 0) / 2;
    let before = shortened_front(s.subrange(first, start), side);
    let matched = s.subrange(start, end).take(least(end - start, width / 2));
    let after = shortened_back(s.subrange(end, last), side);
    ContextModel {
        text: before + matched + after,
        start: byte_len(before) as int,
        end: byte_len(before + matched) as int,
    }
}

fn cut_front(characters: &[char], start: usize, end: usize, limit: usize) -> (part: Vec<char>)
    requires
        start <= end <= characters@.len(),
    ensures
        part@ == shortened_front(characters@.subrange(start as int, end as int), limit as int),
{
    if end - start > limit {
        let kept = copy_range(characters, end - limit, end);
        assert(kept@ =~= characters@.subrange(start as int, end as int).skip(end - start - limit));
        let mut part: Vec<char> = Vec::new();
        part.push('…');
        push_all(&mut part, &kept);
        assert(part@ =~= seq!['…'] + kept@);
        part
    } else {
        copy_range(characters, start, end)
    }
}

fn cut_back(characters: &[char], start: usize, end: usize, limit: usize) -> (part: Vec<char>)
    requires
        start <= end <= characters@.len(),
    ensures
        part@ == shortened_back(characters@.subrange(start as int, end as int), limit as int),
{
    if end - start > limit {
        let mut part = copy_range(characters, start, start + limit);
        assert(part@ =~= characters@.subrange(start as int, end as int).take(limit as int));
        part.push('…');
        part
    } else {
        copy_range(characters, start, end)
    }
}

/// A match in its line, cut to a width.
pub fn search_context(text: &str, range: &Range<usize>, width: usize) -> (context: SearchContext)
    ensures
        context@ == context_of(text@, span(*range), width as int),
{
    let characters = chars_of(text);
    let ghost s = characters@;
    let start: usize = char_index(text, range.start);
    let raw_end: usize = char_index(text, range.end);
    let first: usize = find_line_start(&characters, start);
    let last: usize = find_line_end(&characters, start);
    let at_least: usize = if raw_end > start {
        raw_end
    } else {
        start
    };
    let end: usize = if at_least < last {
        at_least
    } else {
        last
    };
    let side: usize = if width > 8 {
        (width - 8) / 2
    } else {
        0
    };
    let before = cut_front(&characters, first, start, side);
    let after = cut_back(&characters, end, last, side);
    let half: usize = width / 2;
    let length: usize = if end - start < half {
        end - start
    } else {
        half
    };
    let matched = copy_range(&characters, start, start + length);
    assert(matched@ =~= s.subrange(start as int, end as int).take(length as int));
    let front = string_of(&before);
    let emphasis_start: usize = crate::text::byte_length(front.as_str());
    let mut shown = before;
    let ghost head = shown@;
    push_all(&mut shown, &matched);
    assert(shown@ =~= head + matched@);
    let front = string_of(&shown);
    let emphasis_end: usize = crate::text::byte_length(front.as_str());
    push_all(&mut shown, &after);
    SearchContext {
        text: string_of(&shown),
        emphasis: Range { start: emphasis_start, end: emphasis_end },
    }
}

impl Ordered for SearchHit {
    open spec fn behind(left: ((int, int), int), right: ((int, int), int)) -> bool {
        left.1 > right.1
    }

    fn is_behind(&self, other: &Self) -> (behind: bool) {
        self.ordinal > other.ordinal
    }
}

/// The first hit with a number, or how many hits there are.
pub open spec fn hit_at(hits: Seq<((int, int), int)>, ordinal: int, i: int) -> int
    decreases hits.len() - i,
{
    if i < 0 || i >= hits.len() {
        hits.len() as int
    } else if hits[i].1 == ordinal {
        i
    } else {
        hit_at(hits, ordinal, i + 1)
    }
}

/// The first hit with a number, or how many hits there are.
pub(crate) fn find_hit(hits: &[SearchHit], ordinal: usize) -> (index: usize)
    ensures
        index == hit_at(views_of(hits@), ordinal as int, 0),
        index <= hits@.len(),
{
    let mut i: usize = 0;
    while i < hits.len() && hits[i].ordinal != ordinal
        invariant
            i <= hits@.len(),
            hit_at(views_of(hits@), ordinal as int, 0) == hit_at(
                views_of(hits@),
                ordinal as int,
                i as int,
            ),
        decreases hits.len() - i,
    {
        assert(views_of(hits@)[i as int] == hits@[i as int]@);
        i += 1;
    }
    if i < hits.len() {
        assert(views_of(hits@)[i as int] == hits@[i as int]@);
    }
    i
}

/// The hits with one more, or with one replaced.
pub open spec fn with_hit(
    hits: Seq<((int, int), int)>,
    hit: ((int, int), int),
) -> Seq<((int, int), int)> {
    let i = hit_at(hits, hit.1, 0);
    if i < hits.len() {
        hits.update(i, hit)
    } else {
        ordered::<SearchHit>(hits.push(hit))
    }
}

/// At most `limit` of the hits: those that are farthest from the current one go first.
pub open spec fn nearest_hits(
    hits: Seq<((int, int), int)>,
    current: int,
    limit: int,
) -> Seq<((int, int), int)>
    decreases hits.len(),
{
    if hits.len() <= limit || hits.len() == 0 {
        hits
    } else if greatest(current - hits[0].1, 0) > greatest(hits.last().1 - current, 0) {
        nearest_hits(hits.skip(1), current, limit)
    } else {
        nearest_hits(hits.drop_last(), current, limit)
    }
}

/// The hits that are shown once one more was found.
pub open spec fn previewed(
    hits: Seq<((int, int), int)>,
    hit: ((int, int), int),
    limit: int,
) -> Seq<((int, int), int)> {
    if limit == 0 {
        seq![]
    } else {
        nearest_hits(with_hit(hits, hit), hit.1, limit)
    }
}

/// Shows one more hit, but no more than `limit`.
pub fn insert_search_preview(previews: Vec<SearchHit>, hit: SearchHit, limit: usize) -> (shown: Vec<
    SearchHit,
>)
    ensures
        views_of(shown@) == previewed(views_of(previews@), hit@, limit as int),
{
    if limit == 0 {
        let none: Vec<SearchHit> = Vec::new();
        assert(views_of(none@) =~= seq![]);
        return none;
    }
    let current: usize = hit.ordinal;
    let ghost model = hit@;
    let ghost all = views_of(previews@);
    let mut hits = previews;
    let i: usize = find_hit(&hits, current);
    if i < hits.len() {
        let ghost before = hits@;
        hits.set(i, hit);
        assert(views_of(hits@) =~= views_of(before).update(i as int, model));
    } else {
        let ghost before = hits@;
        hits.push(hit);
        assert(views_of(hits@) =~= views_of(before).push(model));
        hits = sort_items(hits);
    }
    let ghost placed = with_hit(all, model);
    assert(views_of(hits@) == placed);
    while hits.len() > limit
        invariant
            nearest_hits(placed, current as int, limit as int) == nearest_hits(
                views_of(hits@),
                current as int,
                limit as int,
            ),
        decreases hits.len(),
    {
        let ghost before = hits@;
        let first: usize = hits[0].ordinal;
        let last: usize = hits[hits.len() - 1].ordinal;
        assert(views_of(before)[0] == before[0]@);
        assert(views_of(before).last() == before.last()@);
        let first_distance: usize = if current > first {
            current - first
        } else {
            0
        };
        let last_distance: usize = if last > current {
            last - current
        } else {
            0
        };
        if first_distance > last_distance {
            let _ = hits.remove(0);
            assert(views_of(hits@) =~= views_of(before).skip(1));
        } else {
            let _ = hits.pop();
            assert(views_of(hits@) =~= views_of(before).drop_last());
        }
    }
    hits
}

/// Hits stand in the order of their numbers, and none occurs twice.
pub open spec fn hits_in_order(hits: Seq<((int, int), int)>) -> bool {
    forall|i: int, j: int| 0 <= i < j < hits.len() ==> (#[trigger] hits[i]).1 < (
    #[trigger] hits[j]).1
}

proof fn lemma_hit_at(hits: Seq<((int, int), int)>, ordinal: int, i: int)
    requires
        0 <= i <= hits.len(),
    ensures
        i <= hit_at(hits, ordinal, i) <= hits.len(),
        hit_at(hits, ordinal, i) < hits.len() ==> hits[hit_at(hits, ordinal, i)].1 == ordinal,
        forall|j: int|
            i <= j < hit_at(hits, ordinal, i) ==> (#[trigger] hits[j]).1 != ordinal,
    decreases hits.len() - i,
{
    if i < hits.len() && hits[i].1 != ordinal {
        lemma_hit_at(hits, ordinal, i + 1);
    }
}

proof fn lemma_already_ordered(hits: Seq<((int, int), int)>)
    requires
        hits_in_order(hits),
    ensures
        ordered::<SearchHit>(hits) == hits,
    decreases hits.len(),
{
    if hits.len() > 0 {
        let before = hits.drop_last();
        lemma_already_ordered(before);
        assert(before.push(hits.last()) =~= hits);
    } else {
        assert(ordered::<SearchHit>(hits) =~= hits);
    }
}

proof fn lemma_with_new_hit(hits: Seq<((int, int), int)>, hit: ((int, int), int))
    requires
        hits_in_order(hits),
        forall|j: int| 0 <= j < hits.len() ==> (#[trigger] hits[j]).1 != hit.1,
    ensures
        hits_in_order(with_item::<SearchHit>(hits, hit)),
        with_item::<SearchHit>(hits, hit).contains(hit),
        forall|j: int|
            0 <= j < with_item::<SearchHit>(hits, hit).len() ==> (#[trigger] with_item::<
                SearchHit,
            >(hits, hit)[j]) == hit || hits.contains(with_item::<SearchHit>(hits, hit)[j]),
    decreases hits.len(),
{
    let all = with_item::<SearchHit>(hits, hit);
    if hits.len() == 0 || hits.last().1 < hit.1 {
        assert(all == hits.push(hit));
        assert(all.last() == hit);
        assert forall|j: int| 0 <= j < all.len() implies (#[trigger] all[j]) == hit
            || hits.contains(all[j]) by {
            if j < hits.len() {
                assert(hits[j] == all[j]);
            }
        }
        assert forall|i: int, j: int| 0 <= i < j < all.len() implies (#[trigger] all[i]).1 < (
        #[trigger] all[j]).1 by {
            if j == hits.len() {
                if i < hits.len() - 1 {
                    assert(hits[i].1 < hits[hits.len() - 1].1);
                }
            }
        }
    } else {
        let before = hits.drop_last();
        lemma_with_new_hit(before, hit);
        let less = with_item::<SearchHit>(before, hit);
        assert(all == less.push(hits.last()));
        let at = choose|at: int| 0 <= at < less.len() && less[at] == hit;
        assert(all[at] == hit);
        assert forall|j: int| 0 <= j < all.len() implies (#[trigger] all[j]) == hit
            || hits.contains(all[j]) by {
            if j < less.len() {
                assert(all[j] == less[j]);
                if less[j] != hit {
                    let k = choose|k: int| 0 <= k < before.len() && before[k] == less[j];
                    assert(hits[k] == less[j]);
                }
            } else {
                assert(hits[hits.len() - 1] == all[j]);
            }
        }
        assert forall|i: int, j: int| 0 <= i < j < all.len() implies (#[trigger] all[i]).1 < (
        #[trigger] all[j]).1 by {
            if j < less.len() {
                assert(less[i].1 < less[j].1);
            } else {
                assert(all[i] == less[i]);
                if less[i] != hit {
                    let k = choose|k: int| 0 <= k < before.len() && before[k] == less[i];
                    assert(hits[k].1 < hits[hits.len() - 1].1);
                } else {
                    assert(hits[hits.len() - 1].1 != hit.1);
                }
            }
        }
    }
}

proof fn lemma_nearest_hits(hits: Seq<((int, int), int)>, hit: ((int, int), int), limit: int)
    requires
        hits_in_order(hits),
        hits.contains(hit),
        limit > 0,
    ensures
        hits_in_order(nearest_hits(hits, hit.1, limit)),
        nearest_hits(hits, hit.1, limit).contains(hit),
        nearest_hits(hits, hit.1, limit).len() <= limit,
    decreases hits.len(),
{
    if hits.len() > limit {
        let at = choose|at: int| 0 <= at < hits.len() && hits[at] == hit;
        let n = hits.len() as int;
        if greatest(hit.1 - hits[0].1, 0) > greatest(hits.last().1 - hit.1, 0) {
            let rest = hits.skip(1);
            assert(at != 0);
            assert(rest[at - 1] == hit);
            lemma_nearest_hits(rest, hit, limit);
        } else {
            let rest = hits.drop_last();
            if at == n - 1 {
                assert(hits[0].1 < hits[n - 1].1);
            }
            assert(rest[at] == hit);
            lemma_nearest_hits(rest, hit, limit);
        }
    }
}

/// A hit that is gone to is always among those that are shown; they stay in order, and there
/// are never more than the limit.
pub proof fn law_hit_is_previewed(
    hits: Seq<((int, int), int)>,
    hit: ((int, int), int),
    limit: int,
)
    requires
        hits_in_order(hits),
        limit > 0,
    ensures
        previewed(hits, hit, limit).contains(hit),
        previewed(hits, hit, limit).len() <= limit,
        hits_in_order(previewed(hits, hit, limit)),
{
    lemma_hit_at(hits, hit.1, 0);
    let i = hit_at(hits, hit.1, 0);
    if i < hits.len() {
        let placed = hits.update(i, hit);
        assert(placed[i] == hit);
        assert forall|a: int, b: int| 0 <= a < b < placed.len() implies (#[trigger] placed[a]).1
            < (#[trigger] placed[b]).1 by {
            assert(hits[a].1 < hits[b].1);
        }
    } else {
        assert(hits.push(hit).drop_last() =~= hits);
        lemma_already_ordered(hits);
        lemma_with_new_hit(hits, hit);
    }
    lemma_nearest_hits(with_hit(hits, hit), hit, limit);
}

/// A bookmark without a label is named after the section that it is in: the last one that
/// begins at it or before it.
pub proof fn law_section_of_a_bookmark(document: DocumentModel, position: int, j: int)
    requires
        0 <= j < document.toc.len(),
        document.toc[j].offset <= position,
        forall|k: int|
            j < k < document.toc.len() ==> position < (#[trigger] document.toc[k]).offset,
    ensures
        fallback_label(document, position) == document.toc[j].label,
{
    lemma_entry_before(document.toc, position, j);
}

proof fn lemma_entry_before(toc: Seq<TocModel>, position: int, j: int)
    requires
        -1 <= j < toc.len(),
        j >= 0 ==> toc[j].offset <= position,
        forall|k: int| j < k < toc.len() ==> position < (#[trigger] toc[k]).offset,
    ensures
        j >= 0 ==> entry_before(toc, position) == Some(toc[j]),
        j < 0 ==> entry_before(toc, position) is None,
    decreases toc.len(),
{
    if toc.len() > 0 && j < toc.len() - 1 {
        let less = toc.drop_last();
        assert(position < toc[toc.len() - 1].offset);
        assert forall|k: int| j < k < less.len() implies position < (#[trigger] less[k]).offset by {
            assert(less[k] == toc[k]);
        }
        lemma_entry_before(less, position, j);
    }
}

/// The characters from `first` to `last` are a line, and the character `k` is in it or just
/// after it.
pub open spec fn is_line_of(s: Seq<char>, k: int, first: int, last: int) -> bool {
    &&& 0 <= first <= k <= last <= s.len()
    &&& first == 0 || s[first - 1] == '\n'
    &&& last == s.len() || s[last] == '\n'
    &&& forall|i: int| first <= i < last ==> #[trigger] s[i] != '\n'
}

proof fn lemma_line_start(s: Seq<char>, k: int, first: int)
    requires
        0 <= first <= k <= s.len(),
        first == 0 || s[first - 1] == '\n',
        forall|i: int| first <= i < k ==> #[trigger] s[i] != '\n',
    ensures
        line_start(s, k) == first,
    decreases k,
{
    if k > first {
        assert(s[k - 1] != '\n');
        lemma_line_start(s, k - 1, first);
    }
}

proof fn lemma_line(s: Seq<char>, k: int, first: int, last: int)
    requires
        is_line_of(s, k, first, last),
    ensures
        line_start(s, k) == first,
        line_end(s, k) == last,
{
    lemma_line_start(s, k, first);
    let rest = s.skip(k);
    assert forall|i: int| 0 <= i < last - k implies #[trigger] rest[i] != '\n' by {
        assert(rest[i] == s[k + i]);
    }
    crate::strings::lemma_position_is(rest, '\n', last - k);
}

/// A bookmark before every section is named after its line, of which at most the first forty
/// characters are shown.
pub proof fn law_line_of_a_bookmark(document: DocumentModel, k: int, first: int, last: int)
    requires
        is_line_of(document.text, k, first, last),
        forall|j: int|
            0 <= j < document.toc.len() ==> crate::text::offset_at(document.text, k) < (
            #[trigger] document.toc[j]).offset,
    ensures
        ({
            let label = fallback_label(
                document,
                crate::text::offset_at(document.text, k) as int,
            );
            let line = collapsed(document.text.subrange(first, last));
            &&& line.len() == 0 ==> label == "Untitled bookmark"@
            &&& 0 < line.len() <= 40 ==> label == line
            &&& line.len() > 40 ==> label == line.take(40) + "…"@
        }),
{
    let position = crate::text::offset_at(document.text, k) as int;
    lemma_entry_before(document.toc, position, -1);
    crate::text::lemma_index_of_offset(document.text, k);
    lemma_line(document.text, k, first, last);
}

/// A match is shown in its line. Where the line is short it is shown whole, and the match is set
/// off where it stands.
pub proof fn law_match_in_its_line(s: Seq<char>, a: int, b: int, first: int, last: int, width: int)
    requires
        is_line_of(s, a, first, last),
        a <= b <= last,
        b - a <= width / 2,
        a - first <= (width - 8) / 2 && last - b <= (width - 8) / 2,
        width >= 8,
    ensures
        ({
            let range = (
                crate::text::offset_at(s, a) as int,
                crate::text::offset_at(s, b) as int,
            );
            let context = context_of(s, range, width);
            &&& context.text == s.subrange(first, last)
            &&& context.start == byte_len(s.subrange(first, a))
            &&& context.end == byte_len(s.subrange(first, b))
        }),
{
    crate::text::lemma_index_of_offset(s, a);
    crate::text::lemma_index_of_offset(s, b);
    lemma_floor_boundary(s, crate::text::offset_at(s, a) as int);
    lemma_floor_boundary(s, crate::text::offset_at(s, b) as int);
    lemma_line(s, a, first, last);
    assert(s.subrange(a, b).take(b - a) =~= s.subrange(a, b));
    assert(s.subrange(first, a) + s.subrange(a, b) =~= s.subrange(first, b));
    assert(s.subrange(first, b) + s.subrange(b, last) =~= s.subrange(first, last));
}

} // verus!

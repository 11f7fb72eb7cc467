//! Where the entries of a table of contents lead, and which table is taken.
use vstd::prelude::*;

use crate::document::assembly::{AssembledModel, RenderedModel};
use crate::document::markup::{
    ancestors_named, is_element, joined_text, node_attribute, subtree_end, NodeModel,
};
use crate::document::navigation::{
    all_headings, anchor_of, best_of, coverage, distance, line_at, link_entries, link_entry,
    matching, only, resolved_offset, section_of, target_of, within, RawModel, ResolvedModel,
};
use crate::document::toc::{compatible, landmark};
use crate::document::TocModel;
use crate::strings::collapsed;

verus! {

/// Of the headings, the one at the index `j` is the only one that the label may be of.
pub open spec fn fits_alone(headings: Seq<TocModel>, label: Seq<char>, j: int) -> bool {
    &&& 0 <= j < headings.len()
    &&& compatible(label, headings[j].label)
    &&& forall|k: int|
        0 <= k < headings.len() && k != j ==> !compatible(label, #[trigger] headings[k].label)
}

/// The label may be of none of the headings.
pub open spec fn fits_none(headings: Seq<TocModel>, label: Seq<char>) -> bool {
    forall|k: int| 0 <= k < headings.len() ==> !compatible(label, #[trigger] headings[k].label)
}

/// The chapter is that of the file of an entry.
pub open spec fn is_chapter_of(book: AssembledModel, entry: RawModel, chapter: RenderedModel) -> bool {
    exists|i: int|
        0 <= i < book.rendered.len() && #[trigger] book.rendered[i] == chapter && chapter.path
            == entry.path && (forall|j: int|
            0 <= j < i ==> (#[trigger] book.rendered[j]).path != entry.path)
}

/// The anchor of the name in a chapter is at the offset.
pub open spec fn is_anchor(chapter: RenderedModel, name: Seq<char>, offset: int) -> bool {
    exists|i: int|
        0 <= i < chapter.anchors.len() && #[trigger] chapter.anchors[i] == (name, offset) && (
        forall|j: int| 0 <= j < i ==> (#[trigger] chapter.anchors[j]).0 != name)
}

// ---------------------------------------------------------------------------------------
// Proofs
// ---------------------------------------------------------------------------------------

proof fn lemma_fits_none(headings: Seq<TocModel>, label: Seq<char>)
    requires
        fits_none(headings, label),
    ensures
        matching(headings, label).len() == 0,
        only(matching(headings, label)) is None,
    decreases headings.len(),
{
    if headings.len() > 0 {
        let less = headings.drop_last();
        assert forall|k: int| 0 <= k < less.len() implies !compatible(
            label,
            #[trigger] less[k].label,
        ) by {
            assert(less[k] == headings[k]);
            assert(!compatible(label, headings[k].label));
        }
        assert(!compatible(label, headings[headings.len() - 1].label));
        lemma_fits_none(less, label);
    }
}

proof fn lemma_fits_alone(headings: Seq<TocModel>, label: Seq<char>, j: int)
    requires
        fits_alone(headings, label, j),
    ensures
        only(matching(headings, label)) == Some(headings[j].offset),
    decreases headings.len(),
{
    let less = headings.drop_last();
    let n = headings.len() - 1;
    assert forall|k: int| 0 <= k < less.len() && k != j implies !compatible(
        label,
        #[trigger] less[k].label,
    ) by {
        assert(less[k] == headings[k]);
        assert(!compatible(label, headings[k].label));
    }
    if j == n {
        lemma_fits_none(less, label);
    } else {
        assert(less[j] == headings[j]);
        assert(!compatible(label, headings[n].label));
        lemma_fits_alone(less, label, j);
    }
}

proof fn lemma_section(sections: Seq<RenderedModel>, path: Seq<char>, i: int)
    requires
        0 <= i < sections.len(),
        sections[i].path == path,
        forall|j: int| 0 <= j < i ==> (#[trigger] sections[j]).path != path,
    ensures
        section_of(sections, path) == Some(sections[i]),
    decreases i,
{
    if i > 0 {
        assert(sections[0].path != path);
        let rest = sections.drop_first();
        assert forall|j: int| 0 <= j < i - 1 implies (#[trigger] rest[j]).path != path by {
            assert(rest[j] == sections[j + 1]);
        }
        lemma_section(rest, path, i - 1);
    }
}

proof fn lemma_anchor(anchors: Seq<(Seq<char>, int)>, name: Seq<char>, i: int)
    requires
        0 <= i < anchors.len(),
        anchors[i].0 == name,
        forall|j: int| 0 <= j < i ==> (#[trigger] anchors[j]).0 != name,
    ensures
        anchor_of(anchors, name) == Some(anchors[i].1),
    decreases i,
{
    if i > 0 {
        assert(anchors[0].0 != name);
        let rest = anchors.drop_first();
        assert forall|j: int| 0 <= j < i - 1 implies (#[trigger] rest[j]).0 != name by {
            assert(rest[j] == anchors[j + 1]);
        }
        lemma_anchor(rest, name, i - 1);
    }
}

proof fn lemma_chapter(book: AssembledModel, entry: RawModel, chapter: RenderedModel)
    requires
        is_chapter_of(book, entry, chapter),
    ensures
        section_of(book.rendered, entry.path) == Some(chapter),
{
    let i = choose|i: int|
        0 <= i < book.rendered.len() && #[trigger] book.rendered[i] == chapter && chapter.path
            == entry.path && (forall|j: int|
            0 <= j < i ==> (#[trigger] book.rendered[j]).path != entry.path);
    lemma_section(book.rendered, entry.path, i);
}

// ---------------------------------------------------------------------------------------
// Places
// ---------------------------------------------------------------------------------------

/// An entry leads to its anchor where the line there, or a heading that stands there, may be
/// what its label says, whatever other headings there are.
pub proof fn law_entry_at_its_anchor(
    entry: RawModel,
    book: AssembledModel,
    detected: Seq<TocModel>,
    chapter: RenderedModel,
    offset: int,
    j: int,
)
    requires
        is_chapter_of(book, entry, chapter),
        entry.fragment matches Some(name) && is_anchor(chapter, name, offset),
        (line_at(book.text, offset, chapter.end).len() > 0 && compatible(
            entry.label,
            line_at(book.text, offset, chapter.end),
        )) || (0 <= j < chapter.headings.len() && chapter.headings[j].offset == offset
            && compatible(entry.label, chapter.headings[j].label)),
    ensures
        resolved_offset(entry, book, detected) == Some(offset),
{
    lemma_chapter(book, entry, chapter);
    let name = entry.fragment->0;
    let i = choose|i: int|
        0 <= i < chapter.anchors.len() && #[trigger] chapter.anchors[i] == (name, offset) && (
        forall|j: int| 0 <= j < i ==> (#[trigger] chapter.anchors[j]).0 != name);
    lemma_anchor(chapter.anchors, name, i);
    if 0 <= j < chapter.headings.len() && chapter.headings[j].offset == offset {
        assert(distance(chapter.headings[j].offset, offset) == 0);
    }
}

/// An entry without an anchor leads to the one heading of its file that its label may be of.
pub proof fn law_entry_at_a_heading_of_its_file(
    entry: RawModel,
    book: AssembledModel,
    detected: Seq<TocModel>,
    chapter: RenderedModel,
    j: int,
)
    requires
        is_chapter_of(book, entry, chapter),
        entry.fragment is None,
        fits_alone(chapter.headings, entry.label, j),
    ensures
        resolved_offset(entry, book, detected) == Some(chapter.headings[j].offset),
{
    lemma_chapter(book, entry, chapter);
    lemma_fits_alone(chapter.headings, entry.label, j);
}

/// Where no heading of its file does, it leads to the one heading of the book that its label may
/// be of.
pub proof fn law_entry_at_a_heading_of_the_book(
    entry: RawModel,
    book: AssembledModel,
    detected: Seq<TocModel>,
    chapter: RenderedModel,
    j: int,
)
    requires
        is_chapter_of(book, entry, chapter),
        entry.fragment is None,
        fits_none(chapter.headings, entry.label),
        fits_alone(all_headings(book.rendered), entry.label, j),
    ensures
        resolved_offset(entry, book, detected) == Some(all_headings(book.rendered)[j].offset),
{
    lemma_chapter(book, entry, chapter);
    lemma_fits_none(chapter.headings, entry.label);
    lemma_fits_alone(all_headings(book.rendered), entry.label, j);
}

/// Where no heading does, a cover or another part without heading leads to the start of its
/// file; any other entry to the one line of its file, or else of the book, that looks like a
/// heading and that its label may be of, and nowhere where there is none.
pub proof fn law_entry_without_heading(
    entry: RawModel,
    book: AssembledModel,
    detected: Seq<TocModel>,
    chapter: RenderedModel,
    j: int,
)
    requires
        is_chapter_of(book, entry, chapter),
        entry.fragment is None,
        fits_none(chapter.headings, entry.label),
        fits_none(all_headings(book.rendered), entry.label),
    ensures
        ({
            let place = resolved_offset(entry, book, detected);
            let own = within(detected, chapter.start, chapter.end);
            &&& landmark(entry.label) ==> place == Some(chapter.start)
            &&& !landmark(entry.label) && fits_alone(own, entry.label, j) ==> place == Some(
                own[j].offset,
            )
            &&& !landmark(entry.label) && fits_none(own, entry.label) && fits_alone(
                detected,
                entry.label,
                j,
            ) ==> place == Some(detected[j].offset)
            &&& !landmark(entry.label) && fits_none(own, entry.label) && fits_none(
                detected,
                entry.label,
            ) ==> place is None
        }),
{
    lemma_chapter(book, entry, chapter);
    lemma_fits_none(chapter.headings, entry.label);
    lemma_fits_none(all_headings(book.rendered), entry.label);
    let own = within(detected, chapter.start, chapter.end);
    if fits_alone(own, entry.label, j) {
        lemma_fits_alone(own, entry.label, j);
    }
    if fits_none(own, entry.label) {
        lemma_fits_none(own, entry.label);
    }
    if fits_alone(detected, entry.label, j) {
        lemma_fits_alone(detected, entry.label, j);
    }
    if fits_none(detected, entry.label) {
        lemma_fits_none(detected, entry.label);
    }
}

// ---------------------------------------------------------------------------------------
// Tables
// ---------------------------------------------------------------------------------------

/// At least seventy in a hundred of the entries of a table lead to a place of the text.
pub open spec fn is_usable(toc: ResolvedModel) -> bool {
    toc.entries.len() * 100 >= 70 * toc.raw_count
}

proof fn lemma_usable(toc: ResolvedModel)
    requires
        toc.raw_count >= 1,
        toc.entries.len() * 100 <= usize::MAX,
    ensures
        is_usable(toc) <==> coverage(toc) >= 70,
{
    let n = toc.entries.len() as int * 100;
    let d = toc.raw_count;
    assert(coverage(toc) == n / d);
    assert(n >= 70 * d <==> n / d >= 70) by (nonlinear_arith)
        requires
            d >= 1,
            n >= 0,
    ;
}

/// Of two tables the usable one is taken; of two that are both usable, or both not, the longer
/// one. One without entries is never taken where the other has any.
pub proof fn law_better_table(first: ResolvedModel, second: ResolvedModel)
    requires
        first.raw_count >= 1 && second.raw_count >= 1,
        first.entries.len() * 100 <= usize::MAX && second.entries.len() * 100 <= usize::MAX,
    ensures
        ({
            let taken = best_of(first, second);
            &&& taken == first.entries || taken == second.entries
            &&& first.entries.len() == 0 ==> taken == second.entries
            &&& second.entries.len() == 0 ==> taken == first.entries
            &&& first.entries.len() > 0 && second.entries.len() > 0 ==> {
                &&& is_usable(first) && !is_usable(second) ==> taken == first.entries
                &&& is_usable(second) && !is_usable(first) ==> taken == second.entries
                &&& is_usable(first) == is_usable(second) && first.entries.len()
                    > second.entries.len() ==> taken == first.entries
                &&& is_usable(first) == is_usable(second) && first.entries.len()
                    < second.entries.len() ==> taken == second.entries
            }
        }),
{
    lemma_usable(first);
    lemma_usable(second);
}

/// The node is a link with the given label that leads to a file and, in it, to an anchor.
pub open spec fn is_link(
    nodes: Seq<NodeModel>,
    k: int,
    document: Seq<char>,
    label: Seq<char>,
    target: (Seq<char>, Option<Seq<char>>),
) -> bool {
    &&& 0 <= k < nodes.len()
    &&& is_element(nodes[k], "a"@)
    &&& label.len() > 0 && label == collapsed(joined_text(nodes, k, subtree_end(nodes, k)))
    &&& node_attribute(nodes[k], "href"@) matches Some(href) && target_of(document, href) == Some(
        target,
    )
}

/// The entry has the label and the target of a link, and is as deep as the link is in lists.
pub open spec fn is_entry_of(
    nodes: Seq<NodeModel>,
    k: int,
    entry: RawModel,
    label: Seq<char>,
    target: (Seq<char>, Option<Seq<char>>),
) -> bool {
    let items = ancestors_named(nodes, "li"@, k, nodes[k].depth);
    &&& entry.label == label
    &&& entry.path == target.0 && entry.fragment == target.1
    &&& 1 <= items <= 256 ==> entry.depth == items - 1
}

proof fn lemma_links_stay(nodes: Seq<NodeModel>, from: int, n: int, m: int, document: Seq<char>)
    requires
        from <= n <= m,
    ensures
        link_entries(nodes, from, n, document).len() <= link_entries(nodes, from, m, document).len(),
        link_entries(nodes, from, m, document).take(
            link_entries(nodes, from, n, document).len() as int,
        ) =~= link_entries(nodes, from, n, document),
    decreases m - n,
{
    if n < m {
        lemma_links_stay(nodes, from, n, m - 1, document);
        let first = link_entries(nodes, from, n, document);
        let before = link_entries(nodes, from, m - 1, document);
        let after = link_entries(nodes, from, m, document);
        assert(after.take(before.len() as int) =~= before);
        assert(after.take(first.len() as int) =~= before.take(first.len() as int));
    }
}

proof fn lemma_link(
    nodes: Seq<NodeModel>,
    from: int,
    end: int,
    k: int,
    document: Seq<char>,
    label: Seq<char>,
    target: (Seq<char>, Option<Seq<char>>),
)
    requires
        0 <= from <= k < end,
        is_link(nodes, k, document, label, target),
    ensures
        ({
            let at = link_entries(nodes, from, k, document).len() as int;
            let all = link_entries(nodes, from, end, document);
            &&& at < link_entries(nodes, from, k + 1, document).len() <= all.len()
            &&& is_entry_of(nodes, k, all[at], label, target)
        }),
{
    let at = link_entries(nodes, from, k, document).len() as int;
    let next = link_entries(nodes, from, k + 1, document);
    let all = link_entries(nodes, from, end, document);
    lemma_links_stay(nodes, from, k + 1, end, document);
    assert(next[at] == link_entry(nodes, k, document)->0);
    assert(all.take(next.len() as int)[at] == next[at]);
}

/// The links of a navigation are its entries, in the order in which they stand there.
pub proof fn law_links_are_entries(
    nodes: Seq<NodeModel>,
    from: int,
    end: int,
    document: Seq<char>,
    first: (int, Seq<char>, (Seq<char>, Option<Seq<char>>)),
    second: (int, Seq<char>, (Seq<char>, Option<Seq<char>>)),
)
    requires
        0 <= from <= first.0 < second.0 < end,
        is_link(nodes, first.0, document, first.1, first.2),
        is_link(nodes, second.0, document, second.1, second.2),
    ensures
        ({
            let all = link_entries(nodes, from, end, document);
            exists|a: int, b: int|
                0 <= a < b < all.len() && is_entry_of(
                    nodes,
                    first.0,
                    #[trigger] all[a],
                    first.1,
                    first.2,
                ) && is_entry_of(nodes, second.0, #[trigger] all[b], second.1, second.2)
        }),
{
    lemma_link(nodes, from, end, first.0, document, first.1, first.2);
    lemma_link(nodes, from, end, second.0, document, second.1, second.2);
    lemma_links_stay(nodes, from, first.0 + 1, second.0, document);
    let all = link_entries(nodes, from, end, document);
    let a = link_entries(nodes, from, first.0, document).len() as int;
    let b = link_entries(nodes, from, second.0, document).len() as int;
    assert(is_entry_of(nodes, first.0, all[a], first.1, first.2));
    assert(is_entry_of(nodes, second.0, all[b], second.1, second.2));
}

} // verus!

//! The tables of contents of an EPUB, and the places of the text that they lead to.
use vstd::prelude::*;

use crate::document::archive::{
    archive_name, archive_parent, normalise_archive_name, normalise_relative_archive_path,
    parent_of, percent_decoded, percent_decoded_of, reference_path, until,
};
use crate::document::assembly::{
    rendered_views, AssembledDocument, AssembledModel, RenderedModel, RenderedSection,
};
use crate::document::chapter::{chapter_headings, detect_chapter_headings, toc_views};
use crate::document::markup::{
    ancestors_named, attribute, collect_text, count_ancestors, find_element, find_node,
    find_subtree_end, html_nodes, html_tree, is_element, joined_text, leading_text, node_attribute,
    node_is, node_views, subtree_end, text_of, xml_nodes, xml_tree, attribute_views, KindModel,
    MarkupKind, MarkupNode, NodeModel,
};
use crate::document::package::{contains_word, has_word};
use crate::document::toc::{
    compatible, first_visible, label_is_landmark, labels_compatible, landmark,
};
use crate::document::xhtml::{anchor_views, XML_NODES_LIMIT};
use crate::document::{in_order, merged_entries, opt_text, TocEntry, TocModel};
use crate::natural::{int_rank, rank, Rank};
use crate::strings::{
    collapse_chars, collapsed, ends, ends_with_text, find_char, lemma_position, lines, lines_of,
    position, texts, trim_chars,
};
use crate::text::{
    at_boundary, bytes_between, chars_of, copy_range, is_boundary, least, same_text, slice,
    string_of,
};

verus! {

// ---------------------------------------------------------------------------------------
// Reading tables of contents
// ---------------------------------------------------------------------------------------

/// An entry as the table of contents has it: where it leads to is a file, and perhaps an
/// anchor in it.
pub struct RawTocEntry {
    pub label: String,
    pub depth: u8,
    pub path: String,
    pub fragment: Option<String>,
}

#[verifier::ext_equal]
pub struct RawModel {
    pub label: Seq<char>,
    pub depth: int,
    pub path: Seq<char>,
    pub fragment: Option<Seq<char>>,
}

impl View for RawTocEntry {
    type V = RawModel;

    open spec fn view(&self) -> RawModel {
        RawModel {
            label: self.label@,
            depth: self.depth as int,
            path: self.path@,
            fragment: opt_text(self.fragment),
        }
    }
}

pub open spec fn raw_views(entries: Seq<RawTocEntry>) -> Seq<RawModel> {
    Seq::new(entries.len(), |i: int| entries[i]@)
}

/// The part of a reference after its first `#`, if there is any.
pub open spec fn fragment_of(href: Seq<char>) -> Option<Seq<char>> {
    let k = position(href, '#') as int;
    if k + 1 < href.len() {
        Some(percent_decoded(href.skip(k + 1)))
    } else {
        None
    }
}

/// The file and the anchor to which a reference in the file `document` leads.
pub open spec fn target_of(document: Seq<char>, href: Seq<char>) -> Option<
    (Seq<char>, Option<Seq<char>>),
> {
    let path = until(until(href, '#'), '?');
    let file = if path.len() == 0 {
        Some(archive_name(document))
    } else {
        reference_path(parent_of(document), path)
    };
    match file {
        Some(name) => Some((name, fragment_of(href))),
        None => None,
    }
}

fn head_of(characters: &[char], c: char) -> (head: Vec<char>)
    ensures
        head@ == until(characters@, c),
{
    assert(characters@.skip(0) =~= characters@);
    let end: usize = find_char(characters, c, 0);
    let head = copy_range(characters, 0, end);
    assert(head@ =~= characters@.take(end as int));
    head
}

/// The file and the anchor to which a reference leads.
pub fn parse_target(document_path: &str, href: &str) -> (target: Option<
    (String, Option<String>),
>)
    ensures
        match target {
            Some(found) => target_of(document_path@, href@) == Some(
                (found.0@, opt_text(found.1)),
            ),
            None => target_of(document_path@, href@) is None,
        },
{
    let characters = chars_of(href);
    let head = head_of(&characters, '#');
    let plain = head_of(&head, '?');
    let path = if plain.len() == 0 {
        normalise_archive_name(document_path)
    } else {
        let parent = archive_parent(document_path);
        let text = string_of(&plain);
        match normalise_relative_archive_path(parent.as_str(), text.as_str()) {
            Some(path) => path,
            None => {
                return None;
            },
        }
    };
    proof {
        lemma_position(href@, '#');
        assert(href@.skip(0) =~= href@);
    }
    let mark: usize = find_char(&characters, '#', 0);
    let fragment = if mark < characters.len() && characters.len() - mark > 1 {
        let rest = copy_range(&characters, mark + 1, characters.len());
        assert(rest@ =~= href@.skip(mark + 1));
        let text = string_of(&rest);
        Some(percent_decoded_of(text.as_str()))
    } else {
        None
    };
    Some((path, fragment))
}

/// A depth as it is kept.
pub open spec fn depth_of(count: int) -> int {
    if count < 0 {
        0
    } else {
        least(count, 255)
    }
}

fn capped(count: usize) -> (depth: u8)
    ensures
        depth == depth_of(count as int),
{
    if count < 255 {
        count as u8
    } else {
        255
    }
}

/// One of the attributes says that the element is a table of contents.
pub open spec fn says_toc(attributes: Seq<(Seq<char>, Seq<char>, bool)>) -> bool {
    exists|i: int|
        0 <= i < attributes.len() && ends((#[trigger] attributes[i]).0, "type"@) && has_word(
            attributes[i].1,
            "toc"@,
        )
}

pub open spec fn is_toc_nav(node: NodeModel) -> bool {
    &&& is_element(node, "nav"@)
    &&& node.kind matches KindModel::Element { attributes, .. } && says_toc(attributes)
}

fn node_is_toc_nav(node: &MarkupNode) -> (result: bool)
    ensures
        result == is_toc_nav(node@),
{
    if !node_is(node, "nav") {
        return false;
    }
    match &node.kind {
        MarkupKind::Element { attributes, .. } => {
            let ghost all = attribute_views(attributes@);
            let mut i: usize = 0;
            while i < attributes.len()
                invariant
                    i <= attributes.len(),
                    all == attribute_views(attributes@),
                    is_element(node@, "nav"@),
                    node@.kind matches KindModel::Element { attributes: own, .. } && own == all,
                    forall|j: int|
                        0 <= j < i ==> !(ends((#[trigger] all[j]).0, "type"@) && has_word(
                            all[j].1,
                            "toc"@,
                        )),
                decreases attributes.len() - i,
            {
                let name = chars_of(attributes[i].0.as_str());
                assert(all[i as int] == (
                    attributes@[i as int].0@,
                    attributes@[i as int].1@,
                    attributes@[i as int].2,
                ));
                if ends_with_text(&name, "type") && contains_word(attributes[i].1.as_str(), "toc") {
                    return true;
                }
                i += 1;
            }
            false
        },
        _ => false,
    }
}

/// The first navigation from the node `i` on that is a table of contents.
pub open spec fn find_toc_nav(nodes: Seq<NodeModel>, i: int) -> Option<int>
    decreases nodes.len() - i,
{
    if i >= nodes.len() {
        None
    } else if is_toc_nav(nodes[i]) {
        Some(i)
    } else {
        find_toc_nav(nodes, i + 1)
    }
}

/// The navigation that is read: the first that is a table of contents, or the first of all.
pub open spec fn chosen_nav(nodes: Seq<NodeModel>) -> Option<int> {
    match find_toc_nav(nodes, 0) {
        Some(i) => Some(i),
        None => find_element(nodes, "nav"@, 0, nodes.len() as int),
    }
}

fn choose_nav(nodes: &[MarkupNode]) -> (index: Option<usize>)
    ensures
        match index {
            Some(i) => chosen_nav(node_views(nodes@)) == Some(i as int) && i < nodes@.len(),
            None => chosen_nav(node_views(nodes@)) is None,
        },
{
    let ghost all = node_views(nodes@);
    let mut i: usize = 0;
    while i < nodes.len()
        invariant
            i <= nodes.len(),
            all == node_views(nodes@),
            find_toc_nav(all, 0) == find_toc_nav(all, i as int),
        decreases nodes.len() - i,
    {
        assert(all[i as int] == nodes@[i as int]@);
        if node_is_toc_nav(&nodes[i]) {
            return Some(i);
        }
        i += 1;
    }
    find_node(nodes, "nav", 0, nodes.len())
}

/// The entry of the link `i`, if it has a label and leads to a file.
pub open spec fn link_entry(nodes: Seq<NodeModel>, i: int, document: Seq<char>) -> Option<
    RawModel,
> {
    let label = collapsed(joined_text(nodes, i, subtree_end(nodes, i)));
    if label.len() == 0 {
        None
    } else {
        match node_attribute(nodes[i], "href"@) {
            Some(href) => match target_of(document, href) {
                Some((path, fragment)) => Some(
                    RawModel {
                        label,
                        depth: depth_of(
                            ancestors_named(nodes, "li"@, i, nodes[i].depth) - 1,
                        ),
                        path,
                        fragment,
                    },
                ),
                None => None,
            },
            None => None,
        }
    }
}

/// The entries of the links from the node `i` to the node `end`.
pub open spec fn link_entries(nodes: Seq<NodeModel>, i: int, end: int, document: Seq<char>) -> Seq<
    RawModel,
>
    decreases end - i,
{
    if i >= end {
        seq![]
    } else {
        let before = link_entries(nodes, i, end - 1, document);
        if is_element(nodes[end - 1], "a"@) {
            match link_entry(nodes, end - 1, document) {
                Some(entry) => before.push(entry),
                None => before,
            }
        } else {
            before
        }
    }
}

/// The entries of the table of contents in a navigation file.
pub open spec fn nav_entries(nodes: Seq<NodeModel>, document: Seq<char>) -> Seq<RawModel> {
    match chosen_nav(nodes) {
        Some(i) => link_entries(nodes, i, subtree_end(nodes, i), document),
        None => seq![],
    }
}

fn entry_of_link(nodes: &[MarkupNode], i: usize, document: &str) -> (entry: Option<RawTocEntry>)
    requires
        i < nodes@.len(),
    ensures
        match entry {
            Some(found) => link_entry(node_views(nodes@), i as int, document@) == Some(found@),
            None => link_entry(node_views(nodes@), i as int, document@) is None,
        },
{
    assert(node_views(nodes@)[i as int] == nodes@[i as int]@);
    let end: usize = find_subtree_end(nodes, i);
    let label = collapse_chars(&collect_text(nodes, i, end));
    if label.len() == 0 {
        return None;
    }
    let href = match attribute(&nodes[i], "href") {
        Some(href) => href,
        None => {
            return None;
        },
    };
    match parse_target(document, href) {
        Some((path, fragment)) => {
            let count: usize = count_ancestors(nodes, "li", i);
            let depth: u8 = capped(count.saturating_sub(1));
            Some(RawTocEntry { label: string_of(&label), depth, path, fragment })
        },
        None => None,
    }
}

/// Reads the table of contents in a navigation file.
pub fn read_nav(nodes: &[MarkupNode], document: &str) -> (entries: Vec<RawTocEntry>)
    ensures
        raw_views(entries@) == nav_entries(node_views(nodes@), document@),
{
    let ghost all = node_views(nodes@);
    let mut entries: Vec<RawTocEntry> = Vec::new();
    assert(raw_views(entries@) =~= seq![]);
    let start: usize = match choose_nav(nodes) {
        Some(start) => start,
        None => {
            return entries;
        },
    };
    let end: usize = find_subtree_end(nodes, start);
    let mut i: usize = start;
    while i < end
        invariant
            start <= i <= end <= nodes@.len(),
            all == node_views(nodes@),
            raw_views(entries@) == link_entries(all, start as int, i as int, document@),
        decreases end - i,
    {
        assert(all[i as int] == nodes@[i as int]@);
        if node_is(&nodes[i], "a") {
            if let Some(entry) = entry_of_link(nodes, i, document) {
                let ghost before = entries@;
                let ghost model = entry@;
                entries.push(entry);
                assert(raw_views(entries@) =~= raw_views(before).push(model));
            }
        }
        i += 1;
    }
    entries
}

/// The table of contents in a navigation file, which is read as XML where it is well-formed.
pub open spec fn nav_result(source: Seq<char>, document: Seq<char>) -> Seq<RawModel> {
    match xml_tree(source, true, XML_NODES_LIMIT) {
        Ok(nodes) => nav_entries(nodes, document),
        Err(_) => nav_entries(html_tree(source), document),
    }
}

/// The table of contents in a navigation file.
pub fn parse_nav(source: &str, nav_path: &str) -> (entries: Vec<RawTocEntry>)
    ensures
        raw_views(entries@) == nav_result(source@, nav_path@),
{
    match xml_nodes(source, true, XML_NODES_LIMIT) {
        Ok(nodes) => read_nav(&nodes, nav_path),
        Err(_) => {
            let nodes = html_nodes(source);
            read_nav(&nodes, nav_path)
        },
    }
}

/// The entry of the point `i` of an NCX file, if it has a label and leads to a file.
pub open spec fn point_entry(nodes: Seq<NodeModel>, i: int, document: Seq<char>) -> Option<
    RawModel,
> {
    let end = subtree_end(nodes, i);
    let label = match find_element(nodes, "text"@, i, end) {
        Some(t) => match leading_text(nodes, t) {
            Some(text) => Some(collapsed(text)),
            None => None,
        },
        None => None,
    };
    let href = match find_element(nodes, "content"@, i, end) {
        Some(c) => node_attribute(nodes[c], "src"@),
        None => None,
    };
    match (label, href) {
        (Some(text), Some(source)) => if text.len() == 0 {
            None
        } else {
            match target_of(document, source) {
                Some((path, fragment)) => Some(
                    RawModel {
                        label: text,
                        depth: depth_of(
                            ancestors_named(nodes, "navPoint"@, i, nodes[i].depth),
                        ),
                        path,
                        fragment,
                    },
                ),
                None => None,
            }
        },
        _ => None,
    }
}

/// The entries of the points among the first `n` nodes of an NCX file.
pub open spec fn point_entries(nodes: Seq<NodeModel>, n: int, document: Seq<char>) -> Seq<RawModel>
    decreases n,
{
    if n <= 0 {
        seq![]
    } else {
        let before = point_entries(nodes, n - 1, document);
        if is_element(nodes[n - 1], "navPoint"@) {
            match point_entry(nodes, n - 1, document) {
                Some(entry) => before.push(entry),
                None => before,
            }
        } else {
            before
        }
    }
}

fn entry_of_point(nodes: &[MarkupNode], i: usize, document: &str) -> (entry: Option<RawTocEntry>)
    requires
        i < nodes@.len(),
    ensures
        match entry {
            Some(found) => point_entry(node_views(nodes@), i as int, document@) == Some(found@),
            None => point_entry(node_views(nodes@), i as int, document@) is None,
        },
{
    let ghost all = node_views(nodes@);
    assert(all[i as int] == nodes@[i as int]@);
    let end: usize = find_subtree_end(nodes, i);
    let label = match find_node(nodes, "text", i, end) {
        Some(t) => match text_of(nodes, t) {
            Some(text) => collapse_chars(&chars_of(text)),
            None => {
                return None;
            },
        },
        None => {
            return None;
        },
    };
    if label.len() == 0 {
        return None;
    }
    let href = match find_node(nodes, "content", i, end) {
        Some(c) => {
            assert(all[c as int] == nodes@[c as int]@);
            match attribute(&nodes[c], "src") {
                Some(href) => href,
                None => {
                    return None;
                },
            }
        },
        None => {
            return None;
        },
    };
    match parse_target(document, href) {
        Some((path, fragment)) => {
            let depth: u8 = capped(count_ancestors(nodes, "navPoint", i));
            Some(RawTocEntry { label: string_of(&label), depth, path, fragment })
        },
        None => None,
    }
}

/// Reads the table of contents of an NCX file.
pub fn read_ncx(nodes: &[MarkupNode], document: &str) -> (entries: Vec<RawTocEntry>)
    ensures
        raw_views(entries@) == point_entries(
            node_views(nodes@),
            nodes@.len() as int,
            document@,
        ),
{
    let ghost all = node_views(nodes@);
    let mut entries: Vec<RawTocEntry> = Vec::new();
    let mut i: usize = 0;
    assert(raw_views(entries@) =~= seq![]);
    while i < nodes.len()
        invariant
            i <= nodes.len(),
            all == node_views(nodes@),
            raw_views(entries@) == point_entries(all, i as int, document@),
        decreases nodes.len() - i,
    {
        assert(all[i as int] == nodes@[i as int]@);
        if node_is(&nodes[i], "navPoint") {
            if let Some(entry) = entry_of_point(nodes, i, document) {
                let ghost before = entries@;
                let ghost model = entry@;
                entries.push(entry);
                assert(raw_views(entries@) =~= raw_views(before).push(model));
            }
        }
        i += 1;
    }
    entries
}

/// The table of contents of an NCX file; nothing where it is not well-formed.
pub open spec fn ncx_result(source: Seq<char>, document: Seq<char>) -> Seq<RawModel> {
    match xml_tree(source, true, XML_NODES_LIMIT) {
        Ok(nodes) => point_entries(nodes, nodes.len() as int, document),
        Err(_) => seq![],
    }
}

/// The table of contents of an NCX file.
pub fn parse_ncx(source: &str, ncx_path: &str) -> (entries: Vec<RawTocEntry>)
    ensures
        raw_views(entries@) == ncx_result(source@, ncx_path@),
{
    match xml_nodes(source, true, XML_NODES_LIMIT) {
        Ok(nodes) => {
            let entries = read_ncx(&nodes, ncx_path);
            assert(node_views(nodes@).len() == nodes@.len());
            entries
        },
        Err(_) => {
            let entries: Vec<RawTocEntry> = Vec::new();
            assert(raw_views(entries@) =~= seq![]);
            entries
        },
    }
}

// ---------------------------------------------------------------------------------------
// Finding the places that entries lead to
// ---------------------------------------------------------------------------------------

/// The offsets of the entries whose labels may belong to the same heading as `label`.
pub open spec fn matching(entries: Seq<TocModel>, label: Seq<char>) -> Seq<int>
    decreases entries.len(),
{
    if entries.len() == 0 {
        seq![]
    } else {
        let before = matching(entries.drop_last(), label);
        if compatible(label, entries.last().label) {
            before.push(entries.last().offset)
        } else {
            before
        }
    }
}

/// The only one of the offsets.
pub open spec fn only(offsets: Seq<int>) -> Option<int> {
    if offsets.len() == 1 {
        Some(offsets[0])
    } else {
        None
    }
}

pub open spec fn offset_views(offsets: Seq<usize>) -> Seq<int> {
    Seq::new(offsets.len(), |i: int| offsets[i] as int)
}

pub open spec fn opt_offset(offset: Option<usize>) -> Option<int> {
    match offset {
        Some(value) => Some(value as int),
        None => None,
    }
}

/// Appends the offsets of the entries that match.
fn push_matching(found: &mut Vec<usize>, entries: &[TocEntry], label: &str)
    ensures
        offset_views(final(found)@) == offset_views(old(found)@) + matching(
            toc_views(entries@),
            label@,
        ),
{
    let ghost all = toc_views(entries@);
    let ghost start = offset_views(found@);
    let mut i: usize = 0;
    assert(start + matching(all.take(0), label@) =~= start);
    while i < entries.len()
        invariant
            i <= entries.len(),
            all == toc_views(entries@),
            offset_views(found@) == start + matching(all.take(i as int), label@),
        decreases entries.len() - i,
    {
        assert(all.take(i + 1).drop_last() =~= all.take(i as int));
        assert(all.take(i + 1).last() == entries@[i as int]@);
        if labels_compatible(label, entries[i].label.as_str()) {
            let ghost before = found@;
            found.push(entries[i].offset);
            assert(offset_views(found@) =~= offset_views(before).push(all[i as int].offset));
        }
        i += 1;
        assert(offset_views(found@) =~= start + matching(all.take(i as int), label@));
    }
    assert(all.take(i as int) =~= all);
}

fn only_of(offsets: &[usize]) -> (offset: Option<usize>)
    ensures
        opt_offset(offset) == only(offset_views(offsets@)),
{
    if offsets.len() == 1 {
        Some(offsets[0])
    } else {
        None
    }
}

/// The headings of all chapters.
pub open spec fn all_headings(sections: Seq<RenderedModel>) -> Seq<TocModel>
    decreases sections.len(),
{
    if sections.len() == 0 {
        seq![]
    } else {
        all_headings(sections.drop_last()) + sections.last().headings
    }
}

proof fn lemma_matching_concat(a: Seq<TocModel>, b: Seq<TocModel>, label: Seq<char>)
    ensures
        matching(a + b, label) == matching(a, label) + matching(b, label),
    decreases b.len(),
{
    if b.len() == 0 {
        assert(a + b =~= a);
    } else {
        assert((a + b).drop_last() =~= a + b.drop_last());
        lemma_matching_concat(a, b.drop_last(), label);
        assert(matching(a + b, label) =~= matching(a, label) + matching(b, label));
    }
}

/// The entries whose offsets lie between two bytes.
pub open spec fn within(entries: Seq<TocModel>, start: int, end: int) -> Seq<TocModel>
    decreases entries.len(),
{
    if entries.len() == 0 {
        seq![]
    } else {
        let before = within(entries.drop_last(), start, end);
        if start <= entries.last().offset < end {
            before.push(entries.last())
        } else {
            before
        }
    }
}

/// The chapter of a file.
pub open spec fn section_of(sections: Seq<RenderedModel>, path: Seq<char>) -> Option<RenderedModel>
    decreases sections.len(),
{
    if sections.len() == 0 {
        None
    } else if sections[0].path == path {
        Some(sections[0])
    } else {
        section_of(sections.drop_first(), path)
    }
}

/// The place of an anchor.
pub open spec fn anchor_of(anchors: Seq<(Seq<char>, int)>, name: Seq<char>) -> Option<int>
    decreases anchors.len(),
{
    if anchors.len() == 0 {
        None
    } else if anchors[0].0 == name {
        Some(anchors[0].1)
    } else {
        anchor_of(anchors.drop_first(), name)
    }
}

/// The text between two bytes; nothing where they are not between characters.
pub open spec fn text_between(s: Seq<char>, start: int, end: int) -> Seq<char> {
    if start <= end && is_boundary(s, start) && is_boundary(s, end) {
        bytes_between(s, start, end)
    } else {
        seq![]
    }
}

/// The first characters at an anchor that are compared with a label.
pub const SAMPLE_CHARS: usize = 128;

/// The number of bytes to a heading that is taken for that of an anchor.
pub const NEAR_BYTES: usize = 128;

pub open spec fn distance(a: int, b: int) -> int {
    if a <= b {
        b - a
    } else {
        a - b
    }
}

/// The first line at the byte `offset` of a chapter that shows anything.
pub open spec fn line_at(s: Seq<char>, offset: int, end: int) -> Seq<char> {
    let rest = text_between(s, offset, end);
    first_visible(lines(rest.take(least(SAMPLE_CHARS as int, rest.len() as int))))
}

/// The heading is as near to the offset as any.
pub open spec fn is_nearest(headings: Seq<TocModel>, i: int, offset: int) -> bool {
    forall|j: int|
        0 <= j < headings.len() ==> distance(headings[i].offset, offset) <= distance(
            (#[trigger] headings[j]).offset,
            offset,
        )
}

/// A heading that is near, and nearest, and whose label may be `label`.
pub open spec fn near_heading(headings: Seq<TocModel>, offset: int, label: Seq<char>) -> bool {
    exists|i: int|
        0 <= i < headings.len() && is_nearest(headings, i, offset) && distance(
            (#[trigger] headings[i]).offset,
            offset,
        ) <= NEAR_BYTES && compatible(label, headings[i].label)
}

/// What stands at an anchor may be what the label says: the line there, or a heading nearby.
pub open spec fn matches_label(
    s: Seq<char>,
    section: RenderedModel,
    offset: int,
    label: Seq<char>,
) -> bool {
    let line = line_at(s, offset, section.end);
    (line.len() > 0 && compatible(label, line)) || near_heading(section.headings, offset, label)
}

/// The place that an entry leads to: its anchor if what stands there fits, the heading of its
/// file or of the book that alone fits, the anchor or the start of a part without heading, or
/// the line of its file or of the book that alone fits and looks like a heading.
pub open spec fn resolved_offset(
    entry: RawModel,
    book: AssembledModel,
    detected: Seq<TocModel>,
) -> Option<int> {
    let section = section_of(book.rendered, entry.path);
    let anchor = match (section, entry.fragment) {
        (Some(chapter), Some(name)) => anchor_of(chapter.anchors, name),
        _ => None,
    };
    let own = match section {
        Some(chapter) => only(matching(chapter.headings, entry.label)),
        None => None,
    };
    let own_detected = match section {
        Some(chapter) => only(
            matching(within(detected, chapter.start, chapter.end), entry.label),
        ),
        None => None,
    };
    if section is Some && anchor is Some && matches_label(
        book.text,
        section->0,
        anchor->0,
        entry.label,
    ) {
        anchor
    } else if own is Some {
        own
    } else if only(matching(all_headings(book.rendered), entry.label)) is Some {
        only(matching(all_headings(book.rendered), entry.label))
    } else if landmark(entry.label) && section is Some {
        if anchor is Some {
            anchor
        } else {
            Some(section->0.start)
        }
    } else if own_detected is Some {
        own_detected
    } else {
        only(matching(detected, entry.label))
    }
}

fn find_section<'a>(sections: &'a [RenderedSection], path: &str) -> (section: Option<
    &'a RenderedSection,
>)
    ensures
        match section {
            Some(found) => section_of(rendered_views(sections@), path@) == Some(found@),
            None => section_of(rendered_views(sections@), path@) is None,
        },
{
    let ghost all = rendered_views(sections@);
    let mut i: usize = 0;
    assert(all.skip(0) =~= all);
    while i < sections.len()
        invariant
            i <= sections.len(),
            all == rendered_views(sections@),
            section_of(all, path@) == section_of(all.skip(i as int), path@),
        decreases sections.len() - i,
    {
        assert(all.skip(i as int)[0] == sections@[i as int]@);
        assert(all.skip(i as int).drop_first() =~= all.skip(i + 1));
        if same_text(sections[i].path.as_str(), path) {
            return Some(&sections[i]);
        }
        i += 1;
    }
    assert(all.skip(i as int) =~= seq![]);
    None
}

fn find_anchor(anchors: &[(String, usize)], name: &str) -> (offset: Option<usize>)
    ensures
        opt_offset(offset) == anchor_of(anchor_views(anchors@), name@),
{
    let ghost all = anchor_views(anchors@);
    let mut i: usize = 0;
    assert(all.skip(0) =~= all);
    while i < anchors.len()
        invariant
            i <= anchors.len(),
            all == anchor_views(anchors@),
            anchor_of(all, name@) == anchor_of(all.skip(i as int), name@),
        decreases anchors.len() - i,
    {
        assert(all.skip(i as int)[0] == all[i as int]);
        assert(all.skip(i as int).drop_first() =~= all.skip(i + 1));
        if same_text(anchors[i].0.as_str(), name) {
            return Some(anchors[i].1);
        }
        i += 1;
    }
    assert(all.skip(i as int) =~= seq![]);
    None
}

fn first_line(parts: &[Vec<char>]) -> (line: Vec<char>)
    ensures
        line@ == first_visible(texts(parts@)),
{
    let ghost all = texts(parts@);
    let mut i: usize = 0;
    assert(all.skip(0) =~= all);
    while i < parts.len()
        invariant
            i <= parts.len(),
            all == texts(parts@),
            first_visible(all) == first_visible(all.skip(i as int)),
        decreases parts.len() - i,
    {
        let line = trim_chars(&parts[i]);
        assert(all.skip(i as int)[0] == parts@[i as int]@);
        assert(all.skip(i as int).drop_first() =~= all.skip(i + 1));
        if line.len() > 0 {
            return line;
        }
        i += 1;
    }
    assert(all.skip(i as int) =~= seq![]);
    Vec::new()
}

fn distance_of(a: usize, b: usize) -> (result: usize)
    ensures
        result == distance(a as int, b as int),
{
    if a <= b {
        b - a
    } else {
        a - b
    }
}

fn heading_is_near(headings: &[TocEntry], offset: usize, label: &str) -> (near: bool)
    ensures
        near == near_heading(toc_views(headings@), offset as int, label@),
{
    let ghost all = toc_views(headings@);
    if headings.len() == 0 {
        return false;
    }
    let mut nearest: usize = distance_of(headings[0].offset, offset);
    assert(all[0] == headings@[0]@);
    let mut i: usize = 1;
    while i < headings.len()
        invariant
            1 <= i <= headings.len(),
            all == toc_views(headings@),
            forall|j: int|
                0 <= j < i ==> nearest <= distance((#[trigger] all[j]).offset, offset as int),
            exists|j: int|
                0 <= j < i && nearest == distance((#[trigger] all[j]).offset, offset as int),
        decreases headings.len() - i,
    {
        let here: usize = distance_of(headings[i].offset, offset);
        assert(all[i as int] == headings@[i as int]@);
        if here < nearest {
            nearest = here;
        }
        i += 1;
    }
    let ghost witness = choose|j: int|
        0 <= j < all.len() && nearest == distance((#[trigger] all[j]).offset, offset as int);
    if nearest > NEAR_BYTES {
        proof {
            assert forall|k: int| 0 <= k < all.len() implies distance(
                (#[trigger] all[k]).offset,
                offset as int,
            ) > NEAR_BYTES by {}
        }
        return false;
    }
    let mut i: usize = 0;
    while i < headings.len()
        invariant
            i <= headings.len(),
            all == toc_views(headings@),
            nearest <= NEAR_BYTES,
            0 <= witness < all.len(),
            nearest == distance(all[witness].offset, offset as int),
            forall|j: int|
                0 <= j < all.len() ==> nearest <= distance(
                    (#[trigger] all[j]).offset,
                    offset as int,
                ),
            forall|j: int|
                0 <= j < i ==> !(distance((#[trigger] all[j]).offset, offset as int) == nearest
                    && compatible(label@, all[j].label)),
        decreases headings.len() - i,
    {
        assert(all[i as int] == headings@[i as int]@);
        if distance_of(headings[i].offset, offset) == nearest && labels_compatible(
            label,
            headings[i].label.as_str(),
        ) {
            assert(is_nearest(all, i as int, offset as int));
            return true;
        }
        i += 1;
    }
    proof {
        assert forall|k: int| 0 <= k < all.len() && is_nearest(all, k, offset as int) implies !(
        distance((#[trigger] all[k]).offset, offset as int) <= NEAR_BYTES && compatible(
            label@,
            all[k].label,
        )) by {
            assert(distance(all[k].offset, offset as int) <= distance(
                all[witness].offset,
                offset as int,
            ));
        }
    }
    false
}

/// Whether what stands at an anchor may be what the label says.
fn target_matches_label(text: &str, section: &RenderedSection, offset: usize, label: &str) -> (
matches: bool)
    ensures
        matches == matches_label(text@, section@, offset as int, label@),
{
    let end: usize = section.range.end;
    let rest: Vec<char> = if offset <= end && at_boundary(text, offset) && at_boundary(text, end) {
        chars_of(slice(text, offset, end))
    } else {
        Vec::new()
    };
    assert(rest@ == text_between(text@, offset as int, end as int));
    let count: usize = if SAMPLE_CHARS <= rest.len() {
        SAMPLE_CHARS
    } else {
        rest.len()
    };
    let sample = copy_range(&rest, 0, count);
    assert(sample@ =~= rest@.take(count as int));
    let line = first_line(&lines_of(&sample));
    if line.len() > 0 && labels_compatible(label, string_of(&line).as_str()) {
        return true;
    }
    heading_is_near(&section.headings, offset, label)
}

fn keep_within(entries: &[TocEntry], start: usize, end: usize) -> (kept: Vec<TocEntry>)
    ensures
        toc_views(kept@) == within(toc_views(entries@), start as int, end as int),
{
    let ghost all = toc_views(entries@);
    let mut kept: Vec<TocEntry> = Vec::new();
    let mut i: usize = 0;
    assert(toc_views(kept@) =~= seq![]);
    while i < entries.len()
        invariant
            i <= entries.len(),
            all == toc_views(entries@),
            toc_views(kept@) == within(all.take(i as int), start as int, end as int),
        decreases entries.len() - i,
    {
        assert(all.take(i + 1).drop_last() =~= all.take(i as int));
        assert(all.take(i + 1).last() == entries@[i as int]@);
        if start <= entries[i].offset && entries[i].offset < end {
            let ghost before = kept@;
            kept.push(entries[i].clone());
            assert(toc_views(kept@) =~= toc_views(before).push(all[i as int]));
        }
        i += 1;
    }
    assert(all.take(i as int) =~= all);
    kept
}

/// The place that an entry leads to.
pub fn resolve_entry(entry: &RawTocEntry, book: &AssembledDocument, detected: &[TocEntry]) -> (
offset: Option<usize>)
    ensures
        opt_offset(offset) == resolved_offset(entry@, book@, toc_views(detected@)),
{
    let label = entry.label.as_str();
    let section = find_section(&book.rendered_sections, entry.path.as_str());
    let anchor: Option<usize> = match section {
        Some(chapter) => match &entry.fragment {
            Some(name) => find_anchor(&chapter.anchors, name.as_str()),
            None => None,
        },
        None => None,
    };
    if let Some(chapter) = section {
        if let Some(offset) = anchor {
            if target_matches_label(book.text.as_str(), chapter, offset, label) {
                return Some(offset);
            }
        }
        let mut own: Vec<usize> = Vec::new();
        push_matching(&mut own, &chapter.headings, label);
        assert(offset_views(own@) =~= matching(chapter@.headings, label@));
        if let Some(offset) = only_of(&own) {
            return Some(offset);
        }
    }
    let ghost all = rendered_views(book.rendered_sections@);
    let mut global: Vec<usize> = Vec::new();
    let mut i: usize = 0;
    assert(offset_views(global@) =~= seq![]);
    while i < book.rendered_sections.len()
        invariant
            i <= book.rendered_sections.len(),
            all == rendered_views(book.rendered_sections@),
            label@ == entry.label@,
            offset_views(global@) == matching(all_headings(all.take(i as int)), label@),
        decreases book.rendered_sections.len() - i,
    {
        proof {
            assert(all.take(i + 1).drop_last() =~= all.take(i as int));
            assert(all.take(i + 1).last() == book.rendered_sections@[i as int]@);
            lemma_matching_concat(
                all_headings(all.take(i as int)),
                all[i as int].headings,
                label@,
            );
        }
        push_matching(&mut global, &book.rendered_sections[i].headings, label);
        i += 1;
    }
    assert(all.take(i as int) =~= all);
    if let Some(offset) = only_of(&global) {
        return Some(offset);
    }
    if let Some(chapter) = section {
        if label_is_landmark(label) {
            return match anchor {
                Some(offset) => Some(offset),
                None => Some(chapter.range.start),
            };
        }
        let inside = keep_within(detected, chapter.range.start, chapter.range.end);
        let mut own: Vec<usize> = Vec::new();
        push_matching(&mut own, &inside, label);
        assert(offset_views(own@) =~= matching(toc_views(inside@), label@));
        if let Some(offset) = only_of(&own) {
            return Some(offset);
        }
    }
    let mut found: Vec<usize> = Vec::new();
    push_matching(&mut found, detected, label);
    assert(offset_views(found@) =~= matching(toc_views(detected@), label@));
    only_of(&found)
}

// ---------------------------------------------------------------------------------------
// The longest part of a table of contents that is in order
// ---------------------------------------------------------------------------------------

/// The length of the longest run of entries in order that ends with the entry `i`.
pub open spec fn run_length(entries: Seq<TocModel>, i: int) -> int
    decreases i, 1int,
{
    1 + best_run(entries, entries[i].offset, i)
}

/// The length of the longest run in order among the first `n` entries that ends with an entry
/// at `limit` or before it.
pub open spec fn best_run(entries: Seq<TocModel>, limit: int, n: int) -> int
    decreases n, 0int,
{
    if n <= 0 {
        0
    } else {
        let before = best_run(entries, limit, n - 1);
        if entries[n - 1].offset <= limit && run_length(entries, n - 1) > before {
            run_length(entries, n - 1)
        } else {
            before
        }
    }
}

/// The last of the first `n` entries with a run of the given length, or -1.
pub open spec fn last_with(entries: Seq<TocModel>, length: int, n: int) -> int
    decreases n,
{
    if n <= 0 {
        -1
    } else if run_length(entries, n - 1) == length {
        n - 1
    } else {
        last_with(entries, length, n - 1)
    }
}

/// The run of the entry `i`: each entry comes after the last one before it whose run is one
/// shorter than its own.
pub open spec fn run_of(entries: Seq<TocModel>, i: int) -> Seq<TocModel>
    decreases i + 1,
{
    if i < 0 {
        seq![]
    } else {
        let previous = last_with(entries, run_length(entries, i) - 1, i);
        if -1 <= previous < i {
            run_of(entries, previous).push(entries[i])
        } else {
            seq![]
        }
    }
}

/// The length of the longest run of all.
pub open spec fn longest_run(entries: Seq<TocModel>, n: int) -> int
    decreases n,
{
    if n <= 0 {
        0
    } else {
        let before = longest_run(entries, n - 1);
        if run_length(entries, n - 1) > before {
            run_length(entries, n - 1)
        } else {
            before
        }
    }
}

/// A longest part of the entries that is in the order of the text: of several the one that
/// ends last.
pub open spec fn monotonic(entries: Seq<TocModel>) -> Seq<TocModel> {
    let n = entries.len() as int;
    run_of(entries, last_with(entries, longest_run(entries, n), n))
}

proof fn lemma_best_run(entries: Seq<TocModel>, limit: int, n: int)
    requires
        0 <= n <= entries.len(),
    ensures
        0 <= best_run(entries, limit, n) <= n,
        forall|j: int|
            0 <= j < n && entries[j].offset <= limit ==> #[trigger] run_length(entries, j)
                <= best_run(entries, limit, n),
        best_run(entries, limit, n) > 0 ==> exists|j: int|
            0 <= j < n && entries[j].offset <= limit && #[trigger] run_length(entries, j)
                == best_run(entries, limit, n),
    decreases n,
{
    if n > 0 {
        lemma_best_run(entries, limit, n - 1);
        lemma_best_run(entries, entries[n - 1].offset, n - 1);
        if best_run(entries, limit, n) > 0 {
            if best_run(entries, limit, n) == best_run(entries, limit, n - 1) {
                let j = choose|j: int|
                    0 <= j < n - 1 && entries[j].offset <= limit && #[trigger] run_length(
                        entries,
                        j,
                    ) == best_run(entries, limit, n - 1);
                assert(run_length(entries, j) == best_run(entries, limit, n));
            } else {
                assert(run_length(entries, n - 1) == best_run(entries, limit, n));
            }
        }
    }
}

proof fn lemma_last_with(entries: Seq<TocModel>, length: int, n: int)
    requires
        0 <= n <= entries.len(),
    ensures
        -1 <= last_with(entries, length, n) < n,
        last_with(entries, length, n) >= 0 ==> run_length(
            entries,
            last_with(entries, length, n),
        ) == length,
        forall|j: int|
            last_with(entries, length, n) < j < n ==> #[trigger] run_length(entries, j) != length,
    decreases n,
{
    if n > 0 && run_length(entries, n - 1) != length {
        lemma_last_with(entries, length, n - 1);
    }
}

/// What the piles hold after the first `n` entries: on the pile `p` lies the last entry whose
/// run has the length `p + 1`, which has the least offset of all these.
spec fn piles_hold(
    entries: Seq<TocModel>,
    n: int,
    tops: Seq<usize>,
    predecessors: Seq<Option<usize>>,
) -> bool {
    &&& predecessors.len() == n
    &&& forall|p: int|
        0 <= p < tops.len() ==> #[trigger] tops[p] < n && tops[p] == last_with(entries, p + 1, n)
    &&& forall|p: int, j: int|
        0 <= p < tops.len() && 0 <= j < n && #[trigger] run_length(entries, j) == p + 1 ==> entries[
        (#[trigger] tops[p]) as int].offset <= entries[j].offset
    &&& forall|p: int, q: int|
        0 <= p < q < tops.len() ==> entries[(#[trigger] tops[p]) as int].offset <= entries[(
        #[trigger] tops[q]) as int].offset
    &&& forall|j: int| 0 <= j < n ==> 1 <= #[trigger] run_length(entries, j) <= tops.len()
    &&& forall|j: int|
        0 <= j < n ==> match #[trigger] predecessors[j] {
            Some(previous) => previous < j && previous == last_with(
                entries,
                run_length(entries, j) - 1,
                j,
            ),
            None => last_with(entries, run_length(entries, j) - 1, j) == -1,
        }
    &&& tops.len() == longest_run(entries, n)
}

proof fn lemma_next_pile(
    entries: Seq<TocModel>,
    n: int,
    tops: Seq<usize>,
    predecessors: Seq<Option<usize>>,
    pile: int,
)
    requires
        0 <= n < entries.len(),
        n <= usize::MAX,
        piles_hold(entries, n, tops, predecessors),
        0 <= pile <= tops.len(),
        forall|p: int|
            0 <= p < pile ==> entries[(#[trigger] tops[p]) as int].offset <= entries[n].offset,
        forall|p: int|
            pile <= p < tops.len() ==> entries[(#[trigger] tops[p]) as int].offset
                > entries[n].offset,
    ensures
        run_length(entries, n) == pile + 1,
        pile > 0 ==> last_with(entries, pile, n) == tops[pile - 1],
        pile == 0 ==> last_with(entries, 0, n) == -1,
        piles_hold(
            entries,
            n + 1,
            if pile < tops.len() {
                tops.update(pile, n as usize)
            } else {
                tops.push(n as usize)
            },
            predecessors.push(
                if pile > 0 {
                    Some(tops[pile - 1])
                } else {
                    None
                },
            ),
        ),
{
    let limit = entries[n].offset;
    lemma_best_run(entries, limit, n);
    let best = best_run(entries, limit, n);
    if best > pile {
        let j = choose|j: int|
            0 <= j < n && entries[j].offset <= limit && #[trigger] run_length(entries, j) == best;
        assert(run_length(entries, j) <= tops.len());
        assert(entries[tops[best - 1] as int].offset <= entries[j].offset);
    }
    if pile > 0 {
        lemma_last_with(entries, pile, n);
        let top = tops[pile - 1] as int;
        assert(top == last_with(entries, pile, n));
        assert(run_length(entries, top) == pile);
        assert(entries[top].offset <= limit);
    } else {
        lemma_last_with(entries, 0, n);
        if last_with(entries, 0, n) >= 0 {
            assert(run_length(entries, last_with(entries, 0, n)) >= 1);
        }
    }
    assert(run_length(entries, n) == pile + 1);
    let new_tops = if pile < tops.len() {
        tops.update(pile, n as usize)
    } else {
        tops.push(n as usize)
    };
    let previous = if pile > 0 {
        Some(tops[pile - 1])
    } else {
        None
    };
    let all = predecessors.push(previous);
    assert forall|p: int| 0 <= p < new_tops.len() implies #[trigger] new_tops[p] < n + 1
        && new_tops[p] == last_with(entries, p + 1, n + 1) by {
        if p != pile {
            assert(new_tops[p] == tops[p]);
        }
    }
    assert forall|p: int, j: int|
        0 <= p < new_tops.len() && 0 <= j < n + 1 && #[trigger] run_length(entries, j) == p
            + 1 implies entries[(#[trigger] new_tops[p]) as int].offset <= entries[j].offset by {
        if p == pile {
            if j < n {
                assert(pile < tops.len());
                assert(entries[tops[p] as int].offset <= entries[j].offset);
            }
        } else {
            assert(new_tops[p] == tops[p]);
            assert(j < n);
        }
    }
    assert forall|p: int, q: int| 0 <= p < q < new_tops.len() implies entries[(
    #[trigger] new_tops[p]) as int].offset <= entries[(#[trigger] new_tops[q]) as int].offset by {
        if p != pile {
            assert(new_tops[p] == tops[p]);
        }
        if q != pile {
            assert(new_tops[q] == tops[q]);
        }
    }
    assert forall|j: int| 0 <= j < n + 1 implies 1 <= #[trigger] run_length(entries, j)
        <= new_tops.len() by {
        if j < n {
            assert(run_length(entries, j) <= tops.len());
        }
    }
    assert forall|j: int| 0 <= j < n + 1 implies match #[trigger] all[j] {
        Some(before) => before < j && before == last_with(entries, run_length(entries, j) - 1, j),
        None => last_with(entries, run_length(entries, j) - 1, j) == -1,
    } by {
        if j < n {
            assert(all[j] == predecessors[j]);
        }
    }
}

/// The first pile whose top lies after `offset`.
fn find_pile(entries: &[TocEntry], tops: &[usize], offset: usize) -> (pile: usize)
    requires
        forall|p: int| 0 <= p < tops@.len() ==> (#[trigger] tops@[p]) < entries@.len(),
        forall|p: int, q: int|
            0 <= p < q < tops@.len() ==> entries@[(#[trigger] tops@[p]) as int].offset <= entries@[(
            #[trigger] tops@[q]) as int].offset,
    ensures
        pile <= tops@.len(),
        forall|p: int|
            0 <= p < pile ==> entries@[(#[trigger] tops@[p]) as int].offset <= offset,
        forall|p: int|
            pile <= p < tops@.len() ==> entries@[(#[trigger] tops@[p]) as int].offset > offset,
{
    let mut low: usize = 0;
    let mut high: usize = tops.len();
    while low < high
        invariant
            low <= high <= tops@.len(),
            forall|p: int| 0 <= p < tops@.len() ==> (#[trigger] tops@[p]) < entries@.len(),
            forall|p: int, q: int|
                0 <= p < q < tops@.len() ==> entries@[(#[trigger] tops@[p]) as int].offset
                    <= entries@[(#[trigger] tops@[q]) as int].offset,
            forall|p: int|
                0 <= p < low ==> entries@[(#[trigger] tops@[p]) as int].offset <= offset,
            forall|p: int|
                high <= p < tops@.len() ==> entries@[(#[trigger] tops@[p]) as int].offset > offset,
        decreases high - low,
    {
        let middle: usize = low + (high - low) / 2;
        assert(tops@[middle as int] < entries@.len());
        if entries[tops[middle]].offset <= offset {
            low = middle + 1;
        } else {
            high = middle;
        }
    }
    low
}

/// A longest part of the entries that is in the order of the text.
pub fn longest_monotonic_subsequence(entries: &[TocEntry]) -> (kept: Vec<TocEntry>)
    ensures
        toc_views(kept@) == monotonic(toc_views(entries@)),
{
    let ghost all = toc_views(entries@);
    let ghost n = all.len() as int;
    let mut tops: Vec<usize> = Vec::new();
    let mut predecessors: Vec<Option<usize>> = Vec::new();
    let mut i: usize = 0;
    while i < entries.len()
        invariant
            i <= entries.len(),
            all == toc_views(entries@),
            piles_hold(all, i as int, tops@, predecessors@),
        decreases entries.len() - i,
    {
        proof {
            assert forall|p: int| 0 <= p < tops@.len() implies entries@[(
            #[trigger] tops@[p]) as int].offset == all[tops@[p] as int].offset by {
                assert(tops@[p] < i);
            }
            assert(entries@[i as int].offset == all[i as int].offset);
        }
        let pile: usize = find_pile(entries, &tops, entries[i].offset);
        proof {
            lemma_next_pile(all, i as int, tops@, predecessors@, pile as int);
        }
        if pile > 0 {
            predecessors.push(Some(tops[pile - 1]));
        } else {
            predecessors.push(None);
        }
        if pile == tops.len() {
            tops.push(i);
        } else {
            tops.set(pile, i);
        }
        i += 1;
    }
    let mut reversed: Vec<usize> = Vec::new();
    let mut cursor: Option<usize> = if tops.len() == 0 {
        None
    } else {
        Some(tops[tops.len() - 1])
    };
    let ghost last = last_with(all, longest_run(all, n), n);
    proof {
        lemma_last_with(all, longest_run(all, n), n);
        if tops@.len() == 0 && last >= 0 {
            assert(run_length(all, last) <= tops@.len());
        }
        assert(picked(all, reversed@) =~= seq![]);
        assert(run_of(all, last) + picked(all, reversed@) =~= run_of(all, last));
    }
    while cursor.is_some()
        invariant
            all == toc_views(entries@),
            n == all.len(),
            last == last_with(all, longest_run(all, n), n),
            piles_hold(all, n, tops@, predecessors@),
            forall|k: int| 0 <= k < reversed@.len() ==> (#[trigger] reversed@[k]) < n,
            cursor matches Some(at) ==> at < n,
            ({
                let at = match cursor {
                    Some(index) => index as int,
                    None => -1,
                };
                run_of(all, at) + picked(all, reversed@) == run_of(all, last)
            }),
        decreases (match cursor {
            Some(index) => index + 1,
            None => 0,
        }),
    {
        let at: usize = cursor.unwrap();
        let ghost before = reversed@;
        reversed.push(at);
        proof {
            assert(predecessors@[at as int] == predecessors@[at as int]);
            lemma_last_with(all, run_length(all, at as int) - 1, at as int);
            let previous = last_with(all, run_length(all, at as int) - 1, at as int);
            assert(run_of(all, at as int) == run_of(all, previous).push(all[at as int]));
            assert(picked(all, reversed@) =~= seq![all[at as int]] + picked(all, before));
            assert(run_of(all, at as int) + picked(all, before) =~= run_of(all, previous) + picked(
                all,
                reversed@,
            ));
            if previous < 0 {
                assert(run_of(all, previous) =~= run_of(all, -1));
            }
        }
        cursor = predecessors[at];
    }
    proof {
        assert(run_of(all, -1) + picked(all, reversed@) =~= picked(all, reversed@));
    }
    let mut kept: Vec<TocEntry> = Vec::new();
    let mut k: usize = reversed.len();
    assert(toc_views(kept@) =~= seq![]);
    while k > 0
        invariant
            k <= reversed@.len(),
            all == toc_views(entries@),
            n == all.len(),
            forall|j: int| 0 <= j < reversed@.len() ==> (#[trigger] reversed@[j]) < n,
            toc_views(kept@) == picked(all, reversed@).take(reversed@.len() - k),
        decreases k,
    {
        k -= 1;
        let index: usize = reversed[k];
        assert(all[index as int] == entries@[index as int]@);
        let ghost before = kept@;
        kept.push(entries[index].clone());
        proof {
            assert(toc_views(kept@) =~= toc_views(before).push(all[index as int]));
            assert(picked(all, reversed@)[reversed@.len() - k - 1] == all[index as int]);
            assert(picked(all, reversed@).take(reversed@.len() - k) =~= picked(
                all,
                reversed@,
            ).take(reversed@.len() - k - 1).push(all[index as int]));
        }
    }
    assert(picked(all, reversed@).take(reversed@.len() as int) =~= picked(all, reversed@));
    kept
}

/// The entries at the given indices, from the last index to the first.
spec fn picked(entries: Seq<TocModel>, reversed: Seq<usize>) -> Seq<TocModel> {
    Seq::new(reversed.len(), |k: int| entries[reversed[reversed.len() - 1 - k] as int])
}

// ---------------------------------------------------------------------------------------
// Choosing a table of contents
// ---------------------------------------------------------------------------------------

/// The entries of which the place is known.
pub open spec fn resolved_entries(
    raw: Seq<RawModel>,
    book: AssembledModel,
    detected: Seq<TocModel>,
) -> Seq<TocModel>
    decreases raw.len(),
{
    if raw.len() == 0 {
        seq![]
    } else {
        let before = resolved_entries(raw.drop_last(), book, detected);
        match resolved_offset(raw.last(), book, detected) {
            Some(offset) => before.push(
                TocModel { label: raw.last().label, offset, depth: raw.last().depth },
            ),
            None => before,
        }
    }
}

/// A table of contents with the number of entries that it was made of.
#[verifier::ext_equal]
pub struct ResolvedModel {
    pub entries: Seq<TocModel>,
    pub raw_count: int,
}

/// The part of a table of contents that leads to places of the text, in their order.
pub open spec fn resolved(raw: Seq<RawModel>, book: AssembledModel) -> ResolvedModel {
    ResolvedModel {
        entries: merged_entries(
            monotonic(resolved_entries(raw, book, chapter_headings(book.text))),
        ),
        raw_count: raw.len() as int,
    }
}

pub struct ResolvedToc {
    pub entries: Vec<TocEntry>,
    pub raw_count: usize,
}

impl View for ResolvedToc {
    type V = ResolvedModel;

    open spec fn view(&self) -> ResolvedModel {
        ResolvedModel { entries: toc_views(self.entries@), raw_count: self.raw_count as int }
    }
}

/// The part of a table of contents that leads to places of the text.
pub fn resolve(raw: &[RawTocEntry], book: &AssembledDocument) -> (toc: ResolvedToc)
    ensures
        toc@ == resolved(raw_views(raw@), book@),
{
    let detected = detect_chapter_headings(book.text.as_str());
    let ghost all = raw_views(raw@);
    let ghost known = toc_views(detected@);
    let mut found: Vec<TocEntry> = Vec::new();
    let mut i: usize = 0;
    assert(toc_views(found@) =~= seq![]);
    while i < raw.len()
        invariant
            i <= raw.len(),
            all == raw_views(raw@),
            known == toc_views(detected@),
            toc_views(found@) == resolved_entries(all.take(i as int), book@, known),
        decreases raw.len() - i,
    {
        assert(all.take(i + 1).drop_last() =~= all.take(i as int));
        assert(all.take(i + 1).last() == raw@[i as int]@);
        if let Some(offset) = resolve_entry(&raw[i], book, &detected) {
            let ghost before = found@;
            let entry = TocEntry { label: raw[i].label.clone(), offset, depth: raw[i].depth };
            let ghost model = entry@;
            found.push(entry);
            assert(toc_views(found@) =~= toc_views(before).push(model));
        }
        i += 1;
    }
    assert(all.take(i as int) =~= all);
    let ordered = longest_monotonic_subsequence(&found);
    let entries = crate::document::merge_entries(ordered);
    ResolvedToc { entries, raw_count: raw.len() }
}

/// How many in a hundred of the entries of a table of contents are left.
pub open spec fn coverage(toc: ResolvedModel) -> int {
    crate::wrap::saturated(toc.entries.len() as int * 100) / (if toc.raw_count > 1 {
        toc.raw_count
    } else {
        1
    })
}

pub open spec fn nested_entries(entries: Seq<TocModel>) -> int
    decreases entries.len(),
{
    if entries.len() == 0 {
        0
    } else {
        nested_entries(entries.drop_last()) + if entries.last().depth > 0 {
            1int
        } else {
            0
        }
    }
}

/// The order of two tables of contents: usable ones, in which at least 70 in a hundred
/// entries are left, are better than others, then those with more entries, with more of
/// their entries left, and with more nested entries.
pub open spec fn quality_rank(left: ResolvedModel, right: ResolvedModel) -> Rank {
    let (a, b) = (coverage(left), coverage(right));
    if (a >= 70) != (b >= 70) {
        if a >= 70 {
            Rank::Greater
        } else {
            Rank::Less
        }
    } else if left.entries.len() != right.entries.len() {
        int_rank(left.entries.len() as int, right.entries.len() as int)
    } else if a != b {
        int_rank(a, b)
    } else {
        int_rank(nested_entries(left.entries), nested_entries(right.entries))
    }
}

fn coverage_of(toc: &ResolvedToc) -> (percent: usize)
    ensures
        percent == coverage(toc@),
{
    let length: usize = toc.entries.len();
    let hundred: usize = if length <= usize::MAX / 100 {
        length * 100
    } else {
        usize::MAX
    };
    let count: usize = if toc.raw_count > 1 {
        toc.raw_count
    } else {
        1
    };
    hundred / count
}

fn count_nested(entries: &[TocEntry]) -> (count: usize)
    ensures
        count == nested_entries(toc_views(entries@)),
{
    let ghost all = toc_views(entries@);
    let mut count: usize = 0;
    let mut i: usize = 0;
    while i < entries.len()
        invariant
            i <= entries.len(),
            count <= i,
            all == toc_views(entries@),
            count == nested_entries(all.take(i as int)),
        decreases entries.len() - i,
    {
        assert(all.take(i + 1).drop_last() =~= all.take(i as int));
        assert(all.take(i + 1).last() == entries@[i as int]@);
        if entries[i].depth > 0 {
            count += 1;
        }
        i += 1;
    }
    assert(all.take(i as int) =~= all);
    count
}

fn rank_quality(left: &ResolvedToc, right: &ResolvedToc) -> (result: Rank)
    ensures
        result == quality_rank(left@, right@),
{
    let a: usize = coverage_of(left);
    let b: usize = coverage_of(right);
    if (a >= 70) != (b >= 70) {
        return if a >= 70 {
            Rank::Greater
        } else {
            Rank::Less
        };
    }
    if left.entries.len() != right.entries.len() {
        return rank(left.entries.len(), right.entries.len());
    }
    if a != b {
        return rank(a, b);
    }
    rank(count_nested(&left.entries), count_nested(&right.entries))
}

/// The better one of two tables of contents; the second where they are equally good, and the
/// other where one is empty.
pub open spec fn best_of(first: ResolvedModel, second: ResolvedModel) -> Seq<TocModel> {
    if second.entries.len() == 0 {
        first.entries
    } else if first.entries.len() == 0 {
        second.entries
    } else if quality_rank(first, second) == Rank::Greater {
        first.entries
    } else {
        second.entries
    }
}

/// The better one of two tables of contents.
pub fn choose_best(first: ResolvedToc, second: ResolvedToc) -> (entries: Vec<TocEntry>)
    ensures
        toc_views(entries@) == best_of(first@, second@),
{
    if second.entries.len() == 0 {
        first.entries
    } else if first.entries.len() == 0 {
        second.entries
    } else if rank_quality(&first, &second) == Rank::Greater {
        first.entries
    } else {
        second.entries
    }
}

// ---------------------------------------------------------------------------------------
// Laws
// ---------------------------------------------------------------------------------------

/// Growing indices of entries whose offsets are in order.
pub open spec fn is_run(entries: Seq<TocModel>, indices: Seq<int>) -> bool {
    &&& forall|k: int| 0 <= k < indices.len() ==> 0 <= (#[trigger] indices[k]) < entries.len()
    &&& forall|k: int, m: int|
        0 <= k < m < indices.len() ==> (#[trigger] indices[k]) < (#[trigger] indices[m])
            && entries[indices[k]].offset <= entries[indices[m]].offset
}

proof fn lemma_run_of(entries: Seq<TocModel>, i: int)
    requires
        0 <= i < entries.len(),
    ensures
        run_of(entries, i).len() == run_length(entries, i),
        run_of(entries, i).last() == entries[i],
        in_order(run_of(entries, i)),
    decreases i + 1,
{
    let length = run_length(entries, i);
    let previous = last_with(entries, length - 1, i);
    lemma_last_with(entries, length - 1, i);
    lemma_best_run(entries, entries[i].offset, i);
    let best = best_run(entries, entries[i].offset, i);
    if best > 0 {
        let j = choose|j: int|
            0 <= j < i && entries[j].offset <= entries[i].offset && #[trigger] run_length(
                entries,
                j,
            ) == best;
        assert(previous >= j);
        lemma_run_of(entries, previous);
        lemma_later_is_less(entries, j, previous);
        let before = run_of(entries, previous);
        let all = run_of(entries, i);
        assert forall|a: int, b: int| 0 <= a < b < all.len() implies (#[trigger] all[a]).offset <= (
        #[trigger] all[b]).offset by {
            if b == before.len() {
                if a < before.len() - 1 {
                    assert(before[a].offset <= before[before.len() - 1].offset);
                }
            } else {
                assert(before[a].offset <= before[b].offset);
            }
        }
    } else {
        if previous >= 0 {
            lemma_best_run(entries, entries[previous].offset, previous);
            assert(run_length(entries, previous) >= 1);
        }
        assert(run_of(entries, -1) =~= seq![]);
    }
}

/// Of two entries with runs of the same length the later one has the smaller offset.
proof fn lemma_later_is_less(entries: Seq<TocModel>, i: int, j: int)
    requires
        0 <= i <= j < entries.len(),
        run_length(entries, i) == run_length(entries, j),
    ensures
        i < j ==> entries[j].offset < entries[i].offset,
{
    if i < j && entries[i].offset <= entries[j].offset {
        lemma_best_run(entries, entries[j].offset, j);
        assert(run_length(entries, i) <= best_run(entries, entries[j].offset, j));
    }
}

proof fn lemma_run_bounded(entries: Seq<TocModel>, indices: Seq<int>)
    requires
        is_run(entries, indices),
        indices.len() > 0,
    ensures
        indices.len() <= run_length(entries, indices.last()),
    decreases indices.len(),
{
    let last = indices.last();
    lemma_best_run(entries, entries[last].offset, last);
    if indices.len() > 1 {
        let t = indices.drop_last();
        assert forall|k: int, m: int| 0 <= k < m < t.len() implies (#[trigger] t[k]) < (
        #[trigger] t[m]) && entries[t[k]].offset <= entries[t[m]].offset by {
            assert(indices[k] < indices[m]);
        }
        assert(is_run(entries, t));
        lemma_run_bounded(entries, t);
        assert(indices[t.len() - 1] < indices[indices.len() - 1]);
        assert(run_length(entries, t.last()) <= best_run(entries, entries[last].offset, last));
    }
}

proof fn lemma_longest_run(entries: Seq<TocModel>, n: int)
    requires
        0 <= n <= entries.len(),
    ensures
        forall|j: int| 0 <= j < n ==> #[trigger] run_length(entries, j) <= longest_run(entries, n),
        n > 0 ==> last_with(entries, longest_run(entries, n), n) >= 0,
    decreases n,
{
    if n > 0 {
        lemma_longest_run(entries, n - 1);
        lemma_best_run(entries, entries[n - 1].offset, n - 1);
        assert(longest_run(entries, 0) == 0);
    }
}

/// What is kept of a table of contents is in the order of the text, and no other part of it
/// that is in that order is longer.
pub proof fn law_longest_part_in_order(entries: Seq<TocModel>, indices: Seq<int>)
    requires
        is_run(entries, indices),
    ensures
        in_order(monotonic(entries)),
        indices.len() <= monotonic(entries).len(),
{
    let n = entries.len() as int;
    if n > 0 {
        lemma_longest_run(entries, n);
        let last = last_with(entries, longest_run(entries, n), n);
        lemma_last_with(entries, longest_run(entries, n), n);
        lemma_run_of(entries, last);
        if indices.len() > 0 {
            lemma_run_bounded(entries, indices);
            assert(indices[indices.len() - 1] == indices.last());
        }
    } else {
        assert(monotonic(entries) =~= seq![]);
        if indices.len() > 0 {
            assert(indices[0] < entries.len());
        }
    }
}

} // verus!

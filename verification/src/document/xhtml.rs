//! Rendering the markup of a chapter as plain text with styles, headings and anchors.

use vstd::prelude::*;

use crate::buffer::{text_after, with_line_start, TextBuffer};
use crate::document::chapter::toc_views;
use crate::document::markup::{
    attribute, attribute_of, find_subtree_end, html_nodes, html_tree, node_views, subtree_end,
    xml_nodes, xml_tree, KindModel, MarkupKind, MarkupNode, NodeModel,
};
use crate::document::styled_text::{
    clipped_styles, entries_within, entry_views, lemma_clipped_styles, lemma_entries_within,
    place_entries, place_styles, span_views, PlacedEntry, StyleSpan,
};
use crate::document::{
    style_views, StyleModel, TextStyle, TextStyleKind, TocEntry, TocModel,
};
use crate::strings::{
    ascii_lower_all, count_leading, feed_lines, is_space, is_text, is_whitespace, leading_spaces,
    lower_all, trim_chars, trimmed, trimmed_end, with_line_feeds,
};
use crate::text::{
    byte_len, byte_length, chars_of, copy_range, index_at, lemma_boundary_index,
    lemma_byte_len_at_least_len, lemma_byte_len_concat, same_chars, string_of,
};

verus! {

/// Chapters with more nodes than this are not read as XML.
pub const XML_NODES_LIMIT: u32 = 1000000;

/// What has been rendered so far. Places are offsets in bytes.
#[verifier::ext_equal]
pub struct Sink {
    pub text: Seq<char>,
    pub styles: Seq<StyleModel>,
    pub headings: Seq<TocModel>,
    pub anchors: Seq<(Seq<char>, int)>,
    pub pending: bool,
}

/// Nothing.
pub open spec fn empty_sink() -> Sink {
    Sink { text: seq![], styles: seq![], headings: seq![], anchors: seq![], pending: false }
}

pub open spec fn is_blank_end(c: char) -> bool {
    c == '\n' || c == '\t' || c == ' '
}

/// The text, with a blank for the white space that was passed over, where one is wanted.
pub open spec fn spaced(sink: Sink) -> Seq<char> {
    if sink.pending && sink.text.len() > 0 && !is_blank_end(sink.text.last()) {
        sink.text.push(' ')
    } else {
        sink.text
    }
}

pub open spec fn with_char(sink: Sink, c: char) -> Sink {
    if is_space(c) {
        Sink { pending: true, ..sink }
    } else {
        Sink { text: spaced(sink).push(c), pending: false, ..sink }
    }
}

/// The text with every run of white space as one blank.
pub open spec fn with_chars(sink: Sink, value: Seq<char>) -> Sink
    decreases value.len(),
{
    if value.len() == 0 {
        sink
    } else {
        with_char(with_chars(sink, value.drop_last()), value.last())
    }
}

/// Text as it is within preformatted text, and otherwise with its white space made single.
pub open spec fn with_text(sink: Sink, preformatted: bool, value: Seq<char>) -> Sink {
    if preformatted {
        Sink { text: sink.text + with_line_feeds(value), ..sink }
    } else {
        with_chars(sink, value)
    }
}

pub open spec fn with_literal(sink: Sink, value: Seq<char>) -> Sink {
    Sink { text: spaced(sink) + value, pending: false, ..sink }
}

/// The text at the start of a line, after `count` line feeds where there is anything before.
pub open spec fn with_newlines(sink: Sink, count: int) -> Sink {
    Sink { text: with_line_start(sink.text, count), pending: false, ..sink }
}

pub open spec fn heading_level_of(name: Seq<char>) -> Option<u8> {
    if name == "h1"@ {
        Some(1)
    } else if name == "h2"@ {
        Some(2)
    } else if name == "h3"@ {
        Some(3)
    } else if name == "h4"@ {
        Some(4)
    } else if name == "h5"@ {
        Some(5)
    } else if name == "h6"@ {
        Some(6)
    } else {
        None
    }
}

/// The level of a heading.
pub fn heading_level(name: &[char]) -> (level: Option<u8>)
    ensures
        level == heading_level_of(name@),
{
    if is_text(name, "h1") {
        Some(1)
    } else if is_text(name, "h2") {
        Some(2)
    } else if is_text(name, "h3") {
        Some(3)
    } else if is_text(name, "h4") {
        Some(4)
    } else if is_text(name, "h5") {
        Some(5)
    } else if is_text(name, "h6") {
        Some(6)
    } else {
        None
    }
}

/// Elements of which nothing is shown.
pub open spec fn is_skipped(name: Seq<char>) -> bool {
    ||| name == "head"@
    ||| name == "script"@
    ||| name == "style"@
    ||| name == "noscript"@
    ||| name == "svg"@
    ||| name == "nav"@
}

/// Whether nothing of an element is shown.
pub fn skipped_element(name: &[char]) -> (skipped: bool)
    ensures
        skipped == is_skipped(name@),
{
    is_text(name, "head") || is_text(name, "script") || is_text(name, "style") || is_text(
        name,
        "noscript",
    ) || is_text(name, "svg") || is_text(name, "nav")
}

/// Elements that stand apart from what is before and after them.
pub open spec fn is_paragraph(name: Seq<char>) -> bool {
    ||| name == "p"@
    ||| name == "blockquote"@
    ||| name == "pre"@
    ||| name == "li"@
    ||| heading_level_of(name) is Some
}

fn paragraph_block(name: &[char]) -> (paragraph: bool)
    ensures
        paragraph == is_paragraph(name@),
{
    is_text(name, "p") || is_text(name, "blockquote") || is_text(name, "pre") || is_text(name, "li")
        || heading_level(name).is_some()
}

pub open spec fn has_anchor(anchors: Seq<(Seq<char>, int)>, name: Seq<char>) -> bool {
    exists|i: int| 0 <= i < anchors.len() && (#[trigger] anchors[i]).0 == name
}

/// An anchor at the end of the text, unless it has no name or was there before.
pub open spec fn with_anchor(sink: Sink, name: Option<Seq<char>>) -> Sink {
    match name {
        Some(text) => if text.len() > 0 && !has_anchor(sink.anchors, text) {
            Sink { anchors: sink.anchors.push((text, byte_len(sink.text) as int)), ..sink }
        } else {
            sink
        },
        None => sink,
    }
}

/// What stands before the content of an element.
pub open spec fn entered(
    sink: Sink,
    name: Seq<char>,
    attributes: Seq<(Seq<char>, Seq<char>, bool)>,
) -> Sink {
    let apart = if is_paragraph(name) {
        with_newlines(sink, 2)
    } else if name == "tr"@ {
        with_newlines(sink, 1)
    } else {
        sink
    };
    let marked = if name == "li"@ {
        with_literal(apart, "- "@)
    } else {
        apart
    };
    let named = with_anchor(marked, attribute_of(attributes, "id"@));
    if name == "a"@ {
        with_anchor(named, attribute_of(attributes, "name"@))
    } else {
        named
    }
}

pub open spec fn style_of(name: Seq<char>) -> Option<TextStyleKind> {
    if name == "em"@ || name == "i"@ {
        Some(TextStyleKind::Emphasis)
    } else if name == "strong"@ || name == "b"@ {
        Some(TextStyleKind::Strong)
    } else {
        match heading_level_of(name) {
            Some(level) => Some(TextStyleKind::Heading(level)),
            None => None,
        }
    }
}

/// The style and the heading of an element whose content began at the byte `start`.
pub open spec fn recorded(sink: Sink, name: Seq<char>, start: int) -> Sink {
    let end = byte_len(sink.text) as int;
    let rendered = text_after(sink.text, start);
    let styled = match style_of(name) {
        Some(kind) => if start < end {
            Sink { styles: sink.styles.push(StyleModel { start, end, kind }), ..sink }
        } else {
            sink
        },
        None => sink,
    };
    match heading_level_of(name) {
        Some(level) => if trimmed(rendered).len() > 0 {
            Sink {
                headings: styled.headings.push(
                    TocModel {
                        label: trimmed(rendered),
                        offset: start + byte_len(rendered.take(leading_spaces(rendered) as int)),
                        depth: level as int,
                    },
                ),
                ..styled
            }
        } else {
            styled
        },
        None => styled,
    }
}

/// What stands after the content of an element that began at the byte `start`.
pub open spec fn exited(sink: Sink, name: Seq<char>, start: int) -> Sink {
    let known = recorded(sink, name, start);
    let cell = if name == "td"@ || name == "th"@ {
        with_literal(known, "\t"@)
    } else {
        known
    };
    if is_paragraph(name) {
        with_newlines(cell, 2)
    } else if name == "tr"@ {
        with_newlines(cell, 1)
    } else {
        cell
    }
}

/// The name of an element, in lower case where the markup is XML.
pub open spec fn shown_name(name: Seq<char>, xml: bool) -> Seq<char> {
    if xml {
        ascii_lower_all(name)
    } else {
        name
    }
}

/// The node `i` and all below it, which end before the node `end`.
pub open spec fn render_node(
    nodes: Seq<NodeModel>,
    i: int,
    end: int,
    xml: bool,
    preformatted: bool,
    sink: Sink,
) -> Sink
    decreases end - i, 0int,
{
    if i < end {
        match nodes[i].kind {
            KindModel::Text(text) => with_text(sink, preformatted, text),
            KindModel::Element { name: own, attributes } => {
                let name = shown_name(own, xml);
                if is_skipped(name) {
                    sink
                } else if name == "br"@ {
                    with_newlines(sink, 1)
                } else if name == "img"@ {
                    with_literal(sink, "[Image]"@)
                } else {
                    let before = entered(sink, name, attributes);
                    let inside = render_nodes(
                        nodes,
                        i + 1,
                        end,
                        xml,
                        preformatted || name == "pre"@,
                        before,
                    );
                    exited(inside, name, byte_len(before.text) as int)
                }
            },
            KindModel::Other => render_nodes(nodes, i + 1, end, xml, preformatted, sink),
        }
    } else {
        sink
    }
}

/// The nodes from `i` to `end`, each with all below it.
pub open spec fn render_nodes(
    nodes: Seq<NodeModel>,
    i: int,
    end: int,
    xml: bool,
    preformatted: bool,
    sink: Sink,
) -> Sink
    decreases end - i, 1int,
{
    if 0 <= i < end <= nodes.len() {
        let next = subtree_end(nodes, i);
        if i < next <= end {
            render_nodes(
                nodes,
                next,
                end,
                xml,
                preformatted,
                render_node(nodes, i, next, xml, preformatted, sink),
            )
        } else {
            render_node(nodes, i, end, xml, preformatted, sink)
        }
    } else {
        sink
    }
}

/// What a chapter is: text, with styles, headings and anchors at its byte offsets.
#[verifier::ext_equal]
pub struct ContentModel {
    pub text: Seq<char>,
    pub styles: Seq<StyleModel>,
    pub headings: Seq<TocModel>,
    pub anchors: Seq<(Seq<char>, int)>,
}

/// Anchors that lie in the first `length` bytes or just after them.
pub open spec fn final_anchors(anchors: Seq<(Seq<char>, int)>, length: int) -> Seq<
    (Seq<char>, int),
>
    decreases anchors.len(),
{
    if anchors.len() == 0 {
        seq![]
    } else {
        let before = final_anchors(anchors.drop_last(), length);
        if anchors.last().1 <= length {
            before.push(anchors.last())
        } else {
            before
        }
    }
}

/// What is left of a sink at the end: without the white space at the end of its text.
pub open spec fn finished(sink: Sink) -> ContentModel {
    let s = trimmed_end(sink.text);
    ContentModel {
        text: s,
        styles: clipped_styles(sink.styles, byte_len(s) as int),
        headings: entries_within(sink.headings, byte_len(s) as int),
        anchors: final_anchors(sink.anchors, byte_len(s) as int),
    }
}

/// A tree of markup as plain text.
pub open spec fn rendered_tree(nodes: Seq<NodeModel>, xml: bool) -> ContentModel {
    finished(render_nodes(nodes, 0, nodes.len() as int, xml, false, empty_sink()))
}

/// A chapter as plain text. One that is well-formed XML is read as such.
pub open spec fn rendered(source: Seq<char>) -> ContentModel {
    match xml_tree(source, true, XML_NODES_LIMIT) {
        Ok(nodes) => rendered_tree(nodes, true),
        Err(_) => rendered_tree(html_tree(source), false),
    }
}

/// A rendered chapter. Headings are entries of a table of contents with their levels as depth.
pub struct RenderedContent {
    pub text: String,
    pub styles: Vec<TextStyle>,
    pub headings: Vec<TocEntry>,
    pub anchors: Vec<(String, usize)>,
}

pub open spec fn anchor_views(anchors: Seq<(String, usize)>) -> Seq<(Seq<char>, int)> {
    Seq::new(anchors.len(), |i: int| (anchors[i].0@, anchors[i].1 as int))
}

impl View for RenderedContent {
    type V = ContentModel;

    open spec fn view(&self) -> ContentModel {
        ContentModel {
            text: self.text@,
            styles: style_views(self.styles@),
            headings: toc_views(self.headings@),
            anchors: anchor_views(self.anchors@),
        }
    }
}

spec fn placed_views(anchors: Seq<(String, u128)>) -> Seq<(Seq<char>, int)> {
    Seq::new(anchors.len(), |i: int| (anchors[i].0@, anchors[i].1 as int))
}

/// The output of rendering while it is being made.
struct RenderSink {
    text: TextBuffer,
    styles: Vec<StyleSpan>,
    headings: Vec<PlacedEntry>,
    anchors: Vec<(String, u128)>,
    pending_space: bool,
}

impl View for RenderSink {
    type V = Sink;

    closed spec fn view(&self) -> Sink {
        Sink {
            text: self.text@,
            styles: span_views(self.styles@),
            headings: entry_views(self.headings@),
            anchors: placed_views(self.anchors@),
            pending: self.pending_space,
        }
    }
}

impl RenderSink {
    fn new() -> (sink: Self)
        ensures
            sink@ == empty_sink(),
    {
        let sink = RenderSink {
            text: TextBuffer::new(),
            styles: Vec::new(),
            headings: Vec::new(),
            anchors: Vec::new(),
            pending_space: false,
        };
        assert(sink@ =~= empty_sink());
        sink
    }

    fn push_space(&mut self)
        ensures
            final(self)@ == (Sink { text: spaced(old(self)@), pending: false, ..old(self)@ }),
    {
        if self.pending_space {
            if let Some(last) = self.text.last() {
                if last != '\n' && last != '\t' && last != ' ' {
                    self.text.push(' ');
                }
            }
        }
        self.pending_space = false;
    }

    fn push_text(&mut self, preformatted: bool, value: &str)
        ensures
            final(self)@ == with_text(old(self)@, preformatted, value@),
    {
        let characters = chars_of(value);
        if preformatted {
            let feeds = feed_lines(&characters);
            self.text.push_all(&feeds);
            return;
        }
        let mut i: usize = 0;
        while i < characters.len()
            invariant
                i <= characters.len(),
                characters@ == value@,
                self@ == with_chars(old(self)@, characters@.take(i as int)),
            decreases characters.len() - i,
        {
            let c = characters[i];
            assert(characters@.take(i + 1).drop_last() =~= characters@.take(i as int));
            if is_whitespace(c) {
                self.pending_space = true;
            } else {
                self.push_space();
                self.text.push(c);
            }
            i += 1;
        }
        assert(characters@.take(i as int) =~= characters@);
    }

    fn push_literal(&mut self, value: &str)
        ensures
            final(self)@ == with_literal(old(self)@, value@),
    {
        self.push_space();
        let characters = chars_of(value);
        self.text.push_all(&characters);
    }

    fn ensure_newlines(&mut self, count: usize)
        ensures
            final(self)@ == with_newlines(old(self)@, count as int),
    {
        self.pending_space = false;
        self.text.start_line(count);
    }

    fn add_anchor(&mut self, name: Option<&str>)
        ensures
            final(self)@ == with_anchor(
                old(self)@,
                crate::document::opt_str(name),
            ),
    {
        if let Some(text) = name {
            let characters = chars_of(text);
            if characters.len() == 0 {
                return;
            }
            let mut i: usize = 0;
            while i < self.anchors.len()
                invariant
                    i <= self.anchors.len(),
                    self@ == old(self)@,
                    characters@ == text@,
                    name matches Some(own) && own@ == text@,
                    forall|j: int|
                        0 <= j < i ==> (#[trigger] placed_views(self.anchors@)[j]).0 != text@,
                decreases self.anchors.len() - i,
            {
                let known = chars_of(self.anchors[i].0.as_str());
                if same_chars(&known, &characters) {
                    assert(placed_views(self.anchors@)[i as int].0 == text@);
                    return;
                }
                i += 1;
            }
            let ghost before = self.anchors@;
            let place: u128 = self.text.bytes();
            self.anchors.push((text.to_owned(), place));
            assert(placed_views(self.anchors@) =~= placed_views(before).push(
                (text@, place as int),
            ));
        }
    }

    /// What stands before the content of an element.
    fn enter_element(&mut self, name: &[char], node: &MarkupNode)
        requires
            node@.kind is Element,
        ensures
            final(self)@ == entered(old(self)@, name@, node@.kind->attributes),
    {
        if paragraph_block(name) {
            self.ensure_newlines(2);
        } else if is_text(name, "tr") {
            self.ensure_newlines(1);
        }
        if is_text(name, "li") {
            self.push_literal("- ");
        }
        self.add_anchor(attribute(node, "id"));
        if is_text(name, "a") {
            self.add_anchor(attribute(node, "name"));
        }
    }

    fn record(&mut self, name: &[char], start: u128)
        ensures
            final(self)@ == recorded(old(self)@, name@, start as int),
    {
        let end: u128 = self.text.bytes();
        let level = heading_level(name);
        let kind: Option<TextStyleKind> = if is_text(name, "em") || is_text(name, "i") {
            Some(TextStyleKind::Emphasis)
        } else if is_text(name, "strong") || is_text(name, "b") {
            Some(TextStyleKind::Strong)
        } else {
            match level {
                Some(depth) => Some(TextStyleKind::Heading(depth)),
                None => None,
            }
        };
        if let Some(kind) = kind {
            if start < end {
                let ghost before = self.styles@;
                self.styles.push(StyleSpan { start, end, kind });
                assert(span_views(self.styles@) =~= span_views(before).push(
                    StyleModel { start: start as int, end: end as int, kind },
                ));
            }
        }
        if let Some(depth) = level {
            let rendered = self.text.after(start);
            let label = trim_chars(&rendered);
            if label.len() > 0 {
                let lead: usize = count_leading(&rendered);
                let mut leading = TextBuffer::new();
                let blanks = copy_range(&rendered, 0, lead);
                leading.push_all(&blanks);
                assert(leading@ =~= rendered@.take(lead as int));
                proof {
                    lemma_heading_fits(self.text@, start as int, lead as int);
                }
                let offset: u128 = start + leading.bytes();
                let ghost before = self.headings@;
                let heading = PlacedEntry { label, offset, depth };
                let ghost model = heading@;
                self.headings.push(heading);
                assert(entry_views(self.headings@) =~= entry_views(before).push(model));
            }
        }
    }

    /// What stands after the content of an element.
    fn exit_element(&mut self, name: &[char], start: u128)
        ensures
            final(self)@ == exited(old(self)@, name@, start as int),
    {
        self.record(name, start);
        if is_text(name, "td") || is_text(name, "th") {
            self.push_literal("\t");
        }
        if paragraph_block(name) {
            self.ensure_newlines(2);
        } else if is_text(name, "tr") {
            self.ensure_newlines(1);
        }
    }

    fn finish(self) -> (content: RenderedContent)
        ensures
            content@ == finished(self@),
    {
        let RenderSink { text: buffer, styles: spans, headings: placed, anchors: named, .. } = self;
        let mut buffer = buffer;
        buffer.trim_end();
        let text = string_of(buffer.characters());
        let end: usize = byte_length(text.as_str());
        let styles = place_styles(&spans, end);
        let headings = place_entries(&placed, end);
        let mut anchors: Vec<(String, usize)> = Vec::new();
        let ghost all_anchors = placed_views(named@);
        let mut i: usize = 0;
        assert(anchor_views(anchors@) =~= seq![]);
        while i < named.len()
            invariant
                i <= named.len(),
                all_anchors == placed_views(named@),
                anchor_views(anchors@) == final_anchors(all_anchors.take(i as int), end as int),
            decreases named.len() - i,
        {
            let at: u128 = named[i].1;
            assert(all_anchors.take(i + 1).drop_last() =~= all_anchors.take(i as int));
            assert(all_anchors.take(i + 1).last() == all_anchors[i as int]);
            if at <= end as u128 {
                let ghost before = anchors@;
                anchors.push((named[i].0.clone(), at as usize));
                assert(anchor_views(anchors@) =~= anchor_views(before).push(
                    (all_anchors[i as int].0, at as int),
                ));
            }
            i += 1;
        }
        assert(all_anchors.take(i as int) =~= all_anchors);
        RenderedContent { text, styles, headings, anchors }
    }
}

/// The text before a heading and the white space at its start are no longer than the text.
proof fn lemma_heading_fits(s: Seq<char>, start: int, lead: int)
    requires
        0 <= lead <= text_after(s, start).len(),
        text_after(s, start).len() > 0,
    ensures
        start + byte_len(text_after(s, start).take(lead)) <= byte_len(s),
        byte_len(s) <= 4 * s.len(),
{
    lemma_boundary_index(s, start);
    lemma_byte_len_at_least_len(s);
    let k = index_at(s, start);
    assert(s.skip(k).take(lead) =~= s.subrange(k, k + lead));
    lemma_byte_len_concat(s.take(k), s.subrange(k, k + lead));
    assert(s.take(k) + s.subrange(k, k + lead) =~= s.take(k + lead));
    lemma_byte_len_concat(s.take(k + lead), s.skip(k + lead));
    assert(s.take(k + lead) + s.skip(k + lead) =~= s);
}

/// Renders the nodes from `start` to `end`.
fn walk(
    nodes: &[MarkupNode],
    start: usize,
    end: usize,
    xml: bool,
    preformatted: bool,
    sink: &mut RenderSink,
)
    requires
        end <= nodes@.len(),
    ensures
        final(sink)@ == render_nodes(
            node_views(nodes@),
            start as int,
            end as int,
            xml,
            preformatted,
            old(sink)@,
        ),
    decreases end - start, 1int,
{
    let ghost all = node_views(nodes@);
    let mut i: usize = start;
    while i < end
        invariant
            end <= nodes@.len(),
            start <= i,
            all == node_views(nodes@),
            render_nodes(all, start as int, end as int, xml, preformatted, old(sink)@)
                == render_nodes(all, i as int, end as int, xml, preformatted, sink@),
        decreases end - i,
    {
        let subtree: usize = find_subtree_end(nodes, i);
        let next: usize = if subtree <= end {
            subtree
        } else {
            end
        };
        let ghost before = sink@;
        walk_node(nodes, i, next, xml, preformatted, sink);
        proof {
            if subtree > end {
                assert(render_nodes(all, end as int, end as int, xml, preformatted, sink@)
                    == sink@);
            }
        }
        i = next;
    }
}

fn walk_node(
    nodes: &[MarkupNode],
    i: usize,
    end: usize,
    xml: bool,
    preformatted: bool,
    sink: &mut RenderSink,
)
    requires
        i < end <= nodes@.len(),
    ensures
        final(sink)@ == render_node(
            node_views(nodes@),
            i as int,
            end as int,
            xml,
            preformatted,
            old(sink)@,
        ),
    decreases end - i, 0int,
{
    let node = &nodes[i];
    assert(node_views(nodes@)[i as int] == node@);
    match &node.kind {
        MarkupKind::Text(text) => {
            sink.push_text(preformatted, text.as_str());
        },
        MarkupKind::Element { name: own, .. } => {
            let characters = chars_of(own.as_str());
            let name = if xml {
                lower_all(&characters)
            } else {
                characters
            };
            if skipped_element(&name) {
                return;
            }
            if is_text(&name, "br") {
                sink.ensure_newlines(1);
                return;
            }
            if is_text(&name, "img") {
                sink.push_literal("[Image]");
                return;
            }
            sink.enter_element(&name, node);
            let start: u128 = sink.text.bytes();
            walk(nodes, i + 1, end, xml, preformatted || is_text(&name, "pre"), sink);
            sink.exit_element(&name, start);
        },
        MarkupKind::Other => {
            walk(nodes, i + 1, end, xml, preformatted, sink);
        },
    }
}

/// Renders a tree of markup.
pub fn render_tree(nodes: &[MarkupNode], xml: bool) -> (content: RenderedContent)
    ensures
        content@ == rendered_tree(node_views(nodes@), xml),
{
    let mut sink = RenderSink::new();
    walk(nodes, 0, nodes.len(), xml, false, &mut sink);
    sink.finish()
}

/// Renders a chapter.
pub fn render(source: &str) -> (content: RenderedContent)
    ensures
        content@ == rendered(source@),
{
    match xml_nodes(source, true, XML_NODES_LIMIT) {
        Ok(nodes) => render_tree(&nodes, true),
        Err(_) => {
            let nodes = html_nodes(source);
            render_tree(&nodes, false)
        },
    }
}

proof fn lemma_final_anchors(anchors: Seq<(Seq<char>, int)>, length: int)
    requires
        forall|i: int| 0 <= i < anchors.len() ==> 0 <= (#[trigger] anchors[i]).1,
    ensures
        forall|i: int|
            0 <= i < final_anchors(anchors, length).len() ==> 0 <= (#[trigger] final_anchors(
                anchors,
                length,
            )[i]).1 <= length,
    decreases anchors.len(),
{
    if anchors.len() > 0 {
        lemma_final_anchors(anchors.drop_last(), length);
        let before = final_anchors(anchors.drop_last(), length);
        let all = final_anchors(anchors, length);
        assert(anchors.last() == anchors[anchors.len() - 1]);
        assert forall|i: int| 0 <= i < all.len() implies 0 <= (#[trigger] all[i]).1 <= length by {
            if i < before.len() {
                assert(all[i] == before[i]);
            }
        }
    }
}

/// The places of a sink are not negative.
spec fn places_valid(sink: Sink) -> bool {
    &&& forall|i: int| 0 <= i < sink.styles.len() ==> 0 <= (#[trigger] sink.styles[i]).start
    &&& forall|i: int| 0 <= i < sink.headings.len() ==> 0 <= (#[trigger] sink.headings[i]).offset
    &&& forall|i: int| 0 <= i < sink.anchors.len() ==> 0 <= (#[trigger] sink.anchors[i]).1
}

proof fn lemma_with_chars_places(sink: Sink, value: Seq<char>)
    ensures
        with_chars(sink, value).styles == sink.styles,
        with_chars(sink, value).headings == sink.headings,
        with_chars(sink, value).anchors == sink.anchors,
    decreases value.len(),
{
    if value.len() > 0 {
        lemma_with_chars_places(sink, value.drop_last());
    }
}

proof fn lemma_anchor_places(sink: Sink, name: Option<Seq<char>>)
    requires
        places_valid(sink),
    ensures
        places_valid(with_anchor(sink, name)),
{
}

proof fn lemma_entered_places(
    sink: Sink,
    name: Seq<char>,
    attributes: Seq<(Seq<char>, Seq<char>, bool)>,
)
    requires
        places_valid(sink),
    ensures
        places_valid(entered(sink, name, attributes)),
{
    let apart = if is_paragraph(name) {
        with_newlines(sink, 2)
    } else if name == "tr"@ {
        with_newlines(sink, 1)
    } else {
        sink
    };
    let marked = if name == "li"@ {
        with_literal(apart, "- "@)
    } else {
        apart
    };
    lemma_anchor_places(marked, attribute_of(attributes, "id"@));
    let named = with_anchor(marked, attribute_of(attributes, "id"@));
    lemma_anchor_places(named, attribute_of(attributes, "name"@));
}

proof fn lemma_exited_places(sink: Sink, name: Seq<char>, start: int)
    requires
        places_valid(sink),
        0 <= start,
    ensures
        places_valid(exited(sink, name, start)),
{
    let known = recorded(sink, name, start);
    assert(places_valid(known));
}

proof fn lemma_render_node_places(
    nodes: Seq<NodeModel>,
    i: int,
    end: int,
    xml: bool,
    preformatted: bool,
    sink: Sink,
)
    requires
        places_valid(sink),
    ensures
        places_valid(render_node(nodes, i, end, xml, preformatted, sink)),
    decreases end - i, 0int,
{
    if i < end {
        match nodes[i].kind {
            KindModel::Text(text) => {
                lemma_with_chars_places(sink, text);
            },
            KindModel::Element { name: own, attributes } => {
                let name = shown_name(own, xml);
                if !is_skipped(name) && name != "br"@ && name != "img"@ {
                    let before = entered(sink, name, attributes);
                    let inner = preformatted || name == "pre"@;
                    lemma_entered_places(sink, name, attributes);
                    lemma_render_places(nodes, i + 1, end, xml, inner, before);
                    lemma_exited_places(
                        render_nodes(nodes, i + 1, end, xml, inner, before),
                        name,
                        byte_len(before.text) as int,
                    );
                }
            },
            KindModel::Other => {
                lemma_render_places(nodes, i + 1, end, xml, preformatted, sink);
            },
        }
    }
}

proof fn lemma_render_places(
    nodes: Seq<NodeModel>,
    i: int,
    end: int,
    xml: bool,
    preformatted: bool,
    sink: Sink,
)
    requires
        places_valid(sink),
    ensures
        places_valid(render_nodes(nodes, i, end, xml, preformatted, sink)),
    decreases end - i, 1int,
{
    if 0 <= i < end <= nodes.len() {
        let next = subtree_end(nodes, i);
        if i < next <= end {
            lemma_render_node_places(nodes, i, next, xml, preformatted, sink);
            lemma_render_places(
                nodes,
                next,
                end,
                xml,
                preformatted,
                render_node(nodes, i, next, xml, preformatted, sink),
            );
        } else {
            lemma_render_node_places(nodes, i, end, xml, preformatted, sink);
        }
    }
}

/// All places of a rendered tree lie in its text.
pub proof fn lemma_rendered_tree_fits(nodes: Seq<NodeModel>, xml: bool)
    ensures
        content_fits(rendered_tree(nodes, xml)),
{
    let sink = render_nodes(nodes, 0, nodes.len() as int, xml, false, empty_sink());
    lemma_render_places(nodes, 0, nodes.len() as int, xml, false, empty_sink());
    let s = trimmed_end(sink.text);
    lemma_clipped_styles(sink.styles, byte_len(s) as int);
    lemma_entries_within(sink.headings, byte_len(s) as int);
    lemma_final_anchors(sink.anchors, byte_len(s) as int);
}

/// All places of a rendered chapter lie in its text.
pub proof fn lemma_rendered_fits(source: Seq<char>)
    ensures
        content_fits(rendered(source)),
{
    match xml_tree(source, true, XML_NODES_LIMIT) {
        Ok(nodes) => {
            lemma_rendered_tree_fits(nodes, true);
        },
        Err(_) => {
            lemma_rendered_tree_fits(html_tree(source), false);
        },
    }
}

/// All places of a rendered chapter lie in its text.
pub open spec fn content_fits(content: ContentModel) -> bool {
    let end = byte_len(content.text);
    &&& forall|i: int|
        0 <= i < content.styles.len() ==> 0 <= (#[trigger] content.styles[i]).start
            <= content.styles[i].end <= end
    &&& forall|i: int|
        0 <= i < content.headings.len() ==> 0 <= (#[trigger] content.headings[i]).offset <= end
    &&& forall|i: int|
        0 <= i < content.anchors.len() ==> 0 <= (#[trigger] content.anchors[i]).1 <= end
}

} // verus!

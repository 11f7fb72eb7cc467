//! The text that a piece of HTML shows.
use scraper::{Html, Node};
use vstd::prelude::*;

use crate::document::markup::{
    find_subtree_end, node_views, subtree_end, KindModel, MarkupKind, MarkupNode, NodeModel,
};
use crate::document::styled_text::ends_with_space;
use crate::strings::{
    collapse_chars, collapsed, is_text, is_whitespace, join, join_parts, lemma_texts_push, lines,
    lines_of, texts,
};
use crate::text::{chars_of, push_all};

verus! {

/// The tree of a piece of HTML.
pub uninterp spec fn html_fragment(source: Seq<char>) -> Seq<NodeModel>;

/// Parses with `scraper::Html::parse_fragment` and lists the root of its tree with its
/// descendants and the number of the ancestors of each; an attribute is found by its bare
/// name where it has no namespace.
#[verifier::external_body]
pub(crate) fn html_fragment_of(source: &str) -> (nodes: Vec<MarkupNode>)
    ensures
        node_views(nodes@) == html_fragment(source@),
{
    Html::parse_fragment(source).tree.root().descendants().map(|node| MarkupNode {
        depth: node.ancestors().count(),
        kind: match node.value() {
            Node::Text(text) => MarkupKind::Text(text.text.to_string()),
            Node::Element(element) => MarkupKind::Element {
                name: element.name().to_owned(),
                attributes: element.attrs.iter().map(|(name, value)| (name.local.to_string(), value.to_string(), name.ns.is_empty())).collect(),
            },
            _ => MarkupKind::Other,
        },
    }).collect()
}

/// Elements of which nothing is shown.
pub open spec fn is_invisible(name: Seq<char>) -> bool {
    ||| name == "head"@
    ||| name == "script"@
    ||| name == "style"@
    ||| name == "noscript"@
    ||| name == "svg"@
}

fn invisible(name: &[char]) -> (result: bool)
    ensures
        result == is_invisible(name@),
{
    is_text(name, "head") || is_text(name, "script") || is_text(name, "style") || is_text(
        name,
        "noscript",
    ) || is_text(name, "svg")
}

/// Elements that stand on lines of their own.
pub open spec fn is_block(name: Seq<char>) -> bool {
    ||| name == "address"@
    ||| name == "article"@
    ||| name == "aside"@
    ||| name == "blockquote"@
    ||| name == "div"@
    ||| name == "footer"@
    ||| name == "header"@
    ||| name == "li"@
    ||| name == "main"@
    ||| name == "p"@
    ||| name == "section"@
}

fn block(name: &[char]) -> (result: bool)
    ensures
        result == is_block(name@),
{
    is_text(name, "address") || is_text(name, "article") || is_text(name, "aside") || is_text(
        name,
        "blockquote",
    ) || is_text(name, "div") || is_text(name, "footer") || is_text(name, "header") || is_text(
        name,
        "li",
    ) || is_text(name, "main") || is_text(name, "p") || is_text(name, "section")
}

/// The text at the start of a line, if it is not after white space already.
pub open spec fn on_new_line(s: Seq<char>) -> Seq<char> {
    if ends_with_space(s) {
        s
    } else {
        s.push('\n')
    }
}

/// The node `i` and all below it, which end before the node `end`.
pub open spec fn shown_node(nodes: Seq<NodeModel>, i: int, end: int, s: Seq<char>) -> Seq<char>
    decreases end - i, 0int,
{
    if i < end {
        match nodes[i].kind {
            KindModel::Text(text) => s + text,
            KindModel::Element { name, .. } => if is_invisible(name) {
                s
            } else if name == "br"@ {
                s.push('\n')
            } else if is_block(name) {
                on_new_line(shown_nodes(nodes, i + 1, end, on_new_line(s)))
            } else {
                shown_nodes(nodes, i + 1, end, s)
            },
            KindModel::Other => shown_nodes(nodes, i + 1, end, s),
        }
    } else {
        s
    }
}

/// The nodes from `i` to `end`, each with all below it.
pub open spec fn shown_nodes(nodes: Seq<NodeModel>, i: int, end: int, s: Seq<char>) -> Seq<char>
    decreases end - i, 1int,
{
    if 0 <= i < end <= nodes.len() {
        let next = subtree_end(nodes, i);
        if i < next <= end {
            shown_nodes(nodes, next, end, shown_node(nodes, i, next, s))
        } else {
            shown_node(nodes, i, end, s)
        }
    } else {
        s
    }
}

/// The lines that show anything, with single blanks.
pub open spec fn shown_lines(parts: Seq<Seq<char>>) -> Seq<Seq<char>>
    decreases parts.len(),
{
    if parts.len() == 0 {
        seq![]
    } else {
        let before = shown_lines(parts.drop_last());
        if collapsed(parts.last()).len() == 0 {
            before
        } else {
            before.push(collapsed(parts.last()))
        }
    }
}

/// The text that a tree of HTML shows: its lines as paragraphs.
pub open spec fn shown_text(nodes: Seq<NodeModel>) -> Seq<char> {
    join(
        shown_lines(lines(shown_nodes(nodes, 0, nodes.len() as int, seq![]))),
        "\n\n"@,
    )
}

fn break_line(output: &mut Vec<char>)
    ensures
        final(output)@ == on_new_line(old(output)@),
{
    if output.len() == 0 || !is_whitespace(output[output.len() - 1]) {
        output.push('\n');
    }
}

fn walk(nodes: &[MarkupNode], start: usize, end: usize, output: &mut Vec<char>)
    requires
        end <= nodes@.len(),
    ensures
        final(output)@ == shown_nodes(
            node_views(nodes@),
            start as int,
            end as int,
            old(output)@,
        ),
    decreases end - start, 1int,
{
    let ghost all = node_views(nodes@);
    let mut i: usize = start;
    while i < end
        invariant
            end <= nodes@.len(),
            start <= i,
            all == node_views(nodes@),
            shown_nodes(all, start as int, end as int, old(output)@) == shown_nodes(
                all,
                i as int,
                end as int,
                output@,
            ),
        decreases end - i,
    {
        let subtree: usize = find_subtree_end(nodes, i);
        let next: usize = if subtree <= end {
            subtree
        } else {
            end
        };
        walk_node(nodes, i, next, output);
        proof {
            if subtree > end {
                assert(shown_nodes(all, end as int, end as int, output@) == output@);
            }
        }
        i = next;
    }
}

fn walk_node(nodes: &[MarkupNode], i: usize, end: usize, output: &mut Vec<char>)
    requires
        i < end <= nodes@.len(),
    ensures
        final(output)@ == shown_node(node_views(nodes@), i as int, end as int, old(output)@),
    decreases end - i, 0int,
{
    let node = &nodes[i];
    assert(node_views(nodes@)[i as int] == node@);
    match &node.kind {
        MarkupKind::Text(text) => {
            let characters = chars_of(text.as_str());
            push_all(output, &characters);
        },
        MarkupKind::Element { name: own, .. } => {
            let name = chars_of(own.as_str());
            if invisible(&name) {
                return;
            }
            if is_text(&name, "br") {
                output.push('\n');
                return;
            }
            let apart = block(&name);
            if apart {
                break_line(output);
            }
            walk(nodes, i + 1, end, output);
            if apart {
                break_line(output);
            }
        },
        MarkupKind::Other => {
            walk(nodes, i + 1, end, output);
        },
    }
}

/// The text that a tree of HTML shows.
pub fn text_shown(nodes: &[MarkupNode]) -> (text: Vec<char>)
    ensures
        text@ == shown_text(node_views(nodes@)),
{
    let mut output: Vec<char> = Vec::new();
    walk(nodes, 0, nodes.len(), &mut output);
    let parts = lines_of(&output);
    let ghost all = texts(parts@);
    let mut kept: Vec<Vec<char>> = Vec::new();
    let mut i: usize = 0;
    assert(texts(kept@) =~= seq![]);
    while i < parts.len()
        invariant
            i <= parts.len(),
            all == texts(parts@),
            texts(kept@) == shown_lines(all.take(i as int)),
        decreases parts.len() - i,
    {
        assert(all.take(i + 1).drop_last() =~= all.take(i as int));
        assert(all.take(i + 1).last() == parts@[i as int]@);
        let line = collapse_chars(&parts[i]);
        if line.len() > 0 {
            proof {
                lemma_texts_push(kept@, line);
            }
            kept.push(line);
        }
        i += 1;
    }
    assert(all.take(i as int) =~= all);
    let separator = chars_of("\n\n");
    join_parts(&kept, &separator)
}

/// The text that a piece of HTML shows.
pub fn visible_html_text(source: &str) -> (text: Vec<char>)
    ensures
        text@ == shown_text(html_fragment(source@)),
{
    let nodes = html_fragment_of(source);
    text_shown(&nodes)
}

/// Elements that begin and end a line.
pub open spec fn block_names() -> Seq<Seq<char>> {
    seq![
        "address"@,
        "article"@,
        "aside"@,
        "blockquote"@,
        "div"@,
        "footer"@,
        "header"@,
        "li"@,
        "main"@,
        "p"@,
        "section"@,
    ]
}

proof fn lemma_block_names(name: Seq<char>)
    requires
        block_names().contains(name),
    ensures
        is_block(name),
        !is_invisible(name),
        name != "br"@,
{
    let k = choose|k: int| 0 <= k < block_names().len() && block_names()[k] == name;
    assert(is_block(name));
    reveal_strlit("head");
    reveal_strlit("script");
    reveal_strlit("style");
    reveal_strlit("noscript");
    reveal_strlit("svg");
    reveal_strlit("br");
    reveal_strlit("address");
    reveal_strlit("article");
    reveal_strlit("aside");
    reveal_strlit("blockquote");
    reveal_strlit("div");
    reveal_strlit("footer");
    reveal_strlit("header");
    reveal_strlit("li");
    reveal_strlit("main");
    reveal_strlit("p");
    reveal_strlit("section");
    assert("head"@.len() == 4 && "script"@.len() == 6 && "style"@.len() == 5);
    assert("noscript"@.len() == 8 && "svg"@.len() == 3 && "br"@.len() == 2);
    assert("address"@.len() == 7 && "article"@.len() == 7 && "aside"@.len() == 5);
    assert("blockquote"@.len() == 10 && "div"@.len() == 3 && "footer"@.len() == 6);
    assert("header"@.len() == 6 && "li"@.len() == 2 && "main"@.len() == 4);
    assert("p"@.len() == 1 && "section"@.len() == 7);
    assert("main"@[0] == 'm' && "head"@[0] == 'h');
    assert("li"@[0] == 'l' && "br"@[0] == 'b');
    assert("div"@[0] == 'd' && "svg"@[0] == 's');
    assert("aside"@[0] == 'a' && "style"@[0] == 's');
    assert("footer"@[0] == 'f' && "header"@[0] == 'h' && "script"@[0] == 's');
}

/// The text in an element is shown: of a block on lines of its own, of any other element where
/// it stands. A break is a line feed, and of a script or the like nothing is shown.
pub proof fn law_text_of_elements(
    nodes: Seq<NodeModel>,
    i: int,
    name: Seq<char>,
    attributes: Seq<(Seq<char>, Seq<char>, bool)>,
    w: Seq<char>,
    s: Seq<char>,
)
    requires
        0 <= i && i + 2 <= nodes.len(),
        nodes[i].kind == (KindModel::Element { name, attributes }),
        nodes[i + 1].kind == KindModel::Text(w),
        nodes[i].depth < nodes[i + 1].depth,
        s.len() > 0 && !ends_with_space(s),
        w.len() > 0 && !ends_with_space(w),
    ensures
        ({
            let shown = shown_node(nodes, i, i + 2, s);
            &&& block_names().contains(name) ==> shown == s + seq!['\n'] + w + seq!['\n']
            &&& name == "br"@ ==> shown == s + seq!['\n']
            &&& name == "script"@ || name == "style"@ || name == "head"@ || name == "noscript"@
                || name == "svg"@ ==> shown == s
            &&& !is_block(name) && !is_invisible(name) && name != "br"@ ==> shown == s + w
        }),
{
    let begun = s.push('\n');
    assert(subtree_end(nodes, i + 1) >= i + 2) by {
        crate::document::xhtml_laws::lemma_end_from(nodes, nodes[i + 1].depth, i + 2);
    }
    assert(shown_node(nodes, i + 1, i + 2, begun) == begun + w);
    assert(shown_nodes(nodes, i + 2, i + 2, begun + w) == begun + w);
    assert(shown_nodes(nodes, i + 1, i + 2, begun) == begun + w);
    assert(shown_node(nodes, i + 1, i + 2, s) == s + w);
    assert(shown_nodes(nodes, i + 2, i + 2, s + w) == s + w);
    assert(shown_nodes(nodes, i + 1, i + 2, s) == s + w);
    if block_names().contains(name) {
        lemma_block_names(name);
        assert((begun + w).last() == w.last());
        assert((begun + w).push('\n') =~= s + seq!['\n'] + w + seq!['\n']);
    }
    if name == "br"@ {
        lemma_break_is_shown();
        assert(s.push('\n') =~= s + seq!['\n']);
    }
}

proof fn lemma_break_is_shown()
    ensures
        !is_invisible("br"@),
{
    reveal_strlit("br");
    reveal_strlit("head");
    reveal_strlit("script");
    reveal_strlit("style");
    reveal_strlit("noscript");
    reveal_strlit("svg");
    assert("head"@.len() == 4 && "script"@.len() == 6 && "style"@.len() == 5);
    assert("noscript"@.len() == 8 && "svg"@.len() == 3 && "br"@.len() == 2);
}

} // verus!

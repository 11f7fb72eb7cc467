//! Trees of markup, in the order of the document.
use roxmltree::{Document, NodeType, ParsingOptions};
use scraper::{Html, Node};
use vstd::prelude::*;

use crate::document::opt_str;
use crate::text::{chars_of, push_all, same_text};

verus! {

/// What a node of a tree of markup is. An attribute is its local name, its value, and whether
/// it is found by its bare name.
pub enum MarkupKind {
    Text(String),
    Element { name: String, attributes: Vec<(String, String, bool)> },
    Other,
}

/// A node with its distance from the root. A node is followed by those below it.
pub struct MarkupNode {
    pub depth: usize,
    pub kind: MarkupKind,
}

pub enum KindModel {
    Text(Seq<char>),
    Element { name: Seq<char>, attributes: Seq<(Seq<char>, Seq<char>, bool)> },
    Other,
}

/// A node, as a value of the mathematical model.
#[verifier::ext_equal]
pub struct NodeModel {
    pub depth: int,
    pub kind: KindModel,
}

pub open spec fn attribute_views(attributes: Seq<(String, String, bool)>) -> Seq<
    (Seq<char>, Seq<char>, bool),
> {
    Seq::new(
        attributes.len(),
        |i: int| (attributes[i].0@, attributes[i].1@, attributes[i].2),
    )
}

impl View for MarkupKind {
    type V = KindModel;

    open spec fn view(&self) -> KindModel {
        match self {
            MarkupKind::Text(text) => KindModel::Text(text@),
            MarkupKind::Element { name, attributes } => KindModel::Element {
                name: name@,
                attributes: attribute_views(attributes@),
            },
            MarkupKind::Other => KindModel::Other,
        }
    }
}

impl View for MarkupNode {
    type V = NodeModel;

    open spec fn view(&self) -> NodeModel {
        NodeModel { depth: self.depth as int, kind: self.kind@ }
    }
}

pub open spec fn node_views(nodes: Seq<MarkupNode>) -> Seq<NodeModel> {
    Seq::new(nodes.len(), |i: int| nodes[i]@)
}

/// The tree of an XML document, or why it is none.
pub uninterp spec fn xml_tree(source: Seq<char>, allow_dtd: bool, nodes_limit: u32) -> Result<
    Seq<NodeModel>,
    Seq<char>,
>;

/// Parses with `roxmltree::Document::parse_with_options`, without external entities, and lists
/// `Document::descendants` with the number of the ancestors of each node; attributes are
/// found by their local names. A refusal becomes its message.
#[verifier::external_body]
pub(crate) fn xml_nodes(source: &str, allow_dtd: bool, nodes_limit: u32) -> (tree: Result<
    Vec<MarkupNode>,
    String,
>)
    ensures
        match tree {
            Ok(nodes) => xml_tree(source@, allow_dtd, nodes_limit) == Ok::<
                Seq<NodeModel>,
                Seq<char>,
            >(node_views(nodes@)),
            Err(message) => xml_tree(source@, allow_dtd, nodes_limit) == Err::<
                Seq<NodeModel>,
                Seq<char>,
            >(message@),
        },
{
    let options = ParsingOptions { allow_dtd, nodes_limit, entity_resolver: None };
    let document = Document::parse_with_options(source, options).map_err(|e| e.to_string())?;
    Ok(document.descendants().map(|node| MarkupNode {
        depth: node.ancestors().skip(1).count(),
        kind: match node.node_type() {
            NodeType::Text => MarkupKind::Text(node.text().unwrap_or_default().to_owned()),
            NodeType::Element => MarkupKind::Element {
                name: node.tag_name().name().to_owned(),
                attributes: node.attributes().map(|a| (a.name().to_owned(), a.value().to_owned(), true)).collect(),
            },
            _ => MarkupKind::Other,
        },
    }).collect())
}

/// The tree of an HTML document.
pub uninterp spec fn html_tree(source: Seq<char>) -> Seq<NodeModel>;

/// Parses with `scraper::Html::parse_document` and lists the root of its tree with its
/// descendants and the number of the ancestors of each; an attribute is found by its bare
/// name where it has no namespace.
#[verifier::external_body]
pub(crate) fn html_nodes(source: &str) -> (nodes: Vec<MarkupNode>)
    ensures
        node_views(nodes@) == html_tree(source@),
{
    Html::parse_document(source).tree.root().descendants().map(|node| MarkupNode {
        depth: node.ancestors().count(),
        kind: match node.value() {
            Node::Text(text) => MarkupKind::Text(text.text.to_string()),
            Node::Element(element) => MarkupKind::Element {
                name: element.name().to_owned(),
                attributes: element.attrs.iter().map(|(name, value)| (name.local.to_string(), value.to_string(), name.ns.is_empty())).collect(),
            },
            _ => MarkupKind::Other,
        },
    }).collect()
}

// ---------------------------------------------------------------------------------------
// Walking a tree
// ---------------------------------------------------------------------------------------

/// The first node from `j` on that is not deeper than `depth`, or the number of nodes.
pub open spec fn end_from(nodes: Seq<NodeModel>, depth: int, j: int) -> int
    decreases nodes.len() - j,
{
    if j >= nodes.len() || nodes[j].depth <= depth {
        j
    } else {
        end_from(nodes, depth, j + 1)
    }
}

/// The node after the last one below the node `i`.
pub open spec fn subtree_end(nodes: Seq<NodeModel>, i: int) -> int {
    end_from(nodes, nodes[i].depth, i + 1)
}

/// The node after the last one below the node `i`.
pub fn find_subtree_end(nodes: &[MarkupNode], i: usize) -> (end: usize)
    requires
        i < nodes@.len(),
    ensures
        end == subtree_end(node_views(nodes@), i as int),
        i < end <= nodes@.len(),
{
    let ghost all = node_views(nodes@);
    let depth: usize = nodes[i].depth;
    let mut end: usize = i + 1;
    while end < nodes.len() && nodes[end].depth > depth
        invariant
            i < end <= nodes.len(),
            all == node_views(nodes@),
            end_from(all, depth as int, i + 1) == end_from(all, depth as int, end as int),
        decreases nodes.len() - end,
    {
        assert(all[end as int] == nodes@[end as int]@);
        end += 1;
    }
    proof {
        if end < nodes.len() {
            assert(all[end as int] == nodes@[end as int]@);
        }
        assert(all[i as int] == nodes@[i as int]@);
    }
    end
}

/// The node is an element of the given name.
pub open spec fn is_element(node: NodeModel, name: Seq<char>) -> bool {
    node.kind matches KindModel::Element { name: own, .. } && own == name
}

/// Whether a node is an element of the given name.
pub fn node_is(node: &MarkupNode, name: &str) -> (result: bool)
    ensures
        result == is_element(node@, name@),
{
    match &node.kind {
        MarkupKind::Element { name: own, .. } => same_text(own.as_str(), name),
        _ => false,
    }
}

/// The value of the first attribute that is found by the given name.
pub open spec fn attribute_of(
    attributes: Seq<(Seq<char>, Seq<char>, bool)>,
    name: Seq<char>,
) -> Option<Seq<char>>
    decreases attributes.len(),
{
    if attributes.len() == 0 {
        None
    } else if attributes[0].2 && attributes[0].0 == name {
        Some(attributes[0].1)
    } else {
        attribute_of(attributes.drop_first(), name)
    }
}

/// The value of an attribute of a node.
pub open spec fn node_attribute(node: NodeModel, name: Seq<char>) -> Option<Seq<char>> {
    match node.kind {
        KindModel::Element { attributes, .. } => attribute_of(attributes, name),
        _ => None,
    }
}

/// The value of an attribute of a node.
pub fn attribute<'a>(node: &'a MarkupNode, name: &str) -> (value: Option<&'a str>)
    ensures
        opt_str(value) == node_attribute(node@, name@),
{
    match &node.kind {
        MarkupKind::Element { attributes, .. } => {
            let ghost all = attribute_views(attributes@);
            let mut i: usize = 0;
            assert(all.skip(0) =~= all);
            while i < attributes.len()
                invariant
                    i <= attributes.len(),
                    all == attribute_views(attributes@),
                    node_attribute(node@, name@) == attribute_of(all, name@),
                    attribute_of(all, name@) == attribute_of(all.skip(i as int), name@),
                decreases attributes.len() - i,
            {
                proof {
                    assert(all.skip(i as int)[0] == all[i as int]);
                    assert(all.skip(i as int).drop_first() =~= all.skip(i + 1));
                }
                if attributes[i].2 && same_text(attributes[i].0.as_str(), name) {
                    return Some(attributes[i].1.as_str());
                }
                i += 1;
            }
            assert(all.skip(i as int) =~= seq![]);
            None
        },
        _ => None,
    }
}

/// The first element of the given name from the node `i` to the node `end`.
pub open spec fn find_element(nodes: Seq<NodeModel>, name: Seq<char>, i: int, end: int) -> Option<
    int,
>
    decreases end - i,
{
    if i >= end {
        None
    } else if is_element(nodes[i], name) {
        Some(i)
    } else {
        find_element(nodes, name, i + 1, end)
    }
}

/// The first element of the given name from the node `start` to the node `end`.
pub fn find_node(nodes: &[MarkupNode], name: &str, start: usize, end: usize) -> (index: Option<
    usize,
>)
    requires
        end <= nodes@.len(),
    ensures
        match index {
            Some(i) => find_element(node_views(nodes@), name@, start as int, end as int) == Some(
                i as int,
            ) && start <= i < end,
            None => find_element(node_views(nodes@), name@, start as int, end as int) is None,
        },
{
    let ghost all = node_views(nodes@);
    let mut i: usize = start;
    while i < end
        invariant
            start <= i,
            end <= nodes@.len(),
            all == node_views(nodes@),
            find_element(all, name@, start as int, end as int) == find_element(
                all,
                name@,
                i as int,
                end as int,
            ),
        decreases end - i,
    {
        assert(all[i as int] == nodes@[i as int]@);
        if node_is(&nodes[i], name) {
            return Some(i);
        }
        i += 1;
    }
    None
}

/// The text with which the content of the element `i` begins.
pub open spec fn leading_text(nodes: Seq<NodeModel>, i: int) -> Option<Seq<char>> {
    if i + 1 < nodes.len() && nodes[i + 1].depth > nodes[i].depth {
        match nodes[i + 1].kind {
            KindModel::Text(text) => Some(text),
            _ => None,
        }
    } else {
        None
    }
}

/// The text with which the content of an element begins.
pub fn text_of(nodes: &[MarkupNode], i: usize) -> (text: Option<&str>)
    requires
        i < nodes@.len(),
    ensures
        opt_str(text) == leading_text(node_views(nodes@), i as int),
{
    let ghost all = node_views(nodes@);
    assert(all[i as int] == nodes@[i as int]@);
    if i < nodes.len() - 1 {
        assert(all[i + 1] == nodes@[i + 1]@);
        if nodes[i + 1].depth > nodes[i].depth {
            return match &nodes[i + 1].kind {
                MarkupKind::Text(text) => Some(text.as_str()),
                _ => None,
            };
        }
    }
    None
}

/// All text from the node `i` to the node `end`.
pub open spec fn joined_text(nodes: Seq<NodeModel>, i: int, end: int) -> Seq<char>
    decreases end - i,
{
    if i >= end {
        seq![]
    } else {
        let before = joined_text(nodes, i, end - 1);
        match nodes[end - 1].kind {
            KindModel::Text(text) => before + text,
            _ => before,
        }
    }
}

/// All text from the node `start` to the node `end`.
pub fn collect_text(nodes: &[MarkupNode], start: usize, end: usize) -> (text: Vec<char>)
    requires
        start <= end <= nodes@.len(),
    ensures
        text@ == joined_text(node_views(nodes@), start as int, end as int),
{
    let ghost all = node_views(nodes@);
    let mut text: Vec<char> = Vec::new();
    let mut i: usize = start;
    while i < end
        invariant
            start <= i <= end <= nodes@.len(),
            all == node_views(nodes@),
            text@ == joined_text(all, start as int, i as int),
        decreases end - i,
    {
        assert(all[i as int] == nodes@[i as int]@);
        if let MarkupKind::Text(value) = &nodes[i].kind {
            let characters = chars_of(value.as_str());
            push_all(&mut text, &characters);
        }
        i += 1;
    }
    text
}

/// The number of elements of the given name that the node `i` is below: those before it of
/// which it is at the end of no subtree.
pub open spec fn ancestors_named(nodes: Seq<NodeModel>, name: Seq<char>, i: int, depth: int) -> int
    decreases i,
{
    if i <= 0 {
        0
    } else if nodes[i - 1].depth < depth {
        ancestors_named(nodes, name, i - 1, nodes[i - 1].depth) + if is_element(
            nodes[i - 1],
            name,
        ) {
            1int
        } else {
            0
        }
    } else {
        ancestors_named(nodes, name, i - 1, depth)
    }
}

/// The number of elements of the given name above the node `i`.
pub fn count_ancestors(nodes: &[MarkupNode], name: &str, i: usize) -> (count: usize)
    requires
        i < nodes@.len(),
    ensures
        count == ancestors_named(
            node_views(nodes@),
            name@,
            i as int,
            node_views(nodes@)[i as int].depth,
        ),
        count <= i,
{
    let ghost all = node_views(nodes@);
    let mut depth: usize = nodes[i].depth;
    let mut count: usize = 0;
    let mut j: usize = i;
    while j > 0
        invariant
            j <= i < nodes@.len(),
            all == node_views(nodes@),
            count + j <= i,
            count + ancestors_named(all, name@, j as int, depth as int) == ancestors_named(
                all,
                name@,
                i as int,
                all[i as int].depth,
            ),
        decreases j,
    {
        assert(all[j - 1] == nodes@[j - 1]@);
        if nodes[j - 1].depth < depth {
            depth = nodes[j - 1].depth;
            if node_is(&nodes[j - 1], name) {
                count += 1;
            }
        }
        j -= 1;
    }
    count
}

} // verus!

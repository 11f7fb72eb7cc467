//! The package file of an EPUB: metadata, files and their reading order.
use vstd::prelude::*;

use crate::document::archive::{
    archive_parent, ends_like, html_suffixes, is_html_name, normalise_relative_archive_path,
    parent_of, reference_path,
};
use crate::document::markup::{
    attribute, find_element, find_node, is_element, leading_text, node_attribute, node_is,
    node_views, text_of, xml_nodes, xml_tree, MarkupNode, NodeModel,
};
use crate::document::{opt_str, opt_text, DocumentMetadata, MetadataModel};
use crate::natural::{sort_names, sorted_names};
use crate::strings::{is_text, texts, trim_chars, trimmed, words, words_of};
use crate::text::{chars_of, same_text, string_of};
use crate::unicode::string_texts;

verus! {

/// XML without a limit on its nodes.
pub const ALL_NODES: u32 = 0xffff_ffff;

/// A file of the book.
#[verifier::ext_equal]
pub struct ItemModel {
    pub id: Seq<char>,
    pub href: Seq<char>,
    pub media_type: Seq<char>,
    pub properties: Seq<char>,
}

/// What a package file says of a book.
#[verifier::ext_equal]
pub struct PackageModel {
    pub metadata: MetadataModel,
    pub spine: Seq<Seq<char>>,
    pub html_items: Seq<Seq<char>>,
    pub nav_path: Option<Seq<char>>,
    pub ncx_path: Option<Seq<char>>,
}

/// The path of the package file that the container of an EPUB names.
pub open spec fn container_path(nodes: Seq<NodeModel>) -> Option<Seq<char>> {
    match find_element(nodes, "rootfile"@, 0, nodes.len() as int) {
        Some(i) => match node_attribute(nodes[i], "full-path"@) {
            Some(path) => reference_path(""@, path),
            None => None,
        },
        None => None,
    }
}

/// The path of the package file that the container names.
pub fn package_path_in(nodes: &[MarkupNode]) -> (path: Option<String>)
    ensures
        opt_text(path) == container_path(node_views(nodes@)),
{
    match find_node(nodes, "rootfile", 0, nodes.len()) {
        Some(i) => {
            assert(node_views(nodes@)[i as int] == nodes@[i as int]@);
            match attribute(&nodes[i], "full-path") {
                Some(path) => normalise_relative_archive_path("", path),
                None => None,
            }
        },
        None => None,
    }
}

/// The path of the package file that a container file names, if it is well-formed.
pub open spec fn container_result(xml: Seq<char>) -> Option<Seq<char>> {
    match xml_tree(xml, false, ALL_NODES) {
        Ok(nodes) => container_path(nodes),
        Err(_) => None,
    }
}

/// The path of the package file that a container file names.
pub fn parse_container_path(xml: &str) -> (path: Option<String>)
    ensures
        opt_text(path) == container_result(xml@),
{
    match xml_nodes(xml, false, ALL_NODES) {
        Ok(nodes) => package_path_in(&nodes),
        Err(_) => None,
    }
}

/// The text of the first element of a name, without the white space round it.
pub open spec fn element_text(nodes: Seq<NodeModel>, name: Seq<char>) -> Option<Seq<char>> {
    match find_element(nodes, name, 0, nodes.len() as int) {
        Some(i) => match leading_text(nodes, i) {
            Some(text) => if trimmed(text).len() > 0 {
                Some(trimmed(text))
            } else {
                None
            },
            None => None,
        },
        None => None,
    }
}

fn text_of_element(nodes: &[MarkupNode], name: &str) -> (text: Option<String>)
    ensures
        opt_text(text) == element_text(node_views(nodes@), name@),
{
    match find_node(nodes, name, 0, nodes.len()) {
        Some(i) => match text_of(nodes, i) {
            Some(text) => {
                let characters = trim_chars(&chars_of(text));
                if characters.len() > 0 {
                    Some(string_of(&characters))
                } else {
                    None
                }
            },
            None => None,
        },
        None => None,
    }
}

/// The node says that the pages of the book are fixed.
pub open spec fn is_fixed_layout(nodes: Seq<NodeModel>, i: int) -> bool {
    &&& is_element(nodes[i], "meta"@)
    &&& node_attribute(nodes[i], "property"@) == Some("rendition:layout"@)
    &&& {
        ||| leading_text(nodes, i) matches Some(text) && trimmed(text) == "pre-paginated"@
        ||| node_attribute(nodes[i], "content"@) == Some("pre-paginated"@)
    }
}

pub open spec fn fixed_layout(nodes: Seq<NodeModel>) -> bool {
    exists|i: int| 0 <= i < nodes.len() && #[trigger] is_fixed_layout(nodes, i)
}

fn is_value(value: Option<&str>, expected: &str) -> (same: bool)
    ensures
        same == (opt_str(value) == Some(expected@)),
{
    match value {
        Some(text) => same_text(text, expected),
        None => false,
    }
}

fn has_fixed_layout(nodes: &[MarkupNode]) -> (fixed: bool)
    ensures
        fixed == fixed_layout(node_views(nodes@)),
{
    let ghost all = node_views(nodes@);
    let mut i: usize = 0;
    while i < nodes.len()
        invariant
            i <= nodes.len(),
            all == node_views(nodes@),
            forall|j: int| 0 <= j < i ==> !#[trigger] is_fixed_layout(all, j),
        decreases nodes.len() - i,
    {
        assert(all[i as int] == nodes@[i as int]@);
        if node_is(&nodes[i], "meta") && is_value(
            attribute(&nodes[i], "property"),
            "rendition:layout",
        ) {
            let fixed = match text_of(nodes, i) {
                Some(text) => is_text(&trim_chars(&chars_of(text)), "pre-paginated"),
                None => false,
            };
            if fixed || is_value(attribute(&nodes[i], "content"), "pre-paginated") {
                assert(is_fixed_layout(all, i as int));
                return true;
            }
        }
        i += 1;
    }
    false
}

/// The items with one more; a later item of the same id takes the place of an earlier one.
pub open spec fn with_item(items: Seq<ItemModel>, item: ItemModel) -> Seq<ItemModel>
    decreases items.len(),
{
    if items.len() == 0 {
        seq![item]
    } else if items[0].id == item.id {
        items.update(0, item)
    } else {
        seq![items[0]] + with_item(items.drop_first(), item)
    }
}

pub open spec fn or_empty(value: Option<Seq<char>>) -> Seq<char> {
    match value {
        Some(text) => text,
        None => seq![],
    }
}

/// The item that a node declares, if it has an id and leads to a file of the archive.
pub open spec fn item_of(node: NodeModel, base: Seq<char>) -> Option<ItemModel> {
    if is_element(node, "item"@) {
        match (node_attribute(node, "id"@), node_attribute(node, "href"@)) {
            (Some(id), Some(href)) => match reference_path(base, href) {
                Some(path) => Some(
                    ItemModel {
                        id,
                        href: path,
                        media_type: or_empty(node_attribute(node, "media-type"@)),
                        properties: or_empty(node_attribute(node, "properties"@)),
                    },
                ),
                None => None,
            },
            _ => None,
        }
    } else {
        None
    }
}

/// The items that the first `n` nodes declare.
pub open spec fn manifest(nodes: Seq<NodeModel>, base: Seq<char>, n: int) -> Seq<ItemModel>
    decreases n,
{
    if n <= 0 {
        seq![]
    } else {
        let before = manifest(nodes, base, n - 1);
        match item_of(nodes[n - 1], base) {
            Some(item) => with_item(before, item),
            None => before,
        }
    }
}

/// The item with the given id.
pub open spec fn item_with(items: Seq<ItemModel>, id: Seq<char>) -> Option<ItemModel>
    decreases items.len(),
{
    if items.len() == 0 {
        None
    } else if items[0].id == id {
        Some(items[0])
    } else {
        item_with(items.drop_first(), id)
    }
}

pub open spec fn is_html_item(item: ItemModel) -> bool {
    ||| item.media_type == "application/xhtml+xml"@
    ||| item.media_type == "text/html"@
    ||| ends_like(item.href, html_suffixes())
}

pub open spec fn has_word(value: Seq<char>, word: Seq<char>) -> bool {
    words(value).contains(word)
}

/// Whether one of the words of a text is `word`.
pub fn contains_word(value: &str, word: &str) -> (found: bool)
    ensures
        found == has_word(value@, word@),
{
    let parts = words_of(&chars_of(value));
    let mut i: usize = 0;
    while i < parts.len()
        invariant
            i <= parts.len(),
            texts(parts@) == words(value@),
            forall|j: int| 0 <= j < i ==> (#[trigger] parts@[j])@ != word@,
        decreases parts.len() - i,
    {
        if is_text(&parts[i], word) {
            assert(words(value@)[i as int] == word@);
            return true;
        }
        i += 1;
    }
    assert forall|j: int| 0 <= j < words(value@).len() implies words(value@)[j] != word@ by {
        assert(parts@[j]@ == words(value@)[j]);
    }
    false
}

/// The files that the first `n` nodes put in the reading order.
pub open spec fn spine(nodes: Seq<NodeModel>, items: Seq<ItemModel>, n: int) -> Seq<Seq<char>>
    decreases n,
{
    if n <= 0 {
        seq![]
    } else {
        let before = spine(nodes, items, n - 1);
        if is_element(nodes[n - 1], "itemref"@) {
            match node_attribute(nodes[n - 1], "idref"@) {
                Some(id) => match item_with(items, id) {
                    Some(item) => if is_html_item(item) {
                        before.push(item.href)
                    } else {
                        before
                    },
                    None => before,
                },
                None => before,
            }
        } else {
            before
        }
    }
}

/// The HTML files among the items that are no navigation.
pub open spec fn html_paths(items: Seq<ItemModel>) -> Seq<Seq<char>>
    decreases items.len(),
{
    if items.len() == 0 {
        seq![]
    } else {
        let before = html_paths(items.drop_last());
        if is_html_item(items.last()) && !has_word(items.last().properties, "nav"@) {
            before.push(items.last().href)
        } else {
            before
        }
    }
}

/// The first item that is the navigation.
pub open spec fn nav_item(items: Seq<ItemModel>) -> Option<Seq<char>>
    decreases items.len(),
{
    if items.len() == 0 {
        None
    } else if has_word(items[0].properties, "nav"@) {
        Some(items[0].href)
    } else {
        nav_item(items.drop_first())
    }
}

/// The first item that is an NCX file.
pub open spec fn ncx_item(items: Seq<ItemModel>) -> Option<Seq<char>>
    decreases items.len(),
{
    if items.len() == 0 {
        None
    } else if items[0].media_type == "application/x-dtbncx+xml"@ {
        Some(items[0].href)
    } else {
        ncx_item(items.drop_first())
    }
}

/// The NCX file that the reading order names, or the first there is.
pub open spec fn ncx_path(nodes: Seq<NodeModel>, items: Seq<ItemModel>) -> Option<Seq<char>> {
    let named = match find_element(nodes, "spine"@, 0, nodes.len() as int) {
        Some(i) => match node_attribute(nodes[i], "toc"@) {
            Some(id) => item_with(items, id),
            None => None,
        },
        None => None,
    };
    match named {
        Some(item) => Some(item.href),
        None => ncx_item(items),
    }
}

pub open spec fn fixed_layout_message() -> Seq<char> {
    "fixed-layout EPUB is not supported; this format lays out text as fixed-position pages (similar to a PDF) and cannot be reflowed as plain text"@
}

/// What the nodes of a package file at the path `opf_path` say.
pub open spec fn package_model(nodes: Seq<NodeModel>, opf_path: Seq<char>) -> Result<
    PackageModel,
    Seq<char>,
> {
    if fixed_layout(nodes) {
        Err(fixed_layout_message())
    } else {
        let items = manifest(nodes, parent_of(opf_path), nodes.len() as int);
        Ok(
            PackageModel {
                metadata: MetadataModel {
                    title: element_text(nodes, "title"@),
                    author: element_text(nodes, "creator"@),
                    language: element_text(nodes, "language"@),
                },
                spine: spine(nodes, items, nodes.len() as int),
                html_items: sorted_names(html_paths(items)),
                nav_path: nav_item(items),
                ncx_path: ncx_path(nodes, items),
            },
        )
    }
}

/// What a package file says, or why it says nothing.
pub open spec fn package_result(xml: Seq<char>, opf_path: Seq<char>) -> Result<
    PackageModel,
    Seq<char>,
> {
    match xml_tree(xml, false, ALL_NODES) {
        Ok(nodes) => package_model(nodes, opf_path),
        Err(message) => Err(message),
    }
}

/// What a package file says.
pub struct Package {
    pub metadata: DocumentMetadata,
    pub spine: Vec<String>,
    pub html_items: Vec<String>,
    pub nav_path: Option<String>,
    pub ncx_path: Option<String>,
}

impl View for Package {
    type V = PackageModel;

    open spec fn view(&self) -> PackageModel {
        PackageModel {
            metadata: self.metadata@,
            spine: string_texts(self.spine@),
            html_items: string_texts(self.html_items@),
            nav_path: opt_text(self.nav_path),
            ncx_path: opt_text(self.ncx_path),
        }
    }
}

struct ManifestItem {
    id: String,
    href: String,
    media_type: String,
    properties: String,
}

impl View for ManifestItem {
    type V = ItemModel;

    closed spec fn view(&self) -> ItemModel {
        ItemModel {
            id: self.id@,
            href: self.href@,
            media_type: self.media_type@,
            properties: self.properties@,
        }
    }
}

spec fn item_views(items: Seq<ManifestItem>) -> Seq<ItemModel> {
    Seq::new(items.len(), |i: int| items[i]@)
}

fn owned_or_empty(value: Option<&str>) -> (text: String)
    ensures
        text@ == or_empty(opt_str(value)),
{
    match value {
        Some(text) => text.to_owned(),
        None => {
            let empty: Vec<char> = Vec::new();
            string_of(&empty)
        },
    }
}

fn put_item(items: &mut Vec<ManifestItem>, item: ManifestItem)
    ensures
        item_views(final(items)@) == with_item(item_views(old(items)@), item@),
{
    let ghost all = item_views(items@);
    let ghost model = item@;
    let mut i: usize = 0;
    assert(all.skip(0) =~= all);
    assert(all.take(0) + with_item(all, model) =~= with_item(all, model));
    while i < items.len()
        invariant
            i <= items.len(),
            all == item_views(items@),
            items@ == old(items)@,
            model == item@,
            all.take(i as int) + with_item(all.skip(i as int), model) == with_item(all, model),
        decreases items.len() - i,
    {
        let ghost rest = all.skip(i as int);
        assert(rest[0] == all[i as int]);
        assert(rest.drop_first() =~= all.skip(i + 1));
        if same_text(items[i].id.as_str(), item.id.as_str()) {
            items.set(i, item);
            proof {
                assert(all.take(i as int) + rest.update(0, model) =~= item_views(items@));
            }
            return;
        }
        assert(all.take(i as int) + with_item(rest, model) =~= all.take(i + 1) + with_item(
            all.skip(i + 1),
            model,
        ));
        i += 1;
    }
    items.push(item);
    proof {
        assert(all.skip(i as int) =~= seq![]);
        assert(item_views(items@) =~= all.take(i as int) + seq![model]);
    }
}

fn item_in(node: &MarkupNode, base: &str) -> (item: Option<ManifestItem>)
    ensures
        match item {
            Some(found) => item_of(node@, base@) == Some(found@),
            None => item_of(node@, base@) is None,
        },
{
    if !node_is(node, "item") {
        return None;
    }
    let id = match attribute(node, "id") {
        Some(id) => id,
        None => {
            return None;
        },
    };
    let href = match attribute(node, "href") {
        Some(href) => href,
        None => {
            return None;
        },
    };
    match normalise_relative_archive_path(base, href) {
        Some(path) => Some(
            ManifestItem {
                id: id.to_owned(),
                href: path,
                media_type: owned_or_empty(attribute(node, "media-type")),
                properties: owned_or_empty(attribute(node, "properties")),
            },
        ),
        None => None,
    }
}

fn find_item<'a>(items: &'a [ManifestItem], id: &str) -> (item: Option<&'a ManifestItem>)
    ensures
        match item {
            Some(found) => item_with(item_views(items@), id@) == Some(found@),
            None => item_with(item_views(items@), id@) is None,
        },
{
    let ghost all = item_views(items@);
    let mut i: usize = 0;
    assert(all.skip(0) =~= all);
    while i < items.len()
        invariant
            i <= items.len(),
            all == item_views(items@),
            item_with(all, id@) == item_with(all.skip(i as int), id@),
        decreases items.len() - i,
    {
        assert(all.skip(i as int)[0] == items@[i as int]@);
        assert(all.skip(i as int).drop_first() =~= all.skip(i + 1));
        if same_text(items[i].id.as_str(), id) {
            return Some(&items[i]);
        }
        i += 1;
    }
    assert(all.skip(i as int) =~= seq![]);
    None
}

fn item_is_html(item: &ManifestItem) -> (html: bool)
    ensures
        html == is_html_item(item@),
{
    same_text(item.media_type.as_str(), "application/xhtml+xml") || same_text(
        item.media_type.as_str(),
        "text/html",
    ) || is_html_name(item.href.as_str())
}

fn nav_path_in(items: &[ManifestItem]) -> (path: Option<String>)
    ensures
        opt_text(path) == nav_item(item_views(items@)),
{
    let ghost all = item_views(items@);
    let mut i: usize = 0;
    assert(all.skip(0) =~= all);
    while i < items.len()
        invariant
            i <= items.len(),
            all == item_views(items@),
            nav_item(all) == nav_item(all.skip(i as int)),
        decreases items.len() - i,
    {
        assert(all.skip(i as int)[0] == items@[i as int]@);
        assert(all.skip(i as int).drop_first() =~= all.skip(i + 1));
        if contains_word(items[i].properties.as_str(), "nav") {
            return Some(items[i].href.clone());
        }
        i += 1;
    }
    assert(all.skip(i as int) =~= seq![]);
    None
}

fn first_ncx(items: &[ManifestItem]) -> (path: Option<String>)
    ensures
        opt_text(path) == ncx_item(item_views(items@)),
{
    let ghost all = item_views(items@);
    let mut i: usize = 0;
    assert(all.skip(0) =~= all);
    while i < items.len()
        invariant
            i <= items.len(),
            all == item_views(items@),
            ncx_item(all) == ncx_item(all.skip(i as int)),
        decreases items.len() - i,
    {
        assert(all.skip(i as int)[0] == items@[i as int]@);
        assert(all.skip(i as int).drop_first() =~= all.skip(i + 1));
        if same_text(items[i].media_type.as_str(), "application/x-dtbncx+xml") {
            return Some(items[i].href.clone());
        }
        i += 1;
    }
    assert(all.skip(i as int) =~= seq![]);
    None
}

fn ncx_path_in(nodes: &[MarkupNode], items: &[ManifestItem]) -> (path: Option<String>)
    ensures
        opt_text(path) == ncx_path(node_views(nodes@), item_views(items@)),
{
    if let Some(i) = find_node(nodes, "spine", 0, nodes.len()) {
        assert(node_views(nodes@)[i as int] == nodes@[i as int]@);
        if let Some(id) = attribute(&nodes[i], "toc") {
            if let Some(item) = find_item(items, id) {
                return Some(item.href.clone());
            }
        }
    }
    first_ncx(items)
}

/// What the nodes of a package file say.
pub fn package_of(nodes: &[MarkupNode], opf_path: &str) -> (package: Result<Package, String>)
    ensures
        match package {
            Ok(found) => package_model(node_views(nodes@), opf_path@) == Ok::<
                PackageModel,
                Seq<char>,
            >(found@),
            Err(message) => package_model(node_views(nodes@), opf_path@) == Err::<
                PackageModel,
                Seq<char>,
            >(message@),
        },
{
    let ghost all = node_views(nodes@);
    if has_fixed_layout(nodes) {
        return Err(
            "fixed-layout EPUB is not supported; this format lays out text as fixed-position pages (similar to a PDF) and cannot be reflowed as plain text".to_owned(),
        );
    }
    let base = archive_parent(opf_path);
    let mut items: Vec<ManifestItem> = Vec::new();
    let mut i: usize = 0;
    assert(item_views(items@) =~= seq![]);
    while i < nodes.len()
        invariant
            i <= nodes.len(),
            all == node_views(nodes@),
            item_views(items@) == manifest(all, base@, i as int),
        decreases nodes.len() - i,
    {
        assert(all[i as int] == nodes@[i as int]@);
        if let Some(item) = item_in(&nodes[i], base.as_str()) {
            put_item(&mut items, item);
        }
        i += 1;
    }
    let ghost known = item_views(items@);
    let mut reading: Vec<String> = Vec::new();
    let mut i: usize = 0;
    assert(string_texts(reading@) =~= seq![]);
    while i < nodes.len()
        invariant
            i <= nodes.len(),
            all == node_views(nodes@),
            known == item_views(items@),
            string_texts(reading@) == spine(all, known, i as int),
        decreases nodes.len() - i,
    {
        assert(all[i as int] == nodes@[i as int]@);
        if node_is(&nodes[i], "itemref") {
            if let Some(id) = attribute(&nodes[i], "idref") {
                if let Some(item) = find_item(&items, id) {
                    if item_is_html(item) {
                        let ghost before = reading@;
                        reading.push(item.href.clone());
                        assert(string_texts(reading@) =~= string_texts(before).push(item@.href));
                    }
                }
            }
        }
        i += 1;
    }
    let mut html: Vec<String> = Vec::new();
    let mut i: usize = 0;
    assert(string_texts(html@) =~= seq![]);
    while i < items.len()
        invariant
            i <= items.len(),
            known == item_views(items@),
            string_texts(html@) == html_paths(known.take(i as int)),
        decreases items.len() - i,
    {
        assert(known.take(i + 1).drop_last() =~= known.take(i as int));
        assert(known.take(i + 1).last() == items@[i as int]@);
        if item_is_html(&items[i]) && !contains_word(items[i].properties.as_str(), "nav") {
            let ghost before = html@;
            html.push(items[i].href.clone());
            assert(string_texts(html@) =~= string_texts(before).push(items@[i as int]@.href));
        }
        i += 1;
    }
    assert(known.take(i as int) =~= known);
    Ok(
        Package {
            metadata: DocumentMetadata {
                title: text_of_element(nodes, "title"),
                author: text_of_element(nodes, "creator"),
                language: text_of_element(nodes, "language"),
            },
            spine: reading,
            html_items: sort_names(&html),
            nav_path: nav_path_in(&items),
            ncx_path: ncx_path_in(nodes, &items),
        },
    )
}

/// What a package file says.
pub fn parse_package(xml: &str, opf_path: &str) -> (package: Result<Package, String>)
    ensures
        match package {
            Ok(found) => package_result(xml@, opf_path@) == Ok::<PackageModel, Seq<char>>(found@),
            Err(message) => package_result(xml@, opf_path@) == Err::<PackageModel, Seq<char>>(
                message@,
            ),
        },
{
    match xml_nodes(xml, false, ALL_NODES) {
        Ok(nodes) => package_of(&nodes, opf_path),
        Err(message) => Err(message),
    }
}

} // verus!

//! What a package file says of its book.
use vstd::prelude::*;

use crate::document::archive::{ends_like, html_suffixes, parent_of, reference_path};
use crate::document::markup::{find_element, is_element, node_attribute, KindModel, NodeModel};
use crate::document::package::{
    has_word, is_html_item, item_of, item_with, manifest, nav_item, package_model, spine,
    with_item, ItemModel,
};
use crate::strings::{trimmed, words};

verus! {

/// The node declares a file with an id: the path is that of its reference, from the directory of
/// the package file.
pub open spec fn declares(
    node: NodeModel,
    opf_path: Seq<char>,
    id: Seq<char>,
    path: Seq<char>,
) -> bool {
    &&& is_element(node, "item"@)
    &&& node_attribute(node, "id"@) == Some(id)
    &&& node_attribute(node, "href"@) matches Some(href) && reference_path(
        parent_of(opf_path),
        href,
    ) == Some(path)
}

/// The node declares a file of chapters, as its type or its name says.
pub open spec fn declares_chapter(
    node: NodeModel,
    opf_path: Seq<char>,
    id: Seq<char>,
    path: Seq<char>,
) -> bool {
    declares(node, opf_path, id, path) && (node_attribute(node, "media-type"@) == Some(
        "application/xhtml+xml"@,
    ) || node_attribute(node, "media-type"@) == Some("text/html"@) || ends_like(
        path,
        seq![".xhtml"@, ".html"@, ".htm"@],
    ))
}

/// Of the nodes that declare a file with the id, the node `i` is the last.
pub open spec fn is_last_with(
    nodes: Seq<NodeModel>,
    opf_path: Seq<char>,
    id: Seq<char>,
    i: int,
) -> bool {
    &&& 0 <= i < nodes.len()
    &&& forall|j: int, path: Seq<char>|
        i < j < nodes.len() ==> !#[trigger] declares(nodes[j], opf_path, id, path)
}

/// The node `k` puts the file with the id in the reading order.
pub open spec fn refers(node: NodeModel, id: Seq<char>) -> bool {
    is_element(node, "itemref"@) && node_attribute(node, "idref"@) == Some(id)
}

// ---------------------------------------------------------------------------------------
// Proofs
// ---------------------------------------------------------------------------------------

proof fn lemma_with_item(items: Seq<ItemModel>, item: ItemModel, id: Seq<char>)
    ensures
        item_with(with_item(items, item), id) == (if id == item.id {
            Some(item)
        } else {
            item_with(items, id)
        }),
    decreases items.len(),
{
    let all = with_item(items, item);
    if items.len() == 0 {
        assert(all.drop_first() =~= seq![]);
        assert(item_with(all.drop_first(), id) is None);
    } else if items[0].id == item.id {
        assert(all.drop_first() =~= items.drop_first());
    } else {
        lemma_with_item(items.drop_first(), item, id);
        assert(all.drop_first() =~= with_item(items.drop_first(), item));
    }
}

proof fn lemma_manifest(
    nodes: Seq<NodeModel>,
    opf_path: Seq<char>,
    id: Seq<char>,
    i: int,
    item: ItemModel,
    n: int,
)
    requires
        0 <= i < n <= nodes.len(),
        is_last_with(nodes, opf_path, id, i),
        item_of(nodes[i], parent_of(opf_path)) == Some(item),
        item.id == id,
    ensures
        item_with(manifest(nodes, parent_of(opf_path), n), id) == Some(item),
    decreases n,
{
    let base = parent_of(opf_path);
    let before = manifest(nodes, base, n - 1);
    if n - 1 == i {
        lemma_with_item(before, item, id);
    } else {
        lemma_manifest(nodes, opf_path, id, i, item, n - 1);
        if let Some(other) = item_of(nodes[n - 1], base) {
            assert(declares(nodes[n - 1], opf_path, other.id, other.href));
            lemma_with_item(before, other, id);
        }
    }
}

/// The item of a node that declares a file of chapters.
proof fn lemma_chapter_item(
    node: NodeModel,
    opf_path: Seq<char>,
    id: Seq<char>,
    path: Seq<char>,
) -> (item: ItemModel)
    requires
        declares_chapter(node, opf_path, id, path),
    ensures
        item_of(node, parent_of(opf_path)) == Some(item),
        item.id == id,
        item.href == path,
        is_html_item(item),
{
    assert(html_suffixes() =~= seq![".xhtml"@, ".html"@, ".htm"@]);
    item_of(node, parent_of(opf_path))->0
}

proof fn lemma_spine_stays(nodes: Seq<NodeModel>, items: Seq<ItemModel>, n: int, m: int)
    requires
        0 <= n <= m,
    ensures
        spine(nodes, items, n).len() <= spine(nodes, items, m).len(),
        spine(nodes, items, m).take(spine(nodes, items, n).len() as int) =~= spine(
            nodes,
            items,
            n,
        ),
    decreases m - n,
{
    if n < m {
        lemma_spine_stays(nodes, items, n, m - 1);
        let first = spine(nodes, items, n);
        let before = spine(nodes, items, m - 1);
        let after = spine(nodes, items, m);
        assert(after.take(before.len() as int) =~= before);
        assert(after.take(first.len() as int) =~= before.take(first.len() as int));
    } else {
        assert(spine(nodes, items, m).take(spine(nodes, items, n).len() as int) =~= spine(
            nodes,
            items,
            n,
        ));
    }
}

/// The place of a file in the reading order.
proof fn lemma_in_spine(
    nodes: Seq<NodeModel>,
    items: Seq<ItemModel>,
    k: int,
    id: Seq<char>,
    item: ItemModel,
)
    requires
        0 <= k < nodes.len(),
        refers(nodes[k], id),
        item_with(items, id) == Some(item),
        is_html_item(item),
    ensures
        ({
            let at = spine(nodes, items, k).len() as int;
            let all = spine(nodes, items, nodes.len() as int);
            &&& at < spine(nodes, items, k + 1).len() <= all.len()
            &&& all[at] == item.href
        }),
{
    let at = spine(nodes, items, k).len() as int;
    let next = spine(nodes, items, k + 1);
    let all = spine(nodes, items, nodes.len() as int);
    lemma_spine_stays(nodes, items, k + 1, nodes.len() as int);
    assert(next[at] == item.href);
    assert(all.take(next.len() as int)[at] == next[at]);
}

// ---------------------------------------------------------------------------------------
// Laws
// ---------------------------------------------------------------------------------------

/// The files of chapters are read in the order in which the spine refers to them, whatever the
/// order in which they are declared. A file is found by its id, from the directory of the
/// package file.
pub proof fn law_reading_order(
    nodes: Seq<NodeModel>,
    opf_path: Seq<char>,
    first: (int, int, Seq<char>, Seq<char>),
    second: (int, int, Seq<char>, Seq<char>),
)
    requires
        package_model(nodes, opf_path) is Ok,
        0 <= first.0 < second.0 < nodes.len(),
        refers(nodes[first.0], first.2) && refers(nodes[second.0], second.2),
        is_last_with(nodes, opf_path, first.2, first.1) && declares_chapter(
            nodes[first.1],
            opf_path,
            first.2,
            first.3,
        ),
        is_last_with(nodes, opf_path, second.2, second.1) && declares_chapter(
            nodes[second.1],
            opf_path,
            second.2,
            second.3,
        ),
    ensures
        ({
            let order = package_model(nodes, opf_path)->Ok_0.spine;
            exists|a: int, b: int|
                0 <= a < b < order.len() && #[trigger] order[a] == first.3 && #[trigger] order[b]
                    == second.3
        }),
{
    let n = nodes.len() as int;
    let items = manifest(nodes, parent_of(opf_path), n);
    let one = lemma_chapter_item(nodes[first.1], opf_path, first.2, first.3);
    let two = lemma_chapter_item(nodes[second.1], opf_path, second.2, second.3);
    lemma_manifest(nodes, opf_path, first.2, first.1, one, n);
    lemma_manifest(nodes, opf_path, second.2, second.1, two, n);
    lemma_in_spine(nodes, items, first.0, first.2, one);
    lemma_in_spine(nodes, items, second.0, second.2, two);
    lemma_spine_stays(nodes, items, first.0 + 1, second.0);
    let a = spine(nodes, items, first.0).len() as int;
    let b = spine(nodes, items, second.0).len() as int;
    let order = package_model(nodes, opf_path)->Ok_0.spine;
    assert(order[a] == first.3 && order[b] == second.3);
}

/// Nothing is read but files of chapters that are declared and that the spine refers to.
pub proof fn law_only_the_spine_is_read(nodes: Seq<NodeModel>, opf_path: Seq<char>, a: int)
    requires
        package_model(nodes, opf_path) is Ok,
        0 <= a < package_model(nodes, opf_path)->Ok_0.spine.len(),
    ensures
        ({
            let path = package_model(nodes, opf_path)->Ok_0.spine[a];
            exists|k: int, i: int, id: Seq<char>|
                0 <= k < nodes.len() && 0 <= i < nodes.len() && #[trigger] refers(nodes[k], id)
                    && #[trigger] declares_chapter(nodes[i], opf_path, id, path)
        }),
{
    let n = nodes.len() as int;
    let items = manifest(nodes, parent_of(opf_path), n);
    let (k, id) = lemma_spine_refers(nodes, items, n, a);
    let i = lemma_manifest_declares(nodes, opf_path, n, id);
    reveal_strlit("application/xhtml+xml");
    reveal_strlit("text/html");
    let path = package_model(nodes, opf_path)->Ok_0.spine[a];
    let item = item_of(nodes[i], parent_of(opf_path))->0;
    assert(item.href == path);
    assert(declares(nodes[i], opf_path, id, path));
    if node_attribute(nodes[i], "media-type"@) is None {
        assert(item.media_type.len() == 0);
        assert("text/html"@.len() > 0);
        assert("application/xhtml+xml"@.len() > 0);
        assert(item.media_type != "text/html"@);
        assert(ends_like(path, html_suffixes()));
    }
    assert(html_suffixes() =~= seq![".xhtml"@, ".html"@, ".htm"@]);
    assert(refers(nodes[k], id) && declares_chapter(
        nodes[i],
        opf_path,
        id,
        package_model(nodes, opf_path)->Ok_0.spine[a],
    ));
}

proof fn lemma_spine_refers(
    nodes: Seq<NodeModel>,
    items: Seq<ItemModel>,
    n: int,
    a: int,
) -> (found: (int, Seq<char>))
    requires
        0 <= n <= nodes.len(),
        0 <= a < spine(nodes, items, n).len(),
    ensures
        0 <= found.0 < n,
        refers(nodes[found.0], found.1),
        item_with(items, found.1) matches Some(item) && item.href == spine(nodes, items, n)[a] && is_html_item(
            item,
        ),
    decreases n,
{
    if a < spine(nodes, items, n - 1).len() {
        lemma_spine_refers(nodes, items, n - 1, a)
    } else {
        (n - 1, node_attribute(nodes[n - 1], "idref"@)->0)
    }
}

proof fn lemma_manifest_declares(
    nodes: Seq<NodeModel>,
    opf_path: Seq<char>,
    n: int,
    id: Seq<char>,
) -> (i: int)
    requires
        0 <= n <= nodes.len(),
        item_with(manifest(nodes, parent_of(opf_path), n), id) is Some,
    ensures
        0 <= i < n,
        item_of(nodes[i], parent_of(opf_path)) == item_with(
            manifest(nodes, parent_of(opf_path), n),
            id,
        ),
        item_of(nodes[i], parent_of(opf_path))->0.id == id,
    decreases n,
{
    let base = parent_of(opf_path);
    if n == 0 {
        assert(manifest(nodes, base, n).len() == 0);
        0
    } else {
        if let Some(item) = item_of(nodes[n - 1], base) {
            lemma_with_item(manifest(nodes, base, n - 1), item, id);
            if item.id == id {
                n - 1
            } else {
                lemma_manifest_declares(nodes, opf_path, n - 1, id)
            }
        } else {
            lemma_manifest_declares(nodes, opf_path, n - 1, id)
        }
    }
}

proof fn lemma_item_is_in(items: Seq<ItemModel>, id: Seq<char>) -> (j: int)
    requires
        item_with(items, id) is Some,
    ensures
        0 <= j < items.len(),
        items[j] == item_with(items, id)->0,
    decreases items.len(),
{
    if items[0].id == id {
        0
    } else {
        lemma_item_is_in(items.drop_first(), id) + 1
    }
}

proof fn lemma_declared(nodes: Seq<NodeModel>, base: Seq<char>, n: int, j: int) -> (i: int)
    requires
        0 <= n <= nodes.len(),
        0 <= j < manifest(nodes, base, n).len(),
    ensures
        0 <= i < n,
        item_of(nodes[i], base) == Some(manifest(nodes, base, n)[j]),
    decreases n,
{
    let before = manifest(nodes, base, n - 1);
    match item_of(nodes[n - 1], base) {
        Some(item) => {
            lemma_put(before, item, j);
            if manifest(nodes, base, n)[j] == item {
                n - 1
            } else {
                lemma_declared(nodes, base, n - 1, j)
            }
        },
        None => lemma_declared(nodes, base, n - 1, j),
    }
}

proof fn lemma_put(items: Seq<ItemModel>, item: ItemModel, j: int)
    requires
        0 <= j < with_item(items, item).len(),
    ensures
        with_item(items, item)[j] == item || (j < items.len() && with_item(items, item)[j]
            == items[j]),
    decreases items.len(),
{
    if items.len() > 0 && items[0].id != item.id && j > 0 {
        lemma_put(items.drop_first(), item, j - 1);
    }
}

proof fn lemma_nav_item(items: Seq<ItemModel>)
    ensures
        nav_item(items) matches Some(path) ==> exists|j: int|
            0 <= j < items.len() && has_word(#[trigger] items[j].properties, "nav"@)
                && items[j].href == path,
        nav_item(items) is None ==> forall|j: int|
            0 <= j < items.len() ==> !has_word(#[trigger] items[j].properties, "nav"@),
    decreases items.len(),
{
    if items.len() > 0 && !has_word(items[0].properties, "nav"@) {
        let rest = items.drop_first();
        lemma_nav_item(rest);
        if let Some(path) = nav_item(rest) {
            let j = choose|j: int|
                0 <= j < rest.len() && has_word(#[trigger] rest[j].properties, "nav"@)
                    && rest[j].href == path;
            assert(rest[j].properties == items[j + 1].properties);
        } else {
            assert forall|j: int| 0 <= j < items.len() implies !has_word(
                #[trigger] items[j].properties,
                "nav"@,
            ) by {
                if j > 0 {
                    assert(rest[j - 1].properties == items[j].properties);
                }
            }
        }
    } else if items.len() > 0 {
        assert(has_word(items[0].properties, "nav"@));
    }
}

/// The node declares the file with the navigation.
pub open spec fn declares_nav(node: NodeModel, opf_path: Seq<char>, path: Seq<char>) -> bool {
    &&& exists|id: Seq<char>| declares(node, opf_path, id, path)
    &&& node_attribute(node, "properties"@) matches Some(properties) && has_word(
        properties,
        "nav"@,
    )
}

/// The navigation is in a file that says so of itself, and there is one where some file does.
pub proof fn law_navigation_file(
    nodes: Seq<NodeModel>,
    opf_path: Seq<char>,
    i: int,
    id: Seq<char>,
    path: Seq<char>,
)
    requires
        package_model(nodes, opf_path) is Ok,
    ensures
        ({
            let found = package_model(nodes, opf_path)->Ok_0.nav_path;
            &&& (found is Some ==> exists|k: int|
                0 <= k < nodes.len() && #[trigger] declares_nav(nodes[k], opf_path, found->0))
            &&& is_last_with(nodes, opf_path, id, i) && declares(nodes[i], opf_path, id, path)
                && declares_nav(nodes[i], opf_path, path) ==> found is Some
        }),
{
    let n = nodes.len() as int;
    let base = parent_of(opf_path);
    let items = manifest(nodes, base, n);
    let found = nav_item(items);
    lemma_nav_item(items);
    lemma_no_nav_in_nothing();
    if found is Some {
        let j = choose|j: int|
            0 <= j < items.len() && has_word(#[trigger] items[j].properties, "nav"@)
                && items[j].href == found->0;
        let k = lemma_declared(nodes, base, n, j);
        assert(declares(nodes[k], opf_path, items[j].id, found->0));
        assert(declares_nav(nodes[k], opf_path, found->0));
    }
    if is_last_with(nodes, opf_path, id, i) && declares(nodes[i], opf_path, id, path)
        && declares_nav(nodes[i], opf_path, path) {
        let item = item_of(nodes[i], base)->0;
        lemma_manifest(nodes, opf_path, id, i, item, n);
        let j = lemma_item_is_in(items, id);
        assert(has_word(items[j].properties, "nav"@));
    }
}

proof fn lemma_no_nav_in_nothing()
    ensures
        !has_word(seq![], "nav"@),
{
    assert(words(seq![]) =~= seq![]);
}

/// The spine can name the file with the older navigation by its id.
pub proof fn law_named_navigation(
    nodes: Seq<NodeModel>,
    opf_path: Seq<char>,
    k: int,
    i: int,
    id: Seq<char>,
    path: Seq<char>,
)
    requires
        package_model(nodes, opf_path) is Ok,
        0 <= k < nodes.len(),
        is_element(nodes[k], "spine"@),
        forall|j: int| 0 <= j < k ==> !is_element(#[trigger] nodes[j], "spine"@),
        node_attribute(nodes[k], "toc"@) == Some(id),
        is_last_with(nodes, opf_path, id, i),
        declares(nodes[i], opf_path, id, path),
    ensures
        package_model(nodes, opf_path)->Ok_0.ncx_path == Some(path),
{
    let n = nodes.len() as int;
    lemma_find_element(nodes, "spine"@, 0, n, k);
    lemma_manifest(nodes, opf_path, id, i, item_of(nodes[i], parent_of(opf_path))->0, n);
}

/// The node `i` is the first element of the name, and begins with the text.
pub open spec fn is_first_element(
    nodes: Seq<NodeModel>,
    name: Seq<char>,
    i: int,
    text: Seq<char>,
) -> bool {
    &&& 0 <= i && i + 1 < nodes.len()
    &&& is_element(nodes[i], name)
    &&& forall|j: int| 0 <= j < i ==> !is_element(#[trigger] nodes[j], name)
    &&& nodes[i + 1].depth > nodes[i].depth
    &&& nodes[i + 1].kind == KindModel::Text(text)
}

/// The title, the author and the language of a book are what the first elements of their names
/// say, without the white space around it; what is blank says nothing.
pub proof fn law_book_metadata(
    nodes: Seq<NodeModel>,
    opf_path: Seq<char>,
    i: int,
    text: Seq<char>,
)
    requires
        package_model(nodes, opf_path) is Ok,
    ensures
        ({
            let metadata = package_model(nodes, opf_path)->Ok_0.metadata;
            let said = if trimmed(text).len() > 0 {
                Some(trimmed(text))
            } else {
                None
            };
            &&& is_first_element(nodes, "title"@, i, text) ==> metadata.title == said
            &&& is_first_element(nodes, "creator"@, i, text) ==> metadata.author == said
            &&& is_first_element(nodes, "language"@, i, text) ==> metadata.language == said
        }),
{
    let n = nodes.len() as int;
    if is_first_element(nodes, "title"@, i, text) {
        lemma_find_element(nodes, "title"@, 0, n, i);
    }
    if is_first_element(nodes, "creator"@, i, text) {
        lemma_find_element(nodes, "creator"@, 0, n, i);
    }
    if is_first_element(nodes, "language"@, i, text) {
        lemma_find_element(nodes, "language"@, 0, n, i);
    }
}

proof fn lemma_find_element(nodes: Seq<NodeModel>, name: Seq<char>, from: int, end: int, i: int)
    requires
        0 <= from <= i < end <= nodes.len(),
        is_element(nodes[i], name),
        forall|j: int| from <= j < i ==> !is_element(#[trigger] nodes[j], name),
    ensures
        find_element(nodes, name, from, end) == Some(i),
    decreases i - from,
{
    if from < i {
        assert(!is_element(nodes[from], name));
        lemma_find_element(nodes, name, from + 1, end, i);
    }
}

} // verus!

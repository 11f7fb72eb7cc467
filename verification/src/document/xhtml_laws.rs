//! What the elements of a chapter look like as plain text.
use vstd::prelude::*;

use crate::buffer::{text_after, trailing_feeds, with_line_start, without_blanks};
use crate::document::markup::{attribute_of, end_from, subtree_end, KindModel, NodeModel};
use crate::document::xhtml::{
    empty_sink, entered, exited, finished, heading_level_of, is_paragraph, is_skipped, recorded,
    render_node, render_nodes, shown_name, spaced, style_of, with_chars, with_literal,
    with_newlines, with_text, Sink,
};
use crate::document::{StyleModel, TextStyleKind, TocModel};
use crate::strings::{
    ascii_lower_all, begins, is_space, law_line_feeds, lemma_leading_spaces_is,
    lemma_trimmed_end, lemma_trimmed_end_is, repeated, trimmed, trimmed_start, with_line_feeds,
};
use crate::text::{
    byte_len, lemma_byte_len_at_least_len, lemma_byte_len_concat, lemma_index_of_offset,
};

verus! {

/// At least one character, and no white space.
pub open spec fn is_word(w: Seq<char>) -> bool {
    w.len() > 0 && forall|i: int| 0 <= i < w.len() ==> !is_space(#[trigger] w[i])
}

/// The node is an element of the given name, which is written in lower case but in XML.
pub open spec fn is_named(node: NodeModel, name: Seq<char>, xml: bool) -> bool {
    node.kind matches KindModel::Element { name: own, .. } && if xml {
        ascii_lower_all(own) == name
    } else {
        own == name
    }
}

pub open spec fn is_text_node(node: NodeModel, text: Seq<char>) -> bool {
    node.kind == KindModel::Text(text)
}

/// The text begins nothing, or ends with a character that is no white space, and no white space
/// is to follow.
pub open spec fn ends_in_word(sink: Sink) -> bool {
    !sink.pending && (sink.text.len() > 0 ==> !is_space(sink.text.last()))
}

/// What has been written stays: all of it but blanks and tabs at its end.
pub open spec fn is_kept(before: Seq<char>, after: Seq<char>) -> bool {
    forall|n: int|
        0 < n <= before.len() && before[n - 1] != ' ' && before[n - 1] != '\t' ==> begins(
            after,
            #[trigger] before.take(n),
        )
}

/// `before` and then `more`, a number of line feeds apart where there is anything before.
pub open spec fn apart(before: Seq<char>, feeds: Seq<char>, more: Seq<char>) -> Seq<char> {
    if before.len() == 0 {
        more
    } else {
        before + feeds + more
    }
}

// ---------------------------------------------------------------------------------------
// Lines
// ---------------------------------------------------------------------------------------

proof fn lemma_without_blanks(s: Seq<char>)
    ensures
        without_blanks(s).len() <= s.len(),
        without_blanks(s) == s.take(without_blanks(s).len() as int),
        forall|k: int|
            0 <= k < s.len() && #[trigger] s[k] != ' ' && s[k] != '\t' ==> k < without_blanks(
                s,
            ).len(),
    decreases s.len(),
{
    if s.len() > 0 && (s.last() == ' ' || s.last() == '\t') {
        let t = s.drop_last();
        lemma_without_blanks(t);
        let m = without_blanks(s).len() as int;
        assert(s.take(m) =~= t.take(m));
        assert forall|k: int| 0 <= k < s.len() && #[trigger] s[k] != ' ' && s[k] != '\t' implies k
            < without_blanks(s).len() by {
            assert(t[k] == s[k]);
        }
    } else {
        assert(s.take(s.len() as int) =~= s);
    }
}

proof fn lemma_kept_by_more(before: Seq<char>, more: Seq<char>)
    ensures
        is_kept(before, before + more),
{
    assert forall|n: int|
        0 < n <= before.len() && before[n - 1] != ' ' && before[n - 1] != '\t' implies begins(
        before + more,
        #[trigger] before.take(n),
    ) by {
        assert((before + more).take(n) =~= before.take(n));
    }
}

proof fn lemma_kept_by_line(s: Seq<char>, count: int)
    ensures
        is_kept(s, with_line_start(s, count)),
{
    lemma_without_blanks(s);
    let p = without_blanks(s);
    let after = with_line_start(s, count);
    assert forall|n: int| 0 < n <= s.len() && s[n - 1] != ' ' && s[n - 1] != '\t' implies begins(
        after,
        #[trigger] s.take(n),
    ) by {
        assert(s[n - 1] != ' ');
        assert(n <= p.len());
        assert(s.take(n) =~= p.take(n));
        assert(after.take(n) =~= p.take(n));
    }
}

proof fn lemma_kept_twice(a: Seq<char>, b: Seq<char>, c: Seq<char>)
    requires
        is_kept(a, b),
        is_kept(b, c),
    ensures
        is_kept(a, c),
{
    assert forall|n: int| 0 < n <= a.len() && a[n - 1] != ' ' && a[n - 1] != '\t' implies begins(
        c,
        #[trigger] a.take(n),
    ) by {
        assert(begins(b, a.take(n)));
        assert(b.take(n) == a.take(n));
        assert(b.take(n)[n - 1] == a.take(n)[n - 1]);
        assert(begins(c, b.take(n)));
    }
}

proof fn lemma_with_chars_kept(sink: Sink, value: Seq<char>)
    ensures
        is_kept(sink.text, with_chars(sink, value).text),
    decreases value.len(),
{
    if value.len() > 0 {
        let before = with_chars(sink, value.drop_last());
        lemma_with_chars_kept(sink, value.drop_last());
        let after = with_chars(sink, value);
        let more = after.text.skip(before.text.len() as int);
        assert(after.text =~= before.text + more);
        lemma_kept_by_more(before.text, more);
        lemma_kept_twice(sink.text, before.text, after.text);
    } else {
        lemma_kept_by_more(sink.text, seq![]);
        assert(sink.text + seq![] =~= sink.text);
    }
}

proof fn lemma_literal_kept(sink: Sink, value: Seq<char>)
    ensures
        is_kept(sink.text, with_literal(sink, value).text),
{
    let after = with_literal(sink, value).text;
    let more = after.skip(sink.text.len() as int);
    assert(after =~= sink.text + more);
    lemma_kept_by_more(sink.text, more);
}

proof fn lemma_same_kept(s: Seq<char>)
    ensures
        is_kept(s, s),
{
    lemma_kept_by_more(s, seq![]);
    assert(s + seq![] =~= s);
}

proof fn lemma_entered_kept(
    sink: Sink,
    name: Seq<char>,
    attributes: Seq<(Seq<char>, Seq<char>, bool)>,
)
    ensures
        is_kept(sink.text, entered(sink, name, attributes).text),
{
    lemma_same_kept(sink.text);
    lemma_kept_by_line(sink.text, 2);
    lemma_kept_by_line(sink.text, 1);
    let apart = if is_paragraph(name) {
        with_newlines(sink, 2)
    } else if name == "tr"@ {
        with_newlines(sink, 1)
    } else {
        sink
    };
    lemma_literal_kept(apart, "- "@);
    lemma_kept_twice(sink.text, apart.text, with_literal(apart, "- "@).text);
}

proof fn lemma_exited_kept(sink: Sink, name: Seq<char>, start: int)
    ensures
        is_kept(sink.text, exited(sink, name, start).text),
{
    let known = recorded(sink, name, start);
    assert(known.text == sink.text);
    let cell = if name == "td"@ || name == "th"@ {
        with_literal(known, "\t"@)
    } else {
        known
    };
    lemma_same_kept(sink.text);
    lemma_literal_kept(known, "\t"@);
    lemma_kept_by_line(cell.text, 2);
    lemma_kept_by_line(cell.text, 1);
    lemma_kept_twice(sink.text, cell.text, with_newlines(cell, 2).text);
    lemma_kept_twice(sink.text, cell.text, with_newlines(cell, 1).text);
}

proof fn lemma_node_kept(
    nodes: Seq<NodeModel>,
    i: int,
    end: int,
    xml: bool,
    preformatted: bool,
    sink: Sink,
)
    ensures
        is_kept(sink.text, render_node(nodes, i, end, xml, preformatted, sink).text),
    decreases end - i, 0int,
{
    lemma_same_kept(sink.text);
    if i < end {
        match nodes[i].kind {
            KindModel::Text(text) => {
                lemma_with_chars_kept(sink, text);
                lemma_kept_by_more(sink.text, with_line_feeds(text));
            },
            KindModel::Element { name: own, attributes } => {
                let name = shown_name(own, xml);
                lemma_kept_by_line(sink.text, 1);
                lemma_literal_kept(sink, "[Image]"@);
                if !is_skipped(name) && name != "br"@ && name != "img"@ {
                    let before = entered(sink, name, attributes);
                    let inner = preformatted || name == "pre"@;
                    let inside = render_nodes(nodes, i + 1, end, xml, inner, before);
                    lemma_entered_kept(sink, name, attributes);
                    lemma_rendered_kept(nodes, i + 1, end, xml, inner, before);
                    lemma_exited_kept(inside, name, byte_len(before.text) as int);
                    lemma_kept_twice(sink.text, before.text, inside.text);
                    lemma_kept_twice(
                        sink.text,
                        inside.text,
                        exited(inside, name, byte_len(before.text) as int).text,
                    );
                }
            },
            KindModel::Other => {
                lemma_rendered_kept(nodes, i + 1, end, xml, preformatted, sink);
            },
        }
    }
}

proof fn lemma_rendered_kept(
    nodes: Seq<NodeModel>,
    i: int,
    end: int,
    xml: bool,
    preformatted: bool,
    sink: Sink,
)
    ensures
        is_kept(sink.text, render_nodes(nodes, i, end, xml, preformatted, sink).text),
    decreases end - i, 1int,
{
    if 0 <= i < end <= nodes.len() {
        let next = subtree_end(nodes, i);
        if i < next <= end {
            let first = render_node(nodes, i, next, xml, preformatted, sink);
            lemma_node_kept(nodes, i, next, xml, preformatted, sink);
            lemma_rendered_kept(nodes, next, end, xml, preformatted, first);
            lemma_kept_twice(
                sink.text,
                first.text,
                render_nodes(nodes, next, end, xml, preformatted, first).text,
            );
        } else {
            lemma_node_kept(nodes, i, end, xml, preformatted, sink);
        }
    } else {
        lemma_same_kept(sink.text);
    }
}

// ---------------------------------------------------------------------------------------
// Words
// ---------------------------------------------------------------------------------------

proof fn lemma_word(sink: Sink, w: Seq<char>)
    requires
        is_word(w),
    ensures
        with_chars(sink, w) == (Sink { text: spaced(sink) + w, pending: false, ..sink }),
    decreases w.len(),
{
    let less = w.drop_last();
    assert(!is_space(w[w.len() - 1]));
    if less.len() > 0 {
        assert forall|i: int| 0 <= i < less.len() implies !is_space(#[trigger] less[i]) by {
            assert(less[i] == w[i]);
        }
        lemma_word(sink, less);
        assert((spaced(sink) + less).push(w.last()) =~= spaced(sink) + w);
    } else {
        assert(with_chars(sink, less) == sink);
        assert(spaced(sink).push(w.last()) =~= spaced(sink) + w);
    }
}

proof fn lemma_space(sink: Sink, value: Seq<char>)
    requires
        value.len() > 0,
        forall|i: int| 0 <= i < value.len() ==> is_space(#[trigger] value[i]),
    ensures
        with_chars(sink, value) == (Sink { pending: true, ..sink }),
    decreases value.len(),
{
    let less = value.drop_last();
    assert(is_space(value[value.len() - 1]));
    if less.len() > 0 {
        assert forall|i: int| 0 <= i < less.len() implies is_space(#[trigger] less[i]) by {
            assert(less[i] == value[i]);
        }
        lemma_space(sink, less);
    } else {
        assert(with_chars(sink, less) == sink);
    }
}

proof fn lemma_chars_concat(sink: Sink, a: Seq<char>, b: Seq<char>)
    ensures
        with_chars(sink, a + b) == with_chars(with_chars(sink, a), b),
    decreases b.len(),
{
    if b.len() > 0 {
        assert((a + b).drop_last() =~= a + b.drop_last());
        lemma_chars_concat(sink, a, b.drop_last());
    } else {
        assert(a + b =~= a);
    }
}

pub proof fn lemma_line_after_word(s: Seq<char>, count: int)
    requires
        0 <= count,
        s.len() > 0 ==> !is_space(s.last()),
    ensures
        with_line_start(s, count) == (if s.len() == 0 {
            s
        } else {
            s + repeated(seq!['\n'], count as nat)
        }),
{
    if count == 0 && s.len() > 0 {
        assert(s + repeated(seq!['\n'], 0) =~= s);
    }
}

pub proof fn lemma_feeds()
    ensures
        repeated(seq!['\n'], 1) == seq!['\n'],
        repeated(seq!['\n'], 2) == seq!['\n', '\n'],
{
    reveal_with_fuel(repeated, 3);
    assert(repeated(seq!['\n'], 1) =~= seq!['\n']);
    assert(repeated(seq!['\n'], 2) =~= seq!['\n', '\n']);
}

proof fn lemma_names()
    ensures
        "head"@.len() == 4 && "head"@[0] == 'h' && "head"@[1] == 'e',
        "script"@.len() == 6,
        "style"@.len() == 5,
        "noscript"@.len() == 8,
        "svg"@.len() == 3 && "svg"@[0] == 's',
        "nav"@.len() == 3 && "nav"@[0] == 'n',
        "br"@.len() == 2 && "br"@[0] == 'b',
        "img"@.len() == 3 && "img"@[0] == 'i',
        "p"@.len() == 1 && "p"@[0] == 'p',
        "blockquote"@.len() == 10,
        "pre"@.len() == 3 && "pre"@[0] == 'p',
        "li"@.len() == 2 && "li"@[0] == 'l',
        "tr"@.len() == 2 && "tr"@[0] == 't' && "tr"@[1] == 'r',
        "td"@.len() == 2 && "td"@[0] == 't' && "td"@[1] == 'd',
        "th"@.len() == 2 && "th"@[0] == 't' && "th"@[1] == 'h',
        "a"@.len() == 1 && "a"@[0] == 'a',
        "i"@.len() == 1 && "i"@[0] == 'i',
        "b"@.len() == 1 && "b"@[0] == 'b',
        "em"@.len() == 2 && "em"@[0] == 'e',
        "strong"@.len() == 6 && "strong"@[1] == 't' && "script"@[1] == 'c',
        "h1"@.len() == 2 && "h1"@[0] == 'h' && "h1"@[1] == '1',
        "h2"@.len() == 2 && "h2"@[0] == 'h' && "h2"@[1] == '2',
        "h3"@.len() == 2 && "h3"@[0] == 'h' && "h3"@[1] == '3',
        "h4"@.len() == 2 && "h4"@[0] == 'h' && "h4"@[1] == '4',
        "h5"@.len() == 2 && "h5"@[0] == 'h' && "h5"@[1] == '5',
        "h6"@.len() == 2 && "h6"@[0] == 'h' && "h6"@[1] == '6',
{
    reveal_strlit("head");
    reveal_strlit("script");
    reveal_strlit("style");
    reveal_strlit("noscript");
    reveal_strlit("svg");
    reveal_strlit("nav");
    reveal_strlit("br");
    reveal_strlit("img");
    reveal_strlit("p");
    reveal_strlit("blockquote");
    reveal_strlit("pre");
    reveal_strlit("li");
    reveal_strlit("tr");
    reveal_strlit("td");
    reveal_strlit("th");
    reveal_strlit("a");
    reveal_strlit("i");
    reveal_strlit("b");
    reveal_strlit("em");
    reveal_strlit("strong");
    reveal_strlit("h1");
    reveal_strlit("h2");
    reveal_strlit("h3");
    reveal_strlit("h4");
    reveal_strlit("h5");
    reveal_strlit("h6");
}

/// The one node from `i` to `i + 1`.
proof fn lemma_one_node(
    nodes: Seq<NodeModel>,
    i: int,
    xml: bool,
    preformatted: bool,
    sink: Sink,
)
    requires
        0 <= i < nodes.len(),
    ensures
        render_nodes(nodes, i, i + 1, xml, preformatted, sink) == render_node(
            nodes,
            i,
            i + 1,
            xml,
            preformatted,
            sink,
        ),
{
    let next = subtree_end(nodes, i);
    if i < next <= i + 1 {
        assert(render_nodes(
            nodes,
            next,
            i + 1,
            xml,
            preformatted,
            render_node(nodes, i, next, xml, preformatted, sink),
        ) == render_node(nodes, i, next, xml, preformatted, sink));
    }
}

// ---------------------------------------------------------------------------------------
// Laws
// ---------------------------------------------------------------------------------------

/// Nothing that is shown later changes what was shown before it, but for blanks and tabs at the
/// end of it.
pub proof fn law_text_is_kept(
    nodes: Seq<NodeModel>,
    i: int,
    end: int,
    xml: bool,
    preformatted: bool,
    sink: Sink,
)
    ensures
        is_kept(sink.text, render_nodes(nodes, i, end, xml, preformatted, sink).text),
{
    lemma_rendered_kept(nodes, i, end, xml, preformatted, sink);
}

/// A line break begins a new line: where anything was shown before, up to the last character
/// that is neither a blank nor a tab, a line feed follows it, and all that is shown afterwards
/// comes after that.
pub proof fn law_break_begins_a_line(
    nodes: Seq<NodeModel>,
    i: int,
    end: int,
    xml: bool,
    preformatted: bool,
    sink: Sink,
    shown: Seq<char>,
    blanks: Seq<char>,
)
    requires
        0 <= i < end <= nodes.len(),
        is_named(nodes[i], "br"@, xml),
        sink.text == shown + blanks,
        shown.len() > 0,
        shown.last() != ' ' && shown.last() != '\t',
        forall|k: int| 0 <= k < blanks.len() ==> #[trigger] blanks[k] == ' ' || blanks[k] == '\t',
    ensures
        ({
            let after = render_nodes(nodes, i, end, xml, preformatted, sink).text;
            if shown.last() == '\n' {
                begins(after, shown)
            } else {
                begins(after, shown.push('\n'))
            }
        }),
{
    lemma_names();
    lemma_feeds();
    let next = subtree_end(nodes, i);
    lemma_blanks_go(shown, blanks);
    let line = with_newlines(sink, 1);
    let want = if shown.last() == '\n' {
        shown
    } else {
        shown.push('\n')
    };
    assert(line.text =~= want) by {
        if shown.last() != '\n' {
            assert(shown + seq!['\n'] =~= shown.push('\n'));
        } else {
            assert(trailing_feeds(shown) >= 1);
        }
    }
    assert(want.take(want.len() as int) =~= want);
    if i < next <= end {
        assert(render_node(nodes, i, next, xml, preformatted, sink) == line);
        lemma_rendered_kept(nodes, next, end, xml, preformatted, line);
        assert(begins(
            render_nodes(nodes, next, end, xml, preformatted, line).text,
            line.text.take(want.len() as int),
        ));
    } else {
        assert(render_node(nodes, i, end, xml, preformatted, sink) == line);
    }
}

proof fn lemma_blanks_go(shown: Seq<char>, blanks: Seq<char>)
    requires
        shown.len() > 0,
        shown.last() != ' ' && shown.last() != '\t',
        forall|k: int| 0 <= k < blanks.len() ==> #[trigger] blanks[k] == ' ' || blanks[k] == '\t',
    ensures
        without_blanks(shown + blanks) == shown,
    decreases blanks.len(),
{
    if blanks.len() > 0 {
        let less = blanks.drop_last();
        assert((shown + blanks).drop_last() =~= shown + less);
        assert((shown + blanks).last() == blanks[blanks.len() - 1]);
        lemma_blanks_go(shown, less);
    } else {
        assert(shown + blanks =~= shown);
    }
}

/// Two words with a line break between them are shown in two lines.
pub proof fn law_break_between_words(
    nodes: Seq<NodeModel>,
    i: int,
    xml: bool,
    sink: Sink,
    a: Seq<char>,
    b: Seq<char>,
)
    requires
        0 <= i && i + 3 == nodes.len(),
        is_text_node(nodes[i], a) && is_named(nodes[i + 1], "br"@, xml) && is_text_node(
            nodes[i + 2],
            b,
        ),
        nodes[i].depth == nodes[i + 1].depth == nodes[i + 2].depth,
        is_word(a) && is_word(b),
        ends_in_word(sink),
    ensures
        render_nodes(nodes, i, i + 3, xml, false, sink).text == sink.text + a + seq!['\n'] + b,
{
    lemma_names();
    lemma_feeds();
    assert(subtree_end(nodes, i) == i + 1);
    assert(subtree_end(nodes, i + 1) == i + 2);
    let first = with_chars(sink, a);
    lemma_word(sink, a);
    assert(first.text.last() == a[a.len() - 1]);
    lemma_line_after_word(first.text, 1);
    let second = with_newlines(first, 1);
    lemma_word(second, b);
    assert(render_node(nodes, i, i + 1, xml, false, sink) == first);
    assert(render_node(nodes, i + 1, i + 2, xml, false, first) == second);
    lemma_one_node(nodes, i + 2, xml, false, second);
    assert(render_nodes(nodes, i + 1, i + 3, xml, false, first) == render_nodes(
        nodes,
        i + 2,
        i + 3,
        xml,
        false,
        second,
    ));
}

/// The node `i` is an element of the given name that holds one word, and nothing else.
pub open spec fn holds_word(
    nodes: Seq<NodeModel>,
    i: int,
    name: Seq<char>,
    xml: bool,
    w: Seq<char>,
) -> bool {
    &&& 0 <= i && i + 1 < nodes.len()
    &&& is_named(nodes[i], name, xml)
    &&& is_text_node(nodes[i + 1], w)
    &&& nodes[i + 1].depth > nodes[i].depth
    &&& is_word(w)
}

pub open spec fn attributes_of(node: NodeModel) -> Seq<(Seq<char>, Seq<char>, bool)> {
    match node.kind {
        KindModel::Element { attributes, .. } => attributes,
        _ => seq![],
    }
}

pub open spec fn is_heading_name(name: Seq<char>, level: int) -> bool {
    ||| level == 1 && name == "h1"@
    ||| level == 2 && name == "h2"@
    ||| level == 3 && name == "h3"@
    ||| level == 4 && name == "h4"@
    ||| level == 5 && name == "h5"@
    ||| level == 6 && name == "h6"@
}

/// The names of elements that stand apart from the rest, but for items of lists.
pub open spec fn is_block_name(name: Seq<char>) -> bool {
    name == "p"@ || name == "blockquote"@ || name == "pre"@ || exists|level: int|
        is_heading_name(name, level)
}

proof fn lemma_element(
    nodes: Seq<NodeModel>,
    i: int,
    name: Seq<char>,
    xml: bool,
    w: Seq<char>,
    sink: Sink,
)
    requires
        holds_word(nodes, i, name, xml, w),
        !is_skipped(name) && name != "br"@ && name != "img"@,
    ensures
        ({
            let before = entered(sink, name, attributes_of(nodes[i]));
            let inside = if name == "pre"@ {
                Sink { text: before.text + w, ..before }
            } else {
                Sink { text: spaced(before) + w, pending: false, ..before }
            };
            render_node(nodes, i, i + 2, xml, false, sink) == exited(
                inside,
                name,
                byte_len(before.text) as int,
            )
        }),
{
    let before = entered(sink, name, attributes_of(nodes[i]));
    lemma_one_node(nodes, i + 1, xml, name == "pre"@, before);
    lemma_word(before, w);
    assert(!w.contains('\r')) by {
        if w.contains('\r') {
            let k = choose|k: int| 0 <= k < w.len() && w[k] == '\r';
            assert(is_space(w[k]));
        }
    }
    law_line_feeds(w);
}

pub proof fn lemma_after_base(base: Seq<char>, w: Seq<char>)
    requires
        is_word(w),
    ensures
        text_after(base + w, byte_len(base) as int) == w,
        trimmed(w) == w,
        crate::strings::leading_spaces(w) == 0,
        byte_len(base) < byte_len(base + w),
        !is_space(w.last()),
{
    assert((base + w).take(base.len() as int) =~= base);
    lemma_index_of_offset(base + w, base.len() as int);
    assert((base + w).skip(base.len() as int) =~= w);
    assert(!is_space(w[0]));
    assert(!is_space(w[w.len() - 1]));
    lemma_leading_spaces_is(w, 0);
    assert(trimmed_start(w) =~= w);
    lemma_trimmed_end_is(w, w.len() as int);
    assert(w.take(w.len() as int) =~= w);
    lemma_byte_len_concat(base, w);
    lemma_byte_len_at_least_len(w);
}

/// What stands before the content of a block or an item.
proof fn lemma_block_entered(
    sink: Sink,
    name: Seq<char>,
    attributes: Seq<(Seq<char>, Seq<char>, bool)>,
)
    requires
        ends_in_word(sink),
        is_paragraph(name),
    ensures
        ({
            let before = entered(sink, name, attributes);
            &&& before.text == apart(
                sink.text,
                seq!['\n', '\n'],
                if name == "li"@ {
                    "- "@
                } else {
                    seq![]
                },
            )
            &&& !before.pending
            &&& before.styles == sink.styles
            &&& before.headings == sink.headings
        }),
{
    lemma_feeds();
    lemma_line_after_word(sink.text, 2);
    let apart_text = with_newlines(sink, 2).text;
    assert(apart_text =~= apart(sink.text, seq!['\n', '\n'], seq![]));
    assert(apart_text + "- "@ =~= apart(sink.text, seq!['\n', '\n'], "- "@));
}

proof fn lemma_block_name(name: Seq<char>)
    requires
        is_block_name(name),
    ensures
        is_paragraph(name),
        name != "li"@ && name != "tr"@ && name != "td"@ && name != "th"@ && name != "br"@ && name
            != "img"@,
        !is_skipped(name),
{
    lemma_names();
    if name != "p"@ && name != "blockquote"@ && name != "pre"@ {
        let level = choose|level: int| is_heading_name(name, level);
        assert(is_heading_name(name, level));
    }
}

/// Paragraphs, quotations, preformatted text and headings stand apart: a blank line is before
/// their text, where there is anything before, and one after it.
pub proof fn law_blocks_stand_apart(
    nodes: Seq<NodeModel>,
    i: int,
    name: Seq<char>,
    xml: bool,
    w: Seq<char>,
    sink: Sink,
)
    requires
        holds_word(nodes, i, name, xml, w),
        is_block_name(name),
        ends_in_word(sink),
    ensures
        render_node(nodes, i, i + 2, xml, false, sink).text == apart(
            sink.text,
            seq!['\n', '\n'],
            w,
        ) + seq!['\n', '\n'],
{
    lemma_block_name(name);
    lemma_element(nodes, i, name, xml, w, sink);
    lemma_block_entered(sink, name, attributes_of(nodes[i]));
    lemma_feeds();
    let before = entered(sink, name, attributes_of(nodes[i]));
    let inside = before.text + w;
    lemma_after_base(before.text, w);
    assert(inside.last() == w.last());
    lemma_line_after_word(inside, 2);
    assert(inside =~= apart(sink.text, seq!['\n', '\n'], w));
}

/// An item of a list stands apart like a paragraph, and begins with a hyphen and a blank.
pub proof fn law_list_items_are_marked(
    nodes: Seq<NodeModel>,
    i: int,
    xml: bool,
    w: Seq<char>,
    sink: Sink,
)
    requires
        holds_word(nodes, i, "li"@, xml, w),
        ends_in_word(sink),
    ensures
        render_node(nodes, i, i + 2, xml, false, sink).text == apart(
            sink.text,
            seq!['\n', '\n'],
            seq!['-', ' '] + w,
        ) + seq!['\n', '\n'],
{
    lemma_names();
    reveal_strlit("- ");
    assert("- "@ =~= seq!['-', ' ']);
    lemma_element(nodes, i, "li"@, xml, w, sink);
    lemma_block_entered(sink, "li"@, attributes_of(nodes[i]));
    lemma_feeds();
    let before = entered(sink, "li"@, attributes_of(nodes[i]));
    let inside = before.text + w;
    lemma_after_base(before.text, w);
    assert(inside.last() == w.last());
    lemma_line_after_word(inside, 2);
    assert(inside =~= apart(sink.text, seq!['\n', '\n'], seq!['-', ' '] + w));
}

/// A heading is entered with its text, where it begins, and its level; and its text has the
/// style of a heading of that level.
pub proof fn law_headings_are_entered(
    nodes: Seq<NodeModel>,
    i: int,
    name: Seq<char>,
    level: u8,
    xml: bool,
    w: Seq<char>,
    sink: Sink,
)
    requires
        holds_word(nodes, i, name, xml, w),
        is_heading_name(name, level as int),
        ends_in_word(sink),
    ensures
        ({
            let after = render_node(nodes, i, i + 2, xml, false, sink);
            let start = byte_len(apart(sink.text, seq!['\n', '\n'], seq![])) as int;
            let end = start + byte_len(w);
            &&& after.headings == sink.headings.push(
                TocModel { label: w, offset: start, depth: level as int },
            )
            &&& after.styles == sink.styles.push(
                StyleModel { start, end, kind: TextStyleKind::Heading(level) },
            )
        }),
{
    assert(is_heading_name(name, level as int));
    lemma_block_name(name);
    lemma_names();
    lemma_element(nodes, i, name, xml, w, sink);
    lemma_block_entered(sink, name, attributes_of(nodes[i]));
    let before = entered(sink, name, attributes_of(nodes[i]));
    lemma_after_base(before.text, w);
    lemma_byte_len_concat(before.text, w);
    assert(w.take(0) =~= seq![]);
    assert(byte_len(w.take(0)) == 0);
}

/// The elements of a row of a table are in one line, with a tab between them; the row begins a
/// line and ends it.
#[verifier::rlimit(30)]
pub proof fn law_table_rows(
    nodes: Seq<NodeModel>,
    i: int,
    cell: Seq<char>,
    xml: bool,
    a: Seq<char>,
    b: Seq<char>,
    sink: Sink,
)
    requires
        0 <= i && i + 5 <= nodes.len(),
        is_named(nodes[i], "tr"@, xml),
        cell == "td"@ || cell == "th"@,
        holds_word(nodes, i + 1, cell, xml, a),
        holds_word(nodes, i + 3, cell, xml, b),
        nodes[i + 1].depth == nodes[i + 3].depth > nodes[i].depth,
        ends_in_word(sink),
    ensures
        render_node(nodes, i, i + 5, xml, false, sink).text == apart(
            sink.text,
            seq!['\n'],
            a + seq!['\t'] + b,
        ) + seq!['\n'],
{
    lemma_names();
    lemma_feeds();
    let before = entered(sink, "tr"@, attributes_of(nodes[i]));
    lemma_line_after_word(sink.text, 1);
    assert(before.text =~= apart(sink.text, seq!['\n'], seq![]));
    lemma_cell(nodes, i + 1, cell, xml, a, before);
    let first = render_node(nodes, i + 1, i + 3, xml, false, before);
    lemma_cell(nodes, i + 3, cell, xml, b, first);
    let second = render_node(nodes, i + 3, i + 5, xml, false, first);
    assert(subtree_end(nodes, i + 1) == i + 3) by {
        assert(end_from(nodes, nodes[i + 1].depth, i + 2) == end_from(
            nodes,
            nodes[i + 1].depth,
            i + 3,
        ));
    }
    lemma_two_nodes(nodes, i + 1, i + 3, i + 5, xml, before);
    let shown = before.text + a + seq!['\t'] + b;
    lemma_row_ends(before.text + a + seq!['\t'], b);
    assert(render_node(nodes, i, i + 5, xml, false, sink).text == with_line_start(second.text, 1));
    assert(shown =~= apart(sink.text, seq!['\n'], a + seq!['\t'] + b));
}

proof fn lemma_cell(
    nodes: Seq<NodeModel>,
    i: int,
    cell: Seq<char>,
    xml: bool,
    w: Seq<char>,
    sink: Sink,
)
    requires
        holds_word(nodes, i, cell, xml, w),
        cell == "td"@ || cell == "th"@,
        !sink.pending,
    ensures
        render_node(nodes, i, i + 2, xml, false, sink).text == sink.text + w + seq!['\t'],
        !render_node(nodes, i, i + 2, xml, false, sink).pending,
{
    lemma_names();
    reveal_strlit("\t");
    assert("\t"@ =~= seq!['\t']);
    lemma_element(nodes, i, cell, xml, w, sink);
}

proof fn lemma_row_ends(base: Seq<char>, w: Seq<char>)
    requires
        is_word(w),
    ensures
        with_line_start(base + w + seq!['\t'], 1) == base + w + seq!['\n'],
{
    let shown = base + w;
    lemma_feeds();
    lemma_after_base(base, w);
    assert(shown.last() == w.last());
    lemma_blanks_go(shown, seq!['\t']);
    lemma_blanks_go(shown, seq![]);
    assert(shown + seq![] =~= shown);
    lemma_line_after_word(shown, 1);
}

/// Two nodes that fill a range.
proof fn lemma_two_nodes(
    nodes: Seq<NodeModel>,
    i: int,
    j: int,
    end: int,
    xml: bool,
    sink: Sink,
)
    requires
        0 <= i < j < end <= nodes.len(),
        subtree_end(nodes, i) == j,
        nodes[j].depth < nodes[j + 1].depth,
        j + 2 == end,
    ensures
        render_nodes(nodes, i, end, xml, false, sink) == render_node(
            nodes,
            j,
            end,
            xml,
            false,
            render_node(nodes, i, j, xml, false, sink),
        ),
{
    let first = render_node(nodes, i, j, xml, false, sink);
    let next = subtree_end(nodes, j);
    assert(next == end_from(nodes, nodes[j].depth, j + 2));
    lemma_end_from(nodes, nodes[j].depth, j + 2);
    assert(render_nodes(nodes, i, end, xml, false, sink) == render_nodes(
        nodes,
        j,
        end,
        xml,
        false,
        first,
    ));
    if j < next <= end {
        assert(render_nodes(
            nodes,
            end,
            end,
            xml,
            false,
            render_node(nodes, j, end, xml, false, first),
        ) == render_node(nodes, j, end, xml, false, first));
    }
}

pub proof fn lemma_end_from(nodes: Seq<NodeModel>, depth: int, j: int)
    ensures
        end_from(nodes, depth, j) >= j,
    decreases nodes.len() - j,
{
    if j < nodes.len() && nodes[j].depth > depth {
        lemma_end_from(nodes, depth, j + 1);
    }
}

/// Any other element shows its text where it stands, with nothing before it or after it.
/// Emphasis and strong text have their styles on it, and other elements have none.
pub proof fn law_inline_elements(
    nodes: Seq<NodeModel>,
    i: int,
    name: Seq<char>,
    xml: bool,
    w: Seq<char>,
    sink: Sink,
)
    requires
        holds_word(nodes, i, name, xml, w),
        !is_block_name(name),
        name != "li"@ && name != "tr"@ && name != "td"@ && name != "th"@ && name != "br"@ && name
            != "img"@,
        name != "head"@ && name != "script"@ && name != "style"@ && name != "noscript"@ && name
            != "svg"@ && name != "nav"@,
        ends_in_word(sink),
    ensures
        ({
            let after = render_node(nodes, i, i + 2, xml, false, sink);
            let start = byte_len(sink.text) as int;
            let end = byte_len(sink.text + w) as int;
            &&& after.text == sink.text + w
            &&& ends_in_word(after)
            &&& after.headings == sink.headings
            &&& name == "em"@ || name == "i"@ ==> after.styles == sink.styles.push(
                StyleModel { start, end, kind: TextStyleKind::Emphasis },
            )
            &&& name == "strong"@ || name == "b"@ ==> after.styles == sink.styles.push(
                StyleModel { start, end, kind: TextStyleKind::Strong },
            )
            &&& name != "em"@ && name != "i"@ && name != "strong"@ && name != "b"@ ==> after.styles
                == sink.styles
        }),
{
    lemma_inline_name(name);
    lemma_element(nodes, i, name, xml, w, sink);
    lemma_after_base(sink.text, w);
    assert((sink.text + w).last() == w.last());
}

proof fn lemma_inline_name(name: Seq<char>)
    requires
        !is_block_name(name),
        name != "li"@,
        name != "head"@ && name != "script"@ && name != "style"@ && name != "noscript"@ && name
            != "svg"@ && name != "nav"@,
    ensures
        !is_paragraph(name),
        heading_level_of(name) is None,
        !is_skipped(name),
        name == "em"@ || name == "i"@ ==> style_of(name) == Some(TextStyleKind::Emphasis),
        name == "strong"@ || name == "b"@ ==> style_of(name) == Some(TextStyleKind::Strong),
        name != "em"@ && name != "i"@ && name != "strong"@ && name != "b"@ ==> style_of(name)
            is None,
{
    lemma_names();
    assert(!is_heading_name(name, 1) && !is_heading_name(name, 2) && !is_heading_name(name, 3)
        && !is_heading_name(name, 4) && !is_heading_name(name, 5) && !is_heading_name(name, 6));
}

/// Nothing of a head, a script, a style sheet, a picture that is drawn or a navigation is shown.
pub proof fn law_hidden_elements(
    nodes: Seq<NodeModel>,
    i: int,
    end: int,
    name: Seq<char>,
    xml: bool,
    preformatted: bool,
    sink: Sink,
)
    requires
        0 <= i < end,
        is_named(nodes[i], name, xml),
        name == "head"@ || name == "script"@ || name == "style"@ || name == "noscript"@ || name
            == "svg"@ || name == "nav"@,
    ensures
        render_node(nodes, i, end, xml, preformatted, sink) == sink,
{
}

/// An image is shown as a word in brackets where it stands.
pub proof fn law_images(
    nodes: Seq<NodeModel>,
    i: int,
    end: int,
    xml: bool,
    preformatted: bool,
    sink: Sink,
)
    requires
        0 <= i < end,
        is_named(nodes[i], "img"@, xml),
        ends_in_word(sink),
    ensures
        render_node(nodes, i, end, xml, preformatted, sink) == (Sink {
            text: sink.text + "[Image]"@,
            ..sink
        }),
{
    lemma_names();
}

/// White space between two words is shown as one blank, however much there is, and none is shown
/// at the start.
pub proof fn law_white_space_is_one_blank(
    sink: Sink,
    a: Seq<char>,
    space: Seq<char>,
    b: Seq<char>,
)
    requires
        is_word(a) && is_word(b),
        space.len() > 0,
        forall|i: int| 0 <= i < space.len() ==> is_space(#[trigger] space[i]),
        ends_in_word(sink),
    ensures
        with_text(sink, false, a + space + b).text == sink.text + a + seq![' '] + b,
        with_text(empty_sink(), false, space + b).text == b,
{
    lemma_chars_concat(sink, a + space, b);
    lemma_chars_concat(sink, a, space);
    lemma_word(sink, a);
    let first = with_chars(sink, a);
    assert(first.text.last() == a[a.len() - 1]);
    lemma_space(first, space);
    let second = with_chars(first, space);
    lemma_word(second, b);
    assert(!is_space(first.text.last()));
    assert(spaced(second) =~= sink.text + a + seq![' ']);
    lemma_chars_concat(empty_sink(), space, b);
    lemma_space(empty_sink(), space);
    lemma_word(with_chars(empty_sink(), space), b);
    assert(seq![] + b =~= b);
}

/// Preformatted text is shown with all its white space and all its lines.
pub proof fn law_preformatted_text_is_kept(sink: Sink, text: Seq<char>)
    requires
        !text.contains('\r'),
    ensures
        with_text(sink, true, text).text == sink.text + text,
{
    law_line_feeds(text);
}

/// The first attribute of the given name, among those that are found by it, has the value.
pub open spec fn has_attribute(
    attributes: Seq<(Seq<char>, Seq<char>, bool)>,
    k: int,
    name: Seq<char>,
    value: Seq<char>,
) -> bool {
    &&& 0 <= k < attributes.len()
    &&& attributes[k] == (name, value, true)
    &&& forall|j: int| 0 <= j < k ==> (#[trigger] attributes[j]).0 != name
}

proof fn lemma_attribute(
    attributes: Seq<(Seq<char>, Seq<char>, bool)>,
    k: int,
    name: Seq<char>,
    value: Seq<char>,
)
    requires
        has_attribute(attributes, k, name, value),
    ensures
        attribute_of(attributes, name) == Some(value),
    decreases k,
{
    if k > 0 {
        let rest = attributes.drop_first();
        assert(attributes[0].0 != name);
        assert forall|j: int| 0 <= j < k - 1 implies (#[trigger] rest[j]).0 != name by {
            assert(rest[j] == attributes[j + 1]);
        }
        lemma_attribute(rest, k - 1, name, value);
    }
}

proof fn lemma_no_attribute(attributes: Seq<(Seq<char>, Seq<char>, bool)>, name: Seq<char>)
    requires
        forall|j: int| 0 <= j < attributes.len() ==> (#[trigger] attributes[j]).0 != name,
    ensures
        attribute_of(attributes, name) is None,
    decreases attributes.len(),
{
    if attributes.len() > 0 {
        let rest = attributes.drop_first();
        assert forall|j: int| 0 <= j < rest.len() implies (#[trigger] rest[j]).0 != name by {
            assert(rest[j] == attributes[j + 1]);
        }
        lemma_no_attribute(rest, name);
    }
}

/// An element with an id is an anchor at the place where its text begins, unless there was one
/// of that name before; so is one with a name that is a link. An element with neither is none.
pub proof fn law_anchors(
    sink: Sink,
    name: Seq<char>,
    attributes: Seq<(Seq<char>, Seq<char>, bool)>,
    k: int,
    id: Seq<char>,
)
    requires
        id.len() > 0,
        forall|j: int| 0 <= j < sink.anchors.len() ==> (#[trigger] sink.anchors[j]).0 != id,
    ensures
        ({
            let before = entered(sink, name, attributes);
            let none = forall|j: int|
                0 <= j < attributes.len() ==> (#[trigger] attributes[j]).0 != "id"@;
            let unnamed = forall|j: int|
                0 <= j < attributes.len() ==> (#[trigger] attributes[j]).0 != "name"@;
            &&& has_attribute(attributes, k, "id"@, id) && (unnamed || name != "a"@)
                ==> before.anchors == sink.anchors.push((id, byte_len(before.text) as int))
            &&& none && name == "a"@ && has_attribute(attributes, k, "name"@, id) ==> before.anchors
                == sink.anchors.push((id, byte_len(before.text) as int))
            &&& none && (unnamed || name != "a"@) ==> before.anchors == sink.anchors
        }),
{
    reveal_strlit("a");
    reveal_strlit("li");
    reveal_strlit("tr");
    if has_attribute(attributes, k, "id"@, id) {
        lemma_attribute(attributes, k, "id"@, id);
    }
    if has_attribute(attributes, k, "name"@, id) {
        lemma_attribute(attributes, k, "name"@, id);
    }
    if forall|j: int| 0 <= j < attributes.len() ==> (#[trigger] attributes[j]).0 != "id"@ {
        lemma_no_attribute(attributes, "id"@);
    }
    if forall|j: int| 0 <= j < attributes.len() ==> (#[trigger] attributes[j]).0 != "name"@ {
        lemma_no_attribute(attributes, "name"@);
    }
}

/// A chapter is what was shown of it, without the white space at its end and with all the rest.
pub proof fn law_chapter_text(sink: Sink)
    ensures
        ({
            let text = finished(sink).text;
            &&& begins(sink.text, text)
            &&& text.len() > 0 ==> !is_space(text.last())
            &&& forall|i: int| text.len() <= i < sink.text.len() ==> is_space(#[trigger] sink.text[i])
        }),
{
    lemma_trimmed_end(sink.text);
}

} // verus!

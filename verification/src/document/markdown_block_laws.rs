//! What the code blocks, the HTML and the metadata of a Markdown document become.
use vstd::prelude::*;

use crate::document::events::{RawEventModel, TagKind};
use crate::document::markdown::{
    add_code, front_matter, metadata_of_lines, unquoted, with_metadata_line, RenderModel,
};
use crate::document::markdown_laws::{
    after, ended, is_shown_word, is_tag, law_tags_have_names, lemma_add_text, lemma_prefix,
};
use crate::document::styled_text::{add_newlines, Styled};
use crate::document::xhtml_laws::{apart, is_word, lemma_feeds, lemma_line_after_word};
use crate::document::{StyleModel, TextStyleKind};
use crate::strings::{
    ascii_lower_all, begins, is_control_char, is_space, law_line_feeds, lemma_position_is, position,
    repeated, trimmed,
};
use crate::text::byte_len;

verus! {

/// A code block has been opened, and text is written to it.
pub open spec fn writes_code(r: RenderModel) -> bool {
    &&& r.raw is None
    &&& r.table is None
    &&& r.mark is None
    &&& r.code is Some
    &&& r.sink.image is None
}

/// What the first line of a piece of code begins with, where it begins a line.
pub open spec fn code_start(r: RenderModel) -> Seq<char> {
    if r.code == Some(true) {
        repeated("│ "@, r.quotes) + "    "@
    } else {
        seq![]
    }
}

proof fn lemma_code_word(t: Styled, begins_line: bool, quotes: nat, w: Seq<char>)
    requires
        t.image is None,
        w.len() > 0,
        forall|i: int| 0 <= i < w.len() ==> !is_control_char(#[trigger] w[i]),
    ensures
        add_code(t, begins_line, quotes, w) == (
            Styled {
                text: t.text + (if begins_line {
                    repeated("│ "@, quotes) + "    "@
                } else {
                    seq![]
                }) + w,
                ..t
            },
            false,
        ),
    decreases w.len(),
{
    let less = w.drop_last();
    let start = if begins_line {
        repeated("│ "@, quotes) + "    "@
    } else {
        seq![]
    };
    assert(!is_control_char(w[w.len() - 1]));
    assert(w.last() != '\n' && w.last() != '\t');
    if less.len() > 0 {
        assert forall|i: int| 0 <= i < less.len() implies !is_control_char(#[trigger] less[i]) by {
            assert(less[i] == w[i]);
        }
        lemma_code_word(t, begins_line, quotes, less);
        assert((t.text + start + less).push(w.last()) =~= t.text + start + w);
    } else {
        assert(add_code(t, begins_line, quotes, less) == (t, begins_line));
        reveal_strlit("    ");
        lemma_prefix(t, quotes);
        let bars = Styled { text: t.text + repeated("│ "@, quotes), ..t };
        lemma_add_text(bars, "    "@);
        if begins_line {
            assert((bars.text + "    "@).push(w.last()) =~= t.text + start + w);
        } else {
            assert(t.text.push(w.last()) =~= t.text + start + w);
        }
    }
}

proof fn lemma_code_append(t: Styled, begins_line: bool, quotes: nat, a: Seq<char>, b: Seq<char>)
    ensures
        ({
            let (middle, now) = add_code(t, begins_line, quotes, a);
            add_code(t, begins_line, quotes, a + b) == add_code(middle, now, quotes, b)
        }),
    decreases b.len(),
{
    if b.len() == 0 {
        assert(a + b =~= a);
    } else {
        lemma_code_append(t, begins_line, quotes, a, b.drop_last());
        assert((a + b).drop_last() =~= a + b.drop_last());
        assert((a + b).last() == b.last());
    }
}

/// The lines of a code block stay lines, each indented by four blanks behind the bars of the
/// quotations that it stands in.
#[verifier::rlimit(30)]
pub proof fn law_code_lines(r: RenderModel, a: Seq<char>, b: Seq<char>)
    requires
        writes_code(r),
        is_shown_word(a) && is_shown_word(b),
    ensures
        ({
            let next = after(r, RawEventModel::TextShown(a + seq!['\n'] + b));
            &&& next.sink.text == r.sink.text + code_start(r) + a + seq!['\n'] + repeated(
                "│ "@,
                r.quotes,
            ) + "    "@ + b
            &&& next.code == Some(false)
        }),
        ({
            let next = after(r, RawEventModel::TextShown(a + seq!['\n']));
            &&& next.sink.text == r.sink.text + code_start(r) + a + seq!['\n']
            &&& next.code == Some(true)
        }),
{
    reveal(after);
    let begins_line = r.code->0;
    let line = a + seq!['\n'];
    lemma_no_return(a);
    lemma_no_return(b);
    law_line_feeds(line + b);
    law_line_feeds(line);
    lemma_code_word(r.sink, begins_line, r.quotes, a);
    lemma_code_append(r.sink, begins_line, r.quotes, a, seq!['\n']);
    lemma_code_append(r.sink, begins_line, r.quotes, line, b);
    let one = add_code(r.sink, begins_line, r.quotes, a).0;
    lemma_feeds();
    assert(!is_space(a[a.len() - 1]));
    assert(one.text.last() == a.last());
    lemma_line_after_word(one.text, 1);
    assert(seq!['\n'].drop_last() =~= seq![]);
    assert(add_code(one, false, r.quotes, seq![]) == (one, false));
    let two = add_code(one, false, r.quotes, seq!['\n']).0;
    assert(two == add_newlines(one, 1));
    assert(two.text == one.text + seq!['\n']);
    lemma_code_word(two, true, r.quotes, b);
    assert(two.text + (repeated("│ "@, r.quotes) + "    "@) + b =~= r.sink.text + code_start(r) + a
        + seq!['\n'] + repeated("│ "@, r.quotes) + "    "@ + b);
}

proof fn lemma_no_return(w: Seq<char>)
    requires
        is_shown_word(w),
    ensures
        !w.contains('\r'),
{
    if w.contains('\r') {
        let k = choose|k: int| 0 <= k < w.len() && w[k] == '\r';
        assert(is_control_char(w[k]));
    }
}

/// A code block stands apart, and has the style of code; its first line begins a line.
pub proof fn law_code_block(r: RenderModel, tag: Seq<char>)
    requires
        r.raw is None && r.table is None && r.mark is None && r.sink.image is None,
        r.sink.text.len() > 0 ==> !is_space(r.sink.text.last()),
        is_tag(tag, "CodeBlock"@),
    ensures
        ({
            let one = after(r, RawEventModel::Opened(tag));
            let end = after(r, ended(tag));
            let start = byte_len(one.sink.text) as int;
            &&& one.code == Some(true)
            &&& one.sink.text == apart(r.sink.text, seq!['\n', '\n'], seq![])
            &&& one.sink.open == r.sink.open.push((TextStyleKind::Code, start))
            &&& end.code is None
            &&& end.sink.text == apart(r.sink.text, seq!['\n', '\n'], seq![])
            &&& r.sink.open.len() > 0 && r.sink.open.last().0 == TextStyleKind::Code ==> {
                let begun = r.sink.open.last().1;
                &&& end.sink.open == r.sink.open.drop_last()
                &&& begun < byte_len(r.sink.text) ==> end.sink.styles == r.sink.styles.push(
                    StyleModel {
                        start: begun,
                        end: byte_len(r.sink.text) as int,
                        kind: TextStyleKind::Code,
                    },
                )
            }
        }),
{
    reveal(after);
    law_tags_have_names(tag, "CodeBlock"@, TagKind::CodeBlock);
    lemma_feeds();
    lemma_line_after_word(r.sink.text, 2);
    assert(add_newlines(r.sink, 2).text =~= apart(r.sink.text, seq!['\n', '\n'], seq![]));
    if r.sink.open.len() > 0 && r.sink.open.last().0 == TextStyleKind::Code {
        assert(r.sink.open.remove(r.sink.open.len() - 1) =~= r.sink.open.drop_last());
    }
}

/// A line break that is written as HTML begins a new line, as a hard break does.
pub proof fn law_html_break(r: RenderModel, html: Seq<char>)
    requires
        r.raw is None && r.table is None && r.sink.image is None,
        r.sink.text.len() > 0 && !is_space(r.sink.text.last()),
        begins(ascii_lower_all(trimmed(html)), "<br"@),
    ensures
        after(r, RawEventModel::InlineHtmlShown(html)).sink.text == r.sink.text + seq!['\n']
            + repeated("│ "@, r.quotes),
        after(r, RawEventModel::HtmlShown(html)).sink.text == r.sink.text + seq!['\n'] + repeated(
            "│ "@,
            r.quotes,
        ),
{
    reveal(after);
    lemma_feeds();
    lemma_line_after_word(r.sink.text, 1);
    lemma_prefix(add_newlines(r.sink, 1), r.quotes);
}

// ---------------------------------------------------------------------------------------
// Metadata
// ---------------------------------------------------------------------------------------

/// The line gives the key a value: the key before the first colon, in any case, and the value
/// after it, which is not empty.
pub open spec fn gives(line: Seq<char>, key: Seq<char>, value: Seq<char>) -> bool {
    exists|k: int|
        0 <= k < line.len() && #[trigger] line[k] == ':' && (forall|i: int|
            0 <= i < k ==> #[trigger] line[i] != ':') && ascii_lower_all(trimmed(line.take(k)))
            == key && unquoted(trimmed(line.skip(k + 1))) == value && value.len() > 0
}

/// The line gives a value to one of the two keys.
pub open spec fn gives_either(
    line: Seq<char>,
    key: Seq<char>,
    other: Seq<char>,
    value: Seq<char>,
) -> bool {
    gives(line, key, value) || gives(line, other, value)
}

/// The first value that the lines give to a key, or to the other one.
pub open spec fn is_first_given(
    lines: Seq<Seq<char>>,
    key: Seq<char>,
    other: Seq<char>,
    value: Option<Seq<char>>,
) -> bool {
    match value {
        Some(value) => exists|i: int|
            0 <= i < lines.len() && #[trigger] gives_either(lines[i], key, other, value) && (
            forall|j: int, earlier: Seq<char>|
                0 <= j < i ==> !#[trigger] gives_either(lines[j], key, other, earlier)),
        None => forall|j: int, earlier: Seq<char>|
            0 <= j < lines.len() ==> !#[trigger] gives_either(lines[j], key, other, earlier),
    }
}

proof fn lemma_keys_differ()
    ensures
        "title"@.len() == 5,
        "author"@.len() == 6,
        "language"@.len() == 8,
        "lang"@.len() == 4,
{
    reveal_strlit("title");
    reveal_strlit("author");
    reveal_strlit("language");
    reveal_strlit("lang");
}

/// What a line gives a key is what stands behind its first colon.
proof fn lemma_gives(line: Seq<char>, key: Seq<char>, value: Seq<char>)
    ensures
        gives(line, key, value) <==> position(line, ':') < line.len() && ascii_lower_all(
            trimmed(line.take(position(line, ':') as int)),
        ) == key && unquoted(trimmed(line.skip(position(line, ':') as int + 1))) == value && value.len()
            > 0,
{
    if gives(line, key, value) {
        let k = choose|k: int|
            0 <= k < line.len() && #[trigger] line[k] == ':' && (forall|i: int|
                0 <= i < k ==> #[trigger] line[i] != ':') && ascii_lower_all(trimmed(line.take(k)))
                == key && unquoted(trimmed(line.skip(k + 1))) == value && value.len() > 0;
        lemma_position_is(line, ':', k);
    }
    if position(line, ':') < line.len() {
        crate::strings::lemma_position(line, ':');
        let k = position(line, ':') as int;
        assert(line[k] == ':');
    }
}

proof fn lemma_first_given(
    lines: Seq<Seq<char>>,
    key: Seq<char>,
    other: Seq<char>,
    before: Option<Seq<char>>,
    after: Option<Seq<char>>,
)
    requires
        lines.len() > 0,
        is_first_given(lines.drop_last(), key, other, before),
        before is Some ==> after == before,
        before is None && after is Some ==> gives_either(lines.last(), key, other, after->0),
        before is None && after is None ==> forall|value: Seq<char>|
            !#[trigger] gives_either(lines.last(), key, other, value),
    ensures
        is_first_given(lines, key, other, after),
{
    let less = lines.drop_last();
    assert forall|j: int| 0 <= j < less.len() implies less[j] == #[trigger] lines[j] by {}
    if before is Some {
        let i = choose|i: int|
            0 <= i < less.len() && #[trigger] gives_either(less[i], key, other, before->0) && (
            forall|j: int, earlier: Seq<char>|
                0 <= j < i ==> !#[trigger] gives_either(less[j], key, other, earlier));
        assert(less[i] == lines[i]);
        assert(gives_either(lines[i], key, other, before->0));
        assert forall|j: int, earlier: Seq<char>| 0 <= j < i implies !#[trigger] gives_either(
            lines[j],
            key,
            other,
            earlier,
        ) by {
            assert(!gives_either(less[j], key, other, earlier));
        }
    } else {
        let n = lines.len() - 1;
        assert forall|j: int, earlier: Seq<char>| 0 <= j < n implies !#[trigger] gives_either(
            lines[j],
            key,
            other,
            earlier,
        ) by {
            assert(!gives_either(less[j], key, other, earlier));
        }
        if after is Some {
            assert(gives_either(lines[n], key, other, after->0));
        } else {
            assert forall|j: int, earlier: Seq<char>|
                0 <= j < lines.len() implies !#[trigger] gives_either(
                lines[j],
                key,
                other,
                earlier,
            ) by {
                if j == n {
                    assert(!gives_either(lines.last(), key, other, earlier));
                }
            }
        }
    }
}

/// The title, the author and the language of a metadata block are the first values that its
/// lines give to their keys.
pub proof fn law_metadata_lines(lines: Seq<Seq<char>>)
    ensures
        ({
            let metadata = metadata_of_lines(lines);
            &&& is_first_given(lines, "title"@, "title"@, metadata.title)
            &&& is_first_given(lines, "author"@, "author"@, metadata.author)
            &&& is_first_given(lines, "language"@, "lang"@, metadata.language)
        }),
    decreases lines.len(),
{
    if lines.len() > 0 {
        law_metadata_lines(lines.drop_last());
        let before = metadata_of_lines(lines.drop_last());
        let now = metadata_of_lines(lines);
        let line = lines.last();
        lemma_keys_differ();
        assert(now == with_metadata_line(before, line));
        lemma_line_gives(line, "title"@);
        lemma_line_gives(line, "author"@);
        lemma_line_gives(line, "language"@);
        lemma_line_gives(line, "lang"@);
        lemma_first_given(lines, "title"@, "title"@, before.title, now.title);
        lemma_first_given(lines, "author"@, "author"@, before.author, now.author);
        lemma_first_given(lines, "language"@, "lang"@, before.language, now.language);
    }
}

proof fn lemma_line_gives(line: Seq<char>, key: Seq<char>)
    ensures
        forall|value: Seq<char>|
            #[trigger] gives(line, key, value) <==> position(line, ':') < line.len()
                && ascii_lower_all(trimmed(line.take(position(line, ':') as int))) == key
                && unquoted(trimmed(line.skip(position(line, ':') as int + 1))) == value && value.len()
                > 0,
{
    assert forall|value: Seq<char>|
        #[trigger] gives(line, key, value) <==> position(line, ':') < line.len()
            && ascii_lower_all(trimmed(line.take(position(line, ':') as int))) == key && unquoted(
            trimmed(line.skip(position(line, ':') as int + 1)),
        ) == value && value.len() > 0 by {
        lemma_gives(line, key, value);
    }
}

/// A value may stand in quotes, which do not belong to it.
pub proof fn law_quoted_value(w: Seq<char>, quote: char)
    requires
        is_word(w),
    ensures
        quote == '"' || quote == '\'' ==> unquoted(seq![quote] + w + seq![quote]) == trimmed(w),
        w[0] != '"' && w[0] != '\'' ==> unquoted(w) == w,
{
    let quoted = seq![quote] + w + seq![quote];
    assert(quoted.subrange(1, quoted.len() - 1) =~= w);
}

/// A metadata block is not shown; what it says counts where nothing was said before.
pub proof fn law_metadata_block(r: RenderModel, tag: Seq<char>, raw: Seq<char>)
    requires
        r.raw is None && r.table is None,
        is_tag(tag, "MetadataBlock"@),
    ensures
        ({
            let one = after(r, RawEventModel::Opened(tag));
            let two = after(one, RawEventModel::TextShown(raw));
            let end = after(two, ended(tag));
            let said = front_matter(raw);
            &&& end.sink == r.sink
            &&& end.raw is None
            &&& end.metadata.title == (if r.metadata.title is Some {
                r.metadata.title
            } else {
                said.title
            })
            &&& end.metadata.author == (if r.metadata.author is Some {
                r.metadata.author
            } else {
                said.author
            })
            &&& end.metadata.language == (if r.metadata.language is Some {
                r.metadata.language
            } else {
                said.language
            })
        }),
{
    reveal(after);
    law_tags_have_names(tag, "MetadataBlock"@, TagKind::Metadata);
    assert(seq![] + raw =~= raw);
}

} // verus!

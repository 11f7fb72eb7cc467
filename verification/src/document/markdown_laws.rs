//! What the parts of a Markdown document look like as plain text.
use vstd::prelude::*;

use crate::buffer::trailing_feeds;
use crate::document::archive::until;
use crate::document::events::{
    heading_level, tag_kind, understood, EventModel, RawEventModel, TagKind,
};
use crate::document::markdown::{
    add_line_prefix, finished_markdown, item_started, list_ended, list_started, step, steps, RenderModel,
};
use crate::document::styled_text::{
    add_chars, add_destination, add_newlines, add_text, close_image, close_link, open_style,
    sanitised, without_controls, Styled,
};
use crate::document::xhtml_laws::{
    apart, is_word, lemma_after_base, lemma_feeds, lemma_line_after_word,
};
use crate::document::{StyleModel, TextStyleKind, TocModel};
use crate::strings::{
    begins, collapsed, decimal, is_control_char, is_space, law_line_feeds, lemma_position_is, repeated,
};
use crate::text::{byte_len, lemma_byte_len_concat};

verus! {

/// A word that is shown as it is: none of its characters is a control character.
pub open spec fn is_shown_word(w: Seq<char>) -> bool {
    is_word(w) && forall|i: int| 0 <= i < w.len() ==> !is_control_char(#[trigger] w[i])
}

/// Text is written outside of tables, code blocks, images and metadata, and after a word or at
/// the start.
pub open spec fn writes_text(r: RenderModel) -> bool {
    &&& r.raw is None
    &&& r.table is None
    &&& r.code is None
    &&& r.sink.image is None
    &&& r.sink.text.len() > 0 ==> !is_space(r.sink.text.last())
}

/// What is rendered after one more event of the parser.
#[verifier::opaque]
pub open spec fn after(r: RenderModel, event: RawEventModel) -> RenderModel {
    step(r, understood(event))
}

/// The name of a tag, with or without more in brackets.
pub open spec fn is_tag(tag: Seq<char>, name: Seq<char>) -> bool {
    tag == name || begins(tag, name.push('('))
}

/// The end of a tag.
pub open spec fn ended(tag: Seq<char>) -> RawEventModel {
    RawEventModel::Named("End("@ + tag + ")"@)
}

/// Events are taken one after the other.
pub proof fn law_events_in_turn(events: Seq<RawEventModel>, event: RawEventModel)
    ensures
        steps(events.push(event)) == after(steps(events), event),
{
    reveal(after);
    assert(events.push(event).drop_last() =~= events);
}

// ---------------------------------------------------------------------------------------
// Proofs
// ---------------------------------------------------------------------------------------

proof fn lemma_add_chars(t: Styled, w: Seq<char>)
    requires
        forall|i: int| 0 <= i < w.len() ==> !is_control_char(#[trigger] w[i]),
        t.image is None,
    ensures
        add_chars(t, w) == (Styled { text: t.text + w, ..t }),
    decreases w.len(),
{
    if w.len() > 0 {
        let less = w.drop_last();
        assert(!is_control_char(w[w.len() - 1]));
        assert forall|i: int| 0 <= i < less.len() implies !is_control_char(#[trigger] less[i]) by {
            assert(less[i] == w[i]);
        }
        lemma_add_chars(t, less);
        assert((t.text + less).push(w.last()) =~= t.text + w);
    } else {
        assert(t.text + w =~= t.text);
    }
}

/// Text without control characters is written as it is.
pub proof fn lemma_add_text(t: Styled, w: Seq<char>)
    requires
        forall|i: int| 0 <= i < w.len() ==> !is_control_char(#[trigger] w[i]),
        t.image is None,
    ensures
        add_text(t, w) == (Styled { text: t.text + w, ..t }),
{
    assert(!w.contains('\r')) by {
        if w.contains('\r') {
            let k = choose|k: int| 0 <= k < w.len() && w[k] == '\r';
            assert(is_control_char(w[k]));
        }
    }
    law_line_feeds(w);
    lemma_add_chars(t, w);
}

proof fn lemma_until(tag: Seq<char>, name: Seq<char>)
    requires
        is_tag(tag, name),
        forall|i: int| 0 <= i < name.len() ==> #[trigger] name[i] != '(',
    ensures
        until(tag, '(') == name,
{
    let n = name.len() as int;
    if tag == name {
        lemma_position_is(tag, '(', n);
    } else {
        assert(tag.take(n + 1) == name.push('('));
        assert(tag.take(n + 1)[n] == '(');
        assert forall|i: int| 0 <= i < n implies #[trigger] tag[i] != '(' by {
            assert(tag.take(n + 1)[i] == name.push('(')[i]);
            assert(name[i] != '(');
        }
        lemma_position_is(tag, '(', n);
        assert(tag.take(n) =~= name) by {
            assert forall|i: int| 0 <= i < n implies tag[i] == name[i] by {
                assert(tag.take(n + 1)[i] == name.push('(')[i]);
            }
        }
    }
    assert(tag.take(n) =~= name);
}

proof fn lemma_tag_names()
    ensures
        "Paragraph"@.len() == 9 && "Paragraph"@[0] == 'P',
        "Heading"@.len() == 7,
        "BlockQuote"@.len() == 10,
        "CodeBlock"@.len() == 9 && "CodeBlock"@[0] == 'C',
        "List"@.len() == 4 && "List"@[2] == 's' && "List"@[0] == 'L',
        "Item"@.len() == 4 && "Item"@[0] == 'I',
        "Emphasis"@.len() == 8 && "Emphasis"@[0] == 'E',
        "Strong"@.len() == 6,
        "Strikethrough"@.len() == 13 && "Strikethrough"@[0] == 'S',
        "Link"@.len() == 4 && "Link"@[2] == 'n' && "Link"@[0] == 'L',
        "Image"@.len() == 5 && "Image"@[0] == 'I',
        "Table"@.len() == 5 && "Table"@[0] == 'T',
        "TableHead"@.len() == 9 && "TableHead"@[0] == 'T' && "TableHead"@[5] == 'H',
        "TableRow"@.len() == 8 && "TableRow"@[0] == 'T',
        "TableCell"@.len() == 9 && "TableCell"@[0] == 'T' && "TableCell"@[5] == 'C',
        "MetadataBlock"@.len() == 13 && "MetadataBlock"@[0] == 'M',
        forall|i: int| 0 <= i < 9 ==> #[trigger] "Paragraph"@[i] != '(',
        forall|i: int| 0 <= i < 7 ==> #[trigger] "Heading"@[i] != '(',
        forall|i: int| 0 <= i < 10 ==> #[trigger] "BlockQuote"@[i] != '(',
        forall|i: int| 0 <= i < 9 ==> #[trigger] "CodeBlock"@[i] != '(',
        forall|i: int| 0 <= i < 4 ==> #[trigger] "List"@[i] != '(',
        forall|i: int| 0 <= i < 4 ==> #[trigger] "Item"@[i] != '(',
        forall|i: int| 0 <= i < 8 ==> #[trigger] "Emphasis"@[i] != '(',
        forall|i: int| 0 <= i < 6 ==> #[trigger] "Strong"@[i] != '(',
        forall|i: int| 0 <= i < 13 ==> #[trigger] "Strikethrough"@[i] != '(',
        forall|i: int| 0 <= i < 4 ==> #[trigger] "Link"@[i] != '(',
        forall|i: int| 0 <= i < 5 ==> #[trigger] "Image"@[i] != '(',
        forall|i: int| 0 <= i < 13 ==> #[trigger] "MetadataBlock"@[i] != '(',
{
    reveal_strlit("Paragraph");
    reveal_strlit("Heading");
    reveal_strlit("BlockQuote");
    reveal_strlit("CodeBlock");
    reveal_strlit("List");
    reveal_strlit("Item");
    reveal_strlit("Emphasis");
    reveal_strlit("Strong");
    reveal_strlit("Strikethrough");
    reveal_strlit("Link");
    reveal_strlit("Image");
    reveal_strlit("Table");
    reveal_strlit("TableHead");
    reveal_strlit("TableRow");
    reveal_strlit("TableCell");
    reveal_strlit("MetadataBlock");
}

/// What the tag of the given name is.
pub open spec fn kind_named(name: Seq<char>, kind: TagKind) -> bool {
    match kind {
        TagKind::Paragraph => name == "Paragraph"@,
        TagKind::Heading => name == "Heading"@,
        TagKind::BlockQuote => name == "BlockQuote"@,
        TagKind::CodeBlock => name == "CodeBlock"@,
        TagKind::List => name == "List"@,
        TagKind::Item => name == "Item"@,
        TagKind::Emphasis => name == "Emphasis"@,
        TagKind::Strong => name == "Strong"@,
        TagKind::Strikethrough => name == "Strikethrough"@,
        TagKind::Link => name == "Link"@,
        TagKind::Image => name == "Image"@,
        TagKind::Metadata => name == "MetadataBlock"@,
        _ => false,
    }
}

/// Tags are known by their names, where they begin and where they end, whatever is in brackets.
pub proof fn law_tags_have_names(tag: Seq<char>, name: Seq<char>, kind: TagKind)
    requires
        kind_named(name, kind),
        is_tag(tag, name),
    ensures
        kind != TagKind::Heading ==> understood(RawEventModel::Opened(tag)) == EventModel::Start(
            kind,
        ),
        kind == TagKind::Heading ==> understood(RawEventModel::Opened(tag)) is Heading,
        understood(ended(tag)) == EventModel::End(kind),
{
    lemma_tag_names();
    lemma_until(tag, name);
    assert(tag_kind(tag) == kind);
    reveal_strlit("End(");
    reveal_strlit(")");
    let event = "End("@ + tag + ")"@;
    assert(event.take(4) =~= "End("@);
    assert(event.subrange(4, event.len() - 1) =~= tag);
}

/// A word is written where the text ends.
proof fn lemma_text_event(r: RenderModel, w: Seq<char>)
    requires
        r.raw is None && r.table is None && r.code is None && r.sink.image is None,
        r.mark is None,
        is_shown_word(w),
    ensures
        ({
            let next = after(r, RawEventModel::TextShown(w));
            &&& next.sink == (Styled { text: r.sink.text + w, ..r.sink })
            &&& next == (RenderModel { sink: next.sink, heading: next.heading, ..r })
            &&& r.heading is None ==> next.heading is None
            &&& r.heading matches Some(heading) ==> next.heading == Some(
                crate::document::markdown::HeadingModel { label: heading.label + w, ..heading },
            )
            &&& !is_space(next.sink.text.last())
        }),
{
    reveal(after);
    lemma_add_text(r.sink, w);
    assert((r.sink.text + w).last() == w[w.len() - 1]);
}

// ---------------------------------------------------------------------------------------
// Laws
// ---------------------------------------------------------------------------------------

/// A line break of the source within a paragraph is shown as one blank between the two words,
/// and stands as one in the label of a heading.
pub proof fn law_soft_break(r: RenderModel, a: Seq<char>, b: Seq<char>)
    requires
        writes_text(r),
        r.mark is None,
        is_shown_word(a) && is_shown_word(b),
    ensures
        ({
            let one = after(r, RawEventModel::TextShown(a));
            let two = after(one, RawEventModel::Named("SoftBreak"@));
            let three = after(two, RawEventModel::TextShown(b));
            &&& three.sink.text == r.sink.text + a + seq![' '] + b
            &&& three.sink == (Styled { text: three.sink.text, ..r.sink })
            &&& r.heading matches Some(heading) ==> three.heading matches Some(other)
                && other.label == heading.label + a + seq![' '] + b
        }),
{
    reveal(after);
    reveal_strlit("SoftBreak");
    reveal_strlit("End(");
    reveal_strlit(" ");
    assert(" "@ =~= seq![' ']);
    assert("SoftBreak"@[0] == 'S' && "End("@[0] == 'E');
    assert(!begins("SoftBreak"@, "End("@)) by {
        if begins("SoftBreak"@, "End("@) {
            assert("SoftBreak"@.take(4)[0] == "End("@[0]);
        }
    }
    let one = after(r, RawEventModel::TextShown(a));
    let two = after(one, RawEventModel::Named("SoftBreak"@));
    lemma_text_event(r, a);
    assert(two.sink.text =~= r.sink.text + a + seq![' ']);
    lemma_text_event(two, b);
}

/// A hard break begins a new line, which has the bars of the quotations that it stands in.
pub proof fn law_hard_break(r: RenderModel, a: Seq<char>, b: Seq<char>)
    requires
        writes_text(r),
        r.mark is None,
        is_shown_word(a) && is_shown_word(b),
    ensures
        ({
            let one = after(r, RawEventModel::TextShown(a));
            let two = after(one, RawEventModel::Named("HardBreak"@));
            let three = after(two, RawEventModel::TextShown(b));
            three.sink.text == r.sink.text + a + seq!['\n'] + repeated("│ "@, r.quotes) + b
        }),
{
    reveal(after);
    reveal_strlit("HardBreak");
    reveal_strlit("SoftBreak");
    reveal_strlit("End(");
    assert(!begins("HardBreak"@, "End("@)) by {
        if begins("HardBreak"@, "End("@) {
            assert("HardBreak"@.take(4)[0] == "End("@[0]);
        }
    }
    assert("HardBreak"@ != "SoftBreak"@) by {
        assert("HardBreak"@[0] == 'H' && "SoftBreak"@[0] == 'S');
    }
    let one = after(r, RawEventModel::TextShown(a));
    let two = after(one, RawEventModel::Named("HardBreak"@));
    lemma_text_event(r, a);
    lemma_feeds();
    lemma_line_after_word(one.sink.text, 1);
    lemma_prefix(add_newlines(one.sink, 1), r.quotes);
    lemma_text_event(two, b);
}

proof fn lemma_bars(n: nat)
    ensures
        forall|i: int|
            0 <= i < repeated("│ "@, n).len() ==> !is_control_char(
                #[trigger] repeated("│ "@, n)[i],
            ),
        n == 0 ==> repeated("│ "@, n).len() == 0,
    decreases n,
{
    reveal_strlit("│ ");
    if n > 0 {
        lemma_bars((n - 1) as nat);
        let less = repeated("│ "@, (n - 1) as nat);
        assert forall|i: int| 0 <= i < repeated("│ "@, n).len() implies !is_control_char(
            #[trigger] repeated("│ "@, n)[i],
        ) by {
            if i < less.len() {
                assert(repeated("│ "@, n)[i] == less[i]);
            } else {
                assert(repeated("│ "@, n)[i] == "│ "@[i - less.len()]);
            }
        }
    }
}

/// What stands at the start of a line is written as it is.
pub proof fn lemma_prefix(t: Styled, quotes: nat)
    requires
        t.image is None,
    ensures
        add_line_prefix(t, quotes) == (Styled { text: t.text + repeated("│ "@, quotes), ..t }),
{
    lemma_bars(quotes);
    if quotes > 0 {
        lemma_add_text(t, repeated("│ "@, quotes));
    } else {
        assert(t.text + repeated("│ "@, quotes) =~= t.text);
    }
}

/// A paragraph stands apart: a blank line is before it, where there is anything before, and one
/// after it. Its first line has the bars of the quotations that it stands in.
pub proof fn law_paragraph(r: RenderModel, tag: Seq<char>, w: Seq<char>)
    requires
        writes_text(r),
        r.mark is None,
        r.lists.len() == 0,
        is_tag(tag, "Paragraph"@),
        is_shown_word(w),
    ensures
        ({
            let one = after(r, RawEventModel::Opened(tag));
            let two = after(one, RawEventModel::TextShown(w));
            let three = after(two, ended(tag));
            three.sink.text == apart(
                r.sink.text,
                seq!['\n', '\n'],
                repeated("│ "@, r.quotes) + w,
            ) + seq!['\n', '\n']
        }),
{
    let one = after(r, RawEventModel::Opened(tag));
    let two = after(one, RawEventModel::TextShown(w));
    lemma_paragraph_begins(r, tag);
    lemma_text_event(one, w);
    lemma_paragraph_ends(two, tag);
    assert(two.sink.text =~= apart(
        r.sink.text,
        seq!['\n', '\n'],
        repeated("│ "@, r.quotes) + w,
    ));
}

proof fn lemma_paragraph_begins(r: RenderModel, tag: Seq<char>)
    requires
        writes_text(r),
        r.mark is None,
        is_tag(tag, "Paragraph"@),
    ensures
        after(r, RawEventModel::Opened(tag)) == (RenderModel {
            sink: Styled {
                text: apart(r.sink.text, seq!['\n', '\n'], seq![]) + repeated("│ "@, r.quotes),
                ..r.sink
            },
            ..r
        }),
{
    reveal(after);
    law_tags_have_names(tag, "Paragraph"@, TagKind::Paragraph);
    lemma_feeds();
    lemma_line_after_word(r.sink.text, 2);
    lemma_prefix(add_newlines(r.sink, 2), r.quotes);
    assert(add_newlines(r.sink, 2).text =~= apart(r.sink.text, seq!['\n', '\n'], seq![]));
}

proof fn lemma_paragraph_ends(r: RenderModel, tag: Seq<char>)
    requires
        writes_text(r),
        r.sink.text.len() > 0,
        is_tag(tag, "Paragraph"@),
    ensures
        after(r, ended(tag)) == (RenderModel {
            sink: Styled {
                text: r.sink.text + if r.lists.len() == 0 {
                    seq!['\n', '\n']
                } else {
                    seq!['\n']
                },
                ..r.sink
            },
            ..r
        }),
{
    reveal(after);
    law_tags_have_names(tag, "Paragraph"@, TagKind::Paragraph);
    lemma_feeds();
    lemma_line_after_word(r.sink.text, 2);
    lemma_line_after_word(r.sink.text, 1);
}

/// The name of the tag of a heading with its level.
pub open spec fn is_heading_tag(tag: Seq<char>, level: u8) -> bool {
    ||| level == 1 && tag == "Heading(H1)"@
    ||| level == 2 && tag == "Heading(H2)"@
    ||| level == 3 && tag == "Heading(H3)"@
    ||| level == 4 && tag == "Heading(H4)"@
    ||| level == 5 && tag == "Heading(H5)"@
    ||| level == 6 && tag == "Heading(H6)"@
}

proof fn lemma_heading_tag(tag: Seq<char>, level: u8)
    requires
        is_heading_tag(tag, level),
    ensures
        understood(RawEventModel::Opened(tag)) == EventModel::Heading(level),
        understood(ended(tag)) == EventModel::End(TagKind::Heading),
{
    reveal_strlit("Heading");
    reveal_strlit("Heading(H1)");
    reveal_strlit("Heading(H2)");
    reveal_strlit("Heading(H3)");
    reveal_strlit("Heading(H4)");
    reveal_strlit("Heading(H5)");
    reveal_strlit("Heading(H6)");
    reveal_strlit("Heading(H2");
    reveal_strlit("Heading(H3");
    reveal_strlit("Heading(H4");
    reveal_strlit("Heading(H5");
    reveal_strlit("Heading(H6");
    assert(tag.take(8) =~= "Heading"@.push('('));
    law_tags_have_names(tag, "Heading"@, TagKind::Heading);
    lemma_tag_names();
    lemma_until(tag, "Heading"@);
    let ten = tag.take(10);
    assert(tag.len() == 11);
    assert(level == 2 ==> ten =~= "Heading(H2"@);
    assert(level == 3 ==> ten =~= "Heading(H3"@);
    assert(level == 4 ==> ten =~= "Heading(H4"@);
    assert(level == 5 ==> ten =~= "Heading(H5"@);
    assert(level == 6 ==> ten =~= "Heading(H6"@);
    assert(ten[9] == tag[9]);
    assert("Heading(H2"@[9] == '2' && "Heading(H3"@[9] == '3' && "Heading(H4"@[9] == '4'
        && "Heading(H5"@[9] == '5' && "Heading(H6"@[9] == '6');
    assert(heading_level(tag) == level);
}

/// A heading stands apart like a paragraph. It is entered in the table of contents with its
/// text, the place where it begins, and one less than its level as depth; and its text has the
/// style of a heading of its level.
pub proof fn law_heading(r: RenderModel, tag: Seq<char>, level: u8, w: Seq<char>)
    requires
        writes_text(r),
        r.mark is None,
        r.quotes == 0,
        is_heading_tag(tag, level),
        is_shown_word(w),
    ensures
        ({
            let one = after(r, RawEventModel::Opened(tag));
            let two = after(one, RawEventModel::TextShown(w));
            let three = after(two, ended(tag));
            let start = byte_len(apart(r.sink.text, seq!['\n', '\n'], seq![])) as int;
            &&& three.sink.text == apart(r.sink.text, seq!['\n', '\n'], w) + seq!['\n', '\n']
            &&& three.toc == r.toc.push(TocModel { label: w, offset: start, depth: level - 1 })
            &&& three.sink.styles == r.sink.styles.push(
                StyleModel {
                    start,
                    end: start + byte_len(w),
                    kind: TextStyleKind::Heading(level),
                },
            )
            &&& three.heading is None
        }),
{
    reveal(after);
    lemma_heading_tag(tag, level);
    lemma_feeds();
    lemma_line_after_word(r.sink.text, 2);
    let one = after(r, RawEventModel::Opened(tag));
    let two = after(one, RawEventModel::TextShown(w));
    assert(one.sink.text =~= apart(r.sink.text, seq!['\n', '\n'], seq![]));
    lemma_text_event(one, w);
    lemma_after_base(one.sink.text, w);
    lemma_byte_len_concat(one.sink.text, w);
    lemma_line_after_word(two.sink.text, 2);
    assert(two.sink.text =~= apart(r.sink.text, seq!['\n', '\n'], w));
    assert(two.heading->0.label =~= w);
    lemma_collapsed_word(w);
}

proof fn lemma_collapsed_word(w: Seq<char>)
    requires
        is_word(w),
    ensures
        collapsed(w) == w,
{
    lemma_after_base(seq![], w);
    assert(crate::strings::trimmed_start(w) =~= w);
    crate::strings::lemma_word_len_is(w, w.len() as int);
    assert(w.take(w.len() as int) =~= w);
    assert(w.skip(w.len() as int) =~= seq![]);
    reveal_with_fuel(crate::strings::words, 2);
    reveal_with_fuel(crate::strings::join, 2);
    assert(crate::strings::words(w) =~= seq![w]);
    assert(crate::strings::join(seq![w], " "@) =~= w);
}

/// What is written before the text of an item: the bars of the quotations, two blanks for every
/// list around the innermost one, and the mark of the item.
pub open spec fn item_start(quotes: nat, around: nat, mark: Seq<char>) -> Seq<char> {
    repeated("│ "@, quotes) + repeated("  "@, around) + mark
}

/// The mark of the next item of a list: a hyphen, or the number that is its turn.
pub open spec fn is_mark(list: Option<u64>, mark: Seq<char>) -> bool {
    match list {
        Some(number) => mark == decimal(number as nat) + ". "@,
        None => mark == "- "@,
    }
}

/// The list after an item: its number is counted on, if it has one.
pub open spec fn is_counted(before: Option<u64>, after: Option<u64>) -> bool {
    match before {
        Some(number) => after matches Some(next) && (next == number + 1 || number == u64::MAX
            && next == number),
        None => after is None,
    }
}

/// The item of a list begins a line with the mark of the list: a hyphen, or the number that is
/// its turn, which is counted on for the next item.
pub proof fn law_item(r: RenderModel, tag: Seq<char>, mark: Seq<char>, w: Seq<char>)
    requires
        writes_text(r),
        r.mark is None,
        r.lists.len() > 0,
        is_tag(tag, "Item"@),
        is_mark(r.lists.last(), mark),
        is_shown_word(w),
    ensures
        ({
            let one = after(r, RawEventModel::Opened(tag));
            let two = after(one, RawEventModel::TextShown(w));
            let start = item_start(r.quotes, (r.lists.len() - 1) as nat, mark);
            &&& two.sink.text == apart(r.sink.text, seq!['\n'], start + w)
            &&& two.lists.len() == r.lists.len()
            &&& two.lists.drop_last() == r.lists.drop_last()
            &&& is_counted(r.lists.last(), two.lists.last())
        }),
{
    let start = item_start(r.quotes, (r.lists.len() - 1) as nat, mark);
    let one = after(r, RawEventModel::Opened(tag));
    lemma_item_begins(r, tag, mark);
    lemma_item_start_is_shown(r.quotes, (r.lists.len() - 1) as nat, r.lists.last(), mark);
    lemma_marked_text(one, start, w);
    assert(one.sink.text + start + w =~= apart(r.sink.text, seq!['\n'], start + w));
}

proof fn lemma_item_begins(r: RenderModel, tag: Seq<char>, mark: Seq<char>)
    requires
        writes_text(r),
        r.mark is None,
        r.lists.len() > 0,
        is_tag(tag, "Item"@),
        is_mark(r.lists.last(), mark),
    ensures
        ({
            let one = after(r, RawEventModel::Opened(tag));
            &&& one.sink == (Styled { text: apart(r.sink.text, seq!['\n'], seq![]), ..r.sink })
            &&& one.mark == Some(item_start(r.quotes, (r.lists.len() - 1) as nat, mark))
            &&& one.raw is None && one.table is None && one.code is None
            &&& one.lists.len() == r.lists.len()
            &&& one.lists.drop_last() == r.lists.drop_last()
            &&& is_counted(r.lists.last(), one.lists.last())
        }),
{
    reveal(after);
    law_tags_have_names(tag, "Item"@, TagKind::Item);
    lemma_feeds();
    lemma_line_after_word(r.sink.text, 1);
    let one = after(r, RawEventModel::Opened(tag));
    assert(one == item_started(r));
    assert(one.sink.text =~= apart(r.sink.text, seq!['\n'], seq![]));
    assert(one.lists.drop_last() =~= r.lists.drop_last());
}

proof fn lemma_item_start_is_shown(quotes: nat, around: nat, list: Option<u64>, mark: Seq<char>)
    requires
        is_mark(list, mark),
    ensures
        forall|i: int|
            0 <= i < item_start(quotes, around, mark).len() ==> !is_control_char(
                #[trigger] item_start(quotes, around, mark)[i],
            ),
{
    let bars = repeated("│ "@, quotes);
    let blanks = repeated("  "@, around);
    lemma_bars(quotes);
    lemma_blanks(around);
    lemma_mark_is_shown(list, mark);
    let whole = item_start(quotes, around, mark);
    assert forall|i: int| 0 <= i < whole.len() implies !is_control_char(#[trigger] whole[i]) by {
        if i < bars.len() {
            assert(whole[i] == bars[i]);
        } else if i < bars.len() + blanks.len() {
            assert(whole[i] == blanks[i - bars.len()]);
        } else {
            assert(whole[i] == mark[i - bars.len() - blanks.len()]);
        }
    }
}

proof fn lemma_mark_is_shown(list: Option<u64>, mark: Seq<char>)
    requires
        is_mark(list, mark),
    ensures
        forall|i: int| 0 <= i < mark.len() ==> !is_control_char(#[trigger] mark[i]),
{
    reveal_strlit("- ");
    reveal_strlit(". ");
    if let Some(number) = list {
        let digits = decimal(number as nat);
        lemma_decimal_is_shown(number as nat);
        assert forall|i: int| 0 <= i < mark.len() implies !is_control_char(#[trigger] mark[i]) by {
            if i < digits.len() {
                assert(mark[i] == digits[i]);
            } else {
                assert(mark[i] == ". "@[i - digits.len()]);
            }
        }
    }
}

proof fn lemma_blanks(n: nat)
    ensures
        forall|i: int|
            0 <= i < repeated("  "@, n).len() ==> !is_control_char(
                #[trigger] repeated("  "@, n)[i],
            ),
    decreases n,
{
    reveal_strlit("  ");
    if n > 0 {
        lemma_blanks((n - 1) as nat);
        let less = repeated("  "@, (n - 1) as nat);
        assert forall|i: int| 0 <= i < repeated("  "@, n).len() implies !is_control_char(
            #[trigger] repeated("  "@, n)[i],
        ) by {
            if i < less.len() {
                assert(repeated("  "@, n)[i] == less[i]);
            } else {
                assert(repeated("  "@, n)[i] == "  "@[i - less.len()]);
            }
        }
    }
}

proof fn lemma_decimal_is_shown(n: nat)
    ensures
        forall|i: int| 0 <= i < decimal(n).len() ==> !is_control_char(#[trigger] decimal(n)[i]),
    decreases n,
{
    let last = (n % 10) as nat;
    assert((last + 0x30) as u32 == last + 0x30);
    assert(!is_control_char(crate::strings::digit_char(last)));
    if n >= 10 {
        lemma_decimal_is_shown(n / 10);
        let less = decimal(n / 10);
        assert forall|i: int| 0 <= i < decimal(n).len() implies !is_control_char(
            #[trigger] decimal(n)[i],
        ) by {
            if i < less.len() {
                assert(decimal(n)[i] == less[i]);
            }
        }
    }
}

/// The first text of an item follows its mark.
proof fn lemma_marked_text(r: RenderModel, mark: Seq<char>, w: Seq<char>)
    requires
        r.raw is None && r.table is None && r.code is None && r.sink.image is None,
        r.mark == Some(mark),
        forall|i: int| 0 <= i < mark.len() ==> !is_control_char(#[trigger] mark[i]),
        is_shown_word(w),
        r.sink.text.len() > 0 ==> r.sink.text.last() == '\n',
    ensures
        ({
            let next = after(r, RawEventModel::TextShown(w));
            &&& next.sink.text == r.sink.text + mark + w
            &&& next.lists == r.lists
        }),
{
    reveal(after);
    assert(add_newlines(r.sink, 1).text == r.sink.text) by {
        assert(r.sink.text.len() > 0 ==> trailing_feeds(r.sink.text) >= 1);
    }
    lemma_add_text(r.sink, mark);
    let marked = Styled { text: r.sink.text + mark, ..r.sink };
    lemma_add_text(marked, w);
}

/// A list that is not in another one stands apart before its first item; one that is in another
/// begins with the next item.
pub proof fn law_list_begins(r: RenderModel, first: Option<u64>)
    requires
        writes_text(r),
        r.mark is None,
    ensures
        ({
            let one = after(r, RawEventModel::ListOpened(first));
            &&& one.lists == r.lists.push(first)
            &&& r.lists.len() == 0 ==> one.sink.text == apart(
                r.sink.text,
                seq!['\n', '\n'],
                seq![],
            )
            &&& r.lists.len() > 0 ==> one.sink.text == r.sink.text
        }),
{
    reveal(after);
    lemma_feeds();
    lemma_line_after_word(r.sink.text, 2);
    assert(add_newlines(r.sink, 2).text =~= apart(r.sink.text, seq!['\n', '\n'], seq![]));
    assert(after(r, RawEventModel::ListOpened(first)) == list_started(r, first));
}

/// A list that is not in another one stands apart after its last item; one that is in another
/// just ends.
pub proof fn law_list_ends(r: RenderModel, tag: Seq<char>)
    requires
        writes_text(r),
        is_tag(tag, "List"@),
    ensures
        ({
            let end = after(r, ended(tag));
            &&& r.lists.len() > 0 ==> end.lists == r.lists.drop_last()
            &&& r.lists.len() <= 1 ==> end.sink.text == apart(
                r.sink.text,
                seq!['\n', '\n'],
                seq![],
            )
            &&& r.lists.len() > 1 ==> end.sink.text == r.sink.text
        }),
{
    reveal(after);
    law_tags_have_names(tag, "List"@, TagKind::List);
    lemma_feeds();
    lemma_line_after_word(r.sink.text, 2);
    assert(add_newlines(r.sink, 2).text =~= apart(r.sink.text, seq!['\n', '\n'], seq![]));
    assert(after(r, ended(tag)) == list_ended(r));
}

/// A quotation adds a bar to the lines in it; it stands apart, and has the style of a quotation.
pub proof fn law_quotation(r: RenderModel, tag: Seq<char>)
    requires
        writes_text(r),
        r.mark is None,
        is_tag(tag, "BlockQuote"@),
    ensures
        ({
            let one = after(r, RawEventModel::Opened(tag));
            let start = byte_len(one.sink.text) as int;
            let end = after(r, ended(tag));
            &&& one.quotes == r.quotes + 1
            &&& one.sink.text == apart(r.sink.text, seq!['\n', '\n'], seq![])
            &&& one.sink.open == r.sink.open.push((TextStyleKind::Quote, start))
            &&& r.quotes > 0 ==> end.quotes == r.quotes - 1
            &&& end.sink.text == apart(r.sink.text, seq!['\n', '\n'], seq![])
            &&& r.sink.open.len() > 0 && r.sink.open.last().0 == TextStyleKind::Quote ==> {
                let begun = r.sink.open.last().1;
                &&& end.sink.open == r.sink.open.drop_last()
                &&& begun < byte_len(r.sink.text) ==> end.sink.styles == r.sink.styles.push(
                    StyleModel {
                        start: begun,
                        end: byte_len(r.sink.text) as int,
                        kind: TextStyleKind::Quote,
                    },
                )
            }
        }),
{
    reveal(after);
    law_tags_have_names(tag, "BlockQuote"@, TagKind::BlockQuote);
    lemma_feeds();
    lemma_line_after_word(r.sink.text, 2);
    assert(add_newlines(r.sink, 2).text =~= apart(r.sink.text, seq!['\n', '\n'], seq![]));
    if r.sink.open.len() > 0 && r.sink.open.last().0 == TextStyleKind::Quote {
        assert(r.sink.open.remove(r.sink.open.len() - 1) =~= r.sink.open.drop_last());
    }
}

/// Inline code is written as it is and has the style of code; no blank is before it or after it.
pub proof fn law_inline_code(r: RenderModel, w: Seq<char>)
    requires
        writes_text(r),
        r.mark is None,
        is_shown_word(w),
    ensures
        ({
            let next = after(r, RawEventModel::CodeShown(w));
            let start = byte_len(r.sink.text) as int;
            &&& next.sink.text == r.sink.text + w
            &&& next.sink.open == r.sink.open
            &&& next.sink.styles == r.sink.styles.push(
                StyleModel { start, end: start + byte_len(w), kind: TextStyleKind::Code },
            )
        }),
{
    reveal(after);
    let opened = open_style(r.sink, TextStyleKind::Code);
    lemma_add_text(opened, w);
    lemma_after_base(r.sink.text, w);
    lemma_byte_len_concat(r.sink.text, w);
    assert(opened.open.remove(opened.open.len() - 1) =~= r.sink.open);
}

/// Emphasis, strong text and text that is struck through are written as they are, with their
/// styles.
pub proof fn law_inline_styles(
    r: RenderModel,
    tag: Seq<char>,
    name: Seq<char>,
    kind: TagKind,
    style: TextStyleKind,
    w: Seq<char>,
)
    requires
        writes_text(r),
        r.mark is None,
        is_tag(tag, name),
        kind_named(name, kind),
        kind == TagKind::Emphasis && style == TextStyleKind::Emphasis || kind == TagKind::Strong
            && style == TextStyleKind::Strong || kind == TagKind::Strikethrough && style
            == TextStyleKind::Strikethrough,
        is_shown_word(w),
    ensures
        ({
            let one = after(r, RawEventModel::Opened(tag));
            let two = after(one, RawEventModel::TextShown(w));
            let three = after(two, ended(tag));
            let start = byte_len(r.sink.text) as int;
            &&& three.sink.text == r.sink.text + w
            &&& three.sink.open == r.sink.open
            &&& three.sink.styles == r.sink.styles.push(
                StyleModel { start, end: start + byte_len(w), kind: style },
            )
        }),
{
    reveal(after);
    law_tags_have_names(tag, name, kind);
    let one = after(r, RawEventModel::Opened(tag));
    lemma_text_event(one, w);
    lemma_after_base(r.sink.text, w);
    lemma_byte_len_concat(r.sink.text, w);
    assert(one.sink.open.remove(one.sink.open.len() - 1) =~= r.sink.open);
}

/// A link is written as its text, with the style of a link, and then its destination in angle
/// brackets; the destination is left out where it is the text itself.
pub proof fn law_link(
    r: RenderModel,
    destination: Seq<char>,
    tag: Seq<char>,
    w: Seq<char>,
)
    requires
        writes_text(r),
        r.mark is None,
        is_tag(tag, "Link"@),
        is_shown_word(w),
        is_shown_word(destination),
    ensures
        ({
            let one = after(r, RawEventModel::LinkOpened(destination));
            let two = after(one, RawEventModel::TextShown(w));
            let three = after(two, ended(tag));
            let start = byte_len(r.sink.text) as int;
            &&& w != destination ==> three.sink.text == r.sink.text + w + seq![' ', '<']
                + destination + seq!['>']
            &&& w == destination ==> three.sink.text == r.sink.text + w
            &&& three.sink.links == r.sink.links
            &&& three.sink.styles == r.sink.styles.push(
                StyleModel { start, end: start + byte_len(w), kind: TextStyleKind::Link },
            )
        }),
{
    let one = after(r, RawEventModel::LinkOpened(destination));
    lemma_link_begins(r, destination);
    let two = after(one, RawEventModel::TextShown(w));
    lemma_text_event(one, w);
    lemma_link_ends(two, tag);
    lemma_close_link(r.sink, destination, w);
}

proof fn lemma_link_begins(r: RenderModel, destination: Seq<char>)
    requires
        r.raw is None && r.table is None && r.sink.image is None && r.mark is None,
        is_shown_word(destination),
    ensures
        after(r, RawEventModel::LinkOpened(destination)) == (RenderModel {
            sink: Styled {
                links: r.sink.links.push((byte_len(r.sink.text) as int, destination)),
                ..r.sink
            },
            ..r
        }),
{
    reveal(after);
    lemma_sanitised(destination);
}

proof fn lemma_close_link(t: Styled, destination: Seq<char>, w: Seq<char>)
    requires
        t.image is None,
        is_shown_word(destination),
        is_shown_word(w),
    ensures
        ({
            let start = byte_len(t.text) as int;
            let written = Styled {
                text: t.text + w,
                links: t.links.push((start, destination)),
                ..t
            };
            close_link(written) == (Styled {
                text: if w == destination {
                    t.text + w
                } else {
                    t.text + w + seq![' ', '<'] + destination + seq!['>']
                },
                styles: t.styles.push(
                    StyleModel { start, end: start + byte_len(w), kind: TextStyleKind::Link },
                ),
                ..t
            })
        }),
{
    let start = byte_len(t.text) as int;
    lemma_after_base(t.text, w);
    lemma_byte_len_concat(t.text, w);
    assert(t.links.push((start, destination)).drop_last() =~= t.links);
    let closed = Styled {
        text: t.text + w,
        styles: t.styles.push(
            StyleModel { start, end: start + byte_len(w), kind: TextStyleKind::Link },
        ),
        ..t
    };
    lemma_destination(closed, destination);
}

proof fn lemma_link_ends(r: RenderModel, tag: Seq<char>)
    requires
        r.raw is None && r.table is None,
        is_tag(tag, "Link"@),
    ensures
        after(r, ended(tag)).sink == close_link(r.sink),
{
    reveal(after);
    law_tags_have_names(tag, "Link"@, TagKind::Link);
}

proof fn lemma_sanitised(w: Seq<char>)
    requires
        is_shown_word(w),
    ensures
        sanitised(w) == w,
{
    lemma_no_controls(w);
    lemma_after_base(seq![], w);
}

proof fn lemma_no_controls(w: Seq<char>)
    requires
        forall|i: int| 0 <= i < w.len() ==> !is_control_char(#[trigger] w[i]),
    ensures
        without_controls(w) == w,
    decreases w.len(),
{
    if w.len() > 0 {
        let less = w.drop_last();
        assert(!is_control_char(w[w.len() - 1]));
        assert forall|i: int| 0 <= i < less.len() implies !is_control_char(#[trigger] less[i]) by {
            assert(less[i] == w[i]);
        }
        lemma_no_controls(less);
        assert(less.push(w.last()) =~= w);
    }
}

proof fn lemma_destination(t: Styled, destination: Seq<char>)
    requires
        t.image is None,
        is_shown_word(destination),
    ensures
        add_destination(t, destination) == (Styled {
            text: t.text + seq![' ', '<'] + destination + seq!['>'],
            ..t
        }),
{
    reveal_strlit(" <");
    reveal_strlit(">");
    assert(" <"@ =~= seq![' ', '<']);
    assert(">"@ =~= seq!['>']);
    lemma_add_text(t, " <"@);
    let one = Styled { text: t.text + seq![' ', '<'], ..t };
    lemma_add_text(one, destination);
    let two = Styled { text: one.text + destination, ..t };
    lemma_add_text(two, ">"@);
}

/// An image is written as its description in brackets and its destination in angle brackets;
/// without a description only the word for it is in the brackets.
pub proof fn law_image(r: RenderModel, destination: Seq<char>, tag: Seq<char>, w: Seq<char>)
    requires
        writes_text(r),
        r.mark is None,
        is_tag(tag, "Image"@),
        is_shown_word(destination),
        is_shown_word(w),
    ensures
        ({
            let one = after(r, RawEventModel::ImageOpened(destination));
            let two = after(one, RawEventModel::TextShown(w));
            &&& after(two, ended(tag)).sink.text == r.sink.text + "[Image: "@ + w + "]"@ + seq![
                ' ',
                '<',
            ] + destination + seq!['>']
            &&& after(one, ended(tag)).sink.text == r.sink.text + "[Image]"@ + seq![' ', '<']
                + destination + seq!['>']
            &&& after(two, ended(tag)).sink.image is None
        }),
{
    let one = after(r, RawEventModel::ImageOpened(destination));
    let two = after(one, RawEventModel::TextShown(w));
    lemma_image_begins(r, destination);
    lemma_described(one, destination, w);
    lemma_image_ends(two, tag);
    lemma_image_ends(one, tag);
    lemma_close_image(r.sink, destination, w);
}

proof fn lemma_image_begins(r: RenderModel, destination: Seq<char>)
    requires
        r.raw is None && r.table is None && r.sink.image is None && r.mark is None,
        is_shown_word(destination),
    ensures
        after(r, RawEventModel::ImageOpened(destination)) == (RenderModel {
            sink: Styled { image: Some((destination, Seq::<char>::empty())), ..r.sink },
            ..r
        }),
{
    reveal(after);
    lemma_sanitised(destination);
}

proof fn lemma_image_ends(r: RenderModel, tag: Seq<char>)
    requires
        r.raw is None && r.table is None,
        is_tag(tag, "Image"@),
    ensures
        after(r, ended(tag)).sink == close_image(r.sink),
{
    reveal(after);
    law_tags_have_names(tag, "Image"@, TagKind::Image);
}

/// Text within an image describes it.
proof fn lemma_described(r: RenderModel, destination: Seq<char>, w: Seq<char>)
    requires
        r.raw is None && r.table is None && r.code is None && r.mark is None,
        r.sink.image == Some((destination, Seq::<char>::empty())),
        is_shown_word(w),
    ensures
        ({
            let next = after(r, RawEventModel::TextShown(w));
            &&& next.sink == (Styled { image: Some((destination, w)), ..r.sink })
            &&& next.raw is None && next.table is None
        }),
{
    reveal(after);
    assert(!w.contains('\r')) by {
        if w.contains('\r') {
            let k = choose|k: int| 0 <= k < w.len() && w[k] == '\r';
            assert(is_control_char(w[k]));
        }
    }
    law_line_feeds(w);
    lemma_describe_chars(r.sink, destination, seq![], w);
    assert(seq![] + w =~= w);
}

proof fn lemma_describe_chars(t: Styled, destination: Seq<char>, alt: Seq<char>, w: Seq<char>)
    requires
        t.image == Some((destination, alt)),
        forall|i: int| 0 <= i < w.len() ==> !is_control_char(#[trigger] w[i]),
    ensures
        add_chars(t, w) == (Styled { image: Some((destination, alt + w)), ..t }),
    decreases w.len(),
{
    if w.len() > 0 {
        let less = w.drop_last();
        assert(!is_control_char(w[w.len() - 1]));
        assert forall|i: int| 0 <= i < less.len() implies !is_control_char(#[trigger] less[i]) by {
            assert(less[i] == w[i]);
        }
        lemma_describe_chars(t, destination, alt, less);
        assert((alt + less).push(w.last()) =~= alt + w);
    } else {
        assert(alt + w =~= alt);
    }
}

proof fn lemma_close_image(t: Styled, destination: Seq<char>, w: Seq<char>)
    requires
        t.image is None,
        is_shown_word(destination),
        is_shown_word(w),
    ensures
        close_image(Styled { image: Some((destination, w)), ..t }) == (Styled {
            text: t.text + "[Image: "@ + w + "]"@ + seq![' ', '<'] + destination + seq!['>'],
            ..t
        }),
        close_image(Styled { image: Some((destination, Seq::<char>::empty())), ..t })
            == (Styled {
            text: t.text + "[Image]"@ + seq![' ', '<'] + destination + seq!['>'],
            ..t
        }),
{
    reveal_strlit("[Image]");
    reveal_strlit("[Image: ");
    reveal_strlit("]");
    lemma_collapsed_word(w);
    assert(collapsed(Seq::<char>::empty()) =~= Seq::<char>::empty()) by {
        assert(crate::strings::words(Seq::<char>::empty()) =~= Seq::<Seq<char>>::empty());
    }
    lemma_add_text(t, "[Image]"@);
    let bare = Styled { text: t.text + "[Image]"@, ..t };
    lemma_destination(bare, destination);
    lemma_add_text(t, "[Image: "@);
    let one = Styled { text: t.text + "[Image: "@, ..t };
    lemma_add_text(one, w);
    let two = Styled { text: one.text + w, ..t };
    lemma_add_text(two, "]"@);
    let three = Styled { text: two.text + "]"@, ..t };
    lemma_destination(three, destination);
}

/// The events that have nothing but their names.
proof fn lemma_event_names()
    ensures
        understood(RawEventModel::Named("Rule"@)) == EventModel::Rule,
        understood(RawEventModel::Named("TaskListMarker(true)"@)) == EventModel::TaskMarker(true),
        understood(RawEventModel::Named("TaskListMarker(false)"@)) == EventModel::TaskMarker(
            false,
        ),
{
    reveal_strlit("TaskListMarker(true)");
    reveal_strlit("TaskListMarker(false)");
    reveal_strlit("Rule");
    reveal_strlit("HardBreak");
    reveal_strlit("SoftBreak");
    reveal_strlit("End(");
    assert("End("@[0] == 'E');
    assert("Rule"@.take(4)[0] == 'R');
    assert("TaskListMarker(true)"@.take(4)[0] == 'T');
    assert("TaskListMarker(false)"@.take(4)[0] == 'T');
}

/// A rule is a line of its own, which stands apart.
pub proof fn law_rule(r: RenderModel)
    requires
        writes_text(r),
    ensures
        after(r, RawEventModel::Named("Rule"@)).sink.text == apart(
            r.sink.text,
            seq!['\n', '\n'],
            repeated("│ "@, r.quotes) + "────────────────────────"@,
        ) + seq!['\n', '\n'],
{
    reveal(after);
    reveal_strlit("────────────────────────");
    lemma_event_names();
    lemma_feeds();
    lemma_line_after_word(r.sink.text, 2);
    let apart_sink = add_newlines(r.sink, 2);
    lemma_prefix(apart_sink, r.quotes);
    let begun = add_line_prefix(apart_sink, r.quotes);
    lemma_add_text(begun, "────────────────────────"@);
    let ruled = begun.text + "────────────────────────"@;
    assert(ruled.last() == '─');
    lemma_line_after_word(ruled, 2);
    assert(ruled =~= apart(
        r.sink.text,
        seq!['\n', '\n'],
        repeated("│ "@, r.quotes) + "────────────────────────"@,
    ));
}

/// The mark of a task tells whether it is done.
pub proof fn law_task_marks(r: RenderModel)
    requires
        writes_text(r),
        r.mark is None,
    ensures
        after(r, RawEventModel::Named("TaskListMarker(true)"@)).sink.text == r.sink.text
            + "[x] "@,
        after(r, RawEventModel::Named("TaskListMarker(false)"@)).sink.text == r.sink.text
            + "[ ] "@,
{
    reveal(after);
    reveal_strlit("[x] ");
    reveal_strlit("[ ] ");
    lemma_event_names();
    lemma_add_text(r.sink, "[x] "@);
    lemma_add_text(r.sink, "[ ] "@);
}

/// The document is what was written, without the white space at its end and with all the rest;
/// its title is that of its metadata, or else its first heading, or else the one that it is
/// given.
pub proof fn law_markdown_document(r: RenderModel, fallback: Seq<char>)
    ensures
        ({
            let document = finished_markdown(r, fallback);
            &&& begins(r.sink.text, document.text)
            &&& document.text.len() > 0 ==> !is_space(document.text.last())
            &&& forall|i: int|
                document.text.len() <= i < r.sink.text.len() ==> is_space(
                    #[trigger] r.sink.text[i],
                )
            &&& r.metadata.title matches Some(title) ==> document.title == title
            &&& r.metadata.title is None && r.toc.len() > 0 ==> document.title == r.toc[0].label
            &&& r.metadata.title is None && r.toc.len() == 0 ==> document.title == fallback
            &&& document.metadata.title == Some(document.title)
            &&& document.metadata.author == r.metadata.author
            &&& document.metadata.language == r.metadata.language
        }),
{
    crate::strings::lemma_trimmed_end(r.sink.text);
}

} // verus!

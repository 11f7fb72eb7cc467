//! Text with styles, links and images while it is being written.
use std::ops::Range;

use vstd::prelude::*;

use crate::buffer::{text_after, with_line_start, TextBuffer};
use crate::document::chapter::toc_views;
use crate::document::{
    style_views, StyleModel, TextStyle, TextStyleKind, TocEntry, TocModel,
};
use crate::strings::{
    collapse_chars, collapsed, feed_lines, is_control, is_control_char, is_space, is_whitespace,
    trim_chars, trimmed, trimmed_end, with_line_feeds,
};
use crate::text::{byte_len, chars_of, same_chars, string_of};

verus! {

/// Text with what is open in it. Places are offsets in bytes.
#[verifier::ext_equal]
pub struct Styled {
    pub text: Seq<char>,
    pub styles: Seq<StyleModel>,
    pub open: Seq<(TextStyleKind, int)>,
    pub links: Seq<(int, Seq<char>)>,
    pub image: Option<(Seq<char>, Seq<char>)>,
}

pub open spec fn no_text() -> Styled {
    Styled { text: seq![], styles: seq![], open: seq![], links: seq![], image: None }
}

/// Control characters are dropped; within an image the characters describe it.
pub open spec fn add_char(t: Styled, c: char) -> Styled {
    if is_control_char(c) && c != '\n' && c != '\t' {
        t
    } else {
        match t.image {
            Some((destination, alt)) => Styled { image: Some((destination, alt.push(c))), ..t },
            None => Styled { text: t.text.push(c), ..t },
        }
    }
}

pub open spec fn add_chars(t: Styled, value: Seq<char>) -> Styled
    decreases value.len(),
{
    if value.len() == 0 {
        t
    } else {
        add_char(add_chars(t, value.drop_last()), value.last())
    }
}

pub open spec fn add_text(t: Styled, value: Seq<char>) -> Styled {
    add_chars(t, with_line_feeds(value))
}

pub open spec fn ends_with_space(s: Seq<char>) -> bool {
    s.len() > 0 && is_space(s.last())
}

/// A blank, where there is not white space already.
pub open spec fn add_space(t: Styled) -> Styled {
    match t.image {
        Some((destination, alt)) => if ends_with_space(alt) {
            t
        } else {
            Styled { image: Some((destination, alt.push(' '))), ..t }
        },
        None => if t.text.len() == 0 || ends_with_space(t.text) {
            t
        } else {
            Styled { text: t.text.push(' '), ..t }
        },
    }
}

/// The start of a line after `count` line feeds; only a blank within an image.
pub open spec fn add_newlines(t: Styled, count: int) -> Styled {
    if t.image is Some {
        add_space(t)
    } else {
        Styled { text: with_line_start(t.text, count), ..t }
    }
}

pub open spec fn open_style(t: Styled, kind: TextStyleKind) -> Styled {
    if t.image is None {
        Styled { open: t.open.push((kind, byte_len(t.text) as int)), ..t }
    } else {
        t
    }
}

/// The last open style of a kind, or -1.
pub open spec fn last_open(open: Seq<(TextStyleKind, int)>, kind: TextStyleKind) -> int
    decreases open.len(),
{
    if open.len() == 0 {
        -1
    } else if open.last().0 == kind {
        open.len() - 1
    } else {
        last_open(open.drop_last(), kind)
    }
}

pub open spec fn close_style(t: Styled, kind: TextStyleKind) -> Styled {
    let i = last_open(t.open, kind);
    if i < 0 {
        t
    } else {
        let start = t.open[i].1;
        let end = byte_len(t.text) as int;
        Styled {
            open: t.open.remove(i),
            styles: if start < end {
                t.styles.push(StyleModel { start, end, kind })
            } else {
                t.styles
            },
            ..t
        }
    }
}

pub open spec fn add_styled(t: Styled, value: Seq<char>, kind: TextStyleKind) -> Styled {
    close_style(add_text(open_style(t, kind), value), kind)
}

/// `s` without its control characters.
pub open spec fn without_controls(s: Seq<char>) -> Seq<char>
    decreases s.len(),
{
    if s.len() == 0 {
        seq![]
    } else if is_control_char(s.last()) {
        without_controls(s.drop_last())
    } else {
        without_controls(s.drop_last()).push(s.last())
    }
}

/// What is shown of a destination.
pub open spec fn sanitised(s: Seq<char>) -> Seq<char> {
    trimmed(without_controls(s))
}

pub open spec fn open_link(t: Styled, destination: Seq<char>) -> Styled {
    if t.image is None {
        Styled { links: t.links.push((byte_len(t.text) as int, sanitised(destination))), ..t }
    } else {
        t
    }
}

/// A destination in angle brackets.
pub open spec fn add_destination(t: Styled, destination: Seq<char>) -> Styled {
    add_text(add_text(add_text(t, " <"@), destination), ">"@)
}

/// The end of a link: its destination follows where it is not the text of the link itself.
pub open spec fn close_link(t: Styled) -> Styled {
    if t.links.len() == 0 {
        t
    } else {
        let (start, destination) = t.links.last();
        let end = byte_len(t.text) as int;
        let closed = Styled {
            links: t.links.drop_last(),
            styles: if start < end {
                t.styles.push(StyleModel { start, end, kind: TextStyleKind::Link })
            } else {
                t.styles
            },
            ..t
        };
        if destination.len() > 0 && trimmed(text_after(t.text, start)) != destination {
            add_destination(closed, destination)
        } else {
            closed
        }
    }
}

pub open spec fn open_image(t: Styled, destination: Seq<char>) -> Styled {
    if t.image is None {
        Styled { image: Some((sanitised(destination), seq![])), ..t }
    } else {
        t
    }
}

/// The end of an image: its description and its destination.
pub open spec fn close_image(t: Styled) -> Styled {
    match t.image {
        None => t,
        Some((destination, alt)) => {
            let shown = Styled { image: None, ..t };
            let described = if collapsed(alt).len() == 0 {
                add_text(shown, "[Image]"@)
            } else {
                add_text(add_text(add_text(shown, "[Image: "@), collapsed(alt)), "]"@)
            };
            if destination.len() > 0 {
                add_destination(described, destination)
            } else {
                described
            }
        },
    }
}

/// Styles as far as they lie in the first `length` bytes.
pub open spec fn clipped_styles(styles: Seq<StyleModel>, length: int) -> Seq<StyleModel>
    decreases styles.len(),
{
    if styles.len() == 0 {
        seq![]
    } else {
        let last = styles.last();
        let end = if last.end <= length {
            last.end
        } else {
            length
        };
        let before = clipped_styles(styles.drop_last(), length);
        if last.start < end {
            before.push(StyleModel { end, ..last })
        } else {
            before
        }
    }
}

/// The text without the white space at its end, and with nothing open.
pub open spec fn closed_text(t: Styled) -> Styled {
    let s = trimmed_end(t.text);
    Styled {
        text: s,
        styles: clipped_styles(t.styles, byte_len(s) as int),
        open: seq![],
        links: seq![],
        image: None,
    }
}

/// A style on a part of the text.
pub struct StyleSpan {
    pub start: u128,
    pub end: u128,
    pub kind: TextStyleKind,
}

impl View for StyleSpan {
    type V = StyleModel;

    open spec fn view(&self) -> StyleModel {
        StyleModel { start: self.start as int, end: self.end as int, kind: self.kind }
    }
}

pub open spec fn span_views(spans: Seq<StyleSpan>) -> Seq<StyleModel> {
    Seq::new(spans.len(), |i: int| spans[i]@)
}

/// Text with styles, links and images while it is being written.
pub struct StyledText {
    pub text: TextBuffer,
    pub styles: Vec<StyleSpan>,
    pub open_styles: Vec<(TextStyleKind, u128)>,
    pub links: Vec<(u128, Vec<char>)>,
    pub image: Option<(Vec<char>, Vec<char>)>,
}

pub open spec fn open_views(open: Seq<(TextStyleKind, u128)>) -> Seq<(TextStyleKind, int)> {
    Seq::new(open.len(), |i: int| (open[i].0, open[i].1 as int))
}

pub open spec fn link_views(links: Seq<(u128, Vec<char>)>) -> Seq<(int, Seq<char>)> {
    Seq::new(links.len(), |i: int| (links[i].0 as int, links[i].1@))
}

pub open spec fn image_view(image: Option<(Vec<char>, Vec<char>)>) -> Option<
    (Seq<char>, Seq<char>),
> {
    match image {
        Some((destination, alt)) => Some((destination@, alt@)),
        None => None,
    }
}

impl View for StyledText {
    type V = Styled;

    open spec fn view(&self) -> Styled {
        Styled {
            text: self.text@,
            styles: span_views(self.styles@),
            open: open_views(self.open_styles@),
            links: link_views(self.links@),
            image: image_view(self.image),
        }
    }
}

/// What is shown of a destination.
pub fn sanitise_inline(value: &str) -> (result: Vec<char>)
    ensures
        result@ == sanitised(value@),
{
    let characters = chars_of(value);
    let mut kept: Vec<char> = Vec::new();
    let mut i: usize = 0;
    while i < characters.len()
        invariant
            i <= characters.len(),
            kept@ == without_controls(characters@.take(i as int)),
        decreases characters.len() - i,
    {
        assert(characters@.take(i + 1).drop_last() =~= characters@.take(i as int));
        if !is_control(characters[i]) {
            kept.push(characters[i]);
        }
        i += 1;
    }
    assert(characters@.take(i as int) =~= characters@);
    trim_chars(&kept)
}

impl StyledText {
    pub fn new() -> (text: Self)
        ensures
            text@ == no_text(),
    {
        let text = StyledText {
            text: TextBuffer::new(),
            styles: Vec::new(),
            open_styles: Vec::new(),
            links: Vec::new(),
            image: None,
        };
        assert(text@ =~= no_text());
        text
    }

    pub fn push_char(&mut self, character: char)
        ensures
            final(self)@ == add_char(old(self)@, character),
    {
        if is_control(character) && character != '\n' && character != '\t' {
            return;
        }
        let image = self.image.take();
        match image {
            Some((destination, mut alt)) => {
                alt.push(character);
                self.image = Some((destination, alt));
            },
            None => {
                self.image = None;
                self.text.push(character);
            },
        }
    }

    /// Characters that are already in lines.
    pub fn push_chars(&mut self, characters: &[char])
        ensures
            final(self)@ == add_chars(old(self)@, characters@),
    {
        let mut i: usize = 0;
        assert(characters@.take(0) =~= seq![]);
        while i < characters.len()
            invariant
                i <= characters.len(),
                self@ == add_chars(old(self)@, characters@.take(i as int)),
            decreases characters.len() - i,
        {
            assert(characters@.take(i + 1).drop_last() =~= characters@.take(i as int));
            self.push_char(characters[i]);
            i += 1;
        }
        assert(characters@.take(i as int) =~= characters@);
    }

    pub fn push_text(&mut self, value: &[char])
        ensures
            final(self)@ == add_text(old(self)@, value@),
    {
        let feeds = feed_lines(value);
        self.push_chars(&feeds);
    }

    pub fn push_literal(&mut self, value: &str)
        ensures
            final(self)@ == add_text(old(self)@, value@),
    {
        let characters = chars_of(value);
        self.push_text(&characters);
    }

    pub fn push_space(&mut self)
        ensures
            final(self)@ == add_space(old(self)@),
    {
        let image = self.image.take();
        match image {
            Some((destination, mut alt)) => {
                if alt.len() == 0 || !is_whitespace(alt[alt.len() - 1]) {
                    alt.push(' ');
                }
                self.image = Some((destination, alt));
            },
            None => {
                self.image = None;
                if let Some(last) = self.text.last() {
                    if !is_whitespace(last) {
                        self.text.push(' ');
                    }
                }
            },
        }
    }

    pub fn ensure_newlines(&mut self, count: usize)
        ensures
            final(self)@ == add_newlines(old(self)@, count as int),
    {
        if self.image.is_some() {
            self.push_space();
            return;
        }
        self.text.start_line(count);
    }

    pub fn start_style(&mut self, kind: TextStyleKind)
        ensures
            final(self)@ == open_style(old(self)@, kind),
    {
        if self.image.is_none() {
            let ghost before = self.open_styles@;
            let start: u128 = self.text.bytes();
            self.open_styles.push((kind, start));
            assert(open_views(self.open_styles@) =~= open_views(before).push(
                (kind, start as int),
            ));
        }
    }

    /// Puts a style on the text from `start` to `end`.
    pub fn push_style(&mut self, start: u128, end: u128, kind: TextStyleKind)
        ensures
            final(self)@ == (Styled {
                styles: old(self)@.styles.push(
                    StyleModel { start: start as int, end: end as int, kind },
                ),
                ..old(self)@
            }),
    {
        let ghost before = self.styles@;
        self.styles.push(StyleSpan { start, end, kind });
        assert(span_views(self.styles@) =~= span_views(before).push(
            StyleModel { start: start as int, end: end as int, kind },
        ));
    }

    pub fn end_style(&mut self, kind: TextStyleKind)
        ensures
            final(self)@ == close_style(old(self)@, kind),
    {
        let ghost open = open_views(self.open_styles@);
        let mut n: usize = self.open_styles.len();
        assert(open.take(n as int) =~= open);
        while n > 0 && self.open_styles[n - 1].0 != kind
            invariant
                n <= self.open_styles.len(),
                open == open_views(self.open_styles@),
                last_open(open, kind) == last_open(open.take(n as int), kind),
            decreases n,
        {
            assert(open.take(n as int).last() == open[n - 1]);
            assert(open.take(n as int).drop_last() =~= open.take(n - 1));
            n -= 1;
        }
        if n == 0 {
            assert(open.take(0) =~= seq![]);
            return;
        }
        assert(open.take(n as int).last() == open[n - 1]);
        let ghost before = self.open_styles@;
        let (_, start) = self.open_styles.remove(n - 1);
        assert(open_views(self.open_styles@) =~= open.remove(n - 1));
        let end: u128 = self.text.bytes();
        if start < end {
            self.push_style(start, end, kind);
        }
    }

    pub fn push_styled(&mut self, value: &[char], kind: TextStyleKind)
        ensures
            final(self)@ == add_styled(old(self)@, value@, kind),
    {
        self.start_style(kind);
        self.push_text(value);
        self.end_style(kind);
    }

    pub fn start_link(&mut self, destination: &str)
        ensures
            final(self)@ == open_link(old(self)@, destination@),
    {
        if self.image.is_none() {
            let ghost before = self.links@;
            let start: u128 = self.text.bytes();
            let shown = sanitise_inline(destination);
            let ghost model = shown@;
            self.links.push((start, shown));
            assert(link_views(self.links@) =~= link_views(before).push((start as int, model)));
        }
    }

    fn push_destination(&mut self, destination: &[char])
        ensures
            final(self)@ == add_destination(old(self)@, destination@),
    {
        self.push_literal(" <");
        self.push_text(destination);
        self.push_literal(">");
    }

    pub fn end_link(&mut self)
        ensures
            final(self)@ == close_link(old(self)@),
    {
        let ghost before = self.links@;
        match self.links.pop() {
            None => {
                assert(self@ =~= old(self)@);
            },
            Some((start, destination)) => {
                assert(link_views(self.links@) =~= link_views(before).drop_last());
                assert(link_views(before).last() == (start as int, destination@));
                let end: u128 = self.text.bytes();
                if start < end {
                    self.push_style(start, end, TextStyleKind::Link);
                }
                let rest = self.text.after(start);
                let label = trim_chars(&rest);
                if destination.len() > 0 && !same_chars(&label, &destination) {
                    self.push_destination(&destination);
                }
            },
        }
    }

    pub fn start_image(&mut self, destination: &str)
        ensures
            final(self)@ == open_image(old(self)@, destination@),
    {
        if self.image.is_none() {
            let alt: Vec<char> = Vec::new();
            self.image = Some((sanitise_inline(destination), alt));
        }
    }

    pub fn end_image(&mut self)
        ensures
            final(self)@ == close_image(old(self)@),
    {
        let image = self.image.take();
        self.image = None;
        if let Some((destination, description)) = image {
            let alt = collapse_chars(&description);
            if alt.len() == 0 {
                self.push_literal("[Image]");
            } else {
                self.push_literal("[Image: ");
                self.push_text(&alt);
                self.push_literal("]");
            }
            if destination.len() > 0 {
                self.push_destination(&destination);
            }
        }
    }

    /// Closes everything and drops the white space at the end.
    pub fn finish(&mut self)
        ensures
            final(self)@ == closed_text(old(self)@),
    {
        self.text.trim_end();
        let end: u128 = self.text.bytes();
        let ghost all = span_views(self.styles@);
        let mut styles: Vec<StyleSpan> = Vec::new();
        let mut i: usize = 0;
        assert(span_views(styles@) =~= seq![]);
        while i < self.styles.len()
            invariant
                i <= self.styles.len(),
                all == span_views(self.styles@),
                all == old(self)@.styles,
                self.text@ == trimmed_end(old(self)@.text),
                span_views(styles@) == clipped_styles(all.take(i as int), end as int),
            decreases self.styles.len() - i,
        {
            let start: u128 = self.styles[i].start;
            let after: u128 = self.styles[i].end;
            let last: u128 = if after <= end {
                after
            } else {
                end
            };
            let kind = self.styles[i].kind;
            assert(all.take(i + 1).drop_last() =~= all.take(i as int));
            assert(all.take(i + 1).last() == self.styles@[i as int]@);
            if start < last {
                let ghost before = styles@;
                styles.push(StyleSpan { start, end: last, kind });
                assert(span_views(styles@) =~= span_views(before).push(
                    StyleModel { start: start as int, end: last as int, kind },
                ));
            }
            i += 1;
        }
        assert(all.take(i as int) =~= all);
        self.styles = styles;
        self.open_styles = Vec::new();
        self.links = Vec::new();
        self.image = None;
        assert(self@ =~= closed_text(old(self)@));
    }
}

/// Styles as far as they lie in the first `length` bytes.
pub fn place_styles(spans: &[StyleSpan], length: usize) -> (styles: Vec<TextStyle>)
    ensures
        style_views(styles@) == clipped_styles(span_views(spans@), length as int),
{
    let ghost all = span_views(spans@);
    let end: u128 = length as u128;
    let mut styles: Vec<TextStyle> = Vec::new();
    let mut i: usize = 0;
    assert(style_views(styles@) =~= seq![]);
    while i < spans.len()
        invariant
            i <= spans.len(),
            all == span_views(spans@),
            end == length,
            style_views(styles@) == clipped_styles(all.take(i as int), length as int),
        decreases spans.len() - i,
    {
        let start: u128 = spans[i].start;
        let after: u128 = spans[i].end;
        let last: u128 = if after <= end {
            after
        } else {
            end
        };
        let kind = spans[i].kind;
        assert(all.take(i + 1).drop_last() =~= all.take(i as int));
        assert(all.take(i + 1).last() == spans@[i as int]@);
        if start < last {
            let ghost before = styles@;
            styles.push(
                TextStyle { range: Range { start: start as usize, end: last as usize }, kind },
            );
            assert(style_views(styles@) =~= style_views(before).push(
                StyleModel { start: start as int, end: last as int, kind },
            ));
        }
        i += 1;
    }
    assert(all.take(i as int) =~= all);
    styles
}

pub proof fn lemma_clipped_styles(styles: Seq<StyleModel>, length: int)
    requires
        forall|i: int| 0 <= i < styles.len() ==> 0 <= (#[trigger] styles[i]).start,
    ensures
        forall|i: int|
            0 <= i < clipped_styles(styles, length).len() ==> 0 <= (#[trigger] clipped_styles(
                styles,
                length,
            )[i]).start < clipped_styles(styles, length)[i].end <= length,
    decreases styles.len(),
{
    if styles.len() > 0 {
        lemma_clipped_styles(styles.drop_last(), length);
    }
}

/// An entry of a table of contents at a byte of the text.
pub struct PlacedEntry {
    pub label: Vec<char>,
    pub offset: u128,
    pub depth: u8,
}

impl View for PlacedEntry {
    type V = TocModel;

    open spec fn view(&self) -> TocModel {
        TocModel { label: self.label@, offset: self.offset as int, depth: self.depth as int }
    }
}

pub open spec fn entry_views(entries: Seq<PlacedEntry>) -> Seq<TocModel> {
    Seq::new(entries.len(), |i: int| entries[i]@)
}

/// The entries that lie in the first `length` bytes.
pub open spec fn entries_within(entries: Seq<TocModel>, length: int) -> Seq<TocModel>
    decreases entries.len(),
{
    if entries.len() == 0 {
        seq![]
    } else {
        let before = entries_within(entries.drop_last(), length);
        if entries.last().offset < length {
            before.push(entries.last())
        } else {
            before
        }
    }
}

/// The entries that lie in the first `length` bytes.
pub fn place_entries(placed: &[PlacedEntry], length: usize) -> (entries: Vec<TocEntry>)
    ensures
        toc_views(entries@) == entries_within(entry_views(placed@), length as int),
{
    let ghost all = entry_views(placed@);
    let mut entries: Vec<TocEntry> = Vec::new();
    let mut i: usize = 0;
    assert(toc_views(entries@) =~= seq![]);
    while i < placed.len()
        invariant
            i <= placed.len(),
            all == entry_views(placed@),
            toc_views(entries@) == entries_within(all.take(i as int), length as int),
        decreases placed.len() - i,
    {
        let at: u128 = placed[i].offset;
        assert(all.take(i + 1).drop_last() =~= all.take(i as int));
        assert(all.take(i + 1).last() == placed@[i as int]@);
        if at < length as u128 {
            let ghost before = entries@;
            let entry = TocEntry {
                label: string_of(&placed[i].label),
                offset: at as usize,
                depth: placed[i].depth,
            };
            let ghost model = entry@;
            entries.push(entry);
            assert(toc_views(entries@) =~= toc_views(before).push(model));
        }
        i += 1;
    }
    assert(all.take(i as int) =~= all);
    entries
}

pub proof fn lemma_entries_within(entries: Seq<TocModel>, length: int)
    requires
        forall|i: int| 0 <= i < entries.len() ==> 0 <= (#[trigger] entries[i]).offset,
    ensures
        forall|i: int|
            0 <= i < entries_within(entries, length).len() ==> 0 <= (#[trigger] entries_within(
                entries,
                length,
            )[i]).offset < length,
    decreases entries.len(),
{
    if entries.len() > 0 {
        lemma_entries_within(entries.drop_last(), length);
        let before = entries_within(entries.drop_last(), length);
        let all = entries_within(entries, length);
        assert(entries.last() == entries[entries.len() - 1]);
        assert forall|i: int| 0 <= i < all.len() implies 0 <= (#[trigger] all[i]).offset
            < length by {
            if i < before.len() {
                assert(all[i] == before[i]);
            }
        }
    }
}

} // verus!

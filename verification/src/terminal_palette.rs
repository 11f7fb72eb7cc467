//! What a terminal answers when it is asked for its colours.
use vstd::prelude::*;
use vstd::utf8::{decode_utf8, valid_utf8};

use crate::encoding::utf8_text;
use crate::strings::{
    eq_ignore_ascii_case, find_char, first_occurrence, occurs_at, position,
    same_ignoring_ascii_case, split, split_on, texts, trim_chars, trimmed,
};
use crate::text::{chars_of, copy_range};

verus! {

/// The colours of a terminal.
#[derive(Clone, Copy, Debug, PartialEq, Eq)]
pub struct DefaultColors {
    pub foreground: (u8, u8, u8),
    pub background: (u8, u8, u8),
}

pub open spec fn hex_digit(c: char) -> Option<int> {
    if '0' <= c <= '9' {
        Some(c as int - '0' as int)
    } else if 'a' <= c <= 'f' {
        Some(c as int - 'a' as int + 10)
    } else if 'A' <= c <= 'F' {
        Some(c as int - 'A' as int + 10)
    } else {
        None
    }
}

/// The value of a number in hexadecimal digits.
pub open spec fn hex_value(digits: Seq<char>) -> Option<int>
    decreases digits.len(),
{
    if digits.len() == 0 {
        Some(0)
    } else {
        match (hex_value(digits.drop_last()), hex_digit(digits.last())) {
            (Some(value), Some(digit)) => Some(16 * value + digit),
            _ => None,
        }
    }
}

/// A number may have a sign before its digits.
pub open spec fn unsigned(s: Seq<char>) -> Seq<char> {
    if s.len() > 0 && s[0] == '+' {
        s.skip(1)
    } else {
        s
    }
}

/// A component of a colour in two or in four digits.
pub open spec fn component(s: Seq<char>) -> Option<int> {
    match hex_value(unsigned(s)) {
        Some(value) => if s.len() == 2 {
            Some(value)
        } else if s.len() == 4 {
            Some(value / 257)
        } else {
            None
        },
        None => None,
    }
}

/// A colour such as `rgb:ffff/8080/0000`.
pub open spec fn osc_rgb(s: Seq<char>) -> Option<(int, int, int)> {
    let t = trimmed(s);
    let colon = position(t, ':') as int;
    let parts = split(t.skip(colon + 1), '/');
    if colon >= t.len() || !same_ignoring_ascii_case(t.take(colon), "rgb"@) || parts.len() != 3 {
        None
    } else {
        match (component(parts[0]), component(parts[1]), component(parts[2])) {
            (Some(red), Some(green), Some(blue)) => Some((red, green, blue)),
            _ => None,
        }
    }
}

/// A number in decimal digits.
pub open spec fn slot_digits(slot: u8) -> Seq<u8>
    decreases slot,
{
    if slot < 10 {
        seq![(0x30 + slot) as u8]
    } else {
        slot_digits(slot / 10).push((0x30 + slot % 10) as u8)
    }
}

/// How the answer on a colour begins: the escape character, a bracket, the number of the
/// colour, and a semicolon.
pub open spec fn osc_prefix(slot: u8) -> Seq<u8> {
    seq![0x1bu8, 0x5du8] + slot_digits(slot) + seq![0x3bu8]
}

/// Where an answer ends: at the first bell, or without one before the string terminator.
pub open spec fn osc_end(rest: Seq<u8>) -> Option<int> {
    match first_occurrence(rest, seq![7u8], 0) {
        Some(end) => Some(end),
        None => first_occurrence(rest, seq![0x1bu8, 0x5cu8], 0),
    }
}

/// The colour that is answered for a number.
pub open spec fn osc_color(buffer: Seq<u8>, slot: u8) -> Option<(int, int, int)> {
    match first_occurrence(buffer, osc_prefix(slot), 0) {
        None => None,
        Some(start) => {
            let rest = buffer.skip(start + osc_prefix(slot).len());
            match osc_end(rest) {
                None => None,
                Some(end) => if valid_utf8(rest.take(end)) {
                    osc_rgb(decode_utf8(rest.take(end)))
                } else {
                    None
                },
            }
        },
    }
}

pub open spec fn color_view(color: Option<(u8, u8, u8)>) -> Option<(int, int, int)> {
    match color {
        Some((red, green, blue)) => Some((red as int, green as int, blue as int)),
        None => None,
    }
}

fn digit_of(c: char) -> (digit: Option<u8>)
    ensures
        match digit {
            Some(d) => hex_digit(c) == Some(d as int) && d < 16,
            None => hex_digit(c) is None,
        },
{
    if '0' <= c && c <= '9' {
        Some((c as u32 - '0' as u32) as u8)
    } else if 'a' <= c && c <= 'f' {
        Some((c as u32 - 'a' as u32) as u8 + 10)
    } else if 'A' <= c && c <= 'F' {
        Some((c as u32 - 'A' as u32) as u8 + 10)
    } else {
        None
    }
}

proof fn lemma_hex_bound(digits: Seq<char>)
    requires
        digits.len() <= 4,
    ensures
        hex_value(digits) matches Some(value) ==> 0 <= value && (digits.len() <= 2 ==> value < 256)
            && (digits.len() <= 3 ==> value < 4096) && value < 65536 && (digits.len() <= 1 ==> value
            < 16) && (digits.len() == 0 ==> value == 0),
    decreases digits.len(),
{
    if digits.len() > 0 {
        lemma_hex_bound(digits.drop_last());
    }
}

fn number_of(digits: &[char]) -> (number: Option<u32>)
    requires
        digits@.len() <= 4,
    ensures
        match number {
            Some(total) => hex_value(digits@) == Some(total as int),
            None => hex_value(digits@) is None,
        },
{
    let mut total: u32 = 0;
    let mut i: usize = 0;
    assert(hex_value(digits@.take(0)) == Some(0int));
    while i < digits.len()
        invariant
            i <= digits.len() <= 4,
            hex_value(digits@.take(i as int)) == Some(total as int),
        decreases digits.len() - i,
    {
        assert(digits@.take(i + 1).drop_last() =~= digits@.take(i as int));
        proof {
            lemma_hex_bound(digits@.take(i as int));
        }
        match digit_of(digits[i]) {
            Some(digit) => {
                total = 16 * total + digit as u32;
            },
            None => {
                proof {
                    lemma_no_value(digits@, i + 1);
                }
                return None;
            },
        }
        i += 1;
    }
    assert(digits@.take(i as int) =~= digits@);
    Some(total)
}

/// A component of a colour in two or in four digits.
pub fn parse_component(value: &[char]) -> (result: Option<u8>)
    ensures
        match result {
            Some(v) => component(value@) == Some(v as int),
            None => component(value@) is None,
        },
{
    if value.len() != 2 && value.len() != 4 {
        return None;
    }
    let first: usize = if value[0] == '+' {
        1
    } else {
        0
    };
    let digits = copy_range(value, first, value.len());
    assert(digits@ =~= unsigned(value@));
    proof {
        lemma_hex_bound(digits@);
    }
    match number_of(&digits) {
        Some(total) => if value.len() == 2 {
            Some(total as u8)
        } else {
            Some((total / 257) as u8)
        },
        None => None,
    }
}

proof fn lemma_no_value(digits: Seq<char>, n: int)
    requires
        0 <= n <= digits.len(),
        hex_value(digits.take(n)) is None,
    ensures
        hex_value(digits) is None,
    decreases digits.len() - n,
{
    if n < digits.len() {
        assert(digits.take(n + 1).drop_last() =~= digits.take(n));
        lemma_no_value(digits, n + 1);
    } else {
        assert(digits.take(n) =~= digits);
    }
}

/// A colour such as `rgb:ffff/8080/0000`.
pub fn parse_osc_rgb(value: &str) -> (color: Option<(u8, u8, u8)>)
    ensures
        color_view(color) == osc_rgb(value@),
{
    let characters = chars_of(value);
    let t = trim_chars(&characters);
    assert(t@.skip(0) =~= t@);
    let colon: usize = find_char(&t, ':', 0);
    if colon >= t.len() {
        return None;
    }
    let kind = copy_range(&t, 0, colon);
    let channels = copy_range(&t, colon + 1, t.len());
    assert(kind@ =~= t@.take(colon as int));
    assert(channels@ =~= t@.skip(colon + 1));
    let name = chars_of("rgb");
    let parts = split_on(&channels, '/');
    assert(texts(parts@).len() == parts@.len());
    if !eq_ignore_ascii_case(&kind, &name) || parts.len() != 3 {
        return None;
    }
    assert(texts(parts@)[0] == parts@[0]@ && texts(parts@)[1] == parts@[1]@ && texts(parts@)[2]
        == parts@[2]@);
    match (parse_component(&parts[0]), parse_component(&parts[1]), parse_component(&parts[2])) {
        (Some(red), Some(green), Some(blue)) => Some((red, green, blue)),
        _ => None,
    }
}

fn bytes_at(buffer: &[u8], pattern: &[u8], index: usize) -> (found: bool)
    requires
        index <= buffer@.len(),
    ensures
        found == occurs_at(buffer@, pattern@, index as int),
{
    if pattern.len() > buffer.len() - index {
        return false;
    }
    let mut i: usize = 0;
    while i < pattern.len()
        invariant
            i <= pattern.len(),
            index + pattern.len() <= buffer.len(),
            forall|j: int| 0 <= j < i ==> #[trigger] pattern@[j] == buffer@[index + j],
        decreases pattern.len() - i,
    {
        if buffer[index + i] != pattern[i] {
            assert(buffer@.subrange(index as int, index + pattern@.len())[i as int]
                == buffer@[index + i]);
            return false;
        }
        i += 1;
    }
    assert(buffer@.subrange(index as int, index + pattern@.len()) =~= pattern@);
    true
}

fn find_bytes(buffer: &[u8], pattern: &[u8]) -> (place: Option<usize>)
    ensures
        match place {
            Some(index) => first_occurrence(buffer@, pattern@, 0) == Some(index as int) && index
                + pattern@.len() <= buffer@.len(),
            None => first_occurrence(buffer@, pattern@, 0) is None,
        },
{
    let mut i: usize = 0;
    while i <= buffer.len()
        invariant
            i <= buffer@.len() + 1,
            first_occurrence(buffer@, pattern@, 0) == first_occurrence(
                buffer@,
                pattern@,
                i as int,
            ),
        decreases buffer.len() + 1 - i,
    {
        if bytes_at(buffer, pattern, i) {
            return Some(i);
        }
        if i == buffer.len() {
            assert(first_occurrence(buffer@, pattern@, i + 1) is None);
            return None;
        }
        i += 1;
    }
    None
}

fn push_slot(bytes: &mut Vec<u8>, slot: u8)
    ensures
        final(bytes)@ == old(bytes)@ + slot_digits(slot),
    decreases slot,
{
    if slot >= 10 {
        push_slot(bytes, slot / 10);
    }
    bytes.push(0x30 + slot % 10);
    assert(bytes@ =~= old(bytes)@ + slot_digits(slot));
}

/// The colour that is answered for a number.
pub fn parse_osc_color(buffer: &[u8], slot: u8) -> (color: Option<(u8, u8, u8)>)
    ensures
        color_view(color) == osc_color(buffer@, slot),
{
    let mut prefix: Vec<u8> = Vec::new();
    prefix.push(0x1b);
    prefix.push(0x5d);
    push_slot(&mut prefix, slot);
    prefix.push(0x3b);
    assert(prefix@ =~= osc_prefix(slot));
    let start: usize = match find_bytes(buffer, &prefix) {
        Some(start) => start,
        None => {
            return None;
        },
    };
    let length: usize = buffer.len();
    let rest = vstd::slice::slice_subrange(buffer, start + prefix.len(), length);
    assert(rest@ =~= buffer@.skip(start + prefix@.len()));
    let mut bell: Vec<u8> = Vec::new();
    bell.push(7);
    assert(bell@ =~= seq![7u8]);
    let mut terminator: Vec<u8> = Vec::new();
    terminator.push(0x1b);
    terminator.push(0x5c);
    assert(terminator@ =~= seq![0x1bu8, 0x5cu8]);
    let end: usize = match find_bytes(rest, &bell) {
        Some(end) => end,
        None => match find_bytes(rest, &terminator) {
            Some(end) => end,
            None => {
                return None;
            },
        },
    };
    let answer = vstd::slice::slice_subrange(rest, 0, end);
    assert(answer@ =~= rest@.take(end as int));
    match utf8_text(answer) {
        Some(text) => parse_osc_rgb(text.as_str()),
        None => None,
    }
}

/// The colours of a terminal, if both were answered, in whichever order.
pub fn parse_default_colors(buffer: &[u8]) -> (colors: Option<DefaultColors>)
    ensures
        match colors {
            Some(found) => osc_color(buffer@, 10) == color_view(Some(found.foreground))
                && osc_color(buffer@, 11) == color_view(Some(found.background)),
            None => osc_color(buffer@, 10) is None || osc_color(buffer@, 11) is None,
        },
{
    match (parse_osc_color(buffer, 10), parse_osc_color(buffer, 11)) {
        (Some(foreground), Some(background)) => Some(DefaultColors { foreground, background }),
        _ => None,
    }
}

/// A component in two digits means the same as one in which the two digits are written twice.
pub proof fn law_doubled_component(high: char, low: char)
    requires
        hex_digit(high) is Some,
        hex_digit(low) is Some,
    ensures
        component(seq![high, low, high, low]) == component(seq![high, low]),
        component(seq![high, low]) is Some,
{
    reveal_with_fuel(hex_value, 5);
    let two = seq![high, low];
    let four = seq![high, low, high, low];
    assert(two.drop_last() =~= seq![high]);
    assert(seq![high].drop_last() =~= seq![]);
    assert(four.drop_last() =~= seq![high, low, high]);
    assert(seq![high, low, high].drop_last() =~= two);
    let a = hex_digit(high)->0;
    let b = hex_digit(low)->0;
    assert(hex_value(two) == Some(16 * a + b));
    assert(hex_value(four) == Some(257 * (16 * a + b)));
}

/// The colour of a number in which the lowest byte is red and the third one blue.
pub fn decode_color_ref(color: u32) -> (components: (u8, u8, u8))
    ensures
        components.0 == color % 256,
        components.1 == (color / 256) % 256,
        components.2 == (color / 65536) % 256,
{
    ((color % 256) as u8, ((color / 256) % 256) as u8, ((color / 65536) % 256) as u8)
}

} // verus!

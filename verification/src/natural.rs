//! The natural order of names, in which numbers count by their value.
use std::cmp::Ordering;

use vstd::prelude::*;
use vstd::utf8::encode_utf8;

use crate::unicode::string_texts;

verus! {

/// How one thing compares with another.
#[derive(Clone, Copy, Debug, PartialEq, Eq, Structural)]
pub enum Rank {
    Less,
    Equal,
    Greater,
}

pub open spec fn int_rank(a: int, b: int) -> Rank {
    if a < b {
        Rank::Less
    } else if a > b {
        Rank::Greater
    } else {
        Rank::Equal
    }
}

pub(crate) fn rank(a: usize, b: usize) -> (result: Rank)
    ensures
        result == int_rank(a as int, b as int),
{
    if a < b {
        Rank::Less
    } else if a > b {
        Rank::Greater
    } else {
        Rank::Equal
    }
}

pub open spec fn is_digit_byte(b: u8) -> bool {
    0x30 <= b <= 0x39
}

pub open spec fn lower_byte(b: u8) -> int {
    if 0x41 <= b <= 0x5a {
        b + 32
    } else {
        b as int
    }
}

/// The index after the digits from `i` on.
pub open spec fn digits_end(bytes: Seq<u8>, i: int) -> int
    decreases bytes.len() - i,
{
    if 0 <= i < bytes.len() && is_digit_byte(bytes[i]) {
        digits_end(bytes, i + 1)
    } else {
        i
    }
}

/// A number without the zeroes before it, but with at least one digit.
pub open spec fn significant(number: Seq<u8>) -> Seq<u8>
    decreases number.len(),
{
    if number.len() > 1 && number[0] == 0x30 {
        significant(number.drop_first())
    } else {
        number
    }
}

/// The order of two sequences of bytes: that of the first bytes that differ.
pub open spec fn bytes_rank(a: Seq<u8>, b: Seq<u8>) -> Rank
    decreases a.len(),
{
    if a.len() == 0 || b.len() == 0 {
        int_rank(a.len() as int, b.len() as int)
    } else if a[0] != b[0] {
        int_rank(a[0] as int, b[0] as int)
    } else {
        bytes_rank(a.drop_first(), b.drop_first())
    }
}

/// The order of two numbers: by value, and with equal values the one with fewer zeroes first.
pub open spec fn number_rank(a: Seq<u8>, b: Seq<u8>) -> Rank {
    let (x, y) = (significant(a), significant(b));
    if x.len() != y.len() {
        int_rank(x.len() as int, y.len() as int)
    } else if bytes_rank(x, y) != Rank::Equal {
        bytes_rank(x, y)
    } else {
        int_rank(a.len() as int, b.len() as int)
    }
}

/// The order of two names from the index `i` of one and `j` of the other on: numbers by their
/// value, letters without regard to case.
pub open spec fn natural_rank(a: Seq<u8>, b: Seq<u8>, i: int, j: int) -> Rank
    decreases a.len() - i,
{
    if 0 <= i < a.len() && 0 <= j < b.len() {
        if is_digit_byte(a[i]) && is_digit_byte(b[j]) {
            let (m, n) = (digits_end(a, i), digits_end(b, j));
            proof {
                lemma_digits_end(a, i);
            }
            let numbers = number_rank(a.subrange(i, m), b.subrange(j, n));
            if numbers != Rank::Equal || m <= i {
                numbers
            } else {
                natural_rank(a, b, m, n)
            }
        } else if lower_byte(a[i]) != lower_byte(b[j]) {
            int_rank(lower_byte(a[i]), lower_byte(b[j]))
        } else {
            natural_rank(a, b, i + 1, j + 1)
        }
    } else {
        int_rank(a.len() as int, b.len() as int)
    }
}

/// The order of two names.
pub open spec fn name_rank(a: Seq<char>, b: Seq<char>) -> Rank {
    natural_rank(encode_utf8(a), encode_utf8(b), 0, 0)
}

fn lower(b: u8) -> (result: u8)
    ensures
        result == lower_byte(b),
{
    if 0x41 <= b && b <= 0x5a {
        b + 32
    } else {
        b
    }
}

pub proof fn lemma_digits_end(bytes: Seq<u8>, i: int)
    requires
        0 <= i <= bytes.len(),
    ensures
        i <= digits_end(bytes, i) <= bytes.len(),
        i < bytes.len() && is_digit_byte(bytes[i]) ==> i < digits_end(bytes, i),
    decreases bytes.len() - i,
{
    if i < bytes.len() && is_digit_byte(bytes[i]) {
        lemma_digits_end(bytes, i + 1);
    }
}

fn digit_end(bytes: &[u8], start: usize) -> (end: usize)
    requires
        start <= bytes@.len(),
    ensures
        end == digits_end(bytes@, start as int),
        start <= end <= bytes@.len(),
{
    let mut end: usize = start;
    while end < bytes.len() && 0x30 <= bytes[end] && bytes[end] <= 0x39
        invariant
            start <= end <= bytes@.len(),
            digits_end(bytes@, start as int) == digits_end(bytes@, end as int),
        decreases bytes.len() - end,
    {
        end += 1;
    }
    end
}

/// Where the digits of a number begin that are not zeroes before it.
fn trim_zeroes(bytes: &[u8], start: usize, end: usize) -> (first: usize)
    requires
        start <= end <= bytes@.len(),
    ensures
        start <= first <= end,
        bytes@.subrange(first as int, end as int) == significant(
            bytes@.subrange(start as int, end as int),
        ),
{
    let mut first: usize = start;
    while end - first > 1 && bytes[first] == 0x30
        invariant
            start <= first <= end <= bytes@.len(),
            significant(bytes@.subrange(first as int, end as int)) == significant(
                bytes@.subrange(start as int, end as int),
            ),
        decreases end - first,
    {
        assert(bytes@.subrange(first as int, end as int).drop_first() =~= bytes@.subrange(
            first + 1,
            end as int,
        ));
        first += 1;
    }
    first
}

fn rank_bytes(
    a: &[u8],
    a_start: usize,
    a_end: usize,
    b: &[u8],
    b_start: usize,
    b_end: usize,
) -> (result: Rank)
    requires
        a_start <= a_end <= a@.len(),
        b_start <= b_end <= b@.len(),
    ensures
        result == bytes_rank(
            a@.subrange(a_start as int, a_end as int),
            b@.subrange(b_start as int, b_end as int),
        ),
{
    let mut i: usize = a_start;
    let mut j: usize = b_start;
    while i < a_end && j < b_end
        invariant
            a_start <= i <= a_end <= a@.len(),
            b_start <= j <= b_end <= b@.len(),
            bytes_rank(
                a@.subrange(a_start as int, a_end as int),
                b@.subrange(b_start as int, b_end as int),
            ) == bytes_rank(
                a@.subrange(i as int, a_end as int),
                b@.subrange(j as int, b_end as int),
            ),
        decreases a_end - i,
    {
        if a[i] < b[j] {
            return Rank::Less;
        }
        if a[i] > b[j] {
            return Rank::Greater;
        }
        assert(a@.subrange(i as int, a_end as int).drop_first() =~= a@.subrange(
            i + 1,
            a_end as int,
        ));
        assert(b@.subrange(j as int, b_end as int).drop_first() =~= b@.subrange(
            j + 1,
            b_end as int,
        ));
        i += 1;
        j += 1;
    }
    rank(a_end - i, b_end - j)
}

fn rank_numbers(
    a: &[u8],
    a_start: usize,
    a_end: usize,
    b: &[u8],
    b_start: usize,
    b_end: usize,
) -> (result: Rank)
    requires
        a_start <= a_end <= a@.len(),
        b_start <= b_end <= b@.len(),
    ensures
        result == number_rank(
            a@.subrange(a_start as int, a_end as int),
            b@.subrange(b_start as int, b_end as int),
        ),
{
    let a_first: usize = trim_zeroes(a, a_start, a_end);
    let b_first: usize = trim_zeroes(b, b_start, b_end);
    if a_end - a_first != b_end - b_first {
        return rank(a_end - a_first, b_end - b_first);
    }
    let digits = rank_bytes(a, a_first, a_end, b, b_first, b_end);
    if digits != Rank::Equal {
        return digits;
    }
    rank(a_end - a_start, b_end - b_start)
}

/// The order of two names.
pub fn rank_names(left: &str, right: &str) -> (result: Rank)
    ensures
        result == name_rank(left@, right@),
{
    let a = left.as_bytes();
    let b = right.as_bytes();
    let mut i: usize = 0;
    let mut j: usize = 0;
    while i < a.len() && j < b.len()
        invariant
            i <= a@.len(),
            j <= b@.len(),
            a@ == encode_utf8(left@),
            b@ == encode_utf8(right@),
            natural_rank(a@, b@, 0, 0) == natural_rank(a@, b@, i as int, j as int),
        decreases a.len() - i,
    {
        proof {
            lemma_digits_end(a@, i as int);
            lemma_digits_end(b@, j as int);
        }
        if 0x30 <= a[i] && a[i] <= 0x39 && 0x30 <= b[j] && b[j] <= 0x39 {
            let a_end: usize = digit_end(a, i);
            let b_end: usize = digit_end(b, j);
            let numbers = rank_numbers(a, i, a_end, b, j, b_end);
            if numbers != Rank::Equal {
                return numbers;
            }
            i = a_end;
            j = b_end;
        } else {
            let x: u8 = lower(a[i]);
            let y: u8 = lower(b[j]);
            if x < y {
                return Rank::Less;
            }
            if x > y {
                return Rank::Greater;
            }
            i += 1;
            j += 1;
        }
    }
    rank(a.len(), b.len())
}

/// The order of two names in which numbers count by their value.
pub fn natural_cmp(left: &str, right: &str) -> (ordering: Ordering)
    ensures
        match name_rank(left@, right@) {
            Rank::Less => ordering == Ordering::Less,
            Rank::Equal => ordering == Ordering::Equal,
            Rank::Greater => ordering == Ordering::Greater,
        },
{
    match rank_names(left, right) {
        Rank::Less => Ordering::Less,
        Rank::Equal => Ordering::Equal,
        Rank::Greater => Ordering::Greater,
    }
}

/// Sorted names with one more, which goes after those that compare equal.
pub open spec fn with_name(sorted: Seq<Seq<char>>, name: Seq<char>) -> Seq<Seq<char>>
    decreases sorted.len(),
{
    if sorted.len() == 0 || name_rank(sorted.last(), name) != Rank::Greater {
        sorted.push(name)
    } else {
        with_name(sorted.drop_last(), name).push(sorted.last())
    }
}

/// The names in their natural order; those that compare equal stay in their order.
pub open spec fn sorted_names(names: Seq<Seq<char>>) -> Seq<Seq<char>>
    decreases names.len(),
{
    if names.len() == 0 {
        seq![]
    } else {
        with_name(sorted_names(names.drop_last()), names.last())
    }
}

proof fn lemma_with_name(sorted: Seq<Seq<char>>, name: Seq<char>, at: int)
    requires
        0 <= at <= sorted.len(),
        forall|j: int|
            at <= j < sorted.len() ==> name_rank(#[trigger] sorted[j], name) == Rank::Greater,
        at > 0 ==> name_rank(sorted[at - 1], name) != Rank::Greater,
    ensures
        with_name(sorted, name) == sorted.insert(at, name),
    decreases sorted.len(),
{
    if at < sorted.len() {
        lemma_with_name(sorted.drop_last(), name, at);
        assert(sorted.insert(at, name) =~= sorted.drop_last().insert(at, name).push(sorted.last()));
    } else {
        assert(sorted.insert(at, name) =~= sorted.push(name));
    }
}

/// Puts names in their natural order.
pub fn sort_names(names: &[String]) -> (sorted: Vec<String>)
    ensures
        string_texts(sorted@) == sorted_names(string_texts(names@)),
{
    let ghost all = string_texts(names@);
    let mut sorted: Vec<String> = Vec::new();
    let mut i: usize = 0;
    assert(string_texts(sorted@) =~= seq![]);
    while i < names.len()
        invariant
            i <= names.len(),
            all == string_texts(names@),
            sorted@.len() == i,
            string_texts(sorted@) == sorted_names(all.take(i as int)),
        decreases names.len() - i,
    {
        let name = names[i].clone();
        let mut at: usize = sorted.len();
        while at > 0 && rank_names(sorted[at - 1].as_str(), name.as_str()) == Rank::Greater
            invariant
                at <= sorted.len(),
                forall|j: int|
                    at <= j < sorted@.len() ==> name_rank((#[trigger] sorted@[j])@, name@)
                        == Rank::Greater,
            decreases at,
        {
            at -= 1;
        }
        let ghost before = sorted@;
        let ghost model = name@;
        sorted.insert(at, name);
        proof {
            let views = string_texts(before);
            assert forall|j: int| at <= j < views.len() implies name_rank(
                #[trigger] views[j],
                model,
            ) == Rank::Greater by {
                assert(name_rank(before[j]@, model) == Rank::Greater);
            }
            lemma_with_name(views, model, at as int);
            assert(string_texts(sorted@) =~= views.insert(at as int, model));
            assert(all.take(i + 1).drop_last() =~= all.take(i as int));
            assert(all.take(i + 1).last() == all[i as int]);
        }
        i += 1;
    }
    assert(all.take(all.len() as int) =~= all);
    sorted
}

// ---------------------------------------------------------------------------------------
// Laws
// ---------------------------------------------------------------------------------------

pub open spec fn all_digits(number: Seq<u8>) -> bool {
    forall|i: int| 0 <= i < number.len() ==> is_digit_byte(#[trigger] number[i])
}

pub open spec fn power_of_ten(n: nat) -> nat
    decreases n,
{
    if n == 0 {
        1
    } else {
        10 * power_of_ten((n - 1) as nat)
    }
}

/// The value of a number by its digits.
pub open spec fn value(number: Seq<u8>) -> int
    decreases number.len(),
{
    if number.len() == 0 {
        0
    } else {
        (number[0] - 0x30) * power_of_ten((number.len() - 1) as nat) + value(number.drop_first())
    }
}

proof fn lemma_powers(m: nat, n: nat)
    requires
        m <= n,
    ensures
        1 <= power_of_ten(m) <= power_of_ten(n),
    decreases n,
{
    if m < n {
        lemma_powers(m, (n - 1) as nat);
    } else if n > 0 {
        lemma_powers((n - 1) as nat, (n - 1) as nat);
    }
}

proof fn lemma_value(number: Seq<u8>)
    requires
        all_digits(number),
    ensures
        0 <= value(number) < power_of_ten(number.len()),
    decreases number.len(),
{
    if number.len() > 0 {
        let rest = number.drop_first();
        assert forall|i: int| 0 <= i < rest.len() implies is_digit_byte(#[trigger] rest[i]) by {
            assert(rest[i] == number[i + 1]);
        }
        lemma_value(rest);
        let power = power_of_ten(rest.len());
        let digit = number[0] - 0x30;
        assert(is_digit_byte(number[0]));
        assert(0 <= digit * power <= 9 * power) by (nonlinear_arith)
            requires
                0 <= digit <= 9,
                power >= 0,
        ;
    }
}

proof fn lemma_significant(number: Seq<u8>)
    requires
        all_digits(number),
    ensures
        all_digits(significant(number)),
        value(significant(number)) == value(number),
        significant(number).len() <= number.len(),
        number.len() > 0 ==> significant(number).len() > 0,
        significant(number).len() > 1 ==> significant(number)[0] != 0x30,
    decreases number.len(),
{
    if number.len() > 1 && number[0] == 0x30 {
        let rest = number.drop_first();
        assert forall|i: int| 0 <= i < rest.len() implies is_digit_byte(#[trigger] rest[i]) by {
            assert(rest[i] == number[i + 1]);
        }
        lemma_significant(rest);
        let power = power_of_ten(rest.len());
        assert(0int * power == 0) by (nonlinear_arith);
    }
}

/// Numbers with as many digits compare as their values do.
proof fn lemma_bytes_rank(a: Seq<u8>, b: Seq<u8>)
    requires
        all_digits(a),
        all_digits(b),
        a.len() == b.len(),
    ensures
        bytes_rank(a, b) == int_rank(value(a), value(b)),
    decreases a.len(),
{
    if a.len() > 0 {
        let (x, y) = (a.drop_first(), b.drop_first());
        assert forall|i: int| 0 <= i < x.len() implies is_digit_byte(#[trigger] x[i])
            && is_digit_byte(#[trigger] y[i]) by {
            assert(x[i] == a[i + 1] && y[i] == b[i + 1]);
        }
        lemma_value(x);
        lemma_value(y);
        lemma_bytes_rank(x, y);
        let power = power_of_ten(x.len()) as int;
        let (d, e) = (a[0] - 0x30, b[0] - 0x30);
        if d < e {
            assert(d * power + power <= e * power) by (nonlinear_arith)
                requires
                    d + 1 <= e,
                    power >= 0,
            ;
        } else if e < d {
            assert(e * power + power <= d * power) by (nonlinear_arith)
                requires
                    e + 1 <= d,
                    power >= 0,
            ;
        }
    }
}

/// Of two numbers the one with the smaller value comes first, and of two ways to write a number
/// the shorter one.
pub proof fn law_numbers_by_value(a: Seq<u8>, b: Seq<u8>)
    requires
        all_digits(a),
        all_digits(b),
        a.len() > 0,
        b.len() > 0,
    ensures
        number_rank(a, b) == (if value(a) != value(b) {
            int_rank(value(a), value(b))
        } else {
            int_rank(a.len() as int, b.len() as int)
        }),
{
    let (x, y) = (significant(a), significant(b));
    lemma_significant(a);
    lemma_significant(b);
    lemma_value(x);
    lemma_value(y);
    if x.len() < y.len() {
        lemma_shorter_is_less(x, y);
    } else if y.len() < x.len() {
        lemma_shorter_is_less(y, x);
    } else {
        lemma_bytes_rank(x, y);
    }
}

proof fn lemma_shorter_is_less(x: Seq<u8>, y: Seq<u8>)
    requires
        all_digits(x),
        all_digits(y),
        x.len() < y.len(),
        y[0] != 0x30,
    ensures
        value(x) < value(y),
{
    let rest = y.drop_first();
    assert forall|i: int| 0 <= i < rest.len() implies is_digit_byte(#[trigger] rest[i]) by {
        assert(rest[i] == y[i + 1]);
    }
    lemma_value(x);
    lemma_value(rest);
    lemma_powers(x.len(), rest.len());
    let power = power_of_ten(rest.len());
    let digit = y[0] - 0x30;
    assert(is_digit_byte(y[0]));
    assert(digit * power >= power) by (nonlinear_arith)
        requires
            digit >= 1,
            power >= 0,
    ;
}

proof fn lemma_digits(bytes: Seq<u8>, i: int)
    requires
        0 <= i <= bytes.len(),
    ensures
        all_digits(bytes.subrange(i, digits_end(bytes, i))),
        i <= digits_end(bytes, i) <= bytes.len(),
    decreases bytes.len() - i,
{
    if i < bytes.len() && is_digit_byte(bytes[i]) {
        lemma_digits(bytes, i + 1);
        let n = digits_end(bytes, i);
        assert forall|k: int| 0 <= k < n - i implies is_digit_byte(
            #[trigger] bytes.subrange(i, n)[k],
        ) by {
            if k > 0 {
                assert(bytes.subrange(i, n)[k] == bytes.subrange(i + 1, n)[k - 1]);
            }
        }
    }
}

proof fn lemma_rank_reversed(a: Seq<u8>, b: Seq<u8>, i: int)
    requires
        0 <= i,
        i <= a.len(),
        i <= b.len(),
    ensures
        natural_rank(a, b, i, i) == Rank::Less <==> natural_rank(b, a, i, i) == Rank::Greater,
        natural_rank(a, b, i, i) == Rank::Equal <==> natural_rank(b, a, i, i) == Rank::Equal,
    decreases a.len() - i,
{
    if i < a.len() && i < b.len() {
        if is_digit_byte(a[i]) && is_digit_byte(b[i]) {
            let (m, n) = (digits_end(a, i), digits_end(b, i));
            lemma_digits(a, i);
            lemma_digits(b, i);
            lemma_digits_end(a, i);
            lemma_digits_end(b, i);
            law_numbers_by_value(a.subrange(i, m), b.subrange(i, n));
            law_numbers_by_value(b.subrange(i, n), a.subrange(i, m));
            if m == n {
                lemma_rank_reversed(a, b, m);
            }
        } else {
            lemma_rank_reversed(a, b, i + 1);
        }
    }
}

proof fn lemma_rank_chained(a: Seq<u8>, b: Seq<u8>, c: Seq<u8>, i: int)
    requires
        0 <= i,
        i <= a.len(),
        i <= b.len(),
        i <= c.len(),
        natural_rank(a, b, i, i) != Rank::Greater,
        natural_rank(b, c, i, i) != Rank::Greater,
    ensures
        natural_rank(a, c, i, i) != Rank::Greater,
    decreases a.len() - i,
{
    if i < a.len() && i < b.len() && i < c.len() {
        let (m, n, o) = (digits_end(a, i), digits_end(b, i), digits_end(c, i));
        lemma_digits(a, i);
        lemma_digits(b, i);
        lemma_digits(c, i);
        lemma_digits_end(a, i);
        lemma_digits_end(b, i);
        lemma_digits_end(c, i);
        if is_digit_byte(a[i]) && is_digit_byte(b[i]) && is_digit_byte(c[i]) {
            let (x, y, z) = (a.subrange(i, m), b.subrange(i, n), c.subrange(i, o));
            law_numbers_by_value(x, y);
            law_numbers_by_value(y, z);
            law_numbers_by_value(x, z);
            if number_rank(x, z) == Rank::Equal {
                assert(m == n && n == o);
                lemma_rank_chained(a, b, c, m);
            }
        } else if !(is_digit_byte(a[i]) && is_digit_byte(b[i])) && !(is_digit_byte(b[i])
            && is_digit_byte(c[i])) && lower_byte(a[i]) == lower_byte(b[i]) && lower_byte(b[i])
            == lower_byte(c[i]) {
            lemma_rank_chained(a, b, c, i + 1);
        }
    }
}

/// Names have an order: of two names one comes first whichever is asked for, and names that come
/// one after the other do so all along.
pub proof fn law_names_have_an_order(a: Seq<char>, b: Seq<char>, c: Seq<char>)
    ensures
        name_rank(a, b) == Rank::Less <==> name_rank(b, a) == Rank::Greater,
        name_rank(a, b) == Rank::Equal <==> name_rank(b, a) == Rank::Equal,
        name_rank(a, b) != Rank::Greater && name_rank(b, c) != Rank::Greater ==> name_rank(a, c)
            != Rank::Greater,
{
    lemma_rank_reversed(encode_utf8(a), encode_utf8(b), 0);
    if name_rank(a, b) != Rank::Greater && name_rank(b, c) != Rank::Greater {
        lemma_rank_chained(encode_utf8(a), encode_utf8(b), encode_utf8(c), 0);
    }
}

/// Names that were sorted are in order, and neither more nor fewer than before.
pub proof fn law_names_are_sorted(names: Seq<Seq<char>>)
    ensures
        forall|i: int, j: int|
            0 <= i < j < sorted_names(names).len() ==> name_rank(
                #[trigger] sorted_names(names)[i],
                #[trigger] sorted_names(names)[j],
            ) != Rank::Greater,
        sorted_names(names).to_multiset() == names.to_multiset(),
    decreases names.len(),
{
    broadcast use vstd::seq_lib::group_to_multiset_ensures;

    if names.len() > 0 {
        law_names_are_sorted(names.drop_last());
        lemma_with_name_sorted(sorted_names(names.drop_last()), names.last());
        lemma_with_name_holds(sorted_names(names.drop_last()), names.last());
        assert(names =~= names.drop_last().push(names.last()));
    } else {
        assert(sorted_names(names) =~= names);
    }
}

proof fn lemma_with_name_holds(sorted: Seq<Seq<char>>, name: Seq<char>)
    ensures
        with_name(sorted, name).to_multiset() == sorted.to_multiset().insert(name),
    decreases sorted.len(),
{
    broadcast use vstd::seq_lib::group_to_multiset_ensures;

    if sorted.len() > 0 && name_rank(sorted.last(), name) == Rank::Greater {
        let less = sorted.drop_last();
        lemma_with_name_holds(less, name);
        assert(sorted =~= less.push(sorted.last()));
        assert(with_name(sorted, name).to_multiset() =~= sorted.to_multiset().insert(name));
    }
}

proof fn lemma_with_name_item(sorted: Seq<Seq<char>>, name: Seq<char>, i: int)
    requires
        0 <= i < with_name(sorted, name).len(),
    ensures
        with_name(sorted, name)[i] == name || sorted.contains(with_name(sorted, name)[i]),
    decreases sorted.len(),
{
    let all = with_name(sorted, name);
    let n = sorted.len() as int;
    if n == 0 || name_rank(sorted.last(), name) != Rank::Greater {
        if i < n {
            assert(sorted[i] == all[i]);
        }
    } else {
        let less = sorted.drop_last();
        if i < with_name(less, name).len() {
            lemma_with_name_item(less, name, i);
            if all[i] != name {
                let k = choose|k: int| 0 <= k < less.len() && less[k] == all[i];
                assert(sorted[k] == all[i]);
            }
        } else {
            assert(sorted[n - 1] == all[i]);
        }
    }
}

proof fn lemma_with_name_sorted(sorted: Seq<Seq<char>>, name: Seq<char>)
    requires
        forall|i: int, j: int|
            0 <= i < j < sorted.len() ==> name_rank(#[trigger] sorted[i], #[trigger] sorted[j])
                != Rank::Greater,
    ensures
        forall|i: int, j: int|
            0 <= i < j < with_name(sorted, name).len() ==> name_rank(
                #[trigger] with_name(sorted, name)[i],
                #[trigger] with_name(sorted, name)[j],
            ) != Rank::Greater,
    decreases sorted.len(),
{
    let all = with_name(sorted, name);
    let n = sorted.len() as int;
    if n == 0 || name_rank(sorted.last(), name) != Rank::Greater {
        assert forall|i: int, j: int| 0 <= i < j < all.len() implies name_rank(
            #[trigger] all[i],
            #[trigger] all[j],
        ) != Rank::Greater by {
            if j < n {
                assert(name_rank(sorted[i], sorted[j]) != Rank::Greater);
            } else if i < n - 1 {
                assert(name_rank(sorted[i], sorted[n - 1]) != Rank::Greater);
                law_names_have_an_order(sorted[i], sorted[n - 1], name);
            }
        }
    } else {
        let less = sorted.drop_last();
        assert forall|i: int, j: int| 0 <= i < j < less.len() implies name_rank(
            #[trigger] less[i],
            #[trigger] less[j],
        ) != Rank::Greater by {
            assert(name_rank(sorted[i], sorted[j]) != Rank::Greater);
        }
        lemma_with_name_sorted(less, name);
        let before = with_name(less, name);
        law_names_have_an_order(name, sorted.last(), name);
        assert forall|i: int, j: int| 0 <= i < j < all.len() implies name_rank(
            #[trigger] all[i],
            #[trigger] all[j],
        ) != Rank::Greater by {
            assert(all[i] == before[i]);
            if j < before.len() {
                assert(all[j] == before[j]);
            } else if before[i] != name {
                lemma_with_name_item(less, name, i);
                let k = choose|k: int| 0 <= k < less.len() && less[k] == before[i];
                assert(name_rank(sorted[k], sorted[n - 1]) != Rank::Greater);
            }
        }
    }
}

} // verus!

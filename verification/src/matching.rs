//! Searching a sequence of keys for a pattern, in one pass.
use vstd::prelude::*;

use crate::strings::{first_occurrence, lemma_first_occurrence, occurs_at};

verus! {

/// One key of a searched text, with the bytes of the text that it stands for. A unit without
/// a key equals no key of a pattern: no match goes across it.
#[derive(Clone, Copy, Debug, PartialEq, Eq)]
pub struct Unit {
    pub key: Option<char>,
    pub start: usize,
    pub end: usize,
}

/// The keys of `units`.
pub open spec fn keys(units: Seq<Unit>) -> Seq<Option<char>> {
    Seq::new(units.len(), |i: int| units[i].key)
}

/// The characters of a pattern as keys.
pub open spec fn lifted(pattern: Seq<char>) -> Seq<Option<char>> {
    Seq::new(pattern.len(), |i: int| Some(pattern[i]))
}

/// Where `pattern` stands in `s` from `from` on: each occurrence is the first one that begins
/// no earlier than the one before it ends.
pub open spec fn occurrences<T>(s: Seq<T>, pattern: Seq<T>, from: int) -> Seq<int>
    decreases s.len() + 1 - from,
{
    if pattern.len() == 0 || from < 0 || from > s.len() {
        seq![]
    } else {
        match first_occurrence(s, pattern, from) {
            Some(i) if from <= i && i + pattern.len() <= s.len() => seq![i] + occurrences(
                s,
                pattern,
                i + pattern.len(),
            ),
            _ => seq![],
        }
    }
}

/// `p` with `k` characters is the end of `s` with `i` characters, and begins at `base` or later.
spec fn suffix_match<T>(p: Seq<T>, s: Seq<T>, base: int, i: int, k: int) -> bool {
    &&& 0 <= k <= p.len()
    &&& base <= i - k
    &&& i <= s.len()
    &&& forall|j: int| 0 <= j < k ==> #[trigger] p[j] == s[i - k + j]
}

/// `k` is the most characters of `p`, below its length, that end at `i`.
spec fn longest<T>(p: Seq<T>, s: Seq<T>, base: int, i: int, k: int) -> bool {
    &&& suffix_match(p, s, base, i, k)
    &&& k < p.len()
    &&& forall|j: int| #[trigger] suffix_match(p, s, base, i, j) && j < p.len() ==> j <= k
}

/// The table of the longest proper borders of the beginnings of `p`.
pub closed spec fn is_prefix_table(p: Seq<char>, table: Seq<usize>) -> bool {
    &&& table.len() == p.len()
    &&& forall|n: int|
        0 < n <= p.len() ==> longest(lifted(p), lifted(p), 1, n, (#[trigger] table[n - 1]) as int)
}

/// A match of `k` characters that ends where a longer one of `m` does is a border of it.
proof fn lemma_shorter<T>(p: Seq<T>, s: Seq<T>, base: int, i: int, m: int, k: int)
    requires
        0 <= base,
        suffix_match(p, s, base, i, m),
        suffix_match(p, s, base, i, k),
        k < m,
    ensures
        suffix_match(p, p, 1, m, k),
{
    assert forall|j: int| 0 <= j < k implies #[trigger] p[j] == p[m - k + j] by {
        assert(p[j] == s[i - k + j]);
        assert(p[m - k + j] == s[i - m + (m - k + j)]);
    }
}

/// A border of a match ends where the match does.
proof fn lemma_border<T>(p: Seq<T>, s: Seq<T>, base: int, i: int, m: int, k: int)
    requires
        0 <= base,
        suffix_match(p, s, base, i, m),
        suffix_match(p, p, 1, m, k),
    ensures
        suffix_match(p, s, base, i, k),
{
    assert forall|j: int| 0 <= j < k implies #[trigger] p[j] == s[i - k + j] by {
        assert(p[j] == p[m - k + j]);
        assert(p[m - k + j] == s[i - m + (m - k + j)]);
    }
}

/// One more equal character extends a match, and every match comes so.
proof fn lemma_extend<T>(p: Seq<T>, s: Seq<T>, base: int, i: int, k: int)
    requires
        0 <= base,
        0 <= i < s.len(),
    ensures
        suffix_match(p, s, base, i, k) && k < p.len() && p[k] == s[i] ==> suffix_match(
            p,
            s,
            base,
            i + 1,
            k + 1,
        ),
        suffix_match(p, s, base, i + 1, k + 1) && k >= 0 ==> suffix_match(p, s, base, i, k)
            && p[k] == s[i],
{
    if suffix_match(p, s, base, i, k) && k < p.len() && p[k] == s[i] {
        assert forall|j: int| 0 <= j < k + 1 implies #[trigger] p[j] == s[i + 1 - (k + 1) + j] by {
            if j < k {
                assert(p[j] == s[i - k + j]);
            }
        }
    }
    if suffix_match(p, s, base, i + 1, k + 1) && k >= 0 {
        assert(p[k] == s[i + 1 - (k + 1) + k]);
        assert forall|j: int| 0 <= j < k implies #[trigger] p[j] == s[i - k + j] by {
            assert(p[j] == s[i + 1 - (k + 1) + j]);
        }
    }
}

/// The longest match at `i` of those that the key at `i` extends is among those below `k`.
spec fn candidates_below<T>(p: Seq<T>, s: Seq<T>, base: int, i: int, k: int) -> bool {
    &&& suffix_match(p, s, base, i, k)
    &&& k < p.len()
    &&& forall|j: int|
        #[trigger] suffix_match(p, s, base, i, j) && j < p.len() && p[j] == s[i] ==> j <= k
}

proof fn lemma_fall_back<T>(p: Seq<T>, s: Seq<T>, base: int, i: int, k: int, next: int)
    requires
        0 <= base,
        0 <= i < s.len(),
        candidates_below(p, s, base, i, k),
        k > 0,
        p[k] != s[i],
        longest(p, p, 1, k, next),
    ensures
        candidates_below(p, s, base, i, next),
        next < k,
{
    lemma_border(p, s, base, i, k, next);
    assert forall|j: int|
        #[trigger] suffix_match(p, s, base, i, j) && j < p.len() && p[j] == s[i] implies j
        <= next by {
        lemma_shorter(p, s, base, i, k, j);
    }
}

/// What the longest match is after the key at `i`, where `k` is the longest candidate left.
proof fn lemma_step<T>(p: Seq<T>, s: Seq<T>, base: int, i: int, k: int)
    requires
        0 <= base,
        0 <= i < s.len(),
        candidates_below(p, s, base, i, k),
        k == 0 || p[k] == s[i],
        base <= i,
    ensures
        p[k] == s[i] ==> suffix_match(p, s, base, i + 1, k + 1),
        p[k] == s[i] && k + 1 < p.len() ==> longest(p, s, base, i + 1, k + 1),
        p[k] != s[i] ==> longest(p, s, base, i + 1, 0),
        suffix_match(p, s, base, i + 1, p.len() as int) ==> p[k] == s[i] && k + 1 == p.len(),
{
    lemma_extend(p, s, base, i, k);
    assert forall|j: int| #[trigger] suffix_match(p, s, base, i + 1, j) implies j <= k + 1 && (
    p[k] != s[i] ==> j == 0) by {
        if j > 0 {
            lemma_extend(p, s, base, i, j - 1);
            assert(suffix_match(p, s, base, i, j - 1));
        }
    }
}

proof fn lemma_occurs_is_suffix<T>(p: Seq<T>, s: Seq<T>, base: int, q: int)
    requires
        0 <= base,
        base <= q,
    ensures
        occurs_at(s, p, q) <==> suffix_match(p, s, base, q + p.len(), p.len() as int),
{
    let m = p.len() as int;
    if occurs_at(s, p, q) {
        assert forall|j: int| 0 <= j < m implies #[trigger] p[j] == s[q + m - m + j] by {
            assert(s.subrange(q, q + m)[j] == s[q + j]);
        }
    }
    if suffix_match(p, s, base, q + m, m) {
        assert forall|j: int| 0 <= j < m implies s.subrange(q, q + m)[j] == p[j] by {
            assert(p[j] == s[q + m - m + j]);
        }
        assert(s.subrange(q, q + m) =~= p);
    }
}

proof fn lemma_start<T>(p: Seq<T>, s: Seq<T>, base: int)
    requires
        0 <= base <= s.len(),
        p.len() > 0,
    ensures
        longest(p, s, base, base, 0),
{
}

/// The longest proper border of every beginning of `pattern`.
pub fn prefix_table(pattern: &[char]) -> (table: Vec<usize>)
    ensures
        is_prefix_table(pattern@, table@),
{
    let ghost p = lifted(pattern@);
    let mut table: Vec<usize> = Vec::new();
    if pattern.len() == 0 {
        return table;
    }
    table.push(0);
    let mut matched: usize = 0;
    let mut index: usize = 1;
    proof {
        lemma_start(p, p, 1);
    }
    while index < pattern.len()
        invariant
            1 <= index <= pattern.len(),
            p == lifted(pattern@),
            table.len() == index,
            forall|n: int| 0 < n <= index ==> longest(p, p, 1, n, (#[trigger] table@[n - 1]) as int),
            longest(p, p, 1, index as int, matched as int),
        decreases pattern.len() - index,
    {
        assert(candidates_below(p, p, 1, index as int, matched as int));
        while matched > 0 && pattern[index] != pattern[matched]
            invariant
                1 <= index < pattern.len(),
                p == lifted(pattern@),
                table.len() == index,
                forall|n: int|
                    0 < n <= index ==> longest(p, p, 1, n, (#[trigger] table@[n - 1]) as int),
                candidates_below(p, p, 1, index as int, matched as int),
            decreases matched,
        {
            proof {
                assert(p[matched as int] != p[index as int]);
                assert(longest(p, p, 1, matched as int, table@[matched - 1] as int));
                lemma_fall_back(
                    p,
                    p,
                    1,
                    index as int,
                    matched as int,
                    table@[matched - 1] as int,
                );
            }
            matched = table[matched - 1];
        }
        proof {
            lemma_step(p, p, 1, index as int, matched as int);
            assert((p[matched as int] == p[index as int]) == (pattern@[matched as int]
                == pattern@[index as int]));
            // A border is shorter than what it is a border of.
            assert(matched + 1 < p.len());
        }
        if pattern[index] == pattern[matched] {
            matched += 1;
        }
        table.push(matched);
        index += 1;
    }
    table
}

/// The places where `pattern` stands among the keys of `units`, none overlapping another.
pub fn find_occurrences(units: &[Unit], pattern: &[char], table: &[usize]) -> (found: Vec<usize>)
    requires
        pattern@.len() > 0,
        is_prefix_table(pattern@, table@),
    ensures
        found@.len() == occurrences(keys(units@), lifted(pattern@), 0).len(),
        forall|i: int|
            0 <= i < found@.len() ==> #[trigger] found@[i] == occurrences(
                keys(units@),
                lifted(pattern@),
                0,
            )[i],
        forall|i: int|
            0 <= i < found@.len() ==> (#[trigger] found@[i]) + pattern@.len() <= units@.len(),
{
    let ghost p = lifted(pattern@);
    let ghost s = keys(units@);
    let mut found: Vec<usize> = Vec::new();
    let ghost mut places: Seq<int> = seq![];
    let ghost mut base: int = 0;
    let mut matched: usize = 0;
    let mut index: usize = 0;
    proof {
        lemma_start(p, s, 0);
        assert(places + occurrences(s, p, 0) =~= occurrences(s, p, 0));
    }
    while index < units.len()
        invariant
            index <= units.len(),
            0 <= base <= index,
            p == lifted(pattern@),
            s == keys(units@),
            p.len() > 0,
            is_prefix_table(pattern@, table@),
            places.len() == found@.len(),
            forall|i: int| 0 <= i < places.len() ==> #[trigger] found@[i] == places[i],
            forall|i: int| 0 <= i < places.len() ==> (#[trigger] found@[i]) + p.len() <= s.len(),
            places + occurrences(s, p, base) == occurrences(s, p, 0),
            longest(p, s, base, index as int, matched as int),
            forall|q: int| base <= q && q + p.len() <= index ==> !#[trigger] occurs_at(s, p, q),
        decreases units.len() - index,
    {
        assert(candidates_below(p, s, base, index as int, matched as int));
        let hit: bool = match units[index].key {
            None => {
                proof {
                    assert(s[index as int] is None);
                    lemma_no_key(p, s, base, index as int);
                }
                matched = 0;
                false
            },
            Some(key) => {
                while matched > 0 && pattern[matched] != key
                    invariant
                        index < units.len(),
                        0 <= base <= index,
                        p == lifted(pattern@),
                        s == keys(units@),
                        s[index as int] == Some(key),
                        is_prefix_table(pattern@, table@),
                        candidates_below(p, s, base, index as int, matched as int),
                    decreases matched,
                {
                    proof {
                        assert(longest(p, p, 1, matched as int, table@[matched - 1] as int));
                        lemma_fall_back(
                            p,
                            s,
                            base,
                            index as int,
                            matched as int,
                            table@[matched - 1] as int,
                        );
                    }
                    matched = table[matched - 1];
                }
                proof {
                    lemma_step(p, s, base, index as int, matched as int);
                }
                if pattern[matched] == key {
                    matched += 1;
                }
                matched == pattern.len()
            },
        };
        proof {
            assert forall|q: int|
                base <= q && q + p.len() <= index + 1 && !(hit && q + p.len() == index
                    + 1) implies !#[trigger] occurs_at(s, p, q) by {
                if q + p.len() == index + 1 {
                    lemma_occurs_is_suffix(p, s, base, q);
                }
            }
        }
        index += 1;
        if hit {
            let place: usize = index - pattern.len();
            proof {
                lemma_occurs_is_suffix(p, s, base, place as int);
                lemma_first_occurrence(s, p, base);
                match first_occurrence(s, p, base) {
                    Some(q) => {
                        if q < place {
                            assert(q + p.len() <= index);
                        }
                    },
                    None => {},
                }
                assert(first_occurrence(s, p, base) == Some(place as int));
                assert(places + occurrences(s, p, base) =~= places.push(place as int)
                    + occurrences(s, p, index as int));
                places = places.push(place as int);
                base = index as int;
                lemma_start(p, s, base);
            }
            found.push(place);
            matched = 0;
        }
    }
    proof {
        lemma_first_occurrence(s, p, base);
        assert(occurrences(s, p, base) =~= seq![]);
        assert(places + occurrences(s, p, base) =~= places);
    }
    found
}

/// Nothing matches at a unit without a key.
proof fn lemma_no_key(p: Seq<Option<char>>, s: Seq<Option<char>>, base: int, i: int)
    requires
        0 <= base <= i < s.len(),
        s[i] is None,
        p.len() > 0,
        forall|j: int| 0 <= j < p.len() ==> (#[trigger] p[j]) is Some,
    ensures
        longest(p, s, base, i + 1, 0),
        !suffix_match(p, s, base, i + 1, p.len() as int),
{
    assert forall|j: int| #[trigger] suffix_match(p, s, base, i + 1, j) implies j == 0 by {
        if j > 0 {
            assert(p[j - 1] == s[i + 1 - j + (j - 1)]);
        }
    }
}

/// Every occurrence lies within the sequence, and no two overlap.
pub proof fn lemma_occurrences<T>(s: Seq<T>, pattern: Seq<T>, from: int)
    requires
        0 <= from,
    ensures
        forall|i: int|
            0 <= i < occurrences(s, pattern, from).len() ==> from <= #[trigger] occurrences(
                s,
                pattern,
                from,
            )[i] && occurs_at(s, pattern, occurrences(s, pattern, from)[i]),
        forall|i: int, j: int|
            0 <= i < j < occurrences(s, pattern, from).len() ==> #[trigger] occurrences(
                s,
                pattern,
                from,
            )[i] + pattern.len() <= #[trigger] occurrences(s, pattern, from)[j],
    decreases s.len() + 1 - from,
{
    if pattern.len() > 0 && from <= s.len() {
        lemma_first_occurrence(s, pattern, from);
        match first_occurrence(s, pattern, from) {
            Some(i) => {
                lemma_occurrences(s, pattern, i + pattern.len());
                let rest = occurrences(s, pattern, i + pattern.len());
                let all = occurrences(s, pattern, from);
                assert(all =~= seq![i] + rest);
                assert forall|a: int| 0 <= a < all.len() implies from <= #[trigger] all[a]
                    && occurs_at(s, pattern, all[a]) by {
                    if a > 0 {
                        assert(all[a] == rest[a - 1]);
                    }
                }
                assert forall|a: int, b: int| 0 <= a < b < all.len() implies #[trigger] all[a]
                    + pattern.len() <= #[trigger] all[b] by {
                    assert(all[b] == rest[b - 1]);
                    if a > 0 {
                        assert(all[a] == rest[a - 1]);
                    }
                }
            },
            None => {},
        }
    }
}

/// There is an occurrence exactly where the pattern stands somewhere.
pub proof fn lemma_occurrences_exist<T>(s: Seq<T>, pattern: Seq<T>)
    requires
        pattern.len() > 0,
    ensures
        occurrences(s, pattern, 0).len() > 0 <==> exists|i: int| occurs_at(s, pattern, i),
{
    lemma_first_occurrence(s, pattern, 0);
    if exists|i: int| occurs_at(s, pattern, i) {
        let i = choose|i: int| occurs_at(s, pattern, i);
        assert(first_occurrence(s, pattern, 0) is Some);
    }
}

} // verus!

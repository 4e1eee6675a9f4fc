//! Text as sequences of characters: splitting at a delimiter, trimming
//! white space, lower case.

use vstd::prelude::*;

verus! {

/// Positions at which `delimiter` occurs in `s`, in increasing order.
pub open spec fn occurrences(s: Seq<char>, delimiter: char) -> Seq<int>
    decreases s.len(),
{
    if s.len() == 0 {
        Seq::empty()
    } else if s.last() == delimiter {
        occurrences(s.drop_last(), delimiter).push(s.len() - 1)
    } else {
        occurrences(s.drop_last(), delimiter)
    }
}

/// Number of pieces into which `delimiter` cuts `s`: one more than it has
/// occurrences.
pub open spec fn piece_count(s: Seq<char>, delimiter: char) -> nat {
    occurrences(s, delimiter).len() + 1
}

/// Position of the first character of piece `k`.
pub open spec fn piece_start(s: Seq<char>, delimiter: char, k: int) -> int {
    if k <= 0 {
        0
    } else {
        occurrences(s, delimiter)[k - 1] + 1
    }
}

/// Position just past the last character of piece `k`: the delimiter that
/// closes the piece, or the end of `s` for the last piece.
pub open spec fn piece_end(s: Seq<char>, delimiter: char, k: int) -> int {
    if k < occurrences(s, delimiter).len() {
        occurrences(s, delimiter)[k]
    } else {
        s.len() as int
    }
}

/// Piece `k` of `s`, counted from 0.
pub open spec fn piece(s: Seq<char>, delimiter: char, k: int) -> Seq<char> {
    s.subrange(piece_start(s, delimiter, k), piece_end(s, delimiter, k))
}

/// The pieces into which `delimiter` cuts `s`.
pub open spec fn pieces(s: Seq<char>, delimiter: char) -> Seq<Seq<char>> {
    Seq::new(piece_count(s, delimiter), |k: int| piece(s, delimiter, k))
}

/// Whether `char::is_whitespace` holds of `c`.
pub uninterp spec fn white_space(c: char) -> bool;

/// `s` without its leading white space.
pub open spec fn trim_start(s: Seq<char>) -> Seq<char>
    decreases s.len(),
{
    if s.len() > 0 && white_space(s.first()) {
        trim_start(s.drop_first())
    } else {
        s
    }
}

/// `s` without its trailing white space.
pub open spec fn trim_end(s: Seq<char>) -> Seq<char>
    decreases s.len(),
{
    if s.len() > 0 && white_space(s.last()) {
        trim_end(s.drop_last())
    } else {
        s
    }
}

/// `s` without its leading and trailing white space.
pub open spec fn trimmed(s: Seq<char>) -> Seq<char> {
    trim_end(trim_start(s))
}

/// What `str::to_lowercase` makes of `s`.
pub uninterp spec fn lowercased(s: Seq<char>) -> Seq<char>;

/// The views of a sequence of strings.
pub open spec fn str_views(parts: Seq<&str>) -> Seq<Seq<char>> {
    parts.map_values(|part: &str| part@)
}

/// The views of a sequence of owned strings.
pub open spec fn string_views(parts: Seq<String>) -> Seq<Seq<char>> {
    parts.map_values(|part: String| part@)
}

/// Every entry of `occurrences(s, delimiter)` is the position of a
/// delimiter, and the entries increase.
pub proof fn lemma_occurrences_sound(s: Seq<char>, delimiter: char)
    ensures
        forall|j: int|
            0 <= j < occurrences(s, delimiter).len() ==> 0 <= #[trigger] occurrences(
                s,
                delimiter,
            )[j] < s.len() && s[occurrences(s, delimiter)[j]] == delimiter,
        forall|j: int, k: int|
            0 <= j < k < occurrences(s, delimiter).len() ==> occurrences(s, delimiter)[j]
                < occurrences(s, delimiter)[k],
    decreases s.len(),
{
    if s.len() > 0 {
        lemma_occurrences_sound(s.drop_last(), delimiter);
        assert(occurrences(s, delimiter).len() >= occurrences(s.drop_last(), delimiter).len());
    }
}

/// Every position at which `delimiter` stands is listed in
/// `occurrences(s, delimiter)`.
pub proof fn lemma_occurrences_complete(s: Seq<char>, delimiter: char, i: int)
    requires
        0 <= i < s.len(),
        s[i] == delimiter,
    ensures
        occurrences(s, delimiter).contains(i),
    decreases s.len(),
{
    if i == s.len() - 1 {
        assert(occurrences(s, delimiter).last() == i);
    } else {
        let before = occurrences(s.drop_last(), delimiter);
        lemma_occurrences_complete(s.drop_last(), delimiter, i);
        let j = choose|j: int| 0 <= j < before.len() && before[j] == i;
        assert(occurrences(s, delimiter)[j] == i);
    }
}

/// The occurrences in a prefix of `s` are the first occurrences in `s`:
/// those that lie within the prefix.
pub proof fn lemma_occurrences_of_prefix(s: Seq<char>, delimiter: char, n: int)
    requires
        0 <= n <= s.len(),
    ensures
        occurrences(s.take(n), delimiter).len() <= occurrences(s, delimiter).len(),
        forall|j: int|
            0 <= j < occurrences(s.take(n), delimiter).len() ==> #[trigger] occurrences(
                s.take(n),
                delimiter,
            )[j] == occurrences(s, delimiter)[j],
        forall|j: int|
            0 <= j < occurrences(s, delimiter).len() ==> (#[trigger] occurrences(s, delimiter)[j]
                < n <==> j < occurrences(s.take(n), delimiter).len()),
    decreases s.len() - n,
{
    if n == s.len() {
        assert(s.take(n) == s);
        lemma_occurrences_sound(s, delimiter);
    } else {
        let shorter = s.drop_last();
        assert(shorter.take(n) == s.take(n));
        lemma_occurrences_of_prefix(shorter, delimiter, n);
        lemma_occurrences_sound(shorter, delimiter);
    }
}

/// The pieces of `s` lie within `s`, one after the other.
pub proof fn lemma_piece_bounds(s: Seq<char>, delimiter: char, k: int)
    requires
        0 <= k < piece_count(s, delimiter),
    ensures
        0 <= piece_start(s, delimiter, k) <= piece_end(s, delimiter, k) <= s.len(),
{
    lemma_occurrences_sound(s, delimiter);
}

/// No piece holds the delimiter.
pub proof fn lemma_piece_has_no_delimiter(s: Seq<char>, delimiter: char, k: int, i: int)
    requires
        0 <= k < piece_count(s, delimiter),
        0 <= i < piece(s, delimiter, k).len(),
    ensures
        piece(s, delimiter, k)[i] != delimiter,
{
    let found = occurrences(s, delimiter);
    let at = piece_start(s, delimiter, k) + i;
    lemma_piece_bounds(s, delimiter, k);
    lemma_occurrences_sound(s, delimiter);
    if s[at] == delimiter {
        lemma_occurrences_complete(s, delimiter, at);
        let j = choose|j: int| 0 <= j < found.len() && found[j] == at;
        if j < k {
            if j < k - 1 {
                assert(found[j] < found[k - 1]);
            }
        } else if j > k {
            assert(found[k] < found[j]);
        }
    }
}

/// Leading white space ends where the first other character stands.
pub proof fn lemma_trim_start(s: Seq<char>, from: int)
    requires
        0 <= from <= s.len(),
        forall|j: int| 0 <= j < from ==> white_space(#[trigger] s[j]),
        from < s.len() ==> !white_space(s[from]),
    ensures
        trim_start(s) == s.skip(from),
    decreases from,
{
    if from > 0 {
        lemma_trim_start(s.drop_first(), from - 1);
    }
}

/// Trailing white space begins after the last other character.
pub proof fn lemma_trim_end(s: Seq<char>, to: int)
    requires
        0 <= to <= s.len(),
        forall|j: int| to <= j < s.len() ==> white_space(#[trigger] s[j]),
        0 < to ==> !white_space(s[to - 1]),
    ensures
        trim_end(s) == s.take(to),
    decreases s.len() - to,
{
    if to < s.len() {
        lemma_trim_end(s.drop_last(), to);
    }
}

/// `char::is_whitespace`: whether `c` has the Unicode property White_Space.
#[verifier::external_body]
fn is_whitespace(c: char) -> (b: bool)
    ensures
        b == white_space(c),
{
    c.is_whitespace()
}

/// `str::to_lowercase`: the lower-case equivalent of `s`, which is a
/// function of the characters of `s`.
#[verifier::external_body]
pub(crate) fn to_lowercase(s: &str) -> (lower: String)
    ensures
        lower@ == lowercased(s@),
{
    s.to_lowercase()
}

/// Positions at which `delimiter` occurs in `s`.
pub fn occurrence_positions(s: &str, delimiter: char) -> (positions: Vec<usize>)
    ensures
        positions@.map_values(|p: usize| p as int) == occurrences(s@, delimiter),
{
    let n = s.unicode_len();
    let mut positions: Vec<usize> = Vec::new();
    let mut i: usize = 0;
    for c in it: s.chars()
        invariant
            n == s@.len(),
            i == it.index(),
            it.seq() == s@,
            positions@.map_values(|p: usize| p as int) == occurrences(
                s@.take(i as int),
                delimiter,
            ),
    {
        assert(s@.take(i + 1).drop_last() == s@.take(i as int));
        if c == delimiter {
            positions.push(i);
        }
        i = i + 1;
    }
    assert(s@.take(i as int) == s@);
    positions
}

/// Cuts `s` at every occurrence of `delimiter`.
pub fn split(s: &str, delimiter: char) -> (parts: Vec<&str>)
    ensures
        str_views(parts@) == pieces(s@, delimiter),
{
    let positions = occurrence_positions(s, delimiter);
    let n = s.unicode_len();
    let mut parts: Vec<&str> = Vec::new();
    let mut k: usize = 0;
    proof {
        lemma_occurrences_sound(s@, delimiter);
    }
    while k < positions.len()
        invariant
            k <= positions.len(),
            n == s@.len(),
            positions@.len() == occurrences(s@, delimiter).len(),
            forall|j: int|
                0 <= j < positions@.len() ==> #[trigger] positions@[j] as int == occurrences(
                    s@,
                    delimiter,
                )[j],
            forall|j: int|
                0 <= j < positions@.len() ==> #[trigger] occurrences(s@, delimiter)[j] < n,
            parts@.len() == k,
            forall|j: int| 0 <= j < k ==> (#[trigger] parts@[j])@ == piece(s@, delimiter, j),
        decreases positions.len() - k,
    {
        proof {
            lemma_piece_bounds(s@, delimiter, k as int);
        }
        let start: usize = if k == 0 {
            0
        } else {
            positions[k - 1] + 1
        };
        parts.push(s.substring_char(start, positions[k]));
        k = k + 1;
    }
    proof {
        lemma_piece_bounds(s@, delimiter, k as int);
    }
    let start: usize = if k == 0 {
        0
    } else {
        positions[k - 1] + 1
    };
    parts.push(s.substring_char(start, n));
    parts
}

/// Strips leading and trailing white space from `s`.
pub fn trim(s: &str) -> (t: &str)
    ensures
        t@ == trimmed(s@),
{
    let n = s.unicode_len();
    let mut start: usize = 0;
    let mut end: usize = 0;
    let mut i: usize = 0;
    for c in it: s.chars()
        invariant
            n == s@.len(),
            i == it.index(),
            it.seq() == s@,
            start <= i,
            end <= i,
            forall|j: int| 0 <= j < start ==> white_space(#[trigger] s@[j]),
            forall|j: int| end <= j < i ==> white_space(#[trigger] s@[j]),
            end == 0 ==> start == i,
            end > 0 ==> start < end && !white_space(s@[start as int]) && !white_space(
                s@[end - 1],
            ),
    {
        if !is_whitespace(c) {
            if end == 0 {
                start = i;
            }
            end = i + 1;
        } else if end == 0 {
            start = i + 1;
        }
        i = i + 1;
    }
    if end == 0 {
        end = start;
    }
    let t = s.substring_char(start, end);
    proof {
        lemma_trim_start(s@, start as int);
        let rest = s@.skip(start as int);
        lemma_trim_end(rest, end - start);
    }
    t
}

} // verus!

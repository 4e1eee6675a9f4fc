//! Lineage strings: seven fields separated by `;`.
//!
//! The functions of this module speak of a lineage as a sequence of
//! characters. A field is the run of characters between two neighbouring
//! separators; the lineage through a rank is the prefix that ends with the
//! field of that rank.

use crate::level::TaxonomyLevel;
use crate::text::lemma_occurrences_of_prefix;
use crate::text::lemma_occurrences_sound;
use crate::text::occurrences;
use crate::text::piece;
use crate::text::piece_count;
use crate::text::piece_end;
use crate::text::piece_start;
use vstd::prelude::*;

verus! {

/// The character between two fields of a lineage.
pub const SEPARATOR: char = ';';

/// The character that may wrap an accession or a lineage.
pub const QUOTE: char = '"';

/// Positions of the separators in `s`, in increasing order.
pub open spec fn separators(s: Seq<char>) -> Seq<int> {
    occurrences(s, SEPARATOR)
}

/// Number of fields of `s`: one more than it has separators.
pub open spec fn field_count(s: Seq<char>) -> nat {
    piece_count(s, SEPARATOR)
}

/// A lineage is well formed when it has exactly seven fields.
pub open spec fn well_formed(s: Seq<char>) -> bool {
    field_count(s) == 7
}

/// Position of the first character of field `k`.
pub open spec fn field_start(s: Seq<char>, k: int) -> int {
    piece_start(s, SEPARATOR, k)
}

/// Position just past the last character of field `k`: the separator that
/// closes the field, or the end of `s` for the last field.
pub open spec fn field_end(s: Seq<char>, k: int) -> int {
    piece_end(s, SEPARATOR, k)
}

/// Field `k` of `s`, counted from 0.
pub open spec fn field(s: Seq<char>, k: int) -> Seq<char> {
    piece(s, SEPARATOR, k)
}

/// A field carries no taxon when it is empty or spells `na` in any of the
/// four mixtures of case.
pub open spec fn absent(f: Seq<char>) -> bool {
    ||| f == Seq::<char>::empty()
    ||| f == seq!['n', 'a']
    ||| f == seq!['N', 'A']
    ||| f == seq!['n', 'A']
    ||| f == seq!['N', 'a']
}

/// `s` without one leading and one trailing quote, where it has them.
pub open spec fn unquoted(s: Seq<char>) -> Seq<char> {
    let t = if s.len() > 0 && s.first() == QUOTE {
        s.drop_first()
    } else {
        s
    };
    if t.len() > 0 && t.last() == QUOTE {
        t.drop_last()
    } else {
        t
    }
}

/// The ancestry of `lineage` through `level`: the prefix that ends with the
/// field of that rank, or nothing where the field is absent.
pub open spec fn ancestry(lineage: Seq<char>, level: TaxonomyLevel) -> Option<Seq<char>> {
    if absent(field(lineage, level.spec_index())) {
        None
    } else {
        Some(lineage.take(field_end(lineage, level.spec_index())))
    }
}

/// View of an optional string.
pub open spec fn opt_view(taxon: Option<&str>) -> Option<Seq<char>> {
    match taxon {
        Some(s) => Some(s@),
        None => None,
    }
}

/// Two well-formed lineages that share their ancestry through one rank share
/// it through every shallower rank too.
pub proof fn lemma_shared_ancestry(
    a: Seq<char>,
    b: Seq<char>,
    deep: TaxonomyLevel,
    shallow: TaxonomyLevel,
)
    requires
        well_formed(a),
        well_formed(b),
        shallow.spec_index() <= deep.spec_index(),
        ancestry(a, deep) is Some,
        ancestry(a, deep) == ancestry(b, deep),
    ensures
        ancestry(a, shallow) == ancestry(b, shallow),
{
    let k = deep.spec_index();
    let j = shallow.spec_index();
    let e = field_end(a, k);
    lemma_occurrences_sound(a, SEPARATOR);
    lemma_occurrences_sound(b, SEPARATOR);
    assert(a.take(e).len() == e);
    assert(b.take(field_end(b, k)).len() == field_end(b, k));
    assert(field_end(b, k) == e);
    let shared = a.take(e);
    assert forall|i: int| 0 <= i < e implies a[i] == b[i] by {
        assert(a[i] == a.take(e)[i]);
    }
    lemma_occurrences_of_prefix(a, SEPARATOR, e);
    lemma_occurrences_of_prefix(b, SEPARATOR, e);
    assert(separators(shared).len() == k) by {
        if k < 6 {
            assert(separators(a)[k] == e);
            if k > 0 {
                assert(separators(a)[k - 1] < e);
            }
        } else {
            assert(separators(a)[5] < e);
        }
    }
    assert forall|i: int| 0 <= i < k implies separators(a)[i] == separators(b)[i] by {
        assert(separators(shared)[i] == separators(a)[i]);
    }
    assert(field_end(a, j) == field_end(b, j));
    let from = field_start(a, j);
    let to = field_end(a, j);
    assert(0 <= from <= to <= e) by {
        if 0 < j < 6 {
            assert(separators(a)[j - 1] < separators(a)[j]);
        }
    }
    assert(field(a, j) == field(b, j));
}

/// The ancestry of a well-formed lineage through a deeper rank properly
/// extends its ancestry through a shallower rank.
pub proof fn lemma_deeper_ancestry_extends(
    lineage: Seq<char>,
    shallow: TaxonomyLevel,
    deep: TaxonomyLevel,
)
    requires
        well_formed(lineage),
        shallow.spec_index() < deep.spec_index(),
        ancestry(lineage, shallow) is Some,
        ancestry(lineage, deep) is Some,
    ensures
        ancestry(lineage, shallow)->0.len() < ancestry(lineage, deep)->0.len(),
        ancestry(lineage, shallow)->0 == ancestry(lineage, deep)->0.take(
            ancestry(lineage, shallow)->0.len() as int,
        ),
{
    lemma_occurrences_sound(lineage, SEPARATOR);
}

/// The species rank of a well-formed lineage, where present, carries the
/// whole lineage.
pub proof fn lemma_species_is_whole_lineage(lineage: Seq<char>)
    requires
        well_formed(lineage),
        !absent(field(lineage, 6)),
    ensures
        ancestry(lineage, TaxonomyLevel::Species) == Some(lineage),
{
}

/// Strips one leading and one trailing quote from `s`, where it has them.
pub fn trim_quotes(s: &str) -> (t: &str)
    ensures
        t@ == unquoted(s@),
{
    let n = s.unicode_len();
    let start: usize = if n > 0 && s.get_char(0) == QUOTE {
        1
    } else {
        0
    };
    let end: usize = if n > start && s.get_char(n - 1) == QUOTE {
        n - 1
    } else {
        n
    };
    let t = s.substring_char(start, end);
    proof {
        let inner = s@.subrange(start as int, n as int);
        assert(inner == if start == 1 {
            s@.drop_first()
        } else {
            s@
        });
        assert(t@ == if end < n {
            inner.drop_last()
        } else {
            inner
        });
    }
    t
}

/// Whether a field carries no taxon.
pub fn is_absent(field: &str) -> (b: bool)
    ensures
        b == absent(field@),
{
    let n = field.unicode_len();
    if n == 0 {
        assert(field@ == Seq::<char>::empty());
        true
    } else if n == 2 {
        let first = field.get_char(0);
        let second = field.get_char(1);
        assert(field@ == seq![first, second]);
        (first == 'n' || first == 'N') && (second == 'a' || second == 'A')
    } else {
        false
    }
}

} // verus!

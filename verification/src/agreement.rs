//! Whether the members of a group agree at one rank.

use crate::lineage::opt_view;
use crate::tables::taxa_first;
use crate::tables::taxa_in;
use crate::tables::taxa_insert;
use crate::tables::taxa_len;
use crate::tables::taxa_with_capacity;
use vstd::prelude::*;

verus! {

/// What the values of a group at one rank amount to.
#[derive(Debug)]
pub enum UniqueTaxon<'a> {
    /// Two members differ.
    NonUnique,
    /// No member has a value.
    UniqueNone,
    /// Every member has this value.
    UniqueSome(&'a str),
}

/// The mathematical counterpart of [`UniqueTaxon`].
pub enum Agreement {
    /// Two members differ, be it that one is absent and the other present.
    Divergent,
    /// Every member is absent. So it is for a group without members.
    AllAbsent,
    /// Every member is present with this value.
    Unanimous(Seq<char>),
}

impl<'a> View for UniqueTaxon<'a> {
    type V = Agreement;

    open spec fn view(&self) -> Agreement {
        match self {
            UniqueTaxon::NonUnique => Agreement::Divergent,
            UniqueTaxon::UniqueNone => Agreement::AllAbsent,
            UniqueTaxon::UniqueSome(taxon) => Agreement::Unanimous(taxon@),
        }
    }
}

/// Some two of the values differ.
pub open spec fn divergent(values: Seq<Option<Seq<char>>>) -> bool {
    exists|i: int, j: int|
        0 <= i < values.len() && 0 <= j < values.len() && #[trigger] values[i]
            != #[trigger] values[j]
}

/// None of the values is present.
pub open spec fn all_absent(values: Seq<Option<Seq<char>>>) -> bool {
    forall|i: int| 0 <= i < values.len() ==> #[trigger] values[i] is None
}

/// There are values, and each of them is `taxon`.
pub open spec fn all_present(values: Seq<Option<Seq<char>>>, taxon: Seq<char>) -> bool {
    values.len() > 0 && forall|i: int| 0 <= i < values.len() ==> #[trigger] values[i] == Some(taxon)
}

/// The agreement among `values`.
pub open spec fn agreement(values: Seq<Option<Seq<char>>>) -> Agreement {
    if divergent(values) {
        Agreement::Divergent
    } else if all_absent(values) {
        Agreement::AllAbsent
    } else {
        Agreement::Unanimous(values[0]->0)
    }
}

/// The views of a sequence of optional strings.
pub open spec fn taxa_views(taxa: Seq<Option<&str>>) -> Seq<Option<Seq<char>>> {
    taxa.map_values(|taxon: Option<&str>| opt_view(taxon))
}

/// The three cases of [`agreement`] exclude each other, and each is what its
/// name says.
pub proof fn lemma_agreement_cases(values: Seq<Option<Seq<char>>>, taxon: Seq<char>)
    ensures
        agreement(values) == Agreement::Divergent <==> divergent(values),
        agreement(values) == Agreement::AllAbsent <==> all_absent(values),
        agreement(values) == Agreement::Unanimous(taxon) <==> all_present(values, taxon),
{
    if divergent(values) {
        let (i, j) = choose|i: int, j: int|
            0 <= i < values.len() && 0 <= j < values.len() && #[trigger] values[i]
                != #[trigger] values[j];
        assert(!all_absent(values));
        assert(!all_present(values, taxon));
    } else if !all_absent(values) {
        let k = choose|k: int| 0 <= k < values.len() && !(#[trigger] values[k] is None);
        assert(values[k] == values[0]);
    }
}

/// Classifies the values of a group at one rank.
pub fn unique_taxa<'a>(taxa: &[Option<&'a str>]) -> (unique: UniqueTaxon<'a>)
    ensures
        unique@ == agreement(taxa_views(taxa@)),
{
    let ghost values = taxa_views(taxa@);
    let mut unique_taxa = taxa_with_capacity(taxa.len());
    let mut i: usize = 0;
    while i < taxa.len()
        invariant
            i <= taxa.len(),
            values == taxa_views(taxa@),
            i == 0 ==> taxa_in(unique_taxa) == Set::<Option<Seq<char>>>::empty(),
            i > 0 ==> taxa_in(unique_taxa) == set![values[0]],
            forall|j: int| 0 <= j < i ==> #[trigger] values[j] == values[0],
        decreases taxa.len() - i,
    {
        taxa_insert(&mut unique_taxa, taxa[i]);
        assert(opt_view(taxa@[i as int]) == values[i as int]);
        if taxa_len(&unique_taxa) > 1 {
            return UniqueTaxon::NonUnique;
        }
        i = i + 1;
    }
    let first = taxa_first(unique_taxa);
    proof {
        if i > 0 {
            assert(set![values[0]].contains(values[0]));
        }
    }
    match first {
        Some(Some(taxon)) => UniqueTaxon::UniqueSome(taxon),
        Some(None) => UniqueTaxon::UniqueNone,
        // No member at all: nothing can differ.
        None => UniqueTaxon::UniqueNone,
    }
}

} // verus!

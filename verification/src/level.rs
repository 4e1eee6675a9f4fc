//! The seven taxonomic ranks.

use vstd::prelude::*;

verus! {

/// Number of ranks in a lineage.
pub const TAXONOMY_LEVELS: usize = 7;

/// A taxonomic rank, from the shallowest (`Domain`) to the deepest (`Species`).
#[derive(Debug, Clone, Copy, PartialEq, Eq, Structural)]
pub enum TaxonomyLevel {
    Domain,
    Phylum,
    Class,
    Order,
    Family,
    Genus,
    Species,
}

/// The rank at position `i`, counted from `Domain` at 0. Positions past
/// `Species` are mapped to `Species`.
pub open spec fn level_at(i: int) -> TaxonomyLevel {
    if i <= 0 {
        TaxonomyLevel::Domain
    } else if i == 1 {
        TaxonomyLevel::Phylum
    } else if i == 2 {
        TaxonomyLevel::Class
    } else if i == 3 {
        TaxonomyLevel::Order
    } else if i == 4 {
        TaxonomyLevel::Family
    } else if i == 5 {
        TaxonomyLevel::Genus
    } else {
        TaxonomyLevel::Species
    }
}

impl TaxonomyLevel {
    /// Position of the rank, `Domain` being 0 and `Species` 6.
    pub open spec fn spec_index(self) -> int {
        match self {
            TaxonomyLevel::Domain => 0,
            TaxonomyLevel::Phylum => 1,
            TaxonomyLevel::Class => 2,
            TaxonomyLevel::Order => 3,
            TaxonomyLevel::Family => 4,
            TaxonomyLevel::Genus => 5,
            TaxonomyLevel::Species => 6,
        }
    }

    /// Lower-case name of the rank, as written in output rows.
    pub open spec fn spec_name(self) -> Seq<char> {
        match self {
            TaxonomyLevel::Domain => "domain"@,
            TaxonomyLevel::Phylum => "phylum"@,
            TaxonomyLevel::Class => "class"@,
            TaxonomyLevel::Order => "order"@,
            TaxonomyLevel::Family => "family"@,
            TaxonomyLevel::Genus => "genus"@,
            TaxonomyLevel::Species => "species"@,
        }
    }

    /// Position of the rank as a machine integer.
    pub fn index(self) -> (i: usize)
        ensures
            i == self.spec_index(),
            i < TAXONOMY_LEVELS,
    {
        match self {
            TaxonomyLevel::Domain => 0,
            TaxonomyLevel::Phylum => 1,
            TaxonomyLevel::Class => 2,
            TaxonomyLevel::Order => 3,
            TaxonomyLevel::Family => 4,
            TaxonomyLevel::Genus => 5,
            TaxonomyLevel::Species => 6,
        }
    }

    /// The rank at position `i`, if there is one.
    pub fn from_index(i: usize) -> (level: Option<TaxonomyLevel>)
        ensures
            level is Some <==> i < TAXONOMY_LEVELS,
            level matches Some(l) ==> l == level_at(i as int) && l.spec_index() == i,
    {
        if i == 0 {
            Some(TaxonomyLevel::Domain)
        } else if i == 1 {
            Some(TaxonomyLevel::Phylum)
        } else if i == 2 {
            Some(TaxonomyLevel::Class)
        } else if i == 3 {
            Some(TaxonomyLevel::Order)
        } else if i == 4 {
            Some(TaxonomyLevel::Family)
        } else if i == 5 {
            Some(TaxonomyLevel::Genus)
        } else if i == 6 {
            Some(TaxonomyLevel::Species)
        } else {
            None
        }
    }

    /// Lower-case name of the rank.
    pub fn name(self) -> (name: &'static str)
        ensures
            name@ == self.spec_name(),
    {
        match self {
            TaxonomyLevel::Domain => "domain",
            TaxonomyLevel::Phylum => "phylum",
            TaxonomyLevel::Class => "class",
            TaxonomyLevel::Order => "order",
            TaxonomyLevel::Family => "family",
            TaxonomyLevel::Genus => "genus",
            TaxonomyLevel::Species => "species",
        }
    }
}

/// Positions and ranks correspond one to one.
pub proof fn lemma_level_index(l: TaxonomyLevel, i: int)
    ensures
        0 <= l.spec_index() < 7,
        level_at(l.spec_index()) == l,
        0 <= i < 7 ==> level_at(i).spec_index() == i,
{
}

} // verus!

//! The lowest common ancestor of a group of lineages.
//!
//! The ranks are walked from `Domain` down. A rank at which no member has a
//! value says nothing; one at which all members have the same value becomes
//! the candidate; one at which two members differ ends the walk.

use crate::agreement::Agreement;
use crate::agreement::UniqueTaxon;
use crate::agreement::agreement;
use crate::agreement::lemma_agreement_cases;
use crate::agreement::taxa_views;
use crate::agreement::unique_taxa;
use crate::level::TAXONOMY_LEVELS;
use crate::level::TaxonomyLevel;
use crate::level::lemma_level_index;
use crate::level::level_at;
use crate::lineage::ancestry;
use crate::lineage::lemma_shared_ancestry;
use crate::lineage::opt_view;
use crate::lineage::well_formed;
use crate::path::TaxonomyPath;
use std::ops::ControlFlow;
use vstd::prelude::*;

verus! {

/// A rank and the ancestry through it that a whole group shares.
#[derive(Debug, Clone, Copy)]
pub struct Lca<'a> {
    pub taxonomy_level: TaxonomyLevel,
    pub taxon: &'a str,
}

impl<'a> View for Lca<'a> {
    type V = (TaxonomyLevel, Seq<char>);

    open spec fn view(&self) -> (TaxonomyLevel, Seq<char>) {
        (self.taxonomy_level, self.taxon@)
    }
}

/// View of an optional [`Lca`].
pub open spec fn lca_view(lca: Option<Lca>) -> Option<(TaxonomyLevel, Seq<char>)> {
    match lca {
        Some(found) => Some(found@),
        None => None,
    }
}

/// The lineages of a group of paths, member by member.
pub open spec fn lineages_of(paths: Seq<&TaxonomyPath>) -> Seq<Seq<char>> {
    paths.map_values(|path: &TaxonomyPath| path@.lineage)
}

/// The ancestry of each member of a group through `level`.
pub open spec fn level_values(lineages: Seq<Seq<char>>, level: TaxonomyLevel) -> Seq<
    Option<Seq<char>>,
> {
    lineages.map_values(|lineage: Seq<char>| ancestry(lineage, level))
}

/// The agreement of a group at `level`.
pub open spec fn agreement_at(lineages: Seq<Seq<char>>, level: TaxonomyLevel) -> Agreement {
    agreement(level_values(lineages, level))
}

/// Position of the first rank from `from` on at which the group diverges, or
/// 7 where it diverges at none of them.
pub open spec fn divergence_depth(lineages: Seq<Seq<char>>, from: int) -> int
    decreases 7 - from,
{
    if from >= 7 {
        7
    } else if agreement_at(lineages, level_at(from)) is Divergent {
        from
    } else {
        divergence_depth(lineages, from + 1)
    }
}

/// The deepest rank above position `below` at which the group is unanimous,
/// with the ancestry shared there.
pub open spec fn deepest_unanimous(lineages: Seq<Seq<char>>, below: int) -> Option<
    (TaxonomyLevel, Seq<char>),
>
    decreases below,
{
    if below <= 0 {
        None
    } else {
        match agreement_at(lineages, level_at(below - 1)) {
            Agreement::Unanimous(taxon) => Some((level_at(below - 1), taxon)),
            _ => deepest_unanimous(lineages, below - 1),
        }
    }
}

/// Whether every lineage of a group has seven fields.
pub open spec fn all_well_formed(lineages: Seq<Seq<char>>) -> bool {
    forall|i: int| 0 <= i < lineages.len() ==> well_formed(#[trigger] lineages[i])
}

/// The lowest common ancestor of a group: the deepest rank at which it is
/// unanimous, among the ranks above the first at which it diverges.
pub open spec fn lowest_common_ancestor(lineages: Seq<Seq<char>>) -> Option<
    (TaxonomyLevel, Seq<char>),
> {
    deepest_unanimous(lineages, divergence_depth(lineages, 0))
}

/// Looks at one rank. Where the group diverges the walk ends with the
/// candidate found so far; where it is unanimous the rank becomes the
/// candidate; where no member has a value the candidate stays.
pub fn check_level<'a>(
    taxonomy_level: TaxonomyLevel,
    taxonomy_paths: &[&'a TaxonomyPath],
    previous_lca: Option<Lca<'a>>,
) -> (flow: ControlFlow<Option<Lca<'a>>, Option<Lca<'a>>>)
    ensures
        match agreement_at(lineages_of(taxonomy_paths@), taxonomy_level) {
            Agreement::Divergent => flow == ControlFlow::<Option<Lca<'a>>, Option<Lca<'a>>>::Break(
                previous_lca,
            ),
            Agreement::AllAbsent => flow == ControlFlow::<
                Option<Lca<'a>>,
                Option<Lca<'a>>,
            >::Continue(previous_lca),
            Agreement::Unanimous(taxon) => flow matches ControlFlow::Continue(Some(found))
                && found@ == (taxonomy_level, taxon),
        },
        all_well_formed(lineages_of(taxonomy_paths@)),
{
    let ghost lineages = lineages_of(taxonomy_paths@);
    let mut taxa: Vec<Option<&'a str>> = Vec::new();
    let mut i: usize = 0;
    while i < taxonomy_paths.len()
        invariant
            i <= taxonomy_paths.len(),
            lineages == lineages_of(taxonomy_paths@),
            taxa@.len() == i,
            forall|j: int|
                0 <= j < i ==> opt_view(#[trigger] taxa@[j]) == ancestry(
                    lineages[j],
                    taxonomy_level,
                ),
            forall|j: int| 0 <= j < i ==> well_formed(#[trigger] lineages[j]),
        decreases taxonomy_paths.len() - i,
    {
        let taxon = taxonomy_paths[i].level(taxonomy_level);
        taxa.push(taxon);
        i = i + 1;
    }
    proof {
        assert(taxa_views(taxa@) == level_values(lineages, taxonomy_level));
    }
    match unique_taxa(taxa.as_slice()) {
        UniqueTaxon::UniqueNone => ControlFlow::Continue(previous_lca),
        UniqueTaxon::UniqueSome(taxon) => ControlFlow::Continue(
            Some(Lca { taxonomy_level, taxon }),
        ),
        UniqueTaxon::NonUnique => ControlFlow::Break(previous_lca),
    }
}

/// The lowest common ancestor of a group of paths: the deepest rank at which
/// all members carry the same ancestry.
pub fn lca<'a>(taxonomy_paths: &[&'a TaxonomyPath]) -> (found: Option<Lca<'a>>)
    ensures
        lca_view(found) == lowest_common_ancestor(lineages_of(taxonomy_paths@)),
        lca_view(found) == deepest_unanimous(lineages_of(taxonomy_paths@), 7),
{
    let ghost lineages = lineages_of(taxonomy_paths@);
    let mut candidate: Option<Lca<'a>> = None;
    let mut depth: usize = 0;
    while depth < TAXONOMY_LEVELS
        invariant
            depth <= 7,
            lineages == lineages_of(taxonomy_paths@),
            lca_view(candidate) == deepest_unanimous(lineages, depth as int),
            divergence_depth(lineages, 0) == divergence_depth(lineages, depth as int),
            depth > 0 ==> all_well_formed(lineages),
        decreases 7 - depth,
    {
        let taxonomy_level = TaxonomyLevel::from_index(depth).unwrap();
        match check_level(taxonomy_level, taxonomy_paths, candidate) {
            ControlFlow::Continue(next) => {
                candidate = next;
            },
            ControlFlow::Break(last) => {
                proof {
                    lemma_lca_is_deepest_agreement(lineages);
                }
                return last;
            },
        }
        depth = depth + 1;
    }
    proof {
        lemma_lca_is_deepest_agreement(lineages);
    }
    candidate
}

/// The walk from position `from` ends at the first rank at which the group
/// diverges, and at none before it.
pub proof fn lemma_divergence_depth(lineages: Seq<Seq<char>>, from: int)
    requires
        0 <= from <= 7,
    ensures
        from <= divergence_depth(lineages, from) <= 7,
        forall|d: int|
            from <= d < divergence_depth(lineages, from) ==> !(#[trigger] agreement_at(
                lineages,
                level_at(d),
            ) is Divergent),
        divergence_depth(lineages, from) < 7 ==> agreement_at(
            lineages,
            level_at(divergence_depth(lineages, from)),
        ) is Divergent,
    decreases 7 - from,
{
    if from < 7 && !(agreement_at(lineages, level_at(from)) is Divergent) {
        lemma_divergence_depth(lineages, from + 1);
    }
}

/// A group of well-formed lineages that diverges at one rank is unanimous
/// at no deeper rank.
pub proof fn lemma_divergence_lasts(
    lineages: Seq<Seq<char>>,
    shallow: TaxonomyLevel,
    deep: TaxonomyLevel,
)
    requires
        all_well_formed(lineages),
        shallow.spec_index() <= deep.spec_index(),
        agreement_at(lineages, shallow) is Divergent,
    ensures
        !(agreement_at(lineages, deep) is Unanimous),
{
    if agreement_at(lineages, deep) is Unanimous {
        let taxon = agreement_at(lineages, deep)->Unanimous_0;
        let deep_values = level_values(lineages, deep);
        let shallow_values = level_values(lineages, shallow);
        lemma_agreement_cases(deep_values, taxon);
        lemma_agreement_cases(shallow_values, taxon);
        let (i, j) = choose|i: int, j: int|
            0 <= i < shallow_values.len() && 0 <= j < shallow_values.len()
                && #[trigger] shallow_values[i] != #[trigger] shallow_values[j];
        assert(deep_values[i] == Some(taxon));
        assert(deep_values[j] == Some(taxon));
        lemma_shared_ancestry(lineages[i], lineages[j], deep, shallow);
    }
}

/// Ranks at which the group is not unanimous add nothing to the deepest
/// unanimous rank.
pub proof fn lemma_skip_ranks(lineages: Seq<Seq<char>>, from: int, below: int)
    requires
        0 <= from <= below <= 7,
        forall|d: int|
            from <= d < below ==> !(#[trigger] agreement_at(lineages, level_at(d)) is Unanimous),
    ensures
        deepest_unanimous(lineages, below) == deepest_unanimous(lineages, from),
    decreases below - from,
{
    if from < below {
        lemma_skip_ranks(lineages, from, below - 1);
    }
}

/// The lowest common ancestor of a group of well-formed lineages is the
/// deepest of all ranks at which the group is unanimous: ending the walk at
/// the first divergence loses nothing.
pub proof fn lemma_lca_is_deepest_agreement(lineages: Seq<Seq<char>>)
    requires
        all_well_formed(lineages),
    ensures
        lowest_common_ancestor(lineages) == deepest_unanimous(lineages, 7),
{
    let depth = divergence_depth(lineages, 0);
    lemma_divergence_depth(lineages, 0);
    if depth < 7 {
        lemma_level_index(level_at(depth), depth);
        assert forall|d: int| depth <= d < 7 implies !(#[trigger] agreement_at(
            lineages,
            level_at(d),
        ) is Unanimous) by {
            lemma_level_index(level_at(d), d);
            lemma_divergence_lasts(lineages, level_at(depth), level_at(d));
        }
        lemma_skip_ranks(lineages, depth, 7);
    }
}

} // verus!

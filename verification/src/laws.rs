//! What holds of the lowest common ancestor, whatever the group.

use crate::agreement::Agreement;
use crate::agreement::all_absent;
use crate::agreement::divergent;
use crate::lca::agreement_at;
use crate::lca::deepest_unanimous;
use crate::lca::divergence_depth;
use crate::lca::lemma_divergence_depth;
use crate::lca::level_values;
use crate::lca::lowest_common_ancestor;
use crate::level::TaxonomyLevel;
use crate::level::lemma_level_index;
use crate::level::level_at;
use crate::lineage::absent;
use crate::lineage::ancestry;
use crate::lineage::field;
use crate::lineage::lemma_shared_ancestry;
use crate::lineage::lemma_species_is_whole_lineage;
use crate::lineage::well_formed;
use vstd::prelude::*;

verus! {

/// The deepest rank above position `below` at which `lineage` is present,
/// with its ancestry through that rank.
pub open spec fn deepest_present(lineage: Seq<char>, below: int) -> Option<
    (TaxonomyLevel, Seq<char>),
>
    decreases below,
{
    if below <= 0 {
        None
    } else {
        match ancestry(lineage, level_at(below - 1)) {
            Some(taxon) => Some((level_at(below - 1), taxon)),
            None => deepest_present(lineage, below - 1),
        }
    }
}

/// `deepest_unanimous` names a rank at which the group is unanimous, and the
/// group is unanimous at no rank between that one and `below`.
pub proof fn lemma_deepest_unanimous(lineages: Seq<Seq<char>>, below: int)
    requires
        0 <= below <= 7,
    ensures
        match deepest_unanimous(lineages, below) {
            None => forall|d: int|
                0 <= d < below ==> !(#[trigger] agreement_at(lineages, level_at(d)) is Unanimous),
            Some((level, taxon)) => 0 <= level.spec_index() < below && agreement_at(
                lineages,
                level,
            ) == Agreement::Unanimous(taxon) && forall|d: int|
                level.spec_index() < d < below ==> !(#[trigger] agreement_at(
                    lineages,
                    level_at(d),
                ) is Unanimous),
        },
    decreases below,
{
    if below > 0 {
        lemma_level_index(level_at(below - 1), below - 1);
        if !(agreement_at(lineages, level_at(below - 1)) is Unanimous) {
            lemma_deepest_unanimous(lineages, below - 1);
        }
    }
}

/// The lowest common ancestor is the rank `level` with `taxon` where the
/// group is unanimous there, diverges at no rank down to it, and is
/// unanimous at no deeper rank before it first diverges.
pub proof fn lemma_lca_is(lineages: Seq<Seq<char>>, level: TaxonomyLevel, taxon: Seq<char>)
    requires
        agreement_at(lineages, level) == Agreement::Unanimous(taxon),
        forall|d: int|
            0 <= d < level.spec_index() ==> !(#[trigger] agreement_at(lineages, level_at(d))
                is Divergent),
        forall|d: int|
            level.spec_index() < d < divergence_depth(lineages, 0) ==> !(#[trigger] agreement_at(
                lineages,
                level_at(d),
            ) is Unanimous),
    ensures
        lowest_common_ancestor(lineages) == Some((level, taxon)),
{
    let depth = divergence_depth(lineages, 0);
    lemma_level_index(level, level.spec_index());
    lemma_divergence_depth(lineages, 0);
    lemma_deepest_unanimous(lineages, depth);
    if let Some((found, _)) = deepest_unanimous(lineages, depth) {
        lemma_level_index(found, found.spec_index());
    }
}

/// A group has no common ancestor where it is unanimous at no rank before
/// it first diverges.
pub proof fn lemma_lca_is_none(lineages: Seq<Seq<char>>)
    requires
        forall|d: int|
            0 <= d < divergence_depth(lineages, 0) ==> !(#[trigger] agreement_at(
                lineages,
                level_at(d),
            ) is Unanimous),
    ensures
        lowest_common_ancestor(lineages) is None,
{
    let depth = divergence_depth(lineages, 0);
    lemma_divergence_depth(lineages, 0);
    lemma_deepest_unanimous(lineages, depth);
    if let Some((found, _)) = deepest_unanimous(lineages, depth) {
        lemma_level_index(found, found.spec_index());
    }
}

/// A group without members has no common ancestor.
pub proof fn lemma_empty_group()
    ensures
        lowest_common_ancestor(Seq::<Seq<char>>::empty()) is None,
{
    let lineages = Seq::<Seq<char>>::empty();
    assert forall|d: int| 0 <= d < 7 implies #[trigger] agreement_at(lineages, level_at(d))
        == Agreement::AllAbsent by {
        assert(level_values(lineages, level_at(d)).len() == 0);
    }
    lemma_divergence_depth(lineages, 0);
    lemma_lca_is_none(lineages);
}

/// The agreement of a group of one member follows that member.
pub proof fn lemma_single_agreement(lineage: Seq<char>, level: TaxonomyLevel)
    ensures
        agreement_at(seq![lineage], level) == match ancestry(lineage, level) {
            Some(taxon) => Agreement::Unanimous(taxon),
            None => Agreement::AllAbsent,
        },
{
    let values = level_values(seq![lineage], level);
    assert(values.len() == 1 && values[0] == ancestry(lineage, level));
    assert(!divergent(values));
    assert(all_absent(values) <==> values[0] is None);
}

/// The agreement of a group of two members: divergent where their values
/// differ, else what the common value is.
pub proof fn lemma_pair_agreement(a: Seq<char>, b: Seq<char>, level: TaxonomyLevel)
    ensures
        agreement_at(seq![a, b], level) == if ancestry(a, level) != ancestry(b, level) {
            Agreement::Divergent
        } else {
            match ancestry(a, level) {
                Some(taxon) => Agreement::Unanimous(taxon),
                None => Agreement::AllAbsent,
            }
        },
{
    let values = level_values(seq![a, b], level);
    assert(values.len() == 2);
    assert(values[0] == ancestry(a, level) && values[1] == ancestry(b, level));
    assert(divergent(values) <==> values[0] != values[1]);
    assert(all_absent(values) ==> values[0] is None);
}

/// The lowest common ancestor of a single member is the deepest rank at
/// which that member is present, with its ancestry through that rank.
pub proof fn lemma_single_member(lineage: Seq<char>)
    ensures
        lowest_common_ancestor(seq![lineage]) == deepest_present(lineage, 7),
{
    let group = seq![lineage];
    assert forall|d: int| 0 <= d < 7 implies !(#[trigger] agreement_at(group, level_at(d))
        is Divergent) by {
        lemma_single_agreement(lineage, level_at(d));
    }
    lemma_divergence_depth(group, 0);
    lemma_single_matches_present(lineage, 7);
}

/// For a single member, the deepest unanimous rank is the deepest rank at
/// which the member is present.
pub proof fn lemma_single_matches_present(lineage: Seq<char>, below: int)
    requires
        0 <= below <= 7,
    ensures
        deepest_unanimous(seq![lineage], below) == deepest_present(lineage, below),
    decreases below,
{
    if below > 0 {
        lemma_single_agreement(lineage, level_at(below - 1));
        lemma_single_matches_present(lineage, below - 1);
    }
}

/// Two members with one and the same well-formed lineage, present at the
/// species rank, have the species rank and the whole lineage as their lowest
/// common ancestor.
pub proof fn lemma_identical_members(lineage: Seq<char>)
    requires
        well_formed(lineage),
        !absent(field(lineage, 6)),
    ensures
        lowest_common_ancestor(seq![lineage, lineage]) == Some((TaxonomyLevel::Species, lineage)),
{
    let group = seq![lineage, lineage];
    lemma_species_is_whole_lineage(lineage);
    assert forall|d: int| 0 <= d < 7 implies !(#[trigger] agreement_at(group, level_at(d))
        is Divergent) by {
        lemma_pair_agreement(lineage, lineage, level_at(d));
    }
    lemma_pair_agreement(lineage, lineage, TaxonomyLevel::Species);
    lemma_divergence_depth(group, 0);
    lemma_lca_is(group, TaxonomyLevel::Species, lineage);
}

/// Two members whose values differ at the domain rank have no common
/// ancestor.
pub proof fn lemma_differ_at_domain(a: Seq<char>, b: Seq<char>)
    requires
        ancestry(a, TaxonomyLevel::Domain) != ancestry(b, TaxonomyLevel::Domain),
    ensures
        lowest_common_ancestor(seq![a, b]) is None,
{
    lemma_pair_agreement(a, b, TaxonomyLevel::Domain);
}

/// Two well-formed members that share their ancestry through the family
/// rank and differ at the genus rank have the family rank, with that
/// ancestry, as their lowest common ancestor.
pub proof fn lemma_diverge_at_genus(a: Seq<char>, b: Seq<char>)
    requires
        well_formed(a),
        well_formed(b),
        ancestry(a, TaxonomyLevel::Family) is Some,
        ancestry(a, TaxonomyLevel::Family) == ancestry(b, TaxonomyLevel::Family),
        ancestry(a, TaxonomyLevel::Genus) != ancestry(b, TaxonomyLevel::Genus),
    ensures
        lowest_common_ancestor(seq![a, b]) == Some(
            (TaxonomyLevel::Family, ancestry(a, TaxonomyLevel::Family)->0),
        ),
{
    let group = seq![a, b];
    assert forall|d: int| 0 <= d < 4 implies !(#[trigger] agreement_at(group, level_at(d))
        is Divergent) by {
        lemma_level_index(level_at(d), d);
        lemma_shared_ancestry(a, b, TaxonomyLevel::Family, level_at(d));
        lemma_pair_agreement(a, b, level_at(d));
    }
    lemma_pair_agreement(a, b, TaxonomyLevel::Family);
    lemma_pair_agreement(a, b, TaxonomyLevel::Genus);
    assert(level_at(4) == TaxonomyLevel::Family && level_at(5) == TaxonomyLevel::Genus);
    lemma_divergence_depth(group, 0);
    assert(divergence_depth(group, 0) == 5);
    lemma_lca_is(group, TaxonomyLevel::Family, ancestry(a, TaxonomyLevel::Family)->0);
}

/// Ranks at which no member has a value do not stand in the way: a group
/// that is unanimous at one rank and diverges at none above it has a lowest
/// common ancestor, at that rank or deeper.
pub proof fn lemma_absence_does_not_block(
    lineages: Seq<Seq<char>>,
    level: TaxonomyLevel,
    taxon: Seq<char>,
)
    requires
        agreement_at(lineages, level) == Agreement::Unanimous(taxon),
        forall|d: int|
            0 <= d < level.spec_index() ==> !(#[trigger] agreement_at(lineages, level_at(d))
                is Divergent),
    ensures
        lowest_common_ancestor(lineages) matches Some((found, shared)) && found.spec_index()
            >= level.spec_index(),
{
    lemma_level_index(level, level.spec_index());
    lemma_divergence_depth(lineages, 0);
    lemma_deepest_unanimous(lineages, divergence_depth(lineages, 0));
}

/// A group in which no member has a value at the domain, phylum and class
/// ranks, and which is unanimous at the order rank, has the order rank as its
/// lowest common ancestor, unless it is unanimous at a deeper rank before it
/// first diverges.
pub proof fn lemma_absent_through_class(lineages: Seq<Seq<char>>, taxon: Seq<char>)
    requires
        agreement_at(lineages, TaxonomyLevel::Domain) is AllAbsent,
        agreement_at(lineages, TaxonomyLevel::Phylum) is AllAbsent,
        agreement_at(lineages, TaxonomyLevel::Class) is AllAbsent,
        agreement_at(lineages, TaxonomyLevel::Order) == Agreement::Unanimous(taxon),
        forall|d: int|
            3 < d < divergence_depth(lineages, 0) ==> !(#[trigger] agreement_at(
                lineages,
                level_at(d),
            ) is Unanimous),
    ensures
        lowest_common_ancestor(lineages) == Some((TaxonomyLevel::Order, taxon)),
{
    assert forall|d: int| 0 <= d < 3 implies !(#[trigger] agreement_at(lineages, level_at(d))
        is Divergent) by {
        assert(level_at(d) == TaxonomyLevel::Domain || level_at(d) == TaxonomyLevel::Phylum
            || level_at(d) == TaxonomyLevel::Class);
    }
    lemma_lca_is(lineages, TaxonomyLevel::Order, taxon);
}

} // verus!

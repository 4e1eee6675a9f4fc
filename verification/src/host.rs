//! The consensus of one group handed over as two lists of strings, for a
//! caller that holds no tables.

use crate::lca::lca;
use crate::lca::lineages_of;
use crate::lca::lowest_common_ancestor;
use crate::lineage::unquoted;
use crate::lineage::well_formed;
use crate::path::TaxonomyPath;
use crate::text::string_views;
use vstd::prelude::*;

verus! {

/// What is handed back for a group: the shared ancestry and the name of its
/// rank, or twice the word `NONE` where the group has no common ancestor.
pub open spec fn consensus_of(lineages: Seq<Seq<char>>) -> (Seq<char>, Seq<char>) {
    match lowest_common_ancestor(lineages) {
        None => ("NONE"@, "NONE"@),
        Some((level, taxon)) => (taxon, level.spec_name()),
    }
}

/// The lineages of a group as they are parsed: each without its quotes.
pub open spec fn cleaned(taxonomy_strings: Seq<Seq<char>>) -> Seq<Seq<char>> {
    taxonomy_strings.map_values(|lineage: Seq<char>| unquoted(lineage))
}

/// Whether a group can be parsed: as many lineages as accessions, and
/// seven fields in every lineage.
pub open spec fn parsable(accessions: Seq<Seq<char>>, taxonomy_strings: Seq<Seq<char>>) -> bool {
    &&& accessions.len() == taxonomy_strings.len()
    &&& forall|i: int|
        0 <= i < taxonomy_strings.len() ==> well_formed(unquoted(#[trigger] taxonomy_strings[i]))
}

/// Parses a group, member by member. Returns nothing where the two lists
/// differ in length or a lineage does not have seven fields.
pub fn parse_group(accessions: &Vec<String>, taxonomy_strings: &Vec<String>) -> (group: Option<
    Vec<TaxonomyPath>,
>)
    ensures
        group is Some <==> parsable(string_views(accessions@), string_views(taxonomy_strings@)),
        group matches Some(taxonomy_paths) ==> taxonomy_paths@.len() == accessions@.len()
            && forall|i: int|
            0 <= i < taxonomy_paths@.len() ==> (#[trigger] taxonomy_paths@[i])@.accession
                == unquoted(accessions@[i]@) && taxonomy_paths@[i]@.lineage == unquoted(
                taxonomy_strings@[i]@,
            ),
{
    if accessions.len() != taxonomy_strings.len() {
        return None;
    }
    let ghost lineages = string_views(taxonomy_strings@);
    let mut taxonomy_paths: Vec<TaxonomyPath> = Vec::new();
    let mut i: usize = 0;
    while i < accessions.len()
        invariant
            i <= accessions.len(),
            accessions.len() == taxonomy_strings.len(),
            lineages == string_views(taxonomy_strings@),
            taxonomy_paths@.len() == i,
            forall|j: int| 0 <= j < i ==> well_formed(unquoted(#[trigger] lineages[j])),
            forall|j: int|
                0 <= j < i ==> (#[trigger] taxonomy_paths@[j])@.accession == unquoted(
                    accessions@[j]@,
                ) && taxonomy_paths@[j]@.lineage == unquoted(taxonomy_strings@[j]@),
        decreases accessions.len() - i,
    {
        assert(lineages[i as int] == taxonomy_strings@[i as int]@);
        match TaxonomyPath::try_new(accessions[i].as_str(), taxonomy_strings[i].clone()) {
            Some((_, taxonomy_path)) => {
                taxonomy_paths.push(taxonomy_path);
            },
            None => {
                return None;
            },
        }
        i = i + 1;
    }
    Some(taxonomy_paths)
}

/// The shared ancestry of a group and the name of its rank, or twice the
/// word `NONE`.
pub fn consensus(taxonomy_paths: &[&TaxonomyPath]) -> (pair: (String, String))
    ensures
        (pair.0@, pair.1@) == consensus_of(lineages_of(taxonomy_paths@)),
{
    match lca(taxonomy_paths) {
        None => ("NONE".to_owned(), "NONE".to_owned()),
        Some(found) => (found.taxon.to_owned(), found.taxonomy_level.name().to_owned()),
    }
}

/// The consensus of a group given as accessions and lineages, member by
/// member.
pub fn lca_wrapper(accessions: &Vec<String>, taxonomy_strings: &Vec<String>) -> (pair: (
    String,
    String,
))
    requires
        parsable(string_views(accessions@), string_views(taxonomy_strings@)),
    ensures
        (pair.0@, pair.1@) == consensus_of(cleaned(string_views(taxonomy_strings@))),
{
    let taxonomy_paths = parse_group(accessions, taxonomy_strings).unwrap();
    let mut taxonomy_path_refs: Vec<&TaxonomyPath> = Vec::new();
    let mut i: usize = 0;
    while i < taxonomy_paths.len()
        invariant
            i <= taxonomy_paths.len(),
            taxonomy_path_refs@.len() == i,
            forall|j: int| 0 <= j < i ==> *(#[trigger] taxonomy_path_refs@[j]) == taxonomy_paths@[j],
        decreases taxonomy_paths.len() - i,
    {
        taxonomy_path_refs.push(&taxonomy_paths[i]);
        i = i + 1;
    }
    proof {
        assert(lineages_of(taxonomy_path_refs@) == cleaned(string_views(taxonomy_strings@)));
    }
    consensus(taxonomy_path_refs.as_slice())
}

} // verus!

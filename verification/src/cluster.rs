//! From a cluster and the lookup table to the rows of the output.
//!
//! The members of a cluster that the lookup table knows are resolved to
//! their paths; the others are passed over with a warning. A cluster with a
//! lowest common ancestor gets one row for each resolved member, any other
//! cluster a single row that says so.

use crate::laws::lemma_empty_group;
use crate::lca::Lca;
use crate::lca::lca;
use crate::lca::lineages_of;
use crate::lca::lowest_common_ancestor;
use crate::level::TaxonomyLevel;
use crate::path::PathView;
use crate::path::TaxonomyPath;
use crate::tables::ClusterTable;
use crate::tables::PathTable;
use crate::tables::members_entries;
use crate::tables::members_in;
use crate::tables::paths_get;
use crate::tables::paths_in;
use crate::text::string_views;
use vstd::prelude::*;

verus! {

/// What to say of one cluster: its rows, and a warning for each of its
/// accessions that the lookup table does not know.
#[derive(Debug)]
pub struct ClusterReport {
    pub cluster: String,
    pub rows: Vec<String>,
    pub warnings: Vec<String>,
}

/// The views of a group of paths, member by member.
pub open spec fn path_views(paths: Seq<&TaxonomyPath>) -> Seq<PathView> {
    paths.map_values(|path: &TaxonomyPath| path@)
}

/// The lineages of a group of path views, member by member.
pub open spec fn view_lineages(members: Seq<PathView>) -> Seq<Seq<char>> {
    members.map_values(|member: PathView| member.lineage)
}

/// The accessions among `accessions` that `lookup` knows, in their order.
pub open spec fn known(accessions: Seq<Seq<char>>, lookup: Map<Seq<char>, PathView>) -> Seq<
    Seq<char>,
> {
    accessions.filter(|accession: Seq<char>| lookup.contains_key(accession))
}

/// The paths of the accessions that `lookup` knows, in the order of
/// `accessions`.
pub open spec fn resolved(accessions: Seq<Seq<char>>, lookup: Map<Seq<char>, PathView>) -> Seq<
    PathView,
> {
    known(accessions, lookup).map_values(|accession: Seq<char>| lookup[accession])
}

/// The accessions among `accessions` that `lookup` does not know, in their
/// order.
pub open spec fn unresolved(accessions: Seq<Seq<char>>, lookup: Map<Seq<char>, PathView>) -> Seq<
    Seq<char>,
> {
    accessions.filter(|accession: Seq<char>| !lookup.contains_key(accession))
}

/// The row of a cluster without a lowest common ancestor.
pub open spec fn unresolved_row(cluster: Seq<char>) -> Seq<char> {
    cluster + "\tna\tna"@
}

/// The row of one member of a cluster with a lowest common ancestor.
pub open spec fn member_row(
    cluster: Seq<char>,
    level: TaxonomyLevel,
    taxon: Seq<char>,
    accession: Seq<char>,
) -> Seq<char> {
    cluster + "\t"@ + level.spec_name() + "\t"@ + taxon + "\t"@ + accession
}

/// The rows of a cluster with the given resolved members.
pub open spec fn rows_of(cluster: Seq<char>, members: Seq<PathView>) -> Seq<Seq<char>> {
    match lowest_common_ancestor(view_lineages(members)) {
        None => seq![unresolved_row(cluster)],
        Some((level, taxon)) => members.map_values(
            |member: PathView| member_row(cluster, level, taxon, member.accession),
        ),
    }
}

/// The warning about an accession that the lookup table does not know.
pub open spec fn warning_for(accession: Seq<char>) -> Seq<char> {
    "Accession "@ + accession
        + " was present in the clusters file but not in the taxonomy file. Skipping."@
}

/// The warnings about the accessions that `lookup` does not know.
pub open spec fn warnings_of(accessions: Seq<Seq<char>>, lookup: Map<Seq<char>, PathView>) -> Seq<
    Seq<char>,
> {
    unresolved(accessions, lookup).map_values(|accession: Seq<char>| warning_for(accession))
}

/// Whether `report` says of `cluster` with the given accessions what is to
/// be said.
pub open spec fn reports(
    report: ClusterReport,
    cluster: Seq<char>,
    accessions: Seq<Seq<char>>,
    lookup: Map<Seq<char>, PathView>,
) -> bool {
    &&& report.cluster@ == cluster
    &&& string_views(report.rows@) == rows_of(cluster, resolved(accessions, lookup))
    &&& string_views(report.warnings@) == warnings_of(accessions, lookup)
}

/// One more accession at the end is resolved where the lookup table knows
/// it, and left out of the resolved members and noted as unresolved where it
/// does not.
pub proof fn lemma_resolve_step(
    accessions: Seq<Seq<char>>,
    lookup: Map<Seq<char>, PathView>,
    accession: Seq<char>,
)
    ensures
        lookup.contains_key(accession) ==> resolved(accessions.push(accession), lookup)
            == resolved(accessions, lookup).push(lookup[accession]) && unresolved(
            accessions.push(accession),
            lookup,
        ) == unresolved(accessions, lookup),
        !lookup.contains_key(accession) ==> resolved(accessions.push(accession), lookup)
            == resolved(accessions, lookup) && unresolved(accessions.push(accession), lookup)
            == unresolved(accessions, lookup).push(accession),
{
    reveal(Seq::filter);
    assert(accessions.push(accession).drop_last() == accessions);
}

/// A cluster without resolved members gets the single row that says so.
pub proof fn lemma_no_members_one_row(cluster: Seq<char>)
    ensures
        rows_of(cluster, Seq::<PathView>::empty()) == seq![unresolved_row(cluster)],
{
    lemma_empty_group();
    assert(view_lineages(Seq::<PathView>::empty()) == Seq::<Seq<char>>::empty());
}

/// Looks the accessions of a cluster up. Returns the paths of those that
/// the lookup table knows and, apart, the accessions that it does not know.
pub fn resolve_members<'a>(accessions: &Vec<String>, lookup: &'a PathTable) -> (outcome: (
    Vec<&'a TaxonomyPath>,
    Vec<String>,
))
    ensures
        path_views(outcome.0@) == resolved(string_views(accessions@), paths_in(*lookup)),
        string_views(outcome.1@) == unresolved(string_views(accessions@), paths_in(*lookup)),
{
    let ghost all = string_views(accessions@);
    let ghost held = paths_in(*lookup);
    let mut taxonomy_paths: Vec<&'a TaxonomyPath> = Vec::new();
    let mut missing: Vec<String> = Vec::new();
    let mut i: usize = 0;
    proof {
        reveal(Seq::filter);
    }
    while i < accessions.len()
        invariant
            i <= accessions.len(),
            all == string_views(accessions@),
            held == paths_in(*lookup),
            path_views(taxonomy_paths@) == resolved(all.take(i as int), held),
            string_views(missing@) == unresolved(all.take(i as int), held),
        decreases accessions.len() - i,
    {
        proof {
            assert(all.take(i + 1) == all.take(i as int).push(accessions@[i as int]@));
            lemma_resolve_step(all.take(i as int), held, accessions@[i as int]@);
        }
        match paths_get(lookup, accessions[i].as_str()) {
            Some(taxonomy_path) => {
                taxonomy_paths.push(taxonomy_path);
            },
            None => {
                missing.push(accessions[i].clone());
            },
        }
        i = i + 1;
    }
    assert(all.take(i as int) == all);
    (taxonomy_paths, missing)
}

/// The row of a cluster without a lowest common ancestor.
pub fn format_unresolved(cluster: &str) -> (row: String)
    ensures
        row@ == unresolved_row(cluster@),
{
    let mut row = cluster.to_owned();
    row.append("\tna\tna");
    row
}

/// The row of one member of a cluster with the lowest common ancestor
/// `found`.
pub fn format_member(cluster: &str, found: &Lca, accession: &str) -> (row: String)
    ensures
        row@ == member_row(cluster@, found.taxonomy_level, found.taxon@, accession@),
{
    let mut row = cluster.to_owned();
    row.append("\t");
    row.append(found.taxonomy_level.name());
    row.append("\t");
    row.append(found.taxon);
    row.append("\t");
    row.append(accession);
    row
}

/// The warning about an accession that the lookup table does not know.
pub fn format_warning(accession: &str) -> (warning: String)
    ensures
        warning@ == warning_for(accession@),
{
    let mut warning = "Accession ".to_owned();
    warning.append(accession);
    warning.append(" was present in the clusters file but not in the taxonomy file. Skipping.");
    warning
}

/// The rows of a cluster with the given resolved members.
pub fn cluster_rows(cluster: &str, taxonomy_paths: &[&TaxonomyPath]) -> (rows: Vec<String>)
    ensures
        string_views(rows@) == rows_of(cluster@, path_views(taxonomy_paths@)),
{
    let ghost members = path_views(taxonomy_paths@);
    proof {
        assert(lineages_of(taxonomy_paths@) == view_lineages(members));
    }
    let mut rows: Vec<String> = Vec::new();
    match lca(taxonomy_paths) {
        None => {
            rows.push(format_unresolved(cluster));
        },
        Some(found) => {
            let mut i: usize = 0;
            while i < taxonomy_paths.len()
                invariant
                    i <= taxonomy_paths.len(),
                    members == path_views(taxonomy_paths@),
                    rows@.len() == i,
                    forall|j: int|
                        0 <= j < i ==> (#[trigger] rows@[j])@ == member_row(
                            cluster@,
                            found.taxonomy_level,
                            found.taxon@,
                            members[j].accession,
                        ),
                decreases taxonomy_paths.len() - i,
            {
                rows.push(format_member(cluster, &found, taxonomy_paths[i].accession()));
                i = i + 1;
            }
        },
    }
    rows
}

/// What to say of one cluster, given the accessions of its members.
pub fn report_cluster(cluster: &str, accessions: &Vec<String>, lookup: &PathTable) -> (report:
    ClusterReport)
    ensures
        reports(report, cluster@, string_views(accessions@), paths_in(*lookup)),
{
    let (taxonomy_paths, missing) = resolve_members(accessions, lookup);
    let rows = cluster_rows(cluster, taxonomy_paths.as_slice());
    let mut warnings: Vec<String> = Vec::new();
    let mut i: usize = 0;
    while i < missing.len()
        invariant
            i <= missing.len(),
            warnings@.len() == i,
            forall|j: int| 0 <= j < i ==> (#[trigger] warnings@[j])@ == warning_for(missing@[j]@),
        decreases missing.len() - i,
    {
        warnings.push(format_warning(missing[i].as_str()));
        i = i + 1;
    }
    proof {
        assert(string_views(warnings@) == string_views(missing@).map_values(
            |accession: Seq<char>| warning_for(accession),
        ));
    }
    ClusterReport { cluster: cluster.to_owned(), rows, warnings }
}

/// What to say of every cluster of the table: one report for each cluster.
/// The order of the reports is left open.
pub fn report_clusters(cluster_members: &ClusterTable, lookup: &PathTable) -> (all: Vec<
    ClusterReport,
>)
    ensures
        forall|i: int|
            0 <= i < all@.len() ==> members_in(*cluster_members).contains_key(
                (#[trigger] all@[i]).cluster@,
            ) && reports(
                all@[i],
                all@[i].cluster@,
                members_in(*cluster_members)[all@[i].cluster@],
                paths_in(*lookup),
            ),
        forall|i: int, j: int|
            0 <= i < j < all@.len() ==> (#[trigger] all@[i]).cluster@ != (
            #[trigger] all@[j]).cluster@,
        forall|cluster: Seq<char>|
            members_in(*cluster_members).contains_key(cluster) ==> exists|i: int|
                0 <= i < all@.len() && (#[trigger] all@[i]).cluster@ == cluster,
{
    let entries = members_entries(cluster_members);
    let mut all: Vec<ClusterReport> = Vec::new();
    let mut i: usize = 0;
    while i < entries.len()
        invariant
            i <= entries.len(),
            all@.len() == i,
            forall|k: int|
                0 <= k < entries@.len() ==> members_in(*cluster_members).contains_key(
                    (#[trigger] entries@[k]).0@,
                ) && members_in(*cluster_members)[entries@[k].0@] == string_views(entries@[k].1@),
            forall|k: int|
                0 <= k < i ==> (#[trigger] all@[k]).cluster@ == entries@[k].0@ && reports(
                    all@[k],
                    entries@[k].0@,
                    string_views(entries@[k].1@),
                    paths_in(*lookup),
                ),
        decreases entries.len() - i,
    {
        let (cluster, accessions) = entries[i];
        all.push(report_cluster(cluster.as_str(), accessions, lookup));
        i = i + 1;
    }
    proof {
        assert forall|cluster: Seq<char>|
            members_in(*cluster_members).contains_key(cluster) implies exists|k: int|
            0 <= k < all@.len() && (#[trigger] all@[k]).cluster@ == cluster by {
            let k = choose|k: int| 0 <= k < entries@.len() && (#[trigger] entries@[k]).0@ == cluster;
            assert(all@[k].cluster@ == cluster);
        }
    }
    all
}

} // verus!

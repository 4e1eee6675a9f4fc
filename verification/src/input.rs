//! The two tab-separated inputs, line by line.
//!
//! A line of the clusters input names an accession and its cluster. A line
//! of the taxonomy input names an accession and its lineage.

use crate::level::TaxonomyLevel;
use crate::lineage::absent;
use crate::lineage::ancestry;
use crate::lineage::field;
use crate::lineage::lemma_species_is_whole_lineage;
use crate::lineage::unquoted;
use crate::lineage::well_formed;
use crate::path::PathView;
use crate::path::TaxonomyPath;
use crate::tables::ClusterTable;
use crate::tables::PathTable;
use crate::tables::members_get_mut;
use crate::tables::members_in;
use crate::tables::members_insert;
use crate::tables::members_new;
use crate::tables::paths_in;
use crate::tables::paths_insert;
use crate::tables::paths_new;
use crate::text::lowercased;
use crate::text::pieces;
use crate::text::split;
use crate::text::str_views;
use crate::text::string_views;
use crate::text::to_lowercase;
use crate::text::trim;
use crate::text::trimmed;
use vstd::prelude::*;

verus! {

/// The character between two columns of a line.
pub const COLUMN_SEPARATOR: char = '\t';

/// The columns of a line: its tab-separated parts, each without the white
/// space around it.
pub open spec fn columns(line: Seq<char>) -> Seq<Seq<char>> {
    pieces(line, COLUMN_SEPARATOR).map_values(|part: Seq<char>| trimmed(part))
}

/// What a line of the clusters input says: an accession and the cluster it
/// belongs to. A line with fewer than two columns says nothing.
pub open spec fn membership(line: Seq<char>) -> Option<(Seq<char>, Seq<char>)> {
    if columns(line).len() < 2 {
        None
    } else {
        Some((columns(line)[0], columns(line)[1]))
    }
}

/// The accessions that `lines` put into `cluster`, in the order of the lines.
pub open spec fn members_of(lines: Seq<Seq<char>>, cluster: Seq<char>) -> Seq<Seq<char>>
    decreases lines.len(),
{
    if lines.len() == 0 {
        Seq::empty()
    } else {
        let before = members_of(lines.drop_last(), cluster);
        match membership(lines.last()) {
            Some((accession, named)) => if named == cluster {
                before.push(accession)
            } else {
                before
            },
            None => before,
        }
    }
}

/// Whether `line` puts an accession into `cluster`.
pub open spec fn line_names(line: Seq<char>, cluster: Seq<char>) -> bool {
    membership(line) matches Some((_, named)) && named == cluster
}

/// Whether some line of `lines` names `cluster`.
pub open spec fn names_cluster(lines: Seq<Seq<char>>, cluster: Seq<char>) -> bool {
    exists|i: int| 0 <= i < lines.len() && #[trigger] line_names(lines[i], cluster)
}

/// The clusters that `lines` name, each with its members.
pub open spec fn clusters_of(lines: Seq<Seq<char>>) -> Map<Seq<char>, Seq<Seq<char>>> {
    Map::new(
        |cluster: Seq<char>| names_cluster(lines, cluster),
        |cluster: Seq<char>| members_of(lines, cluster),
    )
}

/// Why a line of the taxonomy input cannot be used.
#[derive(Debug, Clone, Copy, PartialEq, Eq, Structural)]
pub enum TaxonomyError {
    /// The line has fewer than two columns.
    MissingColumn,
    /// The lineage does not have exactly seven fields.
    MalformedTaxonomy,
}

/// The lineage that a line of the taxonomy input carries: its second
/// column in lower case, without its quotes.
pub open spec fn line_lineage(line: Seq<char>) -> Seq<char> {
    unquoted(lowercased(columns(line)[1]))
}

/// What a line of the taxonomy input says: an accession, without its quotes,
/// and its lineage.
pub open spec fn taxonomy_entry(line: Seq<char>) -> Result<PathView, TaxonomyError> {
    if columns(line).len() < 2 {
        Err(TaxonomyError::MissingColumn)
    } else if !well_formed(line_lineage(line)) {
        Err(TaxonomyError::MalformedTaxonomy)
    } else {
        Ok(PathView { accession: unquoted(columns(line)[0]), lineage: line_lineage(line) })
    }
}

/// The lookup table that `lines` make up. Where two lines name one
/// accession, the later one counts.
pub open spec fn lookup_of(lines: Seq<Seq<char>>) -> Map<Seq<char>, PathView>
    decreases lines.len(),
{
    if lines.len() == 0 {
        Map::empty()
    } else {
        match taxonomy_entry(lines.last()) {
            Ok(entry) => lookup_of(lines.drop_last()).insert(entry.accession, entry),
            Err(_) => lookup_of(lines.drop_last()),
        }
    }
}

/// Position of the first line of `lines` that cannot be used, or the
/// number of lines where every line can.
pub open spec fn first_bad_line(lines: Seq<Seq<char>>) -> int
    decreases lines.len(),
{
    if lines.len() == 0 {
        0
    } else if first_bad_line(lines.drop_last()) < lines.len() - 1 {
        first_bad_line(lines.drop_last())
    } else if taxonomy_entry(lines.last()) is Err {
        lines.len() - 1
    } else {
        lines.len() as int
    }
}

/// Splits a line into its columns.
pub fn split_columns(line: &str) -> (parts: Vec<&str>)
    ensures
        str_views(parts@) == columns(line@),
{
    let raw = split(line, COLUMN_SEPARATOR);
    let mut parts: Vec<&str> = Vec::new();
    let mut i: usize = 0;
    while i < raw.len()
        invariant
            i <= raw.len(),
            str_views(raw@) == pieces(line@, COLUMN_SEPARATOR),
            parts@.len() == i,
            forall|j: int| 0 <= j < i ==> (#[trigger] parts@[j])@ == trimmed(raw@[j]@),
        decreases raw.len() - i,
    {
        parts.push(trim(raw[i]));
        i = i + 1;
    }
    parts
}

/// Reads a line of the clusters input: the accession and the cluster, or
/// nothing where the line has fewer than two columns.
pub fn parse_cluster_line(line: &str) -> (entry: Option<(String, String)>)
    ensures
        match entry {
            Some((accession, cluster)) => membership(line@) == Some((accession@, cluster@)),
            None => membership(line@) is None,
        },
{
    let parts = split_columns(line);
    if parts.len() < 2 {
        return None;
    }
    Some((parts[0].to_owned(), parts[1].to_owned()))
}

/// Adding a line adds its accession to the cluster that it names, and
/// changes no other cluster.
pub proof fn lemma_clusters_of_step(lines: Seq<Seq<char>>)
    requires
        lines.len() > 0,
    ensures
        clusters_of(lines) == match membership(lines.last()) {
            None => clusters_of(lines.drop_last()),
            Some((accession, cluster)) => clusters_of(lines.drop_last()).insert(
                cluster,
                members_of(lines.drop_last(), cluster).push(accession),
            ),
        },
{
    let before = lines.drop_last();
    let expected = match membership(lines.last()) {
        None => clusters_of(before),
        Some((accession, cluster)) => clusters_of(before).insert(
            cluster,
            members_of(before, cluster).push(accession),
        ),
    };
    assert forall|cluster: Seq<char>| #[trigger]
        clusters_of(lines).contains_key(cluster) == expected.contains_key(cluster) by {
        if names_cluster(lines, cluster) {
            let i = choose|i: int| 0 <= i < lines.len() && #[trigger] line_names(lines[i], cluster);
            if i < before.len() {
                assert(line_names(before[i], cluster));
                assert(names_cluster(before, cluster));
            }
        }
        if names_cluster(before, cluster) {
            let i = choose|i: int|
                0 <= i < before.len() && #[trigger] line_names(before[i], cluster);
            assert(line_names(lines[i], cluster));
            assert(names_cluster(lines, cluster));
        }
        if line_names(lines.last(), cluster) {
            assert(line_names(lines[lines.len() - 1], cluster));
            assert(names_cluster(lines, cluster));
        }
    }
    assert(clusters_of(lines) =~= expected);
}

/// Groups the lines of the clusters input by cluster. Lines with fewer than
/// two columns are passed over.
pub fn read_clusters(lines: &Vec<String>) -> (cluster_members: ClusterTable)
    ensures
        members_in(cluster_members) == clusters_of(string_views(lines@)),
{
    let ghost all = string_views(lines@);
    let mut cluster_members = members_new();
    let mut i: usize = 0;
    while i < lines.len()
        invariant
            i <= lines.len(),
            all == string_views(lines@),
            members_in(cluster_members) == clusters_of(all.take(i as int)),
        decreases lines.len() - i,
    {
        proof {
            assert(all.take(i + 1).drop_last() == all.take(i as int));
            lemma_clusters_of_step(all.take(i + 1));
        }
        let ghost before = all.take(i as int);
        let ghost held = members_in(cluster_members);
        match parse_cluster_line(lines[i].as_str()) {
            None => {},
            Some((accession, cluster)) => {
                let ghost added = accession@;
                let ghost named = cluster@;
                proof {
                    if !names_cluster(before, named) {
                        lemma_unnamed_cluster_is_empty(before, named);
                    }
                }
                match members_get_mut(&mut cluster_members, cluster.as_str()) {
                    Some(members) => {
                        members.push(accession);
                        assert(string_views(members@) == held[named].push(added));
                    },
                    None => {
                        let mut members: Vec<String> = Vec::new();
                        members.push(accession);
                        assert(string_views(members@) == Seq::<Seq<char>>::empty().push(added));
                        members_insert(&mut cluster_members, cluster, members);
                    },
                }
            },
        }
        i = i + 1;
    }
    assert(all.take(i as int) == all);
    cluster_members
}

/// A cluster that no line names has no members.
pub proof fn lemma_unnamed_cluster_is_empty(lines: Seq<Seq<char>>, cluster: Seq<char>)
    requires
        !names_cluster(lines, cluster),
    ensures
        members_of(lines, cluster) == Seq::<Seq<char>>::empty(),
    decreases lines.len(),
{
    if lines.len() > 0 {
        let before = lines.drop_last();
        assert(!names_cluster(before, cluster)) by {
            if names_cluster(before, cluster) {
                let i = choose|i: int|
                    0 <= i < before.len() && #[trigger] line_names(before[i], cluster);
                assert(line_names(lines[i], cluster));
            }
        }
        lemma_unnamed_cluster_is_empty(before, cluster);
        assert(!line_names(lines[lines.len() - 1], cluster));
    }
}

/// Before the first line that cannot be used every line can, and that line
/// itself cannot.
pub proof fn lemma_first_bad_line(lines: Seq<Seq<char>>)
    ensures
        0 <= first_bad_line(lines) <= lines.len(),
        forall|j: int|
            0 <= j < first_bad_line(lines) ==> (#[trigger] taxonomy_entry(lines[j])) is Ok,
        first_bad_line(lines) < lines.len() ==> taxonomy_entry(lines[first_bad_line(lines)])
            is Err,
    decreases lines.len(),
{
    if lines.len() > 0 {
        let before = lines.drop_last();
        lemma_first_bad_line(before);
        assert forall|j: int| 0 <= j < first_bad_line(lines) implies (#[trigger] taxonomy_entry(
            lines[j],
        )) is Ok by {
            if j < before.len() {
                assert(before[j] == lines[j]);
            }
        }
        if first_bad_line(before) < before.len() {
            assert(before[first_bad_line(before)] == lines[first_bad_line(before)]);
        }
    }
}

/// The species rank of a line's lineage, where present, carries the whole
/// lineage: the second column in lower case, without its quotes.
pub proof fn lemma_species_of_line(line: Seq<char>)
    requires
        taxonomy_entry(line) is Ok,
        !absent(field(line_lineage(line), 6)),
    ensures
        ancestry(taxonomy_entry(line)->Ok_0.lineage, TaxonomyLevel::Species) == Some(
            unquoted(lowercased(columns(line)[1])),
        ),
{
    lemma_species_is_whole_lineage(line_lineage(line));
}

/// Reads a line of the taxonomy input: the accession and its path. The
/// lineage is put in lower case before it is parsed.
pub fn parse_taxonomy_line(line: &str) -> (entry: Result<(String, TaxonomyPath), TaxonomyError>)
    ensures
        match entry {
            Ok((accession, path)) => taxonomy_entry(line@) == Ok::<PathView, TaxonomyError>(path@)
                && accession@ == path@.accession,
            Err(error) => taxonomy_entry(line@) == Err::<PathView, TaxonomyError>(error),
        },
{
    let parts = split_columns(line);
    if parts.len() < 2 {
        return Err(TaxonomyError::MissingColumn);
    }
    let taxonomy = to_lowercase(parts[1]);
    match TaxonomyPath::try_new(parts[0], taxonomy) {
        Some(parsed) => Ok(parsed),
        None => Err(TaxonomyError::MalformedTaxonomy),
    }
}

/// Builds the lookup table from the lines of the taxonomy input. Stops at
/// the first line that cannot be used, and says which line it is and why.
pub fn read_taxonomy_paths(lines: &Vec<String>) -> (loaded: Result<
    PathTable,
    (usize, TaxonomyError),
>)
    ensures
        match loaded {
            Ok(accessions) => first_bad_line(string_views(lines@)) == lines.len() && paths_in(
                accessions,
            ) == lookup_of(string_views(lines@)),
            Err((at, error)) => at == first_bad_line(string_views(lines@)) && at < lines.len()
                && taxonomy_entry(lines@[at as int]@) == Err::<PathView, TaxonomyError>(error),
        },
{
    let ghost all = string_views(lines@);
    let mut accessions = paths_new();
    let mut i: usize = 0;
    while i < lines.len()
        invariant
            i <= lines.len(),
            all == string_views(lines@),
            first_bad_line(all.take(i as int)) == i,
            paths_in(accessions) == lookup_of(all.take(i as int)),
        decreases lines.len() - i,
    {
        proof {
            assert(all.take(i + 1).drop_last() == all.take(i as int));
        }
        match parse_taxonomy_line(lines[i].as_str()) {
            Ok((accession, taxonomy_path)) => {
                paths_insert(&mut accessions, accession, taxonomy_path);
            },
            Err(error) => {
                proof {
                    lemma_bad_line_stays(all, i + 1);
                }
                return Err((i, error));
            },
        }
        i = i + 1;
    }
    assert(all.take(i as int) == all);
    Ok(accessions)
}

/// A line that cannot be used within a prefix of `lines` is the first such
/// line of `lines` as well.
pub proof fn lemma_bad_line_stays(lines: Seq<Seq<char>>, n: int)
    requires
        0 <= n <= lines.len(),
        first_bad_line(lines.take(n)) < n,
    ensures
        first_bad_line(lines) == first_bad_line(lines.take(n)),
    decreases lines.len() - n,
{
    if n == lines.len() {
        assert(lines.take(n) == lines);
    } else {
        assert(lines.drop_last().take(n) == lines.take(n));
        lemma_bad_line_stays(lines.drop_last(), n);
    }
}

} // verus!

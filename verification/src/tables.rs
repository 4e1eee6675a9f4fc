//! Hashed collections of the `ahash` crate, as the rest of the crate sees them.

use crate::lineage::opt_view;
use crate::path::PathView;
use crate::path::TaxonomyPath;
use crate::text::string_views;
use ahash::AHashMap;
use ahash::AHashSet;
use ahash::RandomState;
use vstd::prelude::*;

verus! {

/// `ahash::RandomState`, the hasher state of the collections below. Opaque.
#[verifier::external_type_specification]
#[verifier::external_body]
pub struct ExRandomState(RandomState);

/// `ahash::AHashSet`. Opaque: its contents are known through [`taxa_in`].
#[verifier::external_type_specification]
#[verifier::external_body]
#[verifier::reject_recursive_types(T)]
#[verifier::reject_recursive_types(S)]
pub struct ExAHashSet<T, S>(AHashSet<T, S>);

/// `ahash::AHashMap`. Opaque: its contents are known through [`paths_in`]
/// and [`members_in`].
#[verifier::external_type_specification]
#[verifier::external_body]
#[verifier::reject_recursive_types(K)]
#[verifier::reject_recursive_types(V)]
#[verifier::reject_recursive_types(S)]
pub struct ExAHashMap<K, V, S>(AHashMap<K, V, S>);

/// The lookup table: from an accession to its path.
pub type PathTable = AHashMap<String, TaxonomyPath>;

/// The table of clusters: from a cluster to the accessions of its members.
pub type ClusterTable = AHashMap<String, Vec<String>>;

/// The values that a set of optional taxa holds.
pub uninterp spec fn taxa_in(set: AHashSet<Option<&str>>) -> Set<Option<Seq<char>>>;

/// `AHashSet::with_capacity`: a new set, which holds nothing.
#[verifier::external_body]
pub(crate) fn taxa_with_capacity<'a>(capacity: usize) -> (set: AHashSet<Option<&'a str>>)
    ensures
        taxa_in(set) == Set::<Option<Seq<char>>>::empty(),
{
    AHashSet::with_capacity(capacity)
}

/// `HashSet::insert`, reached through `AHashSet`: afterwards the set holds
/// what it held and `taxon`. Strings are equal exactly when their characters are.
#[verifier::external_body]
pub(crate) fn taxa_insert<'a>(set: &mut AHashSet<Option<&'a str>>, taxon: Option<&'a str>)
    ensures
        taxa_in(*final(set)) == taxa_in(*old(set)).insert(opt_view(taxon)),
{
    set.insert(taxon);
}

/// `HashSet::len`, reached through `AHashSet`: the number of values in the set.
#[verifier::external_body]
pub(crate) fn taxa_len(set: &AHashSet<Option<&str>>) -> (n: usize)
    ensures
        n == taxa_in(*set).len(),
{
    set.len()
}

/// `AHashSet::into_iter` and the first step of the iterator: a value of the
/// set, or nothing where the set is empty. Which of several values comes
/// first is left open.
#[verifier::external_body]
pub(crate) fn taxa_first<'a>(set: AHashSet<Option<&'a str>>) -> (first: Option<Option<&'a str>>)
    ensures
        first is None <==> taxa_in(set) == Set::<Option<Seq<char>>>::empty(),
        first matches Some(taxon) ==> taxa_in(set).contains(opt_view(taxon)),
{
    set.into_iter().next()
}

/// The paths that a lookup table holds, by accession.
pub uninterp spec fn paths_in(table: AHashMap<String, TaxonomyPath>) -> Map<Seq<char>, PathView>;

/// The members that a table of clusters holds, by cluster, each list in the
/// order in which it was filled.
pub uninterp spec fn members_in(table: AHashMap<String, Vec<String>>) -> Map<
    Seq<char>,
    Seq<Seq<char>>,
>;

/// `AHashMap::new`: a new table, which holds nothing.
#[verifier::external_body]
pub(crate) fn paths_new() -> (table: PathTable)
    ensures
        paths_in(table).dom() == Set::<Seq<char>>::empty(),
{
    AHashMap::new()
}

/// `AHashMap::insert`: afterwards `accession` leads to `path`, and every
/// other key to what it led to. A path that the key led to before is dropped.
#[verifier::external_body]
pub(crate) fn paths_insert(
    table: &mut PathTable,
    accession: String,
    path: TaxonomyPath,
)
    ensures
        paths_in(*final(table)) == paths_in(*old(table)).insert(accession@, path@),
{
    table.insert(accession, path);
}

/// `AHashMap::get`: the path that `accession` leads to, if any.
#[verifier::external_body]
pub(crate) fn paths_get<'a>(table: &'a PathTable, accession: &str) -> (path: Option<
    &'a TaxonomyPath,
>)
    ensures
        path is Some <==> paths_in(*table).contains_key(accession@),
        path matches Some(found) ==> found@ == paths_in(*table)[accession@],
{
    table.get(accession)
}

/// `AHashMap::new`: a new table, which holds nothing.
#[verifier::external_body]
pub(crate) fn members_new() -> (table: ClusterTable)
    ensures
        members_in(table).dom() == Set::<Seq<char>>::empty(),
{
    AHashMap::new()
}

/// `AHashMap::insert`: afterwards `cluster` leads to `members`, and every
/// other key to what it led to.
#[verifier::external_body]
pub(crate) fn members_insert(
    table: &mut ClusterTable,
    cluster: String,
    members: Vec<String>,
)
    ensures
        members_in(*final(table)) == members_in(*old(table)).insert(cluster@, string_views(members@)),
{
    table.insert(cluster, members);
}

/// `AHashMap::get_mut`: the list that `cluster` leads to, if any, open to
/// change. The table then holds under `cluster` what the caller leaves in the
/// list, and is unchanged otherwise.
#[verifier::external_body]
pub(crate) fn members_get_mut<'a>(
    table: &'a mut ClusterTable,
    cluster: &str,
) -> (members: Option<&'a mut Vec<String>>)
    ensures
        members is Some <==> members_in(*old(table)).contains_key(cluster@),
        members is Some ==> string_views(members.unwrap()@) == members_in(*old(table))[cluster@]
            && members_in(*final(table)) == members_in(*old(table)).insert(
            cluster@,
            string_views(final(members.unwrap())@),
        ),
        members is None ==> members_in(*final(table)) == members_in(*old(table)),
{
    table.get_mut(cluster)
}

/// `HashMap::iter`, reached through `AHashMap`, collected: every cluster of
/// the table once, with its members. The order is left open.
#[verifier::external_body]
pub(crate) fn members_entries<'a>(table: &'a ClusterTable) -> (entries: Vec<
    (&'a String, &'a Vec<String>),
>)
    ensures
        forall|i: int|
            0 <= i < entries@.len() ==> members_in(*table).contains_key((#[trigger] entries@[i]).0@)
                && members_in(*table)[entries@[i].0@] == string_views(entries@[i].1@),
        forall|i: int, j: int|
            0 <= i < j < entries@.len() ==> (#[trigger] entries@[i]).0@ != (
            #[trigger] entries@[j]).0@,
        forall|cluster: Seq<char>|
            members_in(*table).contains_key(cluster) ==> exists|i: int|
                0 <= i < entries@.len() && (#[trigger] entries@[i]).0@ == cluster,
{
    table.iter().collect()
}

} // verus!

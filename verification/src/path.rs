//! The parsed lineage of one accession.

use crate::level::TAXONOMY_LEVELS;
use crate::level::TaxonomyLevel;
use crate::lineage::SEPARATOR;
use crate::lineage::absent;
use crate::lineage::ancestry;
use crate::lineage::field;
use crate::lineage::field_end;
use crate::lineage::is_absent;
use crate::lineage::opt_view;
use crate::lineage::separators;
use crate::lineage::trim_quotes;
use crate::lineage::unquoted;
use crate::lineage::well_formed;
use crate::text::lemma_occurrences_sound;
use crate::text::occurrence_positions;
use vstd::prelude::*;

verus! {

/// What a [`TaxonomyPath`] stands for: an accession and its lineage.
pub struct PathView {
    pub accession: Seq<char>,
    pub lineage: Seq<char>,
}

/// The lineage of one accession, with the end of the ancestry through each
/// rank and the presence of each rank worked out once.
#[derive(Debug)]
pub struct TaxonomyPath {
    accession: String,
    full_taxonomy: String,
    prefix_end_index: [usize; TAXONOMY_LEVELS],
    field_is_some: [bool; TAXONOMY_LEVELS],
}

impl View for TaxonomyPath {
    type V = PathView;

    closed spec fn view(&self) -> PathView {
        PathView { accession: self.accession@, lineage: self.full_taxonomy@ }
    }
}

impl TaxonomyPath {
    /// The lineage has seven fields, and the two tables say of each field
    /// where it ends and whether it carries a taxon.
    #[verifier::type_invariant]
    spec fn tables_match_lineage(&self) -> bool {
        &&& well_formed(self.full_taxonomy@)
        &&& forall|k: int|
            0 <= k < 7 ==> #[trigger] self.prefix_end_index@[k] == field_end(
                self.full_taxonomy@,
                k,
            )
        &&& forall|k: int|
            0 <= k < 7 ==> #[trigger] self.field_is_some@[k] == !absent(
                field(self.full_taxonomy@, k),
            )
    }

    /// Parses a lineage. Both strings lose one layer of surrounding quotes.
    /// Returns the cleaned accession and the path, or nothing where the
    /// lineage does not have exactly seven fields.
    pub fn try_new(accession: &str, full_taxonomy: String) -> (parsed: Option<
        (String, TaxonomyPath),
    >)
        ensures
            parsed is Some <==> well_formed(unquoted(full_taxonomy@)),
            parsed matches Some((cleaned, path)) ==> cleaned@ == unquoted(accession@)
                && path@.accession == unquoted(accession@) && path@.lineage == unquoted(
                full_taxonomy@,
            ),
    {
        let accession = trim_quotes(accession);
        let lineage = trim_quotes(full_taxonomy.as_str());
        let positions = occurrence_positions(lineage, SEPARATOR);
        if positions.len() != TAXONOMY_LEVELS - 1 {
            return None;
        }
        let n = lineage.unicode_len();
        let mut prefix_ends = [0usize; TAXONOMY_LEVELS];
        let mut field_is_some = [false; TAXONOMY_LEVELS];
        let mut k: usize = 0;
        while k < TAXONOMY_LEVELS
            invariant
                k <= 7,
                n == lineage@.len(),
                positions@.len() == 6,
                positions@.map_values(|p: usize| p as int) == separators(lineage@),
                forall|j: int| 0 <= j < k ==> #[trigger] prefix_ends@[j] == field_end(lineage@, j),
                forall|j: int|
                    0 <= j < k ==> #[trigger] field_is_some@[j] == !absent(field(lineage@, j)),
            decreases 7 - k,
        {
            proof {
                lemma_occurrences_sound(lineage@, SEPARATOR);
                assert(forall|j: int|
                    0 <= j < 6 ==> #[trigger] positions@[j] as int == positions@.map_values(
                        |p: usize| p as int,
                    )[j]);
            }
            let start: usize = if k == 0 {
                0
            } else {
                positions[k - 1] + 1
            };
            let end: usize = if k < TAXONOMY_LEVELS - 1 {
                positions[k]
            } else {
                n
            };
            let taxon = lineage.substring_char(start, end);
            field_is_some[k] = !is_absent(taxon);
            prefix_ends[k] = end;
            k = k + 1;
        }
        let path = TaxonomyPath {
            accession: accession.to_owned(),
            full_taxonomy: lineage.to_owned(),
            prefix_end_index: prefix_ends,
            field_is_some,
        };
        Some((accession.to_owned(), path))
    }

    /// Parses a lineage that has exactly seven fields.
    pub fn new(accession: &str, full_taxonomy: String) -> (parsed: (String, TaxonomyPath))
        requires
            well_formed(unquoted(full_taxonomy@)),
        ensures
            parsed.0@ == unquoted(accession@),
            parsed.1@.accession == unquoted(accession@),
            parsed.1@.lineage == unquoted(full_taxonomy@),
    {
        TaxonomyPath::try_new(accession, full_taxonomy).unwrap()
    }

    /// The accession, without its quotes.
    pub fn accession(&self) -> (accession: &str)
        ensures
            accession@ == self@.accession,
    {
        self.accession.as_str()
    }

    /// The whole lineage, without its quotes. It has seven fields.
    pub fn full_taxonomy(&self) -> (lineage: &str)
        ensures
            lineage@ == self@.lineage,
            well_formed(lineage@),
    {
        proof {
            use_type_invariant(self);
        }
        self.full_taxonomy.as_str()
    }

    /// The ancestry through `taxonomy_level`: the lineage from its start to
    /// the end of that rank's field, or nothing where the field is absent.
    pub fn level(&self, taxonomy_level: TaxonomyLevel) -> (taxon: Option<&str>)
        ensures
            opt_view(taxon) == ancestry(self@.lineage, taxonomy_level),
            well_formed(self@.lineage),
    {
        proof {
            use_type_invariant(self);
            lemma_occurrences_sound(self.full_taxonomy@, SEPARATOR);
        }
        let i = taxonomy_level.index();
        if !self.field_is_some[i] {
            return None;
        }
        Some(self.full_taxonomy.as_str().substring_char(0, self.prefix_end_index[i]))
    }
}

} // verus!

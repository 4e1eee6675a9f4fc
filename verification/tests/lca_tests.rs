use std::ops::ControlFlow;
use taxozack::agreement::unique_taxa;
use taxozack::agreement::UniqueTaxon;
use taxozack::lca::check_level;
use taxozack::lca::lca;
use taxozack::lca::Lca;
use taxozack::level::TaxonomyLevel;
use taxozack::path::TaxonomyPath;

const A: &str = "domain_1;phylum_1;class_1;order_1;family_1;genus_1;species_1";
const B: &str = "domain_1;phylum_1;class_1;order_1;family_1;genus_2;species_2";

fn path(accession: &str, lineage: &str) -> TaxonomyPath {
    TaxonomyPath::new(accession, lineage.to_string()).1
}

fn lca_of(lineages: &[&str]) -> Option<(TaxonomyLevel, String)> {
    let paths: Vec<TaxonomyPath> = lineages.iter().map(|l| path("x", l)).collect();
    let refs: Vec<&TaxonomyPath> = paths.iter().collect();
    lca(&refs).map(|found| (found.taxonomy_level, found.taxon.to_string()))
}

#[test]
fn unique_taxa_of_nothing_is_unique_none() {
    assert!(matches!(unique_taxa(&[]), UniqueTaxon::UniqueNone));
}

#[test]
fn unique_taxa_all_absent() {
    assert!(matches!(unique_taxa(&[None]), UniqueTaxon::UniqueNone));
    assert!(matches!(unique_taxa(&[None, None, None]), UniqueTaxon::UniqueNone));
}

#[test]
fn unique_taxa_unanimous() {
    assert!(matches!(unique_taxa(&[Some("a")]), UniqueTaxon::UniqueSome("a")));
    let owned = String::from("a;b");
    assert!(matches!(
        unique_taxa(&[Some("a;b"), Some(owned.as_str()), Some("a;b")]),
        UniqueTaxon::UniqueSome("a;b")
    ));
}

#[test]
fn unique_taxa_divergent() {
    assert!(matches!(unique_taxa(&[Some("a"), Some("b")]), UniqueTaxon::NonUnique));
    assert!(matches!(unique_taxa(&[Some("a"), None]), UniqueTaxon::NonUnique));
    assert!(matches!(unique_taxa(&[None, Some("a")]), UniqueTaxon::NonUnique));
    assert!(matches!(unique_taxa(&[Some("a"), Some("a"), Some("A")]), UniqueTaxon::NonUnique));
    assert!(matches!(unique_taxa(&[Some(""), None]), UniqueTaxon::NonUnique));
    assert!(matches!(unique_taxa(&[None, None, Some("a"), None]), UniqueTaxon::NonUnique));
}

#[test]
fn check_level_keeps_the_candidate_where_all_are_absent() {
    let a = path("a", "na;p;c;o;f;g;s");
    let b = path("b", "NA;p;c;o;f;g;s");
    let previous = Some(Lca { taxonomy_level: TaxonomyLevel::Domain, taxon: "kept" });
    match check_level(TaxonomyLevel::Domain, &[&a, &b], previous) {
        ControlFlow::Continue(Some(found)) => {
            assert_eq!(found.taxonomy_level, TaxonomyLevel::Domain);
            assert_eq!(found.taxon, "kept");
        }
        _ => panic!("the candidate should stay"),
    }
    assert!(matches!(
        check_level(TaxonomyLevel::Domain, &[&a, &b], None),
        ControlFlow::Continue(None)
    ));
}

#[test]
fn check_level_takes_a_unanimous_level() {
    let a = path("a", A);
    let b = path("b", B);
    match check_level(TaxonomyLevel::Class, &[&a, &b], None) {
        ControlFlow::Continue(Some(found)) => {
            assert_eq!(found.taxonomy_level, TaxonomyLevel::Class);
            assert_eq!(found.taxon, "domain_1;phylum_1;class_1");
        }
        _ => panic!("the level should become the candidate"),
    }
}

#[test]
fn check_level_breaks_where_members_differ() {
    let a = path("a", A);
    let b = path("b", B);
    let previous = Some(Lca { taxonomy_level: TaxonomyLevel::Family, taxon: "before" });
    match check_level(TaxonomyLevel::Genus, &[&a, &b], previous) {
        ControlFlow::Break(Some(found)) => {
            assert_eq!(found.taxonomy_level, TaxonomyLevel::Family);
            assert_eq!(found.taxon, "before");
        }
        _ => panic!("the walk should end"),
    }
    assert!(matches!(
        check_level(TaxonomyLevel::Species, &[&a, &b], None),
        ControlFlow::Break(None)
    ));
}

#[test]
fn check_level_with_no_members_keeps_the_candidate() {
    assert!(matches!(check_level(TaxonomyLevel::Order, &[], None), ControlFlow::Continue(None)));
}

#[test]
fn lca_of_no_members_is_none() {
    assert_eq!(lca_of(&[]), None);
}

#[test]
fn lca_of_one_member_is_its_deepest_present_level() {
    assert_eq!(lca_of(&[A]), Some((TaxonomyLevel::Species, A.to_string())));
    assert_eq!(
        lca_of(&["d;p;c;o;na;na;na"]),
        Some((TaxonomyLevel::Order, "d;p;c;o".to_string()))
    );
    assert_eq!(
        lca_of(&["d;p;na;o;f;na;"]),
        Some((TaxonomyLevel::Family, "d;p;na;o;f".to_string()))
    );
    assert_eq!(lca_of(&["d;;;;;;"]), Some((TaxonomyLevel::Domain, "d".to_string())));
    assert_eq!(lca_of(&["na;NA;nA;Na;;na;NA"]), None);
}

#[test]
fn lca_of_identical_members_is_the_species() {
    assert_eq!(lca_of(&[A, A]), Some((TaxonomyLevel::Species, A.to_string())));
    assert_eq!(lca_of(&[B, B, B]), Some((TaxonomyLevel::Species, B.to_string())));
}

#[test]
fn lca_of_identical_members_without_species_is_shallower() {
    assert_eq!(
        lca_of(&["d;p;c;o;f;g;na", "d;p;c;o;f;g;na"]),
        Some((TaxonomyLevel::Genus, "d;p;c;o;f;g".to_string()))
    );
}

#[test]
fn lca_of_members_differing_at_domain_is_none() {
    assert_eq!(lca_of(&["d1;p;c;o;f;g;s", "d2;p;c;o;f;g;s"]), None);
    assert_eq!(lca_of(&["d1;p;c;o;f;g;s", "na;p;c;o;f;g;s"]), None);
    assert_eq!(lca_of(&[";p;c;o;f;g;s", "d;p;c;o;f;g;s"]), None);
}

#[test]
fn lca_of_members_diverging_at_genus_is_the_family() {
    assert_eq!(
        lca_of(&[A, B]),
        Some((TaxonomyLevel::Family, "domain_1;phylum_1;class_1;order_1;family_1".to_string()))
    );
    assert_eq!(
        lca_of(&[B, A]),
        Some((TaxonomyLevel::Family, "domain_1;phylum_1;class_1;order_1;family_1".to_string()))
    );
}

#[test]
fn lca_with_family_absent_falls_back_to_the_order() {
    assert_eq!(
        lca_of(&["d;p;c;o;na;g1;s1", "d;p;c;o;na;g2;s2"]),
        Some((TaxonomyLevel::Order, "d;p;c;o".to_string()))
    );
}

#[test]
fn lca_passes_over_absent_levels() {
    assert_eq!(
        lca_of(&["na;na;na;order_1;f1;g1;s1", "na;na;na;order_1;f2;g2;s2"]),
        Some((TaxonomyLevel::Order, "na;na;na;order_1".to_string()))
    );
    assert_eq!(
        lca_of(&["na;na;na;order_1;na;na;na", "na;na;na;order_1;na;na;na"]),
        Some((TaxonomyLevel::Order, "na;na;na;order_1".to_string()))
    );
}

#[test]
fn lca_goes_deeper_than_the_order_where_members_agree() {
    assert_eq!(
        lca_of(&["na;na;na;o;f;g1;s1", "na;na;na;o;f;g2;s2"]),
        Some((TaxonomyLevel::Family, "na;na;na;o;f".to_string()))
    );
}

#[test]
fn lca_sees_the_spelling_of_absent_levels() {
    assert_eq!(lca_of(&["na;p;c;o;f;g;s", "NA;p;c;o;f;g;s"]), None);
    assert_eq!(
        lca_of(&["d;na;c;o;f;g;s", "d;NA;c;o;f;g;s"]),
        Some((TaxonomyLevel::Domain, "d".to_string()))
    );
}

#[test]
fn lca_stops_at_the_first_divergence() {
    assert_eq!(
        lca_of(&["d;pa;c;o;f;g;s", "d;pb;c;o;f;g;s"]),
        Some((TaxonomyLevel::Domain, "d".to_string()))
    );
    assert_eq!(
        lca_of(&["d;p;c;o;f;g;s", "d;p;c;na;f;g;s"]),
        Some((TaxonomyLevel::Class, "d;p;c".to_string()))
    );
}

#[test]
fn lca_needs_every_member() {
    assert_eq!(
        lca_of(&[A, A, A, B]),
        Some((TaxonomyLevel::Family, "domain_1;phylum_1;class_1;order_1;family_1".to_string()))
    );
    assert_eq!(
        lca_of(&[A, A, "domain_1;phylum_9;c;o;f;g;s", A]),
        Some((TaxonomyLevel::Domain, "domain_1".to_string()))
    );
    assert_eq!(lca_of(&[A, "other;phylum_1;class_1;order_1;family_1;genus_1;species_1", A]), None);
}

#[test]
fn lca_of_a_large_group() {
    let lineages: Vec<String> = (0..300).map(|i| format!("d;p;c;o;f;g{};s{}", i % 7, i)).collect();
    let refs: Vec<&str> = lineages.iter().map(|l| l.as_str()).collect();
    assert_eq!(lca_of(&refs), Some((TaxonomyLevel::Family, "d;p;c;o;f".to_string())));
}

use taxozack::cluster::cluster_rows;
use taxozack::cluster::format_member;
use taxozack::cluster::format_unresolved;
use taxozack::cluster::format_warning;
use taxozack::cluster::report_cluster;
use taxozack::cluster::report_clusters;
use taxozack::cluster::resolve_members;
use taxozack::host::consensus;
use taxozack::host::lca_wrapper;
use taxozack::host::parse_group;
use taxozack::input::parse_cluster_line;
use taxozack::input::parse_taxonomy_line;
use taxozack::input::read_clusters;
use taxozack::input::read_taxonomy_paths;
use taxozack::input::split_columns;
use taxozack::input::TaxonomyError;
use taxozack::lca::Lca;
use taxozack::level::TaxonomyLevel;
use taxozack::path::TaxonomyPath;
use taxozack::tables::PathTable;

const A: &str = "domain_1;phylum_1;class_1;order_1;family_1;genus_1;species_1";
const B: &str = "domain_1;phylum_1;class_1;order_1;family_1;genus_2;species_2";
const FAMILY: &str = "domain_1;phylum_1;class_1;order_1;family_1";

fn strings(items: &[&str]) -> Vec<String> {
    items.iter().map(|s| s.to_string()).collect()
}

fn lookup() -> PathTable {
    let lines = vec![format!("A\t{A}"), format!("B\t{B}")];
    read_taxonomy_paths(&lines).unwrap()
}

#[test]
fn split_columns_cuts_at_tabs_and_trims() {
    assert_eq!(split_columns("a\tb"), vec!["a", "b"]);
    assert_eq!(split_columns(" a \t b \t c\r"), vec!["a", "b", "c"]);
    assert_eq!(split_columns("a b"), vec!["a b"]);
    assert_eq!(split_columns(""), vec![""]);
    assert_eq!(split_columns("\t"), vec!["", ""]);
    assert_eq!(split_columns("a\t\tb"), vec!["a", "", "b"]);
}

#[test]
fn cluster_line_names_accession_then_cluster() {
    assert_eq!(parse_cluster_line("acc1\tC1"), Some(("acc1".to_string(), "C1".to_string())));
    assert_eq!(
        parse_cluster_line(" acc1 \t C1 \textra"),
        Some(("acc1".to_string(), "C1".to_string()))
    );
    assert_eq!(parse_cluster_line("acc1\t"), Some(("acc1".to_string(), "".to_string())));
}

#[test]
fn cluster_line_with_one_column_says_nothing() {
    assert_eq!(parse_cluster_line("acc1"), None);
    assert_eq!(parse_cluster_line(""), None);
    assert_eq!(parse_cluster_line("acc1 C1"), None);
}

#[test]
fn read_clusters_groups_members_in_order() {
    let lines = strings(&["a1\tC1", "a2\tC2", "skipped", "a3\tC1", "", "a1\tC1", "a4\t C2 "]);
    let clusters = read_clusters(&lines);
    assert_eq!(clusters.len(), 2);
    assert_eq!(clusters.get("C1"), Some(&strings(&["a1", "a3", "a1"])));
    assert_eq!(clusters.get("C2"), Some(&strings(&["a2", "a4"])));
}

#[test]
fn read_clusters_of_nothing_is_empty() {
    assert!(read_clusters(&Vec::new()).is_empty());
    assert!(read_clusters(&strings(&["only one column", ""])).is_empty());
}

#[test]
fn taxonomy_line_is_lowered_and_unquoted() {
    let (accession, path) =
        parse_taxonomy_line("\"ACC1\"\t\"Bacteria;Proteobacteria;C;O;F;G;Escherichia Coli\"")
            .unwrap();
    assert_eq!(accession, "ACC1");
    assert_eq!(path.accession(), "ACC1");
    assert_eq!(path.full_taxonomy(), "bacteria;proteobacteria;c;o;f;g;escherichia coli");
    assert_eq!(
        path.level(TaxonomyLevel::Species),
        Some("bacteria;proteobacteria;c;o;f;g;escherichia coli")
    );
    assert_eq!(path.level(TaxonomyLevel::Phylum), Some("bacteria;proteobacteria"));
}

#[test]
fn taxonomy_line_in_upper_case_na_is_absent() {
    let (_, path) = parse_taxonomy_line("x\tD;NA;Na;O;F;G;S").unwrap();
    assert_eq!(path.level(TaxonomyLevel::Phylum), None);
    assert_eq!(path.level(TaxonomyLevel::Class), None);
    assert_eq!(path.level(TaxonomyLevel::Order), Some("d;na;na;o"));
}

#[test]
fn taxonomy_line_is_trimmed_before_it_is_unquoted() {
    let (accession, path) = parse_taxonomy_line(" \"x\" \t \"d;p;c;o;f;g;s\" \r").unwrap();
    assert_eq!(accession, "x");
    assert_eq!(path.full_taxonomy(), "d;p;c;o;f;g;s");
}

#[test]
fn taxonomy_line_without_lineage_is_refused() {
    assert_eq!(parse_taxonomy_line("x").err(), Some(TaxonomyError::MissingColumn));
    assert_eq!(parse_taxonomy_line("").err(), Some(TaxonomyError::MissingColumn));
}

#[test]
fn taxonomy_line_with_wrong_field_count_is_refused() {
    assert_eq!(parse_taxonomy_line("x\td;p;c").err(), Some(TaxonomyError::MalformedTaxonomy));
    assert_eq!(
        parse_taxonomy_line("x\td;p;c;o;f;g;s;t").err(),
        Some(TaxonomyError::MalformedTaxonomy)
    );
    assert_eq!(parse_taxonomy_line("x\t").err(), Some(TaxonomyError::MalformedTaxonomy));
}

#[test]
fn read_taxonomy_paths_keeps_the_later_line() {
    let lines = strings(&["x\td;p;c;o;f;g;first", "y\td;p;c;o;f;g;s", "x\td;p;c;o;f;g;second"]);
    let table = read_taxonomy_paths(&lines).unwrap();
    assert_eq!(table.len(), 2);
    assert_eq!(table.get("x").unwrap().full_taxonomy(), "d;p;c;o;f;g;second");
    assert_eq!(table.get("y").unwrap().accession(), "y");
    assert!(table.get("z").is_none());
}

#[test]
fn read_taxonomy_paths_stops_at_the_first_bad_line() {
    let lines = strings(&["x\td;p;c;o;f;g;s", "y\td;p", "z", "w\td;p;c;o;f;g;s"]);
    assert_eq!(read_taxonomy_paths(&lines).err(), Some((1, TaxonomyError::MalformedTaxonomy)));
    let lines = strings(&["x", "y\td;p"]);
    assert_eq!(read_taxonomy_paths(&lines).err(), Some((0, TaxonomyError::MissingColumn)));
    assert!(read_taxonomy_paths(&Vec::new()).unwrap().is_empty());
}

#[test]
fn resolve_members_drops_unknown_accessions() {
    let table = lookup();
    let (found, missing) = resolve_members(&strings(&["A", "nobody", "B", "A", "b"]), &table);
    let accessions: Vec<&str> = found.iter().map(|p| p.accession()).collect();
    assert_eq!(accessions, vec!["A", "B", "A"]);
    assert_eq!(missing, strings(&["nobody", "b"]));
}

#[test]
fn rows_have_tab_separated_columns() {
    assert_eq!(format_unresolved("C9"), "C9\tna\tna");
    let found = Lca { taxonomy_level: TaxonomyLevel::Genus, taxon: "d;p;c;o;f;g" };
    assert_eq!(format_member("C1", &found, "acc"), "C1\tgenus\td;p;c;o;f;g\tacc");
    assert_eq!(
        format_warning("acc"),
        "Accession acc was present in the clusters file but not in the taxonomy file. Skipping."
    );
}

#[test]
fn cluster_of_two_members_diverging_at_genus() {
    let table = lookup();
    let report = report_cluster("C1", &strings(&["A", "B"]), &table);
    assert_eq!(report.cluster, "C1");
    assert_eq!(
        report.rows,
        vec![format!("C1\tfamily\t{FAMILY}\tA"), format!("C1\tfamily\t{FAMILY}\tB")]
    );
    assert!(report.warnings.is_empty());
}

#[test]
fn cluster_without_resolvable_members_gets_one_row() {
    let table = lookup();
    let report = report_cluster("C7", &strings(&["nobody", "no one"]), &table);
    assert_eq!(report.rows, vec!["C7\tna\tna".to_string()]);
    assert_eq!(report.warnings, vec![format_warning("nobody"), format_warning("no one")]);
    let report = report_cluster("C8", &Vec::new(), &table);
    assert_eq!(report.rows, vec!["C8\tna\tna".to_string()]);
    assert!(report.warnings.is_empty());
}

#[test]
fn unknown_accession_gets_no_row_and_a_warning() {
    let table = lookup();
    let report = report_cluster("C1", &strings(&["A", "ghost"]), &table);
    assert_eq!(report.rows, vec![format!("C1\tspecies\t{A}\tA")]);
    assert_eq!(
        report.warnings,
        vec![
            "Accession ghost was present in the clusters file but not in the taxonomy file. Skipping."
                .to_string()
        ]
    );
}

#[test]
fn cluster_diverging_at_domain_gets_one_row() {
    let lines = strings(&["A\td1;p;c;o;f;g;s", "B\td2;p;c;o;f;g;s"]);
    let table = read_taxonomy_paths(&lines).unwrap();
    let report = report_cluster("C1", &strings(&["A", "B"]), &table);
    assert_eq!(report.rows, vec!["C1\tna\tna".to_string()]);
}

#[test]
fn cluster_rows_repeat_a_member_named_twice() {
    let a = TaxonomyPath::new("A", A.to_string()).1;
    let rows = cluster_rows("C", &[&a, &a]);
    assert_eq!(rows, vec![format!("C\tspecies\t{A}\tA"), format!("C\tspecies\t{A}\tA")]);
    assert_eq!(cluster_rows("C", &[]), vec!["C\tna\tna".to_string()]);
}

#[test]
fn report_clusters_reports_every_cluster_once() {
    let table = lookup();
    let clusters = read_clusters(&strings(&["A\tC1", "B\tC1", "A\tC2", "ghost\tC3", "B\tC2 "]));
    let mut reports = report_clusters(&clusters, &table);
    reports.sort_by(|x, y| x.cluster.cmp(&y.cluster));
    assert_eq!(reports.len(), 3);
    assert_eq!(reports[0].cluster, "C1");
    assert_eq!(
        reports[0].rows,
        vec![format!("C1\tfamily\t{FAMILY}\tA"), format!("C1\tfamily\t{FAMILY}\tB")]
    );
    assert_eq!(reports[1].cluster, "C2");
    assert_eq!(
        reports[1].rows,
        vec![format!("C2\tfamily\t{FAMILY}\tA"), format!("C2\tfamily\t{FAMILY}\tB")]
    );
    assert_eq!(reports[2].cluster, "C3");
    assert_eq!(reports[2].rows, vec!["C3\tna\tna".to_string()]);
    assert_eq!(reports[2].warnings, vec![format_warning("ghost")]);
}

#[test]
fn report_clusters_of_no_clusters_is_empty() {
    let table = lookup();
    assert!(report_clusters(&read_clusters(&Vec::new()), &table).is_empty());
}

#[test]
fn quoted_accession_of_the_clusters_input_is_not_resolved() {
    let table = lookup();
    let clusters = read_clusters(&strings(&["\"A\"\tC1"]));
    let reports = report_clusters(&clusters, &table);
    assert_eq!(reports.len(), 1);
    assert_eq!(reports[0].rows, vec!["C1\tna\tna".to_string()]);
    assert_eq!(reports[0].warnings, vec![format_warning("\"A\"")]);
}

#[test]
fn consensus_names_taxon_then_level() {
    let a = TaxonomyPath::new("A", A.to_string()).1;
    let b = TaxonomyPath::new("B", B.to_string()).1;
    assert_eq!(consensus(&[&a, &b]), (FAMILY.to_string(), "family".to_string()));
    assert_eq!(consensus(&[&a]), (A.to_string(), "species".to_string()));
    assert_eq!(consensus(&[]), ("NONE".to_string(), "NONE".to_string()));
}

#[test]
fn parse_group_wants_lists_of_one_length() {
    assert!(parse_group(&strings(&["A", "B"]), &strings(&[A])).is_none());
    assert!(parse_group(&strings(&["A"]), &strings(&[A, B])).is_none());
    assert!(parse_group(&strings(&["A"]), &strings(&["d;p"])).is_none());
    assert!(parse_group(&strings(&["A", "B"]), &strings(&[A, "d;p;c;o;f;g"])).is_none());
    let group = parse_group(&strings(&["\"A\"", "B"]), &strings(&[A, B])).unwrap();
    assert_eq!(group.len(), 2);
    assert_eq!(group[0].accession(), "A");
    assert_eq!(group[1].full_taxonomy(), B);
    assert!(parse_group(&Vec::new(), &Vec::new()).unwrap().is_empty());
}

#[test]
fn lca_wrapper_of_two_lineages() {
    assert_eq!(
        lca_wrapper(&strings(&["A", "B"]), &strings(&[A, B])),
        (FAMILY.to_string(), "family".to_string())
    );
    assert_eq!(
        lca_wrapper(&strings(&["A", "B"]), &strings(&["d1;p;c;o;f;g;s", "d2;p;c;o;f;g;s"])),
        ("NONE".to_string(), "NONE".to_string())
    );
    assert_eq!(lca_wrapper(&Vec::new(), &Vec::new()), ("NONE".to_string(), "NONE".to_string()));
}

#[test]
fn lca_wrapper_keeps_the_case_of_its_lineages() {
    assert_eq!(
        lca_wrapper(&strings(&["A", "B"]), &strings(&["D;P;C;O;F;G;S", "d;p;c;o;f;g;s"])),
        ("NONE".to_string(), "NONE".to_string())
    );
    assert_eq!(
        lca_wrapper(&strings(&["A"]), &strings(&["\"D;P;C;O;F;G;S\""])),
        ("D;P;C;O;F;G;S".to_string(), "species".to_string())
    );
}

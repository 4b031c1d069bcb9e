use gitlab_cargo_audit::assemble::{build_report, dependency_files};
use gitlab_cargo_audit::cargo_audit::{Advisory, AdvisorySeverity, Package, Vulnerability};
use gitlab_cargo_audit::graph::{DependencyGraph, GraphPackage};
use gitlab_cargo_audit::normalize::{map_severity, report_vulnerability, summary_lines};
use gitlab_cargo_audit::report::{FlagType, ScanStatus, ScanType, Severity};

fn gpackage(name: &str, version: &str, local: bool) -> GraphPackage {
    GraphPackage {
        name: name.to_string(),
        version: version.to_string(),
        source: if local { None } else { Some("registry".to_string()) },
    }
}

fn advisory(id: &str, severity: Option<AdvisorySeverity>, url: Option<&str>) -> Advisory {
    Advisory {
        affected_arch: None,
        affected_os: None,
        aliases: vec![],
        date: "2021-01-01".to_string(),
        description: "Something bad".to_string(),
        id: id.to_string(),
        keywords: vec![],
        package: "c".to_string(),
        patched_versions: None,
        references: vec![],
        severity,
        title: "A title".to_string(),
        unaffected_versions: None,
        url: url.map(|s| s.to_string()),
    }
}

fn vulnerability(id: &str, package: &str, version: &str) -> Vulnerability {
    Vulnerability {
        advisory: advisory(id, Some(AdvisorySeverity::High), Some("https://example.com/adv")),
        package: Package {
            name: package.to_string(),
            source: "registry".to_string(),
            version: version.to_string(),
        },
    }
}

#[test]
fn defaults_match_the_schema() {
    assert_eq!(ScanStatus::default(), ScanStatus::Success);
    assert_eq!(ScanType::default(), ScanType::DependencyScanning);
    assert_eq!(FlagType::default(), FlagType::FlaggedAsLikelyFalsePositive);
    assert_eq!(Severity::default(), Severity::Unknown);
}

#[test]
fn severity_labels_are_the_canonical_scale() {
    assert_eq!(Severity::Info.label(), "info");
    assert_eq!(Severity::Unknown.label(), "unknown");
    assert_eq!(Severity::Low.label(), "low");
    assert_eq!(Severity::Medium.label(), "medium");
    assert_eq!(Severity::High.label(), "high");
    assert_eq!(Severity::Critical.label(), "critical");
}

#[test]
fn severity_mapping_is_total_and_exact() {
    assert_eq!(map_severity(AdvisorySeverity::NoneRated), Severity::Info);
    assert_eq!(map_severity(AdvisorySeverity::Low), Severity::Low);
    assert_eq!(map_severity(AdvisorySeverity::Medium), Severity::Medium);
    assert_eq!(map_severity(AdvisorySeverity::High), Severity::High);
    assert_eq!(map_severity(AdvisorySeverity::Critical), Severity::Critical);
}

#[test]
fn absent_severity_is_unknown_not_high() {
    let mut v = vulnerability("RUSTSEC-2021-0001", "c", "3.1.4");
    v.advisory.severity = None;
    let finding = report_vulnerability(&v);
    assert_eq!(finding.severity, Severity::Unknown);
    assert_ne!(finding.severity, Severity::High);
}

#[test]
fn finding_projects_the_advisory() {
    let v = vulnerability("RUSTSEC-2021-0001", "c", "3.1.4");
    let finding = report_vulnerability(&v);
    assert_eq!(finding.id, "RUSTSEC-2021-0001");
    assert_eq!(finding.name.as_deref(), Some("[c] A title"));
    assert_eq!(finding.description.as_deref(), Some("Something bad"));
    assert_eq!(finding.severity, Severity::High);
    assert!(finding.solution.is_none());
    assert_eq!(finding.identifiers.len(), 1);
    assert_eq!(finding.identifiers[0].kind, "rustsec");
    assert_eq!(finding.identifiers[0].name, "RUSTSEC-2021-0001");
    assert_eq!(finding.identifiers[0].value, "RUSTSEC-2021-0001");
    assert_eq!(
        finding.identifiers[0].url.as_deref(),
        Some("https://rustsec.org/advisories/RUSTSEC-2021-0001")
    );
    assert_eq!(finding.links.len(), 1);
    assert_eq!(finding.links[0].url, "https://example.com/adv");
    assert!(finding.links[0].name.is_none());
    assert_eq!(finding.location.file, "Cargo.lock");
    let dep = &finding.location.dependency;
    assert_eq!(dep.package.as_ref().unwrap().name.as_deref(), Some("c"));
    assert_eq!(dep.version.as_deref(), Some("3.1.4"));
    assert!(dep.iid.is_none());
    assert!(dep.direct.is_none());
    assert!(dep.dependency_path.is_none());
}

#[test]
fn absent_url_leaves_links_empty() {
    let mut v = vulnerability("RUSTSEC-2021-0002", "c", "3.1.4");
    v.advisory.url = None;
    let finding = report_vulnerability(&v);
    assert!(finding.links.is_empty());
}

#[test]
fn summary_names_package_title_and_advisory() {
    let v = vulnerability("RUSTSEC-2021-0001", "c", "3.1.4");
    let lines = summary_lines(&vec![v]);
    assert_eq!(lines.len(), 2);
    assert_eq!(lines[0], "- [c] A title (RUSTSEC-2021-0001)");
    assert_eq!(
        lines[1],
        "  See https://rustsec.org/advisories/RUSTSEC-2021-0001 for details"
    );
}

#[test]
fn chain_dependency_file_lists_both_levels() {
    // a -> b -> c, rooted at a, vulnerability on c
    let g = DependencyGraph {
        packages: vec![
            gpackage("a", "1.0.0", true),
            gpackage("b", "0.2.0", false),
            gpackage("c", "3.1.4", false),
        ],
        adjacency: vec![vec![1], vec![2], vec![]],
    };
    let files = dependency_files(&g);
    assert_eq!(files.len(), 1);
    assert_eq!(files[0].path, "Cargo.lock (a 1.0.0)");
    assert_eq!(files[0].package_manager, "cargo");
    let deps = &files[0].dependencies;
    assert_eq!(deps.len(), 2);
    assert_eq!(deps[0].iid, Some(1));
    assert_eq!(deps[0].direct, Some(true));
    assert!(deps[0].dependency_path.as_ref().unwrap().is_empty());
    assert_eq!(deps[1].iid, Some(2));
    assert_eq!(deps[1].direct, Some(false));
    let path: Vec<usize> = deps[1]
        .dependency_path
        .as_ref()
        .unwrap()
        .iter()
        .map(|s| s.iid)
        .collect();
    assert_eq!(path, vec![1]);
}

#[test]
fn chain_vulnerability_gets_its_graph_position() {
    let g = DependencyGraph {
        packages: vec![
            gpackage("a", "1.0.0", true),
            gpackage("b", "0.2.0", false),
            gpackage("c", "3.1.4", false),
        ],
        adjacency: vec![vec![1], vec![2], vec![]],
    };
    let vulns = vec![vulnerability("RUSTSEC-2021-0001", "c", "3.1.4")];
    let report = build_report(&g, &vulns, None);
    assert_eq!(report.vulnerabilities.len(), 1);
    let dep = &report.vulnerabilities[0].location.dependency;
    assert_eq!(dep.iid, Some(2));
    assert_eq!(dep.direct, Some(false));
    let path: Vec<usize> = dep
        .dependency_path
        .as_ref()
        .unwrap()
        .iter()
        .map(|s| s.iid)
        .collect();
    assert_eq!(path, vec![1]);
}

#[test]
fn no_vulnerabilities_still_enumerates_dependencies() {
    let g = DependencyGraph {
        packages: vec![
            gpackage("a", "1.0.0", true),
            gpackage("b", "0.2.0", false),
            gpackage("c", "3.1.4", false),
        ],
        adjacency: vec![vec![1], vec![2], vec![]],
    };
    let report = build_report(&g, &vec![], None);
    assert_eq!(report.version, "15.0.7");
    assert!(report.vulnerabilities.is_empty());
    assert_eq!(report.dependency_files.len(), 1);
    assert_eq!(report.dependency_files[0].dependencies.len(), 2);
}

#[test]
fn two_roots_each_list_the_shared_dependency() {
    // a and d are both local roots and both depend on e
    let g = DependencyGraph {
        packages: vec![
            gpackage("a", "1.0.0", true),
            gpackage("d", "2.0.0", true),
            gpackage("e", "0.1.0", false),
        ],
        adjacency: vec![vec![2], vec![2], vec![]],
    };
    let files = dependency_files(&g);
    assert_eq!(files.len(), 2);
    assert_eq!(files[0].path, "Cargo.lock (a 1.0.0)");
    assert_eq!(files[1].path, "Cargo.lock (d 2.0.0)");
    for file in &files {
        assert_eq!(file.dependencies.len(), 1);
        assert_eq!(file.dependencies[0].iid, Some(2));
        assert_eq!(file.dependencies[0].direct, Some(true));
        assert!(file.dependencies[0].dependency_path.as_ref().unwrap().is_empty());
    }
}

#[test]
fn shared_package_is_located_from_the_first_root() {
    // both roots a and d reach e; the finding's location uses the
    // lowest-numbered root, a, from which e is a direct dependency
    let g = DependencyGraph {
        packages: vec![
            gpackage("a", "1.0.0", true),
            gpackage("d", "2.0.0", true),
            gpackage("e", "0.1.0", false),
        ],
        adjacency: vec![vec![2], vec![2], vec![]],
    };
    let vulns = vec![vulnerability("RUSTSEC-2021-0003", "e", "0.1.0")];
    let report = build_report(&g, &vulns, None);
    let dep = &report.vulnerabilities[0].location.dependency;
    assert_eq!(dep.iid, Some(2));
    assert_eq!(dep.direct, Some(true));
    assert!(dep.dependency_path.as_ref().unwrap().is_empty());
}

#[test]
fn unreachable_package_keeps_bare_location() {
    // the matched package exists in no graph node
    let g = DependencyGraph {
        packages: vec![gpackage("a", "1.0.0", true)],
        adjacency: vec![vec![]],
    };
    let vulns = vec![vulnerability("RUSTSEC-2021-0001", "ghost", "9.9.9")];
    let report = build_report(&g, &vulns, None);
    assert_eq!(report.vulnerabilities.len(), 1);
    let dep = &report.vulnerabilities[0].location.dependency;
    assert_eq!(dep.package.as_ref().unwrap().name.as_deref(), Some("ghost"));
    assert_eq!(dep.version.as_deref(), Some("9.9.9"));
    assert!(dep.iid.is_none());
    assert!(dep.direct.is_none());
    assert!(dep.dependency_path.is_none());
    assert_eq!(report.dependency_files.len(), 1);
    assert!(report.dependency_files[0].dependencies.is_empty());
}

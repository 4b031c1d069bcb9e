use gitlab_cargo_audit::assemble::build_report;
use gitlab_cargo_audit::cargo_audit::{Advisory, AdvisorySeverity, Package, Vulnerability};
use gitlab_cargo_audit::graph::{DependencyGraph, GraphPackage};
use gitlab_cargo_audit::json::{report_to_json, vulnerability_to_json, Json, JsonKey};
use gitlab_cargo_audit::normalize::report_vulnerability;
use gitlab_cargo_audit::report::{Analyzer, Scan, ScanStatus, ScanType, Scanner, Vendor};

fn get<'a>(j: &'a Json, k: JsonKey) -> Option<&'a Json> {
    match j {
        Json::Obj(fs) => fs.iter().find(|f| f.0 == k).map(|f| &f.1),
        _ => None,
    }
}

fn as_str(j: &Json) -> &str {
    match j {
        Json::Str(s) => s.as_str(),
        _ => panic!("expected a string"),
    }
}

fn advisory(id: &str, severity: Option<AdvisorySeverity>, url: Option<&str>) -> Advisory {
    Advisory {
        affected_arch: None,
        affected_os: None,
        aliases: vec![],
        date: "2021-01-01".to_string(),
        description: "Something bad".to_string(),
        id: id.to_string(),
        keywords: vec![],
        package: "c".to_string(),
        patched_versions: None,
        references: vec![],
        severity,
        title: "A title".to_string(),
        unaffected_versions: None,
        url: url.map(|s| s.to_string()),
    }
}

fn vulnerability(severity: Option<AdvisorySeverity>, url: Option<&str>) -> Vulnerability {
    Vulnerability {
        advisory: advisory("RUSTSEC-2021-0001", severity, url),
        package: Package {
            name: "c".to_string(),
            source: "registry".to_string(),
            version: "3.1.4".to_string(),
        },
    }
}

fn scan_block() -> Scan {
    Scan {
        analyzer: Analyzer {
            id: "gitlab_cargo_audit".to_string(),
            name: "gitlab-cargo-audit".to_string(),
            url: Some("https://example.com/analyzer".to_string()),
            vendor: Vendor { name: "acme".to_string() },
            version: "0.1.0".to_string(),
        },
        scanner: Scanner {
            id: "cargo_audit".to_string(),
            name: "cargo-audit".to_string(),
            url: None,
            vendor: Vendor { name: "RustSec".to_string() },
            version: "0.1.0".to_string(),
        },
        start_time: "2021-01-01T00:00:00".to_string(),
        end_time: "2021-01-01T00:00:05".to_string(),
        status: ScanStatus::Success,
        kind: ScanType::DependencyScanning,
    }
}

#[test]
fn absent_severity_serializes_as_unknown() {
    let finding = report_vulnerability(&vulnerability(None, Some("https://example.com")));
    let j = vulnerability_to_json(&finding);
    assert_eq!(as_str(get(&j, JsonKey::Severity).unwrap()), "unknown");
}

#[test]
fn present_severity_serializes_with_its_label() {
    let finding = report_vulnerability(&vulnerability(
        Some(AdvisorySeverity::Critical),
        Some("https://example.com"),
    ));
    let j = vulnerability_to_json(&finding);
    assert_eq!(as_str(get(&j, JsonKey::Severity).unwrap()), "critical");
}

#[test]
fn absent_url_omits_the_links_member_entirely() {
    let finding = report_vulnerability(&vulnerability(Some(AdvisorySeverity::Low), None));
    let j = vulnerability_to_json(&finding);
    assert!(get(&j, JsonKey::Links).is_none());
    // and the members that are always owed are present
    assert!(get(&j, JsonKey::Id).is_some());
    assert!(get(&j, JsonKey::Severity).is_some());
    assert!(get(&j, JsonKey::Identifiers).is_some());
    assert!(get(&j, JsonKey::Location).is_some());
}

#[test]
fn present_url_yields_one_link() {
    let finding =
        report_vulnerability(&vulnerability(Some(AdvisorySeverity::Low), Some("https://e.com/x")));
    let j = vulnerability_to_json(&finding);
    match get(&j, JsonKey::Links).unwrap() {
        Json::Arr(ls) => {
            assert_eq!(ls.len(), 1);
            assert_eq!(as_str(get(&ls[0], JsonKey::Url).unwrap()), "https://e.com/x");
            assert!(get(&ls[0], JsonKey::Name).is_none());
        }
        _ => panic!("links must be a list"),
    }
}

#[test]
fn empty_lists_are_omitted_not_emitted() {
    let finding = report_vulnerability(&vulnerability(Some(AdvisorySeverity::Low), None));
    let j = vulnerability_to_json(&finding);
    assert!(get(&j, JsonKey::CvssVectors).is_none());
    assert!(get(&j, JsonKey::Flags).is_none());
}

#[test]
fn identifier_carries_the_synthesized_url() {
    let finding = report_vulnerability(&vulnerability(Some(AdvisorySeverity::Low), None));
    let j = vulnerability_to_json(&finding);
    match get(&j, JsonKey::Identifiers).unwrap() {
        Json::Arr(ids) => {
            assert_eq!(ids.len(), 1);
            assert_eq!(as_str(get(&ids[0], JsonKey::Kind).unwrap()), "rustsec");
            assert_eq!(as_str(get(&ids[0], JsonKey::Name).unwrap()), "RUSTSEC-2021-0001");
            assert_eq!(as_str(get(&ids[0], JsonKey::Value).unwrap()), "RUSTSEC-2021-0001");
            assert_eq!(
                as_str(get(&ids[0], JsonKey::Url).unwrap()),
                "https://rustsec.org/advisories/RUSTSEC-2021-0001"
            );
        }
        _ => panic!("identifiers must be a list"),
    }
}

#[test]
fn document_without_scan_block_has_no_scan_member() {
    let g = DependencyGraph {
        packages: vec![GraphPackage {
            name: "a".to_string(),
            version: "1.0.0".to_string(),
            source: None,
        }],
        adjacency: vec![vec![]],
    };
    let report = build_report(&g, &vec![], None);
    let j = report_to_json(&report);
    assert!(get(&j, JsonKey::Scan).is_none());
    assert_eq!(as_str(get(&j, JsonKey::Version).unwrap()), "15.0.7");
    assert!(get(&j, JsonKey::Vulnerabilities).is_some());
    assert!(get(&j, JsonKey::DependencyFiles).is_some());
}

#[test]
fn document_with_scan_block_carries_it_whole() {
    let g = DependencyGraph {
        packages: vec![GraphPackage {
            name: "a".to_string(),
            version: "1.0.0".to_string(),
            source: None,
        }],
        adjacency: vec![vec![]],
    };
    let report = build_report(&g, &vec![], Some(scan_block()));
    let j = report_to_json(&report);
    let scan = get(&j, JsonKey::Scan).expect("scan member owed");
    assert_eq!(as_str(get(scan, JsonKey::Status).unwrap()), "success");
    assert_eq!(as_str(get(scan, JsonKey::Kind).unwrap()), "dependency_scanning");
    assert_eq!(as_str(get(scan, JsonKey::StartTime).unwrap()), "2021-01-01T00:00:00");
    assert_eq!(as_str(get(scan, JsonKey::EndTime).unwrap()), "2021-01-01T00:00:05");
    let analyzer = get(scan, JsonKey::Analyzer).unwrap();
    assert_eq!(as_str(get(analyzer, JsonKey::Id).unwrap()), "gitlab_cargo_audit");
    assert!(get(analyzer, JsonKey::Url).is_some());
    let scanner = get(scan, JsonKey::Scanner).unwrap();
    assert_eq!(as_str(get(scanner, JsonKey::Id).unwrap()), "cargo_audit");
    // the scanner names no url, so its object has no url member
    assert!(get(scanner, JsonKey::Url).is_none());
}

#[test]
fn dependency_numbers_match_the_graph() {
    let g = DependencyGraph {
        packages: vec![
            GraphPackage { name: "a".to_string(), version: "1.0.0".to_string(), source: None },
            GraphPackage {
                name: "b".to_string(),
                version: "0.2.0".to_string(),
                source: Some("registry".to_string()),
            },
        ],
        adjacency: vec![vec![1], vec![]],
    };
    let report = build_report(&g, &vec![], None);
    let j = report_to_json(&report);
    match get(&j, JsonKey::DependencyFiles).unwrap() {
        Json::Arr(files) => {
            assert_eq!(files.len(), 1);
            assert_eq!(as_str(get(&files[0], JsonKey::Path).unwrap()), "Cargo.lock (a 1.0.0)");
            assert_eq!(as_str(get(&files[0], JsonKey::PackageManager).unwrap()), "cargo");
            match get(&files[0], JsonKey::Dependencies).unwrap() {
                Json::Arr(deps) => {
                    assert_eq!(deps.len(), 1);
                    assert!(matches!(get(&deps[0], JsonKey::Iid), Some(Json::Num(1))));
                    assert!(matches!(get(&deps[0], JsonKey::Direct), Some(Json::Bool(true))));
                    let pkg = get(&deps[0], JsonKey::Package).unwrap();
                    assert_eq!(as_str(get(pkg, JsonKey::Name).unwrap()), "b");
                    assert_eq!(as_str(get(&deps[0], JsonKey::Version).unwrap()), "0.2.0");
                }
                _ => panic!("dependencies must be a list"),
            }
        }
        _ => panic!("dependency_files must be a list"),
    }
}

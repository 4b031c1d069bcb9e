//! Advisory normalization.
//!
//! Maps one matched advisory into one canonical finding, independent of any
//! graph position. Pure value-to-value work: absent advisory fields become
//! absent finding fields, and an absent severity rating becomes `Unknown` —
//! never a fabricated rating.

use vstd::prelude::*;
use vstd::string::StringExecFns;
use crate::cargo_audit;
use crate::cargo_audit::AdvisorySeverity;
use crate::report;
use crate::report::Severity;

verus! {

/// Canonical severity of an optional advisory rating: the five ratings map
/// one-to-one, absence maps to `Unknown`.
pub open spec fn severity_of(s: Option<AdvisorySeverity>) -> Severity {
    match s {
        Option::None => Severity::Unknown,
        Option::Some(AdvisorySeverity::NoneRated) => Severity::Info,
        Option::Some(AdvisorySeverity::Low) => Severity::Low,
        Option::Some(AdvisorySeverity::Medium) => Severity::Medium,
        Option::Some(AdvisorySeverity::High) => Severity::High,
        Option::Some(AdvisorySeverity::Critical) => Severity::Critical,
    }
}

/// The severity mapping is total, absence maps to `Unknown` and to nothing
/// else — in particular an advisory without a rating is never reported as
/// `High` — and no present rating maps to `Unknown`.
pub proof fn lemma_severity_absent_is_unknown(s: Option<AdvisorySeverity>)
    ensures
        s is None ==> severity_of(s) == Severity::Unknown,
        s is None ==> severity_of(s) != Severity::High,
        s is Some ==> severity_of(s) != Severity::Unknown,
{
}

/// Distinct advisory ratings map to distinct canonical severities.
pub proof fn lemma_severity_injective(a: AdvisorySeverity, b: AdvisorySeverity)
    requires
        severity_of(Some(a)) == severity_of(Some(b)),
    ensures
        a == b,
{
}

/// Where the synthesized reference URL for an advisory points.
pub open spec fn advisory_url_of(id: Seq<char>) -> Seq<char> {
    "https://rustsec.org/advisories/"@ + id
}

/// How a finding renders an advisory's package and title.
pub open spec fn advisory_display_name(package: Seq<char>, title: Seq<char>) -> Seq<char> {
    "["@ + package + "] "@ + title
}

/// The finding fields that do not depend on any graph position: every one a
/// direct projection of the matched advisory, absent advisory fields staying
/// absent.
pub open spec fn normalized_core(v: cargo_audit::Vulnerability, r: report::Vulnerability) -> bool {
    &&& r.id@ == v.advisory.id@
    &&& r.name matches Some(nm) && nm@ == advisory_display_name(
        v.advisory.package@,
        v.advisory.title@,
    )
    &&& r.description matches Some(d) && d@ == v.advisory.description@
    &&& r.severity == severity_of(v.advisory.severity)
    &&& r.solution is None
    &&& r.identifiers@.len() == 1
    &&& r.identifiers@[0].kind@ == "rustsec"@
    &&& r.identifiers@[0].name@ == v.advisory.id@
    &&& r.identifiers@[0].value@ == v.advisory.id@
    &&& r.identifiers@[0].url matches Some(u) && u@ == advisory_url_of(v.advisory.id@)
    &&& r.cvss_vectors@.len() == 0
    &&& r.flags@.len() == 0
    &&& match v.advisory.url {
        Option::Some(u) => r.links@.len() == 1 && r.links@[0].url@ == u@ && r.links@[0].name
            is None,
        Option::None => r.links@.len() == 0,
    }
    &&& r.location.file@ == "Cargo.lock"@
    &&& r.location.dependency.package matches Some(p) && p.name matches Some(n) && n@
        == v.package.name@
    &&& r.location.dependency.version matches Some(ver) && ver@ == v.package.version@
}

/// What [`report_vulnerability`] promises: the advisory projection of
/// [`normalized_core`], with a location that carries the matched package's
/// name and version only — graph position is joined in later, by the
/// assembler.
pub open spec fn normalized(v: cargo_audit::Vulnerability, r: report::Vulnerability) -> bool {
    &&& normalized_core(v, r)
    &&& r.location.dependency.iid is None
    &&& r.location.dependency.direct is None
    &&& r.location.dependency.dependency_path is None
}

/// An owned copy of a string.
fn clone_string(s: &String) -> (r: String)
    ensures
        r@ == s@,
{
    String::from_str(s.as_str())
}

/// Whether two strings hold the same characters.
pub(crate) fn string_eq(a: &String, b: &String) -> (r: bool)
    ensures
        r == (a@ == b@),
{
    *a == *b
}

/// Canonical severity of one advisory rating; the five ratings map
/// one-to-one onto the canonical scale.
pub fn map_severity(severity: AdvisorySeverity) -> (r: Severity)
    ensures
        r == severity_of(Some(severity)),
{
    match severity {
        AdvisorySeverity::NoneRated => Severity::Info,
        AdvisorySeverity::Low => Severity::Low,
        AdvisorySeverity::Medium => Severity::Medium,
        AdvisorySeverity::High => Severity::High,
        AdvisorySeverity::Critical => Severity::Critical,
    }
}

/// Normalize one matched advisory into one finding.
///
/// Pure and total: no graph context, no error outcome; optional advisory
/// fields that are absent yield absent finding fields.
pub fn report_vulnerability(v: &cargo_audit::Vulnerability) -> (r: report::Vulnerability)
    ensures
        normalized(*v, r),
{
    let mut name = String::from_str("[");
    name.append(v.advisory.package.as_str());
    name.append("] ");
    name.append(v.advisory.title.as_str());

    let mut id_url = String::from_str("https://rustsec.org/advisories/");
    id_url.append(v.advisory.id.as_str());

    let severity = match v.advisory.severity {
        Option::Some(s) => map_severity(s),
        Option::None => Severity::default(),
    };

    let identifier = report::Identifier {
        kind: String::from_str("rustsec"),
        name: clone_string(&v.advisory.id),
        url: Some(id_url),
        value: clone_string(&v.advisory.id),
    };
    let mut identifiers: Vec<report::Identifier> = Vec::new();
    identifiers.push(identifier);

    let mut links: Vec<report::Link> = Vec::new();
    match &v.advisory.url {
        Option::Some(u) => {
            links.push(report::Link { name: None, url: clone_string(u) });
        },
        Option::None => {},
    }

    report::Vulnerability {
        id: clone_string(&v.advisory.id),
        name: Some(name),
        description: Some(clone_string(&v.advisory.description)),
        severity,
        solution: None,
        identifiers,
        cvss_vectors: Vec::new(),
        links,
        flags: Vec::new(),
        location: report::Location {
            file: String::from_str("Cargo.lock"),
            dependency: report::Dependency {
                package: Some(report::Package { name: Some(clone_string(&v.package.name)) }),
                version: Some(clone_string(&v.package.version)),
                iid: None,
                direct: None,
                dependency_path: None,
            },
        },
    }
}

/// Normalize a whole list of matched advisories, in order.
pub fn report_vulnerabilities(vulnerabilities: &Vec<cargo_audit::Vulnerability>) -> (r: Vec<
    report::Vulnerability,
>)
    ensures
        r@.len() == vulnerabilities@.len(),
        forall|k: int|
            0 <= k < r@.len() ==> normalized(vulnerabilities@[k], #[trigger] r@[k]),
{
    let mut r: Vec<report::Vulnerability> = Vec::new();
    let mut i: usize = 0;
    while i < vulnerabilities.len()
        invariant
            i <= vulnerabilities@.len(),
            r@.len() == i,
            forall|k: int| 0 <= k < i ==> normalized(vulnerabilities@[k], #[trigger] r@[k]),
        decreases vulnerabilities@.len() - i,
    {
        let entry = report_vulnerability(&vulnerabilities[i]);
        r.push(entry);
        i = i + 1;
    }
    r
}

/// The two diagnostic lines printed for one detected vulnerability.
pub open spec fn summary_lines_of(v: cargo_audit::Vulnerability) -> (Seq<char>, Seq<char>) {
    (
        "- ["@ + v.advisory.package@ + "] "@ + v.advisory.title@ + " ("@ + v.advisory.id@ + ")"@,
        "  See https://rustsec.org/advisories/"@ + v.advisory.id@ + " for details"@,
    )
}

/// The human-readable summary of a vulnerability list: two lines per entry,
/// naming the affected package, the advisory title and id, and where to read
/// more.
pub fn summary_lines(vulnerabilities: &Vec<cargo_audit::Vulnerability>) -> (r: Vec<String>)
    ensures
        r@.len() == 2 * vulnerabilities@.len(),
        forall|k: int|
            0 <= k < vulnerabilities@.len() ==> (#[trigger] r@[2 * k])@ == summary_lines_of(
                vulnerabilities@[k],
            ).0,
        forall|k: int|
            0 <= k < vulnerabilities@.len() ==> r@[2 * k + 1]@ == summary_lines_of(
                vulnerabilities@[k],
            ).1,
{
    let mut r: Vec<String> = Vec::new();
    let mut i: usize = 0;
    while i < vulnerabilities.len()
        invariant
            i <= vulnerabilities@.len(),
            r@.len() == 2 * i,
            forall|k: int|
                0 <= k < i ==> (#[trigger] r@[2 * k])@ == summary_lines_of(
                    vulnerabilities@[k],
                ).0,
            forall|k: int|
                0 <= k < i ==> r@[2 * k + 1]@ == summary_lines_of(vulnerabilities@[k]).1,
        decreases vulnerabilities@.len() - i,
    {
        let v = &vulnerabilities[i];
        let mut first = String::from_str("- [");
        first.append(v.advisory.package.as_str());
        first.append("] ");
        first.append(v.advisory.title.as_str());
        first.append(" (");
        first.append(v.advisory.id.as_str());
        first.append(")");
        let mut second = String::from_str("  See https://rustsec.org/advisories/");
        second.append(v.advisory.id.as_str());
        second.append(" for details");
        r.push(first);
        r.push(second);
        i = i + 1;
    }
    r
}

} // verus!

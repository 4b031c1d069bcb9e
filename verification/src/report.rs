//! GitLab dependency-scanning report data model.
//!
//! The canonical, schema-agnostic form of the document: findings, their
//! identifiers and links, per-root dependency files, and the optional scan
//! metadata block. [`crate::json`] turns values of these types into the
//! document tree; fields that are `None` or empty lists are then omitted
//! entirely, never written as null.

use vstd::prelude::*;

verus! {

/// The whole report document.
pub struct Report {
    pub version: String,
    pub vulnerabilities: Vec<Vulnerability>,
    /// Scan metadata; present in the document generation that carries a
    /// `scan` block, absent in the one that does not.
    pub scan: Option<Scan>,
    pub dependency_files: Vec<DependencyFile>,
}

/// Scan metadata block: who scanned, when, and how it went.
pub struct Scan {
    pub analyzer: Analyzer,
    pub scanner: Scanner,
    pub start_time: String,
    pub end_time: String,
    pub status: ScanStatus,
    pub kind: ScanType,
}

/// Outcome of the scan. A run that fails aborts before a report exists, so
/// a produced document always says `Success`; `Failure` exists only because
/// the schema names it.
#[derive(Clone, Copy, Debug, PartialEq, Eq, Structural)]
pub enum ScanStatus {
    Success,
    Failure,
}

impl Default for ScanStatus {
    /// The produced document always reports a successful scan.
    fn default() -> (r: Self)
        ensures
            r == ScanStatus::Success,
    {
        ScanStatus::Success
    }
}

/// Category of scan this report came from.
#[derive(Clone, Copy, Debug, PartialEq, Eq, Structural)]
pub enum ScanType {
    DependencyScanning,
}

impl Default for ScanType {
    fn default() -> (r: Self)
        ensures
            r == ScanType::DependencyScanning,
    {
        ScanType::DependencyScanning
    }
}

/// The analyzer that produced the report.
pub struct Analyzer {
    pub id: String,
    pub name: String,
    pub url: Option<String>,
    pub vendor: Vendor,
    pub version: String,
}

/// The scanner the analyzer ran.
pub struct Scanner {
    pub id: String,
    pub name: String,
    pub url: Option<String>,
    pub vendor: Vendor,
    pub version: String,
}

/// Who ships the analyzer or scanner.
pub struct Vendor {
    pub name: String,
}

/// One finding: a normalized vulnerability, joined with its location.
pub struct Vulnerability {
    pub id: String,
    pub name: Option<String>,
    pub description: Option<String>,
    pub severity: Severity,
    pub solution: Option<String>,
    pub identifiers: Vec<Identifier>,
    pub cvss_vectors: Vec<CvssVector>,
    pub links: Vec<Link>,
    pub flags: Vec<Flag>,
    pub location: Location,
}

/// A CVSS vector attached to a finding.
pub struct CvssVector {
    pub vendor: String,
    pub vector: String,
}

/// An analyzer remark on a finding.
pub struct Flag {
    pub kind: FlagType,
    pub origin: String,
    pub description: String,
}

/// The kinds of flag the schema knows.
#[derive(Clone, Copy, Debug, PartialEq, Eq, Structural)]
pub enum FlagType {
    FlaggedAsLikelyFalsePositive,
}

impl Default for FlagType {
    fn default() -> (r: FlagType)
        ensures
            r == FlagType::FlaggedAsLikelyFalsePositive,
    {
        FlagType::FlaggedAsLikelyFalsePositive
    }
}

/// Canonical severity of a finding.
///
/// An advisory that carries no severity rating maps to `Unknown`.
#[derive(Clone, Copy, Debug, PartialEq, Eq, Structural)]
pub enum Severity {
    Info,
    Unknown,
    Low,
    Medium,
    High,
    Critical,
}

impl Default for Severity {
    /// Absent severity information means `Unknown`, never a fabricated
    /// rating.
    fn default() -> (r: Self)
        ensures
            r == Severity::Unknown,
    {
        Severity::Unknown
    }
}

/// The document value of each severity.
pub open spec fn severity_label_spec(s: Severity) -> Seq<char> {
    match s {
        Severity::Info => "info"@,
        Severity::Unknown => "unknown"@,
        Severity::Low => "low"@,
        Severity::Medium => "medium"@,
        Severity::High => "high"@,
        Severity::Critical => "critical"@,
    }
}

impl Severity {
    /// The string the document carries for this severity.
    pub fn label(&self) -> (r: String)
        ensures
            r@ == severity_label_spec(*self),
    {
        match self {
            Severity::Info => "info".to_string(),
            Severity::Unknown => "unknown".to_string(),
            Severity::Low => "low".to_string(),
            Severity::Medium => "medium".to_string(),
            Severity::High => "high".to_string(),
            Severity::Critical => "critical".to_string(),
        }
    }
}

impl ScanStatus {
    /// The string the document carries for this status.
    pub fn label(&self) -> (r: String)
        ensures
            *self is Success ==> r@ == "success"@,
            *self is Failure ==> r@ == "failure"@,
    {
        match self {
            ScanStatus::Success => "success".to_string(),
            ScanStatus::Failure => "failure".to_string(),
        }
    }
}

impl ScanType {
    /// The string the document carries for this scan type.
    pub fn label(&self) -> (r: String)
        ensures
            r@ == "dependency_scanning"@,
    {
        "dependency_scanning".to_string()
    }
}

impl FlagType {
    /// The string the document carries for this flag type.
    pub fn label(&self) -> (r: String)
        ensures
            r@ == "flagged-as-likely-false-positive"@,
    {
        "flagged-as-likely-false-positive".to_string()
    }
}

/// A reference that identifies the advisory in some taxonomy.
pub struct Identifier {
    pub kind: String,
    pub name: String,
    pub url: Option<String>,
    pub value: String,
}

/// A related URL.
pub struct Link {
    pub name: Option<String>,
    pub url: String,
}

/// Where a finding was found.
pub struct Location {
    pub file: String,
    pub dependency: Dependency,
}

/// A per-root projection of one graph node.
pub struct Dependency {
    pub package: Option<Package>,
    pub version: Option<String>,
    pub iid: Option<usize>,
    pub direct: Option<bool>,
    pub dependency_path: Option<Vec<IID>>,
}

/// One step of an ancestor path, named by node identity.
pub struct IID {
    pub iid: usize,
}

/// A package name, as the document carries it.
pub struct Package {
    pub name: Option<String>,
}

/// All dependencies reachable from one root.
pub struct DependencyFile {
    pub path: String,
    pub package_manager: String,
    pub dependencies: Vec<Dependency>,
}

} // verus!

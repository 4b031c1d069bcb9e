//! The audit results the normalizer consumes.
//!
//! One [`Vulnerability`] pairs a published advisory with the package the
//! advisory matched. Matching itself — which packages and version ranges are
//! affected — happens upstream; these records arrive already matched.

use vstd::prelude::*;

verus! {

/// A whole audit result.
pub struct Report {
    pub vulnerabilities: Vulnerabilities,
}

/// The vulnerability section of an audit result.
pub struct Vulnerabilities {
    pub count: u64,
    pub found: bool,
    pub list: Vec<Vulnerability>,
}

/// One advisory matched against one concrete package.
pub struct Vulnerability {
    pub advisory: Advisory,
    pub package: Package,
}

/// Severity rating an advisory may carry, as its CVSS score classifies it.
#[derive(Clone, Copy, Debug, PartialEq, Eq, Structural)]
pub enum AdvisorySeverity {
    NoneRated,
    Low,
    Medium,
    High,
    Critical,
}

/// A published vulnerability advisory.
pub struct Advisory {
    pub affected_arch: Option<String>,
    pub affected_os: Option<String>,
    pub aliases: Vec<String>,
    pub date: String,
    pub description: String,
    pub id: String,
    pub keywords: Vec<String>,
    pub package: String,
    pub patched_versions: Option<Vec<String>>,
    pub references: Vec<String>,
    /// Severity rating; advisories without a CVSS score carry none.
    pub severity: Option<AdvisorySeverity>,
    pub title: String,
    pub unaffected_versions: Option<Vec<String>>,
    /// Primary reference URL, if the advisory names one.
    pub url: Option<String>,
}

/// The package an advisory matched.
pub struct Package {
    pub name: String,
    pub source: String,
    pub version: String,
}

} // verus!

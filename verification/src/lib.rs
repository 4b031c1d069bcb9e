//! Turns a resolved dependency graph and a list of matched vulnerability
//! advisories into a GitLab dependency-scanning report document.
//!
//! The dependency graph lives in [`graph`]; breadth-first path resolution —
//! direct/transitive classification and ancestor-chain reconstruction — in
//! [`resolver`]; advisory normalization in [`normalize`]; the report data
//! model in [`report`]; document assembly in [`assemble`]; and the
//! JSON-shaped document tree, with its field-omission guarantees, in
//! [`json`].
//!
//! Obtaining the graph, fetching advisories, matching them against packages,
//! clock readings and all I/O belong to the surrounding tool; everything
//! here is a pure transformation with a verified contract.

use vstd::prelude::*;

pub mod assemble;
pub mod cargo_audit;
pub mod graph;
pub mod json;
pub mod normalize;
pub mod report;
pub mod resolver;

verus! {

} // verus!

//! Semantic version toolkit: SemVer 2.0.0 parsing and precedence, version
//! ranges as unions of intervals, range syntax of several package
//! ecosystems, version bumping, version diffs and package file analysis.

pub mod text;
pub mod version;
pub mod version_laws;
pub mod sorting;
pub mod range;
pub mod range_laws;
pub mod ecosystem;
pub mod ecosystem_laws;
pub mod bumper;
pub mod differ;
pub mod analyzer;
pub mod analyzer_laws;

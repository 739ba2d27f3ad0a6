//! Audits the licenses declared by a project's package dependencies against a
//! policy of allowed and disallowed license patterns, per-package overrides,
//! and an ignore list.
//!
//! The crate holds the decision logic: extracting candidate license strings
//! from registry metadata, compiling and consulting the policy, classifying
//! each package, and aggregating the per-package outcomes into a verdict.
//! Reading files, fetching metadata over the network and printing reports are
//! left to the surrounding application.

pub mod laws;
pub mod metadata;
pub mod outcome;
pub mod pattern;
pub mod requirements;
pub mod settings;
pub mod text;

pub use metadata::PyPiInfo;
pub use metadata::PyPiJson;
pub use outcome::PackageResult;
pub use outcome::Verdict;
pub use outcome::aggregate;
pub use outcome::outcome_fails;
pub use pattern::CompiledPattern;
pub use requirements::extract_package_name_from_line;
pub use requirements::packages_from_text;
pub use settings::ConfigError;
pub use settings::LicenseSettings;
pub use settings::get_first_match;

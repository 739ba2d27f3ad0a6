use pip_license_check::LicenseSettings;
use pip_license_check::PackageResult;
use pip_license_check::PyPiInfo;
use pip_license_check::PyPiJson;
use pip_license_check::Verdict;
use pip_license_check::aggregate;
use pip_license_check::outcome_fails;

fn sample_settings() -> LicenseSettings {
    LicenseSettings::new(
        vec![r"(The )?MIT( License)?".to_string(), "BSD".to_string()],
        vec![r".*[^L]GPL.*".to_string()],
        vec!["mapdata".to_string()],
        vec![("nothing".to_string(), "MIT License".to_string())],
    )
    .unwrap()
}

fn metadata_with_license(license: &str) -> PyPiJson {
    PyPiJson { info: PyPiInfo { classifiers: None, license: Some(license.to_string()) } }
}

#[test]
fn test_classify_allowed_license() {
    let settings = sample_settings();
    let json = metadata_with_license("MIT License");
    let result = PackageResult::new("requests".to_string(), &settings, Some(&json));
    assert_eq!(result.name, "requests");
    assert_eq!(result.licenses, vec!["MIT License"]);
    assert_eq!(result.allowed, vec!["MIT License"]);
    assert!(result.disallowed.is_empty());
    assert!(!result.ignored);
    assert!(!outcome_fails(&result));
}

#[test]
fn test_classify_unmatched_license() {
    let settings = sample_settings();
    let json = metadata_with_license("LGPL");
    let result = PackageResult::new("somelib".to_string(), &settings, Some(&json));
    assert_eq!(result.licenses, vec!["LGPL"]);
    assert!(result.allowed.is_empty());
    assert!(result.disallowed.is_empty());
    assert!(outcome_fails(&result));
}

#[test]
fn test_classify_disallowed_license() {
    let settings = sample_settings();
    let json = metadata_with_license("GNU GPL v3");
    let result = PackageResult::new("copyleft".to_string(), &settings, Some(&json));
    assert_eq!(result.disallowed, vec!["GNU GPL v3"]);
    assert!(result.allowed.is_empty());
    assert!(outcome_fails(&result));
}

#[test]
fn test_disallowed_checked_before_allowed() {
    // A license matching both lists is classified disallowed.
    let settings = LicenseSettings::new(
        vec!["MIT".to_string()],
        vec!["MIT".to_string()],
        Vec::new(),
        Vec::new(),
    )
    .unwrap();
    let json = metadata_with_license("MIT");
    let result = PackageResult::new("both".to_string(), &settings, Some(&json));
    assert_eq!(result.disallowed, vec!["MIT"]);
    assert!(result.allowed.is_empty());
    assert!(outcome_fails(&result));
}

#[test]
fn test_override_precedence() {
    let settings = sample_settings();
    // Registry data says a disallowed license, but the override wins.
    let json = metadata_with_license("GNU GPL v3");
    let result = PackageResult::new("nothing".to_string(), &settings, Some(&json));
    assert_eq!(result.allowed, vec!["MIT License"]);
    assert!(result.disallowed.is_empty());
    assert!(!result.ignored);
    assert!(!outcome_fails(&result));
}

#[test]
fn test_override_wins_over_ignore() {
    // A package in both `missing` and `ignored` follows the override rule.
    let settings = LicenseSettings::new(
        Vec::new(),
        Vec::new(),
        vec!["dual".to_string()],
        vec![("dual".to_string(), "MIT License".to_string())],
    )
    .unwrap();
    let result = PackageResult::new("dual".to_string(), &settings, None);
    assert_eq!(result.allowed, vec!["MIT License"]);
    assert!(result.disallowed.is_empty());
    assert!(!result.ignored);
    assert!(!outcome_fails(&result));
}

#[test]
fn test_ignored_package() {
    let settings = sample_settings();
    let json = metadata_with_license("GNU GPL v3");
    let result = PackageResult::new("mapdata".to_string(), &settings, Some(&json));
    assert!(result.ignored);
    assert!(result.allowed.is_empty());
    assert!(result.disallowed.is_empty());
    assert!(!outcome_fails(&result));
}

#[test]
fn test_empty_license_set_fails() {
    let settings = sample_settings();
    let result = PackageResult::new("unknown".to_string(), &settings, None);
    assert!(result.licenses.is_empty());
    assert!(result.allowed.is_empty());
    assert!(result.disallowed.is_empty());
    assert!(!result.ignored);
    assert!(outcome_fails(&result));
}

#[test]
fn test_classification_idempotent() {
    let settings = sample_settings();
    let json = PyPiJson {
        info: PyPiInfo {
            classifiers: Some(vec![
                "License :: OSI Approved :: MIT License".to_string(),
                "License :: OSI Approved :: GNU GPL".to_string(),
            ]),
            license: Some("BSD License".to_string()),
        },
    };
    let first = PackageResult::new("requests".to_string(), &settings, Some(&json));
    let second = PackageResult::new("requests".to_string(), &settings, Some(&json));
    assert_eq!(first.name, second.name);
    assert_eq!(first.licenses, second.licenses);
    assert_eq!(first.allowed, second.allowed);
    assert_eq!(first.disallowed, second.disallowed);
    assert_eq!(first.ignored, second.ignored);
}

#[test]
fn test_aggregate_mixed_run_fails() {
    let settings = sample_settings();
    let disallowed = PackageResult::new(
        "copyleft".to_string(),
        &settings,
        Some(&metadata_with_license("GNU GPL v3")),
    );
    let unmatched =
        PackageResult::new("somelib".to_string(), &settings, Some(&metadata_with_license("LGPL")));
    let allowed = PackageResult::new(
        "requests".to_string(),
        &settings,
        Some(&metadata_with_license("MIT License")),
    );
    let results = vec![disallowed, unmatched, allowed];
    assert_eq!(aggregate(&results), Verdict::Fail);
}

#[test]
fn test_aggregate_all_clear_passes() {
    let settings = sample_settings();
    let allowed = PackageResult::new(
        "requests".to_string(),
        &settings,
        Some(&metadata_with_license("MIT License")),
    );
    let ignored = PackageResult::new(
        "mapdata".to_string(),
        &settings,
        Some(&metadata_with_license("GNU GPL v3")),
    );
    let results = vec![allowed, ignored];
    assert_eq!(aggregate(&results), Verdict::Pass);
}

#[test]
fn test_aggregate_empty_run_passes() {
    let results: Vec<PackageResult> = Vec::new();
    assert_eq!(aggregate(&results), Verdict::Pass);
}

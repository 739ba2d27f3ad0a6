use pip_license_check::CompiledPattern;
use pip_license_check::ConfigError;
use pip_license_check::LicenseSettings;
use pip_license_check::get_first_match;

#[test]
fn test_get_first_match() {
    assert_eq!(
        get_first_match(
            &vec![
                CompiledPattern::new(r"([a-z]*)[0-9]*([a-z])").unwrap(),
                CompiledPattern::new(r"[0-9]+([a-z])").unwrap(),
            ],
            "abc123tyh"
        )
        .unwrap(),
        "abc123t"
    );
    assert_eq!(
        get_first_match(
            &vec![
                CompiledPattern::new(r"[0-9]+([a-z])").unwrap(),
                CompiledPattern::new(r"([a-z]*)[0-9]*([a-z])").unwrap(),
            ],
            "abc123tyh"
        )
        .unwrap(),
        "123t"
    );
}

#[test]
fn test_compile_rejects_invalid_pattern() {
    assert!(CompiledPattern::new(r"foo(bar").is_none());
    assert!(CompiledPattern::new(r"(The )?MIT( License)?").is_some());
}

fn sample_settings() -> LicenseSettings {
    LicenseSettings::new(
        vec![r"(The )?MIT( License)?".to_string(), "BSD".to_string()],
        vec![r".*[^L]GPL.*".to_string(), "BSD$".to_string()],
        vec!["mapdata".to_string()],
        vec![("nothing".to_string(), "MIT License".to_string())],
    )
    .unwrap()
}

#[test]
fn test_settings_queries() {
    let settings = sample_settings();
    assert!(settings.is_ignored("mapdata"));
    assert!(!settings.is_ignored("requests"));
    assert_eq!(settings.override_license("nothing").unwrap(), "MIT License");
    assert_eq!(settings.override_license("requests"), None);
}

#[test]
fn test_settings_invalid_pattern_reported() {
    let result = LicenseSettings::new(
        vec!["MIT".to_string(), "foo(bar".to_string()],
        vec!["GPL".to_string()],
        Vec::new(),
        Vec::new(),
    );
    match result {
        Err(ConfigError::InvalidPattern(p)) => assert_eq!(p, "foo(bar"),
        _ => panic!("expected the invalid pattern to be reported"),
    }
}

#[test]
fn test_first_match_precedence_order() {
    let settings = sample_settings();
    // "MIT License" matches an allow-pattern and no deny-pattern.
    assert_eq!(settings.first_allowed_match("MIT License").unwrap(), "MIT License");
    assert_eq!(settings.first_disallowed_match("MIT License"), None);
    // "LGPL" needs a non-L character before GPL to be denied, and the
    // allow-patterns do not match it anywhere either: unmatched.
    assert_eq!(settings.first_disallowed_match("LGPL"), None);
    assert_eq!(settings.first_allowed_match("LGPL"), None);
    // "GNU GPL" is denied.
    assert_eq!(settings.first_disallowed_match("GNU GPL").unwrap(), "GNU GPL");
}

#[test]
fn test_allowed_match_is_substring() {
    let settings = sample_settings();
    assert_eq!(settings.first_allowed_match("The MIT License, verbatim").unwrap(), "The MIT License");
    assert_eq!(settings.first_allowed_match("BSD License").unwrap(), "BSD");
}

use pip_license_check::PyPiInfo;
use pip_license_check::PyPiJson;

#[test]
fn test_get_license_from_info() {
    let mit_string = "MIT License".to_string();
    let info = PyPiInfo { classifiers: None, license: Some(mit_string.clone()) };

    assert_eq!(info.get_license_from_info(), Some(mit_string));
}

#[test]
fn test_get_license_from_info_empty() {
    let info = PyPiInfo { classifiers: None, license: None };

    assert_eq!(info.get_license_from_info(), None);
}

#[test]
fn test_get_license_from_info_empty_string() {
    let info = PyPiInfo { classifiers: None, license: Some("".to_string()) };

    assert_eq!(info.get_license_from_info(), None);
}

#[test]
fn test_get_license_from_info_multi_line() {
    let info = PyPiInfo {
        classifiers: None,
        license: Some("MIT License\nCopyright (c) 2020".to_string()),
    };

    assert_eq!(info.get_license_from_info(), Some("MIT License".to_string()));
}

#[test]
fn test_get_license_from_info_whitespace_only() {
    let info = PyPiInfo { classifiers: None, license: Some("   \n real text".to_string()) };

    assert_eq!(info.get_license_from_info(), None);
}

#[test]
fn test_get_licenses_from_classifiers() {
    let classifiers = [
        "License :: OSI Approved :: MIT License",
        "License :: OSI Approved :: BSD License",
        "License :: OSI Approved",
        "Something :: Else",
        "License :: OSI Approved :: Apache Software License",
    ]
    .iter()
    .map(|x| x.to_string())
    .collect();

    let info = PyPiInfo { classifiers: Some(classifiers), license: None };

    let licenses = info.get_licenses_from_classifiers();
    assert_eq!(licenses, vec!["MIT License", "BSD License", "Apache Software License"]);
}

#[test]
fn test_empty_classifiers() {
    let classifiers = Vec::new();

    let info = PyPiInfo { classifiers: Some(classifiers), license: None };

    let licenses = info.get_licenses_from_classifiers();
    assert!(licenses.is_empty());
}

#[test]
fn test_classifier_capture_is_trimmed() {
    let info = PyPiInfo {
        classifiers: Some(vec![
            "License :: OSI Approved ::    ".to_string(),
            "License :: OSI Approved ::  MIT License ".to_string(),
        ]),
        license: None,
    };

    assert_eq!(info.get_licenses_from_classifiers(), vec!["MIT License"]);
}

#[test]
fn test_licenses_combines_classifiers_and_field() {
    let json = PyPiJson {
        info: PyPiInfo {
            classifiers: Some(vec!["License :: OSI Approved :: BSD License".to_string()]),
            license: Some("MIT License".to_string()),
        },
    };

    assert_eq!(json.licenses(), vec!["BSD License", "MIT License"]);
}

#[test]
fn test_license_set_sorted_and_deduplicated() {
    let json = PyPiJson {
        info: PyPiInfo {
            classifiers: Some(vec![
                "License :: OSI Approved :: MIT License".to_string(),
                "License :: OSI Approved :: BSD License".to_string(),
                "License :: OSI Approved :: MIT License".to_string(),
            ]),
            license: Some("MIT License".to_string()),
        },
    };

    assert_eq!(json.license_set(), vec!["BSD License", "MIT License"]);
}

#[test]
fn test_license_set_empty_metadata() {
    let json = PyPiJson { info: PyPiInfo { classifiers: None, license: None } };

    assert!(json.license_set().is_empty());
}

#[test]
fn test_get_license_from_info_crlf() {
    let info = PyPiInfo {
        classifiers: None,
        license: Some("MIT License\r\nCopyright (c) 2020".to_string()),
    };

    assert_eq!(info.get_license_from_info(), Some("MIT License".to_string()));
}

#[test]
fn test_classifier_prefix_mid_string() {
    let info = PyPiInfo {
        classifiers: Some(vec![
            "Dual License :: OSI Approved :: MIT License".to_string(),
            "License :: OSI Approved :: License :: OSI Approved :: X".to_string(),
        ]),
        license: None,
    };

    assert_eq!(
        info.get_licenses_from_classifiers(),
        vec!["MIT License", "License :: OSI Approved :: X"]
    );
}

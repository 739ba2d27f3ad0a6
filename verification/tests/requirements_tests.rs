use pip_license_check::extract_package_name_from_line;
use pip_license_check::packages_from_text;

#[test]
fn test_extract_package_name() {
    let line = "requests";
    let package_name = extract_package_name_from_line(line).unwrap();
    assert_eq!(package_name, "requests");
}

#[test]
fn test_extract_package_name_with_version() {
    assert_eq!(extract_package_name_from_line("requests==2.23.0").unwrap(), "requests");
    assert_eq!(extract_package_name_from_line("requests<2.23.0").unwrap(), "requests");
    assert_eq!(extract_package_name_from_line("requests>2.23.0").unwrap(), "requests");
}

#[test]
fn test_extract_package_name_ignore_comments() {
    assert_eq!(extract_package_name_from_line("requests #this is a comment").unwrap(), "requests");
    assert_eq!(extract_package_name_from_line("requests# this is a comment").unwrap(), "requests");
}

#[test]
fn test_extract_package_name_ignore_empty_lines() {
    assert_eq!(extract_package_name_from_line(""), None);
    assert_eq!(extract_package_name_from_line("#this is a comment"), None);
}

#[test]
fn test_packages_from_text_sorted() {
    let text = "flask\ndjango==3.1\n\n#only a comment\nrasterio # mapping\n";
    assert_eq!(packages_from_text(text), vec!["django", "flask", "rasterio"]);
}

#[test]
fn test_packages_from_text_keeps_duplicates() {
    let text = "b\na\nb";
    assert_eq!(packages_from_text(text), vec!["a", "b", "b"]);
}

#[test]
fn test_packages_from_text_empty() {
    assert!(packages_from_text("").is_empty());
    assert!(packages_from_text("# nothing\n   \n").is_empty());
}

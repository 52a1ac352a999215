#[test]
fn crate_version_is_semver() {
    let parts: Vec<&str> = catprinterd::VERSION.split('.').collect();
    assert_eq!(
        parts.len(),
        3,
        "VERSION should be x.y.z, got {:?}",
        catprinterd::VERSION
    );
    assert!(
        parts
            .iter()
            .all(|p| !p.is_empty() && p.bytes().all(|b| b.is_ascii_digit())),
        "VERSION fields should be numeric, got {:?}",
        catprinterd::VERSION
    );
}

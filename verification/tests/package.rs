#[test]
fn package_name_matches_crate() {
    // Reached under the crate name `fsspec_browser`: the path only resolves
    // when the package is named so.
    let launch = fsspec_browser::launch::run_browser(vec!["--help".to_string()], &None);
    assert!(matches!(launch, Ok(fsspec_browser::launch::Launch::Help)));
}

#[test]
fn package_description_matches_scope() {
    let description = fsspec_browser::DESCRIPTION;

    assert!(description.contains("fsspec"));
    assert!(description.contains("browser"));
}

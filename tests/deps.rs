use clockwork_engine::deps::{
    download_and_extract, download_ok, extraction_target, to_tag_version, DepsError, HTTP_OK,
};
use clockwork_engine::errors::CliError;

#[test]
fn tag_version_adds_missing_v() {
    assert_eq!(to_tag_version("1.4.2"), "v1.4.2");
    assert_eq!(to_tag_version("v1.4.2"), "v1.4.2");
    assert_eq!(to_tag_version(""), "v");
}

#[test]
fn download_status() {
    assert!(download_ok(HTTP_OK));
    assert!(!download_ok(404));
}

#[test]
fn extraction_target_strips_prefix() {
    assert_eq!(
        extraction_target("/rt", "solana-release/bin", "solana-release/bin/solana-test-validator"),
        Some("/rt/solana-test-validator".to_string())
    );
    assert_eq!(extraction_target("/rt", "solana-release/bin", "solana-release/lib/x.so"), None);
    assert_eq!(extraction_target("/rt", "solana-release/bin", "solana-release/binx/y"), None);
}

#[test]
fn download_and_extract_maps_entries() {
    let entries = vec![
        "clockwork-geyser-plugin-release/lib/libclockwork_plugin.so".to_string(),
        "clockwork-geyser-plugin-release/README.md".to_string(),
    ];
    let targets = download_and_extract(
        "/rt",
        "http://localhost:8000/a.tar.bz2",
        "clockwork-geyser-plugin-release/lib",
        200,
        &entries,
    )
    .unwrap();
    assert_eq!(targets, vec![Some("/rt/libclockwork_plugin.so".to_string()), None]);
}

#[test]
fn download_and_extract_reports_missing_file() {
    let r = download_and_extract("/rt", "http://x/a.tar.bz2", "p", 404, &vec!["p/a".to_string()]);
    match r {
        Err(DepsError::NotFound { url }) => assert_eq!(url, "http://x/a.tar.bz2"),
        other => panic!("unexpected {:?}", other),
    }
}

#[test]
fn cli_error_holds_code() {
    let e = CliError { error: None, exit_code: 101 };
    assert_eq!(e.exit_code, 101);
    assert!(e.error.is_none());
}

#[test]
fn release_url_joins_parts() {
    assert_eq!(
        clockwork_engine::deps::release_url("http://h/releases/download", "v1.2.3", "a.tar.bz2"),
        "http://h/releases/download/v1.2.3/a.tar.bz2"
    );
}

use maaweb_server::update::{
    check_update, detect_arch, fetch_latest_release, library_version, local_version, skipped_when_copying, ArchError, ReleaseError,
};

#[test]
fn arch_names_map_to_asset_suffixes() {
    assert_eq!(detect_arch("x86_64\n"), Ok("x86_64".to_string()));
    assert_eq!(detect_arch("amd64"), Ok("x86_64".to_string()));
    assert_eq!(detect_arch("  aarch64 \n"), Ok("aarch64".to_string()));
    assert_eq!(detect_arch("arm64"), Ok("aarch64".to_string()));
}

#[test]
fn unknown_arch_is_refused_with_trimmed_name() {
    assert_eq!(detect_arch(" riscv64\n"), Err(ArchError::Unsupported("riscv64".to_string())));
    assert_eq!(detect_arch(""), Err(ArchError::Unsupported("".to_string())));
    assert_eq!(detect_arch("x86_64 x"), Err(ArchError::Unsupported("x86_64 x".to_string())));
}

const RELEASE: &str = r#"{
  "tag_name": "v5.10.0",
  "assets": [
    {"name": "MAA-v5.10.0-win-x64.zip", "browser_download_url": "https://e/win.zip"},
    {"name": "MAA-v5.10.0-linux-x86_64.tar.gz.sha256", "browser_download_url": "https://e/sha"},
    {"name": "MAA-v5.10.0-linux-aarch64.tar.gz", "browser_download_url": "https://e/arm.tar.gz"},
    {"name": "MAA-v5.10.0-linux-x86_64.tar.gz", "browser_download_url": "https://e/x64.tar.gz"},
    {"name": "MAA-v5.10.0-linux-x86_64-2.tar.gz", "browser_download_url": "https://e/other.tar.gz"}
  ]
}"#;

#[test]
fn release_picks_first_matching_tarball() {
    assert_eq!(
        fetch_latest_release(RELEASE, "x86_64"),
        Ok(("v5.10.0".to_string(), "https://e/x64.tar.gz".to_string()))
    );
    assert_eq!(
        fetch_latest_release(RELEASE, "aarch64"),
        Ok(("v5.10.0".to_string(), "https://e/arm.tar.gz".to_string()))
    );
}

#[test]
fn release_errors() {
    assert_eq!(fetch_latest_release("not json", "x86_64"), Err(ReleaseError::Unparsable));
    assert_eq!(fetch_latest_release("", "x86_64"), Err(ReleaseError::Unparsable));
    assert_eq!(fetch_latest_release(r#"{"assets": []}"#, "x86_64"), Err(ReleaseError::MissingTag));
    assert_eq!(fetch_latest_release(r#"{"tag_name": 5}"#, "x86_64"), Err(ReleaseError::MissingTag));
    assert_eq!(fetch_latest_release(r#"{"tag_name": "v1"}"#, "x86_64"), Err(ReleaseError::NoMatchingAsset));
    assert_eq!(fetch_latest_release(r#"{"tag_name": "v1", "assets": {}}"#, "x86_64"), Err(ReleaseError::NoMatchingAsset));
    assert_eq!(fetch_latest_release(RELEASE, "riscv64"), Err(ReleaseError::NoMatchingAsset));
    assert_eq!(
        fetch_latest_release(
            r#"{"tag_name": "v1", "assets": [{"name": "a-linux-x86_64.tar.gz"}, {"name": "b-linux-x86_64.tar.gz", "browser_download_url": "u"}]}"#,
            "x86_64"
        ),
        Err(ReleaseError::MissingDownloadUrl)
    );
}

#[test]
fn asset_without_string_name_is_skipped() {
    assert_eq!(
        fetch_latest_release(
            r#"{"tag_name": "v2", "assets": [{"name": 3, "browser_download_url": "x"}, {"name": "linux-x86_64.tar.gz", "browser_download_url": "y"}]}"#,
            "x86_64"
        ),
        Ok(("v2".to_string(), "y".to_string()))
    );
}

#[test]
fn local_version_reads_version_member() {
    assert_eq!(local_version(Some(r#"{"version": "v5.9.0", "last_updated": "x"}"#), None), Some("v5.9.0".to_string()));
    assert_eq!(local_version(Some(r#"{"version": 3}"#), None), None);
    assert_eq!(local_version(Some(r#"["version"]"#), None), None);
    assert_eq!(local_version(Some("{"), None), None);
    assert_eq!(local_version(None, None), None);
}

#[test]
fn version_file_wins_over_library() {
    let lib = b"\x7fELF\0MaaCore v5.8.1\0".to_vec();
    assert_eq!(local_version(Some(r#"{"version": "v5.9.0"}"#), Some(&lib)), Some("v5.9.0".to_string()));
}

#[test]
fn library_version_is_the_fallback() {
    let lib = b"\x7fELF\0\0dev1.2.3 v12 v1.2 (v5.10.0)\0v6.0.0".to_vec();
    assert_eq!(library_version(&lib), Some("v5.10.0".to_string()));
    assert_eq!(local_version(Some(r#"{"other": 1}"#), Some(&lib)), Some("v5.10.0".to_string()));
    assert_eq!(local_version(None, Some(&lib)), Some("v5.10.0".to_string()));
    assert_eq!(local_version(Some("not json"), Some(b"no version here")), None);
}

#[test]
fn library_version_marks() {
    assert_eq!(library_version(b"v1.2.3"), Some("v1.2.3".to_string()));
    assert_eq!(library_version(b"v1.2.3-beta.1"), Some("v1.2.3".to_string()));
    assert_eq!(library_version(b"v10.20.300x"), Some("v10.20.300".to_string()));
    assert_eq!(library_version(b"xv1.2.3"), None);
    assert_eq!(library_version(b"v1..3"), None);
    assert_eq!(library_version(b"v1.2."), None);
    assert_eq!(library_version(b""), None);
}

#[test]
fn update_is_due_only_for_known_differing_version() {
    assert_eq!(
        check_update(Some("v5.9.0".to_string()), "v5.10.0".to_string()),
        ("v5.9.0".to_string(), "v5.10.0".to_string(), true)
    );
    assert_eq!(
        check_update(Some("v5.10.0".to_string()), "v5.10.0".to_string()),
        ("v5.10.0".to_string(), "v5.10.0".to_string(), false)
    );
    assert_eq!(check_update(None, "v5.10.0".to_string()), ("未知".to_string(), "v5.10.0".to_string(), false));
}

#[test]
fn copying_skips_underscore_files() {
    assert!(skipped_when_copying("_backup"));
    assert!(skipped_when_copying("_update_download.tar.gz"));
    assert!(!skipped_when_copying("libMaaCore.so"));
    assert!(!skipped_when_copying(""));
}

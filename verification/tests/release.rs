use darwinplay_runtime::error::AppError;
use darwinplay_runtime::release::{
    check_artifact_digest, check_download_url, expected_digest, is_allowed_download_url,
    is_sha256_hex, select_runtime_asset, sidecar_digest, DigestSource, GithubAsset,
    GithubRelease, MAX_ARTIFACT_BYTES,
};

fn release_with(assets: Vec<GithubAsset>) -> GithubRelease {
    GithubRelease { tag_name: "cx26.3-dp6".into(), assets }
}

fn asset(name: &str, digest: Option<&str>) -> GithubAsset {
    GithubAsset {
        name: name.into(),
        browser_download_url: format!("https://github.com/o/r/releases/download/t/{name}"),
        size: 1024,
        digest: digest.map(str::to_string),
    }
}

#[test]
fn picks_the_macos_artifact_and_ignores_its_sidecar() {
    let release = release_with(vec![
        asset("DarwinWine-cx26.3-dp6-macos-x86_64.tar.zst.sha256", None),
        asset("DarwinWine-cx26.3-dp6-macos-x86_64.tar.zst", None),
    ]);
    let selected = select_runtime_asset(&release).unwrap();
    assert_eq!(release.assets[selected].name, "DarwinWine-cx26.3-dp6-macos-x86_64.tar.zst");
}

#[test]
fn rejects_a_release_without_a_runtime_artifact() {
    let release = release_with(vec![asset("notes.txt", None)]);
    assert!(matches!(select_runtime_asset(&release).unwrap_err(), AppError::Release(_)));
}

#[test]
fn rejects_an_implausibly_large_asset() {
    let mut oversized = asset("DarwinWine-x-macos-x86_64.tar.zst", None);
    oversized.size = MAX_ARTIFACT_BYTES + 1;
    let release = release_with(vec![oversized]);
    assert!(select_runtime_asset(&release).is_err());
}

#[test]
fn prefers_the_digest_github_reports() {
    let hex = "a".repeat(64);
    let release = release_with(vec![asset(
        "DarwinWine-cx26.3-dp6-macos-x86_64.tar.zst",
        Some(&format!("sha256:{hex}")),
    )]);
    let selected = select_runtime_asset(&release).unwrap();
    match expected_digest(&release, selected).unwrap() {
        DigestSource::Reported(digest) => assert_eq!(digest, hex),
        other => panic!("{other:?}"),
    }
}

#[test]
fn refuses_to_download_from_outside_github() {
    assert!(!is_allowed_download_url("https://example.com/DarwinWine.tar.zst"));
    assert!(is_allowed_download_url("https://objects.githubusercontent.com/darwinwine.tar.zst"));
}

#[test]
fn release_errors_name_the_release_and_asset() {
    match select_runtime_asset(&release_with(vec![])) {
        Err(AppError::Release(m)) => {
            assert_eq!(m, "release cx26.3-dp6 has no DarwinWine-*-macos-x86_64.tar.zst asset")
        }
        other => panic!("{other:?}"),
    }
    let mut big = asset("DarwinWine-x-macos-x86_64.tar.zst", None);
    big.size = MAX_ARTIFACT_BYTES + 1;
    match select_runtime_asset(&release_with(vec![big])) {
        Err(AppError::Release(m)) => assert_eq!(
            m,
            "release asset DarwinWine-x-macos-x86_64.tar.zst is implausibly large (2147483649 bytes)"
        ),
        other => panic!("{other:?}"),
    }
    let mut edge = asset("DarwinWine-x-macos-x86_64.tar.zst", None);
    edge.size = MAX_ARTIFACT_BYTES;
    assert_eq!(select_runtime_asset(&release_with(vec![edge])).unwrap(), 0);
}

#[test]
fn falls_back_to_the_sidecar_checksum() {
    let release = release_with(vec![
        asset("DarwinWine-a-macos-x86_64.tar.zst", Some("sha256:short")),
        asset("DarwinWine-a-macos-x86_64.tar.zst.sha256", None),
    ]);
    match expected_digest(&release, 0).unwrap() {
        DigestSource::Sidecar(i) => assert_eq!(i, 1),
        other => panic!("{other:?}"),
    }
    let lone = release_with(vec![asset("DarwinWine-a-macos-x86_64.tar.zst", None)]);
    match expected_digest(&lone, 0) {
        Err(AppError::Release(m)) => assert_eq!(
            m,
            "release cx26.3-dp6 publishes no checksum for DarwinWine-a-macos-x86_64.tar.zst"
        ),
        other => panic!("{other:?}"),
    }
    let plain = release_with(vec![asset("DarwinWine-a-macos-x86_64.tar.zst", Some(&"B".repeat(64)))]);
    match expected_digest(&plain, 0).unwrap() {
        DigestSource::Reported(d) => assert_eq!(d, "b".repeat(64)),
        other => panic!("{other:?}"),
    }
}

#[test]
fn reads_published_and_computed_checksums() {
    let hex = "C".repeat(64);
    let text = format!("  {hex}  DarwinWine.tar.zst\n");
    assert_eq!(sidecar_digest(text.as_bytes()).unwrap(), "c".repeat(64));
    match sidecar_digest(b"not-a-digest file") {
        Err(AppError::Release(m)) => assert_eq!(m, "the published checksum is malformed"),
        other => panic!("{other:?}"),
    }
    assert!(check_artifact_digest(text.as_bytes(), &"c".repeat(64)).is_ok());
    assert!(check_artifact_digest(text.as_bytes(), &"d".repeat(64)).is_err());
    assert!(is_sha256_hex(&"0f".repeat(32)));
    assert!(!is_sha256_hex(&"g".repeat(64)));
    assert!(check_download_url("https://release-assets.githubusercontent.com/x").is_ok());
    assert!(check_download_url("http://github.com/x").is_err());
}

use darwinplay_runtime::error::AppError;
use darwinplay_runtime::graphics::{
    backup_action, check_dxmt_archive_listing, check_dxmt_asset_size, check_dxmt_url,
    check_downloaded_size, dxmt_expected_digest, dxmt_source_name, is_dxmt_candidate,
    restore_action, select_builtin_asset, BackupAction, DxmtManifest, DxmtMode, DxmtPackage,
    GraphicsBackend, GraphicsManager, RestoreAction,
};
use darwinplay_runtime::release::{GithubAsset, GithubRelease};

#[test]
fn dxgi_only_is_not_a_dxmt_candidate() {
    assert!(!is_dxmt_candidate(&["dxgi.dll".to_string(), "d3d12.dll".to_string()]));
    assert!(is_dxmt_candidate(&["dxgi.dll".to_string(), "d3d11.dll".to_string()]));
}

#[test]
fn selects_builtin_release_asset() {
    let release = GithubRelease {
        tag_name: "v0.80".to_string(),
        assets: vec![
            GithubAsset {
                name: "dxmt-v0.80-native.tar.gz".to_string(),
                browser_download_url: "https://github.com/example/native".to_string(),
                size: 1,
                digest: None,
            },
            GithubAsset {
                name: "dxmt-v0.80-builtin.tar.gz".to_string(),
                browser_download_url: "https://github.com/example/builtin".to_string(),
                size: 1,
                digest: Some("sha256:aaaaaaaaaaaaaaaaaaaaaaaaaaaaaaaaaaaaaaaaaaaaaaaaaaaaaaaaaaaaaaaa".to_string()),
            },
        ],
    };

    let index = select_builtin_asset(&release).unwrap();
    assert_eq!(release.assets[index].name, "dxmt-v0.80-builtin.tar.gz");
}

fn asset(name: &str) -> GithubAsset {
    GithubAsset { name: name.into(), browser_download_url: String::new(), size: 1, digest: None }
}

#[test]
fn builtin_asset_prefers_the_shortest_name_first_on_ties() {
    let release = GithubRelease {
        tag_name: "v".into(),
        assets: vec![
            asset("dxmt-BUILTIN-debug.tar.gz"),
            asset("dxmt-builtin.tar.gz"),
            asset("dxmt-Builtin.TAR.GZ"),
            asset("dxmt-builtin.zip"),
        ],
    };
    assert_eq!(select_builtin_asset(&release).unwrap(), 1);
    let none = GithubRelease { tag_name: "v".into(), assets: vec![asset("dxmt.zip")] };
    match select_builtin_asset(&none) {
        Err(AppError::DxmtRelease(m)) => assert_eq!(m, "latest DXMT release has no builtin tar.gz asset"),
        other => panic!("{other:?}"),
    }
}

#[test]
fn resolves_backends() {
    let g = GraphicsManager::new("/support");
    assert_eq!(g.root, "/support/components");
    assert_eq!(g.dxmt_root(), "/support/components/dxmt");
    let d3d11 = vec!["d3d11.dll".to_string()];
    let d3d9 = vec!["d3d9.dll".to_string()];
    assert_eq!(g.resolve_backend(GraphicsBackend::Auto, &d3d11, true).unwrap(), GraphicsBackend::Dxmt);
    assert_eq!(g.resolve_backend(GraphicsBackend::Auto, &d3d11, false).unwrap(), GraphicsBackend::WineD3d);
    assert_eq!(g.resolve_backend(GraphicsBackend::Auto, &d3d9, true).unwrap(), GraphicsBackend::WineD3d);
    assert!(matches!(g.resolve_backend(GraphicsBackend::Dxmt, &d3d9, false), Err(AppError::DxmtNotInstalled)));
    assert_eq!(g.resolve_backend(GraphicsBackend::WineD3d, &d3d11, true).unwrap(), GraphicsBackend::WineD3d);
    assert!(!g.dxmt_status_needed(GraphicsBackend::Auto, &d3d9));
    assert!(g.dxmt_status_needed(GraphicsBackend::Auto, &d3d11));
    assert_eq!(g.resolve_steam_ui_backend(GraphicsBackend::Dxmt).unwrap(), GraphicsBackend::WineD3d);
    assert_eq!(g.prepare_steam_ui(GraphicsBackend::Dxmt).backend, GraphicsBackend::WineD3d);
    assert_eq!(g.prepare_launch(GraphicsBackend::Auto, &d3d11, true).unwrap(), GraphicsBackend::Dxmt);
}

#[test]
fn dxmt_package_layout_and_validation() {
    let package = DxmtPackage::discover("/dxmt", true, false).unwrap();
    assert_eq!(package.winemetal_so, "/dxmt/x86_64-unix/winemetal.so");
    assert_eq!(package.dxgi, "/dxmt/x86_64-windows/dxgi.dll");
    assert!(package.d3d10core.is_none());
    assert!(package.validate(&[true, true, true, true]).is_ok());
    match package.validate(&[true, false, false, true]) {
        Err(AppError::DxmtPackageMissing(p)) => assert_eq!(p, "/dxmt/x86_64-windows/winemetal.dll"),
        other => panic!("{other:?}"),
    }
    match DxmtPackage::discover("/missing", false, false) {
        Err(AppError::InvalidDirectory(p)) => assert_eq!(p, "/missing"),
        other => panic!("{other:?}"),
    }
}

#[test]
fn dxmt_status_and_preparation() {
    let g = GraphicsManager::new("/s");
    let status = g.dxmt_status(None, false, false, &[false; 4]).unwrap();
    assert!(!status.installed);
    let manifest = DxmtManifest {
        schema_version: 2,
        mode: DxmtMode::Native,
        source_name: "dxmt".into(),
        has_d3d10core: false,
        version: Some("v0.80".into()),
        managed: true,
    };
    let status = g.dxmt_status(Some(&manifest), true, false, &[true; 4]).unwrap();
    assert!(status.installed);
    assert_eq!(status.root.as_deref(), Some("/s/components/dxmt"));
    let prep = g.prepare_dxmt("/s", "steam-ui", &manifest);
    assert!(prep.clear_log);
    assert_eq!(prep.log_path, "/s/logs/steam-ui/dxmt");
    assert_eq!(prep.dll_steps.len(), 4);
    assert_eq!(prep.dll_steps[3], ("d3d10core.dll".to_string(), None));
    assert_eq!(prep.graphics.backend, GraphicsBackend::Dxmt);
    let names: Vec<&str> = prep.graphics.environment.iter().map(|(k, _)| k.as_str()).collect();
    assert_eq!(names, vec!["DXMT_LOG_LEVEL", "DXMT_LOG_PATH", "DXMT_SHADER_CACHE_PATH", "WINEDLLOVERRIDES"]);
    assert_eq!(prep.graphics.environment[3].1, "dxgi,d3d11,d3d10core=n,b");
    let builtin = DxmtManifest { mode: DxmtMode::Builtin, has_d3d10core: true, ..manifest.clone() };
    let prep = g.prepare_dxmt("/s", "game", &builtin);
    assert!(!prep.clear_log);
    let restored: Vec<(String, Option<String>)> = ["winemetal.dll", "d3d11.dll", "dxgi.dll", "d3d10core.dll"]
        .iter()
        .map(|n| (n.to_string(), None))
        .collect();
    assert_eq!(prep.dll_steps, restored);
    assert_eq!(prep.graphics.environment[3], ("WINEDLLPATH_PREPEND".to_string(), "/s/components/dxmt".to_string()));
    assert_eq!(g.remove_dxmt(), "/s/components/dxmt");
    assert_eq!(dxmt_source_name("/downloads/dxmt-v0.80"), "dxmt-v0.80");
    assert_eq!(dxmt_source_name("/"), "/");
}

#[test]
fn restoring_undoes_a_dxmt_install() {
    // A prefix that had its own d3d11.dll: it is saved once, then restored.
    assert_eq!(backup_action(false, false, true), BackupAction::Save);
    assert_eq!(backup_action(true, false, true), BackupAction::Keep);
    assert_eq!(restore_action(true, false), RestoreAction::CopyBack);
    // A prefix without the DLL: its absence is recorded and restored.
    assert_eq!(backup_action(false, false, false), BackupAction::MarkAbsent);
    assert_eq!(backup_action(false, true, true), BackupAction::Keep);
    assert_eq!(restore_action(false, true), RestoreAction::Remove);
    assert_eq!(restore_action(false, false), RestoreAction::Nothing);
}

#[test]
fn checks_dxmt_downloads() {
    assert!(check_dxmt_asset_size(1).is_ok());
    match check_dxmt_asset_size(0) {
        Err(AppError::DxmtRelease(m)) => assert_eq!(m, "DXMT asset size is outside the allowed range: 0 bytes"),
        other => panic!("{other:?}"),
    }
    assert!(check_dxmt_asset_size(256 * 1024 * 1024 + 1).is_err());
    assert!(check_downloaded_size(5, 6).is_err());
    assert!(check_dxmt_url("https://objects.githubusercontent.com/x").is_ok());
    assert!(check_dxmt_url("https://release-assets.githubusercontent.com/x").is_err());
    let hex = "A".repeat(64);
    assert_eq!(dxmt_expected_digest(&format!("sha256:{hex}")).unwrap(), "a".repeat(64));
    match dxmt_expected_digest("md5:abc") {
        Err(AppError::DxmtRelease(m)) => assert_eq!(m, "unsupported DXMT digest: md5:abc"),
        other => panic!("{other:?}"),
    }
    assert!(dxmt_expected_digest("sha256:xyz").is_err());
    assert!(check_dxmt_archive_listing(b"dxmt/x86_64-unix/winemetal.so\ndxmt/README\n").is_ok());
    assert!(check_dxmt_archive_listing(b"dxmt/../../etc/passwd\n").is_err());
    assert!(check_dxmt_archive_listing(b"/etc/passwd\n").is_err());
}

#[test]
fn validates_dxmt_layout() {
    // A package directory holding all four required files.
    let package = DxmtPackage::discover("/tmp/darwinplay-dxmt-layout", true, false).unwrap();
    assert_eq!(
        package.required_files(),
        vec![
            "/tmp/darwinplay-dxmt-layout/x86_64-unix/winemetal.so".to_string(),
            "/tmp/darwinplay-dxmt-layout/x86_64-windows/winemetal.dll".to_string(),
            "/tmp/darwinplay-dxmt-layout/x86_64-windows/d3d11.dll".to_string(),
            "/tmp/darwinplay-dxmt-layout/x86_64-windows/dxgi.dll".to_string(),
        ]
    );
    assert!(package.validate(&[true, true, true, true]).is_ok());
}

#[test]
fn rejects_missing_dxmt_files() {
    // An empty package directory.
    let package = DxmtPackage::discover("/tmp/darwinplay-dxmt-missing", true, false).unwrap();
    match package.validate(&[false, false, false, false]) {
        Err(AppError::DxmtPackageMissing(path)) => {
            assert_eq!(path, "/tmp/darwinplay-dxmt-missing/x86_64-unix/winemetal.so")
        }
        other => panic!("unexpected {other:?}"),
    }
    assert!(DxmtPackage::discover("/tmp/darwinplay-dxmt-missing", false, false).is_err());
}

#[test]
fn restores_original_prefix_dll() {
    // system32 holds Wine's own d3d11.dll: installing DXMT's saves it first,
    // and restoring copies it back.
    assert_eq!(backup_action(false, false, true), BackupAction::Save);
    assert_eq!(backup_action(true, false, true), BackupAction::Keep);
    assert_eq!(restore_action(true, false), RestoreAction::CopyBack);
}

#[test]
fn restores_original_absence() {
    // system32 had no winemetal.dll: installing records its absence, and
    // restoring removes the installed copy.
    assert_eq!(backup_action(false, false, false), BackupAction::MarkAbsent);
    assert_eq!(backup_action(false, true, true), BackupAction::Keep);
    assert_eq!(restore_action(false, true), RestoreAction::Remove);
}

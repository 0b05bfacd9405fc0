use darwinplay_runtime::error::AppError;
use darwinplay_runtime::wine::{
    check_entrypoints, check_reported_version, command_failure, darwinwine_root, extracted_entry, missing_status, probe_failure, probe_log_tail,
    process_status_description, remove_darwinwine, runtime_status, tasklist_contains_image,
    validate_archive_listing, validate_manifest, validate_relative_runtime_path,
    validate_supported_darwinwine_version, validate_windows_executable, DarwinWineManifest,
    RuntimeObservation, WineRuntime,
};

fn manifest(schema: u32) -> DarwinWineManifest {
    DarwinWineManifest {
        schema_version: schema,
        id: "darwinwine-cx26.3-dp9".into(),
        name: "DarwinWine".into(),
        wine_version: "10.0".into(),
        darwin_wine_version: "cx26.3-dp9".into(),
        architecture: "x86_64".into(),
        minimum_mac_os: "13.0".into(),
        channel: "experimental".into(),
        entrypoint: "bin/wine".into(),
        wineserver: "bin/wineserver".into(),
        steam_validated: true,
        steam_login_validated: false,
    }
}

#[test]
fn detects_steam_in_csv_tasklist() {
    let output = "\"steam.exe\",\"00000020\",\"Console\",\"1\",\"120,000 K\"\r\n";
    assert!(tasklist_contains_image(output, "steam.exe"));
}

#[test]
fn tasklist_matches_only_image_name_column() {
    let output = "\"notepad.exe\",\"00000020\",\"steam.exe\",\"1\",\"120,000 K\"";
    assert!(!tasklist_contains_image(output, "steam.exe"));
}

#[test]
fn tasklist_accepts_bom_and_case_insensitive_image_name() {
    let output = "\u{feff}\"STEAM.EXE\",\"00000020\",\"Console\",\"1\",\"120,000 K\"";
    assert!(tasklist_contains_image(output, "steam.exe"));
}

#[test]
fn rejects_parent_runtime_path() {
    assert!(validate_relative_runtime_path("../bin/wine").is_err());
}

#[test]
fn rejects_pre_dp5_crossover_darwinwine() {
    assert!(validate_supported_darwinwine_version("cx26.3-dp4").is_err());
}

#[test]
fn rejects_legacy_winehq_darwinwine_version_family() {
    assert!(validate_supported_darwinwine_version("10.20-dp8").is_err());
}

#[test]
fn accepts_cx26_3_dp9_and_newer_darwinwine() {
    assert!(validate_supported_darwinwine_version("cx26.3-dp5").is_err());
    assert!(validate_supported_darwinwine_version("cx26.3-dp8").is_err());
    assert!(validate_supported_darwinwine_version("cx26.3-dp9").is_ok());
    assert!(validate_supported_darwinwine_version("cx26.3-dp10").is_ok());
    assert!(validate_supported_darwinwine_version("cx26.4-dp1").is_ok());
    assert!(validate_supported_darwinwine_version("cx27.0-dp1").is_ok());
}

#[test]
fn accepts_schema2_crossover_manifest() {
    assert!(validate_manifest(&manifest(2)).is_ok());
}

#[test]
fn rejects_schema1_manifest() {
    assert!(validate_manifest(&manifest(1)).is_err());
}

#[test]
fn tasklist_plain_and_empty_lines() {
    assert!(tasklist_contains_image("steam.exe,20,Console\n", "STEAM.exe"));
    assert!(!tasklist_contains_image("\n   \n", "steam.exe"));
    assert!(!tasklist_contains_image("\"steam.exe\"x", "steam"));
}

#[test]
fn manifest_checks() {
    let mut m = manifest(2);
    m.architecture = "arm64".into();
    assert!(validate_manifest(&m).is_err());
    let mut m = manifest(2);
    m.entrypoint = "/bin/wine".into();
    assert!(validate_manifest(&m).is_err());
    let mut m = manifest(2);
    m.darwin_wine_version = "cx26.3-dp8".into();
    assert!(validate_manifest(&m).is_err());
}

#[test]
fn discovers_runtime_entrypoints() {
    let root = darwinwine_root("/s");
    assert_eq!(root, "/s/runtime/darwinwine");
    assert_eq!(remove_darwinwine("/s"), root);
    let (wine, wineserver) = WineRuntime::discover(&root, true, Some(&manifest(2))).unwrap();
    assert_eq!(wine, "/s/runtime/darwinwine/bin/wine");
    assert_eq!(wineserver, "/s/runtime/darwinwine/bin/wineserver");
    assert!(matches!(WineRuntime::discover(&root, false, None), Err(AppError::RuntimeNotFound)));
    assert!(matches!(WineRuntime::discover(&root, true, None), Err(AppError::RuntimeNotFound)));
    assert!(matches!(WineRuntime::discover(&root, true, Some(&manifest(1))), Err(AppError::Runtime(_))));
}

#[test]
fn reports_runtime_status() {
    let missing = missing_status(Some("x".into()));
    assert!(!missing.installed && !missing.ready);
    assert_eq!(missing.runtime_name.as_deref(), Some("DarwinWine"));
    let status = runtime_status(RuntimeObservation::Installed {
        manifest: manifest(2),
        wine_path: "/w".into(),
        probe: Ok("wine-10.0".into()),
    });
    assert!(status.installed && status.ready);
    assert_eq!(status.wine_version.as_deref(), Some("wine-10.0"));
    let failed = runtime_status(RuntimeObservation::Installed {
        manifest: manifest(2),
        wine_path: "/w".into(),
        probe: Err("boom".into()),
    });
    assert!(failed.installed && !failed.ready);
    assert_eq!(failed.probe_error.as_deref(), Some("boom"));
}

#[test]
fn windows_commands() {
    assert!(validate_windows_executable("C:\\windows\\system32\\reg.exe").is_ok());
    for bad in ["C:/x.exe", "C:\\..\\x", "C:\\x\\..", "x.exe", "C:"] {
        assert!(matches!(validate_windows_executable(bad), Err(AppError::InvalidFile(_))), "{bad}");
    }
    let runtime = WineRuntime::new("/w/bin/wine".into(), "/w/bin/wineserver".into(), "wine-10".into());
    assert_eq!(runtime.version(), "wine-10");
    assert_eq!(
        runtime.launch_windows("C:\\a.exe", &["-x".to_string()]).unwrap(),
        vec!["C:\\a.exe".to_string(), "-x".to_string()]
    );
    assert_eq!(runtime.launch("/games/x/game.exe").unwrap(), "G:\\game.exe");
    assert!(matches!(runtime.launch("/"), Err(AppError::MissingFileName(_))));
    assert!(matches!(runtime.launch("/games/a:b.exe"), Err(AppError::InvalidFile(_))));
}

#[test]
fn describes_failures() {
    assert_eq!(process_status_description(Some(3), None), "exited with code 3");
    assert_eq!(process_status_description(None, Some(9)), "terminated by signal 9");
    assert_eq!(process_status_description(None, None), "terminated without an exit code");
    match command_failure("tasklist", b" out ", b"  ", "exited with code 1") {
        AppError::ProcessFailed(m) => assert_eq!(m, "tasklist: out"),
        other => panic!("{other:?}"),
    }
    match command_failure("tasklist", b"", b"", "exited with code 1") {
        AppError::ProcessFailed(m) => assert_eq!(m, "tasklist: exited with code 1"),
        other => panic!("{other:?}"),
    }
    let log: String = (1..=45).map(|i| format!("line {i}\n")).collect();
    let tail = probe_log_tail(&log);
    assert!(tail.starts_with("line 6\n") && tail.ends_with("line 45"));
    match probe_failure("probe failed", Some("exited with code 1"), "") {
        AppError::Runtime(m) => assert_eq!(m, "probe failed (exited with code 1)"),
        other => panic!("{other:?}"),
    }
}

#[test]
fn validates_runtime_archive_listings() {
    let entries = validate_archive_listing(b"darwinwine/\ndarwinwine/bin/wine\n\n darwinwine/bin/wine \n").unwrap();
    assert_eq!(entries.len(), 2);
    match validate_archive_listing(b"ok\n../escape\n") {
        Err(AppError::Runtime(m)) => assert_eq!(m, "unsafe path in DarwinWine archive: ../escape"),
        other => panic!("{other:?}"),
    }
    match validate_archive_listing(b"\n  \n") {
        Err(AppError::Runtime(m)) => assert_eq!(m, "DarwinWine archive is empty"),
        other => panic!("{other:?}"),
    }
    assert_eq!(extracted_entry("x darwinwine/bin/wine "), "darwinwine/bin/wine".chars().collect::<Vec<_>>());
}

#[test]
fn entrypoints_must_both_exist() {
    assert!(check_entrypoints(true, true).is_ok());
    match check_entrypoints(true, false) {
        Err(AppError::Runtime(m)) => assert_eq!(m, "DarwinWine entrypoints are missing"),
        other => panic!("unexpected {other:?}"),
    }
    assert!(check_entrypoints(false, true).is_err());
}

#[test]
fn unpacked_runtime_must_report_its_wine_version() {
    let m = manifest(2);
    assert!(check_reported_version("wine-10.0 (Staging)", &m).is_ok());
    match check_reported_version("wine-9.22", &m) {
        Err(AppError::Runtime(t)) => {
            assert_eq!(t, "runtime reports wine-9.22, manifest expects Wine 10.0")
        }
        other => panic!("unexpected {other:?}"),
    }
}

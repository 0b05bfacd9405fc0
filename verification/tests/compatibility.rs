use darwinplay_runtime::compatibility::{
    backend_name, build_candidate, classify, effective_backend, is_executable_path,
    name_similarity_score, scan_candidates, scan_candidates_checked, score_fits_check, sort_candidates, validate_launch_arguments,
    validate_relative_executable, BackendOverride, CompatibilityLevel, CompatibilityManager,
    ExecutableCandidate, ExecutableKind, StoredProfile,
};
use darwinplay_runtime::error::AppError;
use darwinplay_runtime::graphics::GraphicsBackend;
use darwinplay_runtime::pe::PeReport;

fn candidate(path: &str, score: i32, recommended: Option<&str>) -> ExecutableCandidate {
    ExecutableCandidate {
        relative_path: path.into(),
        architecture: "x86_64".into(),
        subsystem: "windows-gui".into(),
        graphics_apis: vec![],
        imports: vec!["d3d11.dll".into()],
        score,
        kind: ExecutableKind::Game,
        recommended_backend: recommended.map(str::to_string),
        compatibility: CompatibilityLevel::Promising,
        reasons: vec!["reason".into()],
    }
}

fn report(imports: &[&str]) -> PeReport {
    PeReport {
        path: "game.exe".into(),
        architecture: "x86_64".into(),
        subsystem: "windows-gui".into(),
        entry_point: 0x1000,
        image_base: 0x140000000,
        imports: imports.iter().map(|s| s.to_string()).collect(),
        graphics_apis: vec![],
    }
}

#[test]
fn persists_only_overrides() {
    let manager = CompatibilityManager::new("/tmp/darwinplay");
    let stored = manager
        .save(
            570,
            BackendOverride::Dxmt,
            Some("bin/game.exe"),
            vec!["-dx11".into()],
            &["bin/game.exe".into()],
        )
        .unwrap();
    let stored = manager.load(570, Some(stored)).unwrap();
    assert_eq!(stored.backend_override, BackendOverride::Dxmt);
    assert_eq!(stored.selected_executable.as_deref(), Some("bin/game.exe"));
    assert_eq!(stored.launch_arguments, vec!["-dx11"]);
}

#[test]
fn rejects_executable_outside_installation() {
    let manager = CompatibilityManager::new("/tmp/darwinplay");
    let error = manager
        .save(570, BackendOverride::Inherit, Some("other.exe"), vec![], &["game.exe".into()])
        .unwrap_err();
    assert!(matches!(error, AppError::InvalidCompatibilityProfile(_)));
}

#[test]
fn classifies_redistributables() {
    assert_eq!(
        classify("_CommonRedist/vcredist/2022/vc_redist.x64.exe"),
        ExecutableKind::Redistributable
    );
}

#[test]
fn auto_backend_prefers_dxmt_for_d3d11() {
    let candidate = ExecutableCandidate {
        relative_path: "game.exe".into(),
        architecture: "x86_64".into(),
        subsystem: "windows-gui".into(),
        graphics_apis: vec!["Direct3D 11 / DXGI".into()],
        imports: vec!["d3d11.dll".into()],
        score: 300,
        kind: ExecutableKind::Game,
        recommended_backend: Some("dxmt".into()),
        compatibility: CompatibilityLevel::Promising,
        reasons: vec![],
    };
    assert_eq!(
        effective_backend(BackendOverride::Auto, GraphicsBackend::Auto, Some(&candidate), true),
        GraphicsBackend::Dxmt
    );
}

#[test]
fn effective_backend_is_never_auto() {
    let c = candidate("game.exe", 1, Some("dxmt"));
    for o in [BackendOverride::Inherit, BackendOverride::Auto] {
        for installed in [false, true] {
            let b = effective_backend(o, GraphicsBackend::Auto, Some(&c), installed);
            assert_ne!(b, GraphicsBackend::Auto);
        }
    }
    assert_eq!(
        effective_backend(BackendOverride::Auto, GraphicsBackend::Dxmt, Some(&c), false),
        GraphicsBackend::WineD3d
    );
    assert_eq!(
        effective_backend(BackendOverride::Inherit, GraphicsBackend::Dxmt, None, false),
        GraphicsBackend::Dxmt
    );
    assert_eq!(
        effective_backend(BackendOverride::Wined3d, GraphicsBackend::Dxmt, Some(&c), true),
        GraphicsBackend::WineD3d
    );
    assert_eq!(effective_backend(BackendOverride::Auto, GraphicsBackend::Auto, None, true), GraphicsBackend::WineD3d);
}

#[test]
fn classifies_tools_launchers_and_games() {
    assert_eq!(classify("bin/UnityCrashHandler64.exe"), ExecutableKind::Game);
    assert_eq!(classify("bin/CrashReportClient.exe"), ExecutableKind::Tool);
    assert_eq!(classify("Launcher.exe"), ExecutableKind::Launcher);
    assert_eq!(classify("tools/unins000.exe"), ExecutableKind::Tool);
    assert_eq!(classify("DirectX/dxsetup.exe"), ExecutableKind::Redistributable);
    assert_eq!(classify("bin/x64/witcher3.exe"), ExecutableKind::Game);
}

#[test]
fn validates_relative_executable_paths() {
    assert!(validate_relative_executable("bin/x64/game.exe").is_ok());
    assert!(validate_relative_executable("GAME.EXE").is_ok());
    for bad in ["", "/abs/game.exe", "\\game.exe", "c:game.exe", "bin\\game.exe", "bin//game.exe", "./game.exe", "../game.exe", "bin/game.bat"] {
        match validate_relative_executable(bad) {
            Err(AppError::InvalidCompatibilityProfile(message)) => {
                assert_eq!(message, format!("invalid relative executable path: {bad}"))
            }
            other => panic!("{bad} gave {other:?}"),
        }
    }
}

#[test]
fn limits_launch_arguments() {
    assert!(validate_launch_arguments(&["-dx11".to_string()]).is_ok());
    let many: Vec<String> = (0..65).map(|i| format!("-a{i}")).collect();
    match validate_launch_arguments(&many) {
        Err(AppError::InvalidCompatibilityProfile(m)) => assert_eq!(m, "at most 64 launch arguments are allowed"),
        other => panic!("{other:?}"),
    }
    match validate_launch_arguments(&["a\0b".to_string()]) {
        Err(AppError::InvalidCompatibilityProfile(m)) => assert_eq!(m, "launch argument is invalid or too long"),
        other => panic!("{other:?}"),
    }
    match validate_launch_arguments(&["x".repeat(1025)]) {
        Err(AppError::InvalidCompatibilityProfile(m)) => assert_eq!(m, "launch argument is invalid or too long"),
        other => panic!("{other:?}"),
    }
    assert!(validate_launch_arguments(&["x".repeat(1024)]).is_ok());
    let total: Vec<String> = (0..9).map(|_| "x".repeat(1000)).collect();
    match validate_launch_arguments(&total) {
        Err(AppError::InvalidCompatibilityProfile(m)) => assert_eq!(m, "launch arguments exceed the total size limit"),
        other => panic!("{other:?}"),
    }
}

#[test]
fn scores_name_similarity_in_words() {
    let file: Vec<char> = "witcher".chars().collect();
    let game: Vec<char> = "The Witcher 3".chars().collect();
    assert_eq!(name_similarity_score(&file, &game), 12);
    let file: Vec<char> = "dota2".chars().collect();
    let game: Vec<char> = "Dota 2".chars().collect();
    assert_eq!(name_similarity_score(&file, &game), 0);
    let file: Vec<char> = "red_dead_redemption_two".chars().collect();
    let game: Vec<char> = "Red Dead Redemption Two Red".chars().collect();
    assert_eq!(name_similarity_score(&file, &game), 48);
}

#[test]
fn builds_candidates_with_score_and_reasons() {
    let c = build_candidate("bin/x64/witcher3.exe", &report(&["d3d11.dll", "steam_api64.dll"]), "The Witcher 3", true).unwrap();
    // 35 (x86_64) + 15 (gui) + 260 (d3d11) + 35 (steam) + 0 (path) + 0 (name) - 6 (depth) + 50 (game)
    assert_eq!(c.score, 389);
    assert_eq!(c.kind, ExecutableKind::Game);
    assert_eq!(c.recommended_backend.as_deref(), Some("dxmt"));
    assert_eq!(c.compatibility, CompatibilityLevel::Promising);
    assert_eq!(
        c.reasons,
        vec![
            "Direct3D 11 imports detected".to_string(),
            "DXMT is installed".to_string(),
            "Candidate score: 389".to_string(),
            "Candidate type: game".to_string(),
        ]
    );
    let d12 = build_candidate("game.exe", &report(&["d3d12.dll"]), "Game", false).unwrap();
    assert_eq!(d12.recommended_backend, None);
    assert_eq!(d12.compatibility, CompatibilityLevel::Unsupported);
    let vk = build_candidate("game.exe", &report(&["vulkan-1.dll", "d3d9.dll"]), "Game", false).unwrap();
    assert_eq!(vk.recommended_backend.as_deref(), Some("wined3d"));
    assert_eq!(vk.compatibility, CompatibilityLevel::Fallback);
    assert_eq!(vk.reasons[0], "Vulkan imports detected");
    let none = build_candidate("game.exe", &report(&[]), "Game", false).unwrap();
    assert_eq!(none.compatibility, CompatibilityLevel::Unknown);
    let needs = build_candidate("game.exe", &report(&["d3d10core.dll"]), "Game", false).unwrap();
    assert_eq!(needs.compatibility, CompatibilityLevel::NeedsComponent);
    assert_eq!(needs.reasons[0], "Direct3D 10 imports detected");
    assert_eq!(needs.reasons[1], "DXMT is not installed");
    assert!(build_candidate("../escape.exe", &report(&[]), "Game", false).is_err());
}

#[test]
fn redistributables_score_low() {
    let r = build_candidate("_CommonRedist/vcredist.exe", &report(&[]), "Game", false).unwrap();
    // 35 + 15 - 3 - 400
    assert_eq!(r.score, -353);
}

#[test]
fn scan_keeps_valid_inspected_executables_in_order() {
    let files = vec![
        ("b/game.exe".to_string(), Ok(report(&["d3d11.dll"]))),
        ("broken.exe".to_string(), Err(AppError::InvalidPe("x".into()))),
        ("../outside.exe".to_string(), Ok(report(&[]))),
        ("a/tool_setup.exe".to_string(), Ok(report(&[]))),
    ];
    let found = scan_candidates(&files, "Game", false);
    let paths: Vec<&str> = found.iter().map(|c| c.relative_path.as_str()).collect();
    assert_eq!(paths, vec!["b/game.exe", "a/tool_setup.exe"]);
}

#[test]
fn checked_scan_matches_the_plain_scan() {
    let files = vec![
        ("b/game.exe".to_string(), Ok(report(&["d3d11.dll"]))),
        ("broken.exe".to_string(), Err(AppError::InvalidPe("x".into()))),
        ("../outside.exe".to_string(), Ok(report(&[]))),
    ];
    let found = scan_candidates_checked(&files, "Game", false).unwrap();
    let paths: Vec<&str> = found.iter().map(|c| c.relative_path.as_str()).collect();
    assert_eq!(paths, vec!["b/game.exe"]);
    assert_eq!(found[0].score, scan_candidates(&files, "Game", false)[0].score);
}

#[test]
fn score_check_accepts_ordinary_paths() {
    let r = report(&["d3d11.dll"]);
    assert!(score_fits_check("a/b/game.exe", "Game", &r, ExecutableKind::Game));
    assert!(score_fits_check("redist/vcredist_x64.exe", "", &r, ExecutableKind::Redistributable));
}

#[test]
fn sorts_by_score_then_lowercase_path() {
    let sorted = sort_candidates(vec![
        candidate("b.exe", 10, None),
        candidate("A.exe", 10, None),
        candidate("c.exe", 20, None),
        candidate("a.exe", 10, None),
    ]);
    let paths: Vec<&str> = sorted.iter().map(|c| c.relative_path.as_str()).collect();
    assert_eq!(paths, vec!["c.exe", "A.exe", "a.exe", "b.exe"]);
}

#[test]
fn analysis_selects_saved_or_best_and_launch_follows_it() {
    let manager = CompatibilityManager::new("/tmp/darwinplay");
    let stored = StoredProfile {
        schema_version: 1,
        app_id: 10,
        backend_override: BackendOverride::Auto,
        selected_executable: Some("b.exe".into()),
        launch_arguments: vec!["-x".into()],
    };
    let profile = manager
        .analyze(
            10,
            "Game",
            "/games/game",
            true,
            Some(stored),
            vec![candidate("a.exe", 50, Some("wined3d")), candidate("b.exe", 40, Some("dxmt"))],
            true,
            GraphicsBackend::WineD3d,
        )
        .unwrap();
    assert_eq!(profile.selected_executable.as_deref(), Some("b.exe"));
    assert_eq!(profile.recommended_executable.as_deref(), Some("a.exe"));
    assert_eq!(profile.recommended_backend.as_deref(), Some("dxmt"));
    assert_eq!(profile.effective_backend, "dxmt");
    let (backend, imports, arguments) = manager.launch_configuration(&profile, GraphicsBackend::WineD3d);
    assert_eq!(backend_name(backend), profile.effective_backend);
    assert_eq!(imports, vec!["d3d11.dll".to_string()]);
    assert_eq!(arguments, vec!["-x".to_string()]);

    let stale = StoredProfile {
        schema_version: 1,
        app_id: 10,
        backend_override: BackendOverride::Inherit,
        selected_executable: Some("gone.exe".into()),
        launch_arguments: vec![],
    };
    let profile = manager
        .analyze(10, "Game", "/games/game", true, Some(stale), vec![candidate("a.exe", 50, Some("wined3d"))], false, GraphicsBackend::Dxmt)
        .unwrap();
    assert_eq!(profile.selected_executable, None);
    assert_eq!(profile.effective_backend, "dxmt");
    assert_eq!(
        profile.reasons,
        vec!["reason".to_string(), "Saved analysis target is no longer installed: gone.exe".to_string()]
    );
}

#[test]
fn analysis_reports_missing_directory_and_empty_games() {
    let manager = CompatibilityManager::new("/tmp/darwinplay");
    match manager.analyze(1, "G", "/nowhere", false, None, vec![], false, GraphicsBackend::Auto) {
        Err(AppError::InvalidDirectory(p)) => assert_eq!(p, "/nowhere"),
        other => panic!("{other:?}"),
    }
    let profile = manager.analyze(1, "G", "/g", true, None, vec![], false, GraphicsBackend::Auto).unwrap();
    assert_eq!(profile.compatibility, CompatibilityLevel::Unknown);
    assert_eq!(profile.effective_backend, "wined3d");
    assert_eq!(
        profile.reasons,
        vec!["No Windows executables were detected in the installed game directory".to_string()]
    );
    assert_eq!(profile.recommended_executable, None);
    assert!(profile.game_fixes.is_empty());
}

#[test]
fn profile_lists_known_fixes_and_their_reason_line() {
    let manager = CompatibilityManager::new("/tmp/darwinplay");
    let profile = manager
        .analyze(2054970, "Dragon's Dogma 2", "/g", true, None, vec![candidate("DD2.exe", 50, Some("wined3d"))], false, GraphicsBackend::Auto)
        .unwrap();
    assert_eq!(
        profile.reasons,
        vec![
            "reason".to_string(),
            "Applied compatibility fix for Dragon's Dogma 2 (DD2.exe): nvapi64=disabled".to_string()
        ]
    );
    assert_eq!(profile.game_fixes.len(), 1);
    assert_eq!(profile.game_fixes[0].executable, "DD2.exe");
    assert_eq!(profile.game_fixes[0].dll_overrides, vec!["nvapi64=disabled".to_string()]);
}

#[test]
fn load_refuses_foreign_or_invalid_profiles() {
    let manager = CompatibilityManager::new("/tmp/darwinplay");
    let defaults = manager.load(7, None).unwrap();
    assert_eq!(defaults.backend_override, BackendOverride::Inherit);
    assert_eq!(defaults.schema_version, 1);
    let other = StoredProfile {
        schema_version: 1,
        app_id: 8,
        backend_override: BackendOverride::Inherit,
        selected_executable: None,
        launch_arguments: vec![],
    };
    match manager.load(7, Some(other)) {
        Err(AppError::InvalidCompatibilityProfile(m)) => assert_eq!(m, "invalid profile metadata for Steam app 7"),
        other => panic!("{other:?}"),
    }
    let bad_path = StoredProfile {
        schema_version: 1,
        app_id: 7,
        backend_override: BackendOverride::Inherit,
        selected_executable: Some("../x.exe".into()),
        launch_arguments: vec![],
    };
    assert!(manager.load(7, Some(bad_path)).is_err());
}

#[test]
fn profile_paths_and_executable_extensions() {
    let manager = CompatibilityManager::new("/support");
    assert_eq!(manager.root, "/support/compatibility/steam");
    assert_eq!(manager.path(570), "/support/compatibility/steam/570.json");
    assert!(is_executable_path("/games/x/Game.EXE"));
    assert!(!is_executable_path("/games/x/.exe"));
    assert!(!is_executable_path("/games/x/game.dll"));
}

use darwinplay_runtime::gamefix::{
    apply, fixes_for, known_fixes, registry_arguments, reports_for, validate_fix, DllOverride,
    GameFix, OverrideMode,
};

#[test]
fn every_known_fix_is_valid() {
    for fix in known_fixes() {
        validate_fix(&fix).unwrap();
        assert!(!fix.reason.is_empty(), "fix for {} has no reason", fix.app_id);
        assert!(!fix.title.is_empty());
    }
}

#[test]
fn dragons_dogma_2_disables_nvapi() {
    let fixes = fixes_for(2054970);
    assert_eq!(fixes.len(), 1);
    let arguments = registry_arguments(&fixes[0]);
    assert_eq!(
        arguments,
        vec![vec![
            "add".to_string(),
            "HKCU\\Software\\Wine\\AppDefaults\\DD2.exe\\DllOverrides".to_string(),
            "/v".to_string(),
            "nvapi64".to_string(),
            "/t".to_string(),
            "REG_SZ".to_string(),
            "/d".to_string(),
            String::new(),
            "/f".to_string(),
        ]]
    );
}

#[test]
fn unknown_app_has_no_fixes() {
    assert!(fixes_for(570).is_empty());
    assert!(reports_for(570).is_empty());
}

#[test]
fn override_modes_map_to_wine_registry_values() {
    assert_eq!(OverrideMode::Disabled.registry_value(), "");
    assert_eq!(OverrideMode::Native.registry_value(), "native");
    assert_eq!(OverrideMode::Builtin.registry_value(), "builtin");
    assert_eq!(OverrideMode::NativeThenBuiltin.registry_value(), "native,builtin");
    assert_eq!(OverrideMode::BuiltinThenNative.registry_value(), "builtin,native");
}

#[test]
fn reports_render_override_labels() {
    let reports = reports_for(2054970);
    assert_eq!(reports.len(), 1);
    assert_eq!(reports[0].executable, "DD2.exe");
    assert_eq!(reports[0].dll_overrides, vec!["nvapi64=disabled".to_string()]);
    assert!(reports[0].reason.contains("Streamline"));
}

#[test]
fn rejects_malformed_entries() {
    let bad = GameFix {
        app_id: 1,
        title: "Bad",
        executable: "..\\evil.exe",
        dll_overrides: &[DllOverride { dll: "nvapi64", mode: OverrideMode::Disabled }],
        reason: "test",
    };
    assert!(validate_fix(&bad).is_err());
    let empty = GameFix {
        app_id: 1,
        title: "Bad",
        executable: "game.exe",
        dll_overrides: &[],
        reason: "test",
    };
    assert!(validate_fix(&empty).is_err());
}

#[test]
fn malformed_entry_error_names_the_app() {
    let bad = GameFix {
        app_id: 42,
        title: "Bad",
        executable: "game.exe",
        dll_overrides: &[DllOverride { dll: "nv api", mode: OverrideMode::Native }],
        reason: "test",
    };
    match validate_fix(&bad) {
        Err(darwinplay_runtime::error::AppError::InvalidCompatibilityProfile(m)) => {
            assert_eq!(m, "invalid game fix entry for Steam app 42")
        }
        other => panic!("{other:?}"),
    }
    let good = GameFix {
        app_id: 42,
        title: "Good",
        executable: "Game.EXE",
        dll_overrides: &[DllOverride { dll: "d3d_compiler-47.x", mode: OverrideMode::Builtin }],
        reason: "test",
    };
    assert!(validate_fix(&good).is_ok());
}

#[test]
fn mode_labels() {
    assert_eq!(OverrideMode::Disabled.label(), "disabled");
    assert_eq!(OverrideMode::NativeThenBuiltin.label(), "native,builtin");
}

#[test]
fn applying_plans_one_registry_write_per_override() {
    let (plans, error) = apply(2054970);
    assert!(error.is_none());
    assert_eq!(plans.len(), 1);
    assert_eq!(plans[0].commands.len(), 1);
    assert_eq!(plans[0].commands[0][3], "nvapi64");
    assert_eq!(
        plans[0].applied,
        "Applied compatibility fix for Dragon's Dogma 2 (DD2.exe): nvapi64=disabled"
    );
    let (none, error) = apply(570);
    assert!(none.is_empty() && error.is_none());
}

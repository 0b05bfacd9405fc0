use darwinplay_runtime::error::AppError;
use darwinplay_runtime::steam::{
    check_game_executable,    after_client_exit, content_length, find_steam_executable, gpu_acceleration_disabled_in_registry,
    host_path_to_windows, is_app_manifest_name, is_webhelper_shim, library_order, sort_by_lowercase, latest_webhelper_command_line,
    library_folder_windows_paths, log_tail, merge_games, normalize_host_path, parse_app_manifest,
    resolve_game_executable, start_plan, steam_cef_safe_arguments, webhelper_shim_action,
    windows_drive_link, windows_path_to_host, ClientExit, ShimAction, StartPlan, SteamGame,
    SteamManager, SteamObservation, SteamUiSession, STEAM_UI_POLICY_VERSION,
    STEAM_WEBHELPER_SHIM_MAX_LEN,
};

#[test]
fn extracts_latest_webhelper_command_line() {
    let text = "[1] Startup - webhelper launched pid: 1 commandline: old\n[2] Startup - webhelper launched pid: 2 commandline: steamwebhelper.exe --disable-gpu --disable-gpu-compositing";
    assert_eq!(
        latest_webhelper_command_line(text).as_deref(),
        Some("steamwebhelper.exe --disable-gpu --disable-gpu-compositing")
    );
}

#[test]
fn steam_cef_safe_mode_adds_composer_and_noverify_once() {
    let arguments = vec!["-silent".to_string()];
    assert_eq!(
        steam_cef_safe_arguments(&arguments),
        vec![
            "-noverifyfiles".to_string(),
            "-system-composer".to_string(),
            "-silent".to_string(),
        ]
    );
    let existing = vec![
        "-NOVERIFYFILES".to_string(),
        "-SYSTEM-COMPOSER".to_string(),
        "-silent".to_string(),
    ];
    assert_eq!(steam_cef_safe_arguments(&existing), existing);
}

#[test]
fn steam_cef_safe_mode_drops_disable_gpu() {
    let arguments = vec!["-cef-disable-gpu".to_string(), "-silent".to_string()];
    let result = steam_cef_safe_arguments(&arguments);
    assert!(!result.iter().any(|a| a.eq_ignore_ascii_case("-cef-disable-gpu")));
    assert!(result.contains(&"-silent".to_string()));
}

#[test]
fn steam_ui_session_records_the_policy_version() {
    let session = SteamUiSession { ui_policy_version: STEAM_UI_POLICY_VERSION };
    assert_eq!(session.ui_policy_version, STEAM_UI_POLICY_VERSION);
    assert_eq!(darwinplay_runtime::steam::current_session().ui_policy_version, 9);
    assert_eq!(start_plan(true, Some(SteamUiSession { ui_policy_version: 9 })), StartPlan::AlreadyRunning);
    assert_eq!(start_plan(true, Some(SteamUiSession { ui_policy_version: 10 })), StartPlan::RestartForPolicy);
}

#[test]
fn cef_safe_arguments_are_stable() {
    let once = steam_cef_safe_arguments(&["-CEF-Disable-GPU".to_string(), "-applaunch".to_string()]);
    assert_eq!(steam_cef_safe_arguments(&once), once);
    assert_eq!(once, vec!["-noverifyfiles", "-system-composer", "-applaunch"]);
}

#[test]
fn parses_app_manifest() {
    let text = r#""AppState" { "appid" "570" "name" "Dota 2" "StateFlags" "4" "installdir" "dota 2 beta" "SizeOnDisk" "100" }"#;
    let game = parse_app_manifest(text, "/lib/steamapps/appmanifest_570.acf", "/lib/steamapps").unwrap();
    assert_eq!(game.app_id, 570);
    assert_eq!(game.name, "Dota 2");
    assert_eq!(game.state_flags, 4);
    assert_eq!(game.size_on_disk, 100);
    assert_eq!(game.install_path, "/lib/steamapps/common/dota 2 beta");
}

#[test]
fn app_manifest_errors() {
    match parse_app_manifest(r#""Other" { }"#, "m", "s") {
        Err(AppError::InvalidVdf(m)) => assert_eq!(m, "AppState root is missing"),
        other => panic!("{other:?}"),
    }
    match parse_app_manifest(r#""AppState" { "appid" "x" }"#, "m", "s") {
        Err(AppError::InvalidVdf(m)) => assert_eq!(m, "appid is not an unsigned integer"),
        other => panic!("{other:?}"),
    }
    match parse_app_manifest(r#""AppState" { "appid" "1" "installdir" "x" }"#, "m", "s") {
        Err(AppError::InvalidVdf(m)) => assert_eq!(m, "missing name"),
        other => panic!("{other:?}"),
    }
    let game = parse_app_manifest(r#""AppState" { "appid" "+7" "name" "n" "installdir" "d" "StateFlags" "-1" }"#, "m", "s").unwrap();
    assert_eq!(game.app_id, 7);
    assert_eq!(game.state_flags, 0);
    assert!(is_app_manifest_name("appmanifest_570.acf"));
    assert!(!is_app_manifest_name("appmanifest_570.acf.tmp"));
}

#[test]
fn maps_windows_drive_to_prefix() {
    let prefix = "/tmp/dp/prefix";
    let value = "C:\\Program Files (x86)\\Steam";
    assert_eq!(windows_drive_link(prefix, value).unwrap(), "/tmp/dp/prefix/dosdevices/c:");
    let mapped = windows_path_to_host(prefix, value, "../drive_c").unwrap();
    assert_eq!(mapped, "/tmp/dp/prefix/drive_c/Program Files (x86)/Steam");
    assert_eq!(windows_path_to_host(prefix, "D:/Games/x", "/Volumes/Games").unwrap(), "/Volumes/Games/Games/x");
    assert!(windows_drive_link(prefix, "relative\\path").is_none());
    assert!(windows_path_to_host(prefix, "C:\\a\\..\\b", "/x").is_none());
}

#[test]
fn expresses_a_host_path_as_a_dos_path() {
    let prefix = "/tmp/dp/prefix";
    let entries = vec![
        ("z:".to_string(), Some("/".to_string())),
        ("c:".to_string(), Some("../drive_c".to_string())),
        ("::$".to_string(), None),
    ];
    assert_eq!(
        host_path_to_windows(prefix, "/tmp/dp/prefix/drive_c/games/witcher/bin/game.exe", &entries).as_deref(),
        Some("C:\\games\\witcher\\bin\\game.exe")
    );
    assert_eq!(host_path_to_windows(prefix, "/etc/hosts", &entries).as_deref(), Some("Z:\\etc\\hosts"));
    let only_c = vec![("c:".to_string(), Some("../drive_c".to_string()))];
    assert!(host_path_to_windows(prefix, "/etc/hosts", &only_c).is_none());
    let unreadable = vec![("c:".to_string(), None), ("z:".to_string(), Some("/".to_string()))];
    assert!(host_path_to_windows(prefix, "/etc/hosts", &unreadable).is_none());
}

#[test]
fn selected_executable_must_stay_inside_the_installation() {
    let install = "/tmp/dp/The Witcher 3";
    assert_eq!(
        resolve_game_executable(install, "bin/x64/witcher3.exe").unwrap(),
        "/tmp/dp/The Witcher 3/bin/x64/witcher3.exe"
    );
    assert!(resolve_game_executable(install, "../outside.exe").is_err());
    // bin/x64/witcher3.exe exists; bin/x64/missing.exe does not.
    let found = resolve_game_executable(install, "bin/x64/witcher3.exe").unwrap();
    assert_eq!(check_game_executable(found, true).unwrap(), "/tmp/dp/The Witcher 3/bin/x64/witcher3.exe");
    let missing = resolve_game_executable(install, "bin/x64/missing.exe").unwrap();
    match check_game_executable(missing, false) {
        Err(AppError::InvalidFile(path)) => assert_eq!(path, "/tmp/dp/The Witcher 3/bin/x64/missing.exe"),
        other => panic!("unexpected {other:?}"),
    }
    assert_eq!(resolve_game_executable("/a/./b/../c/", "g.exe").unwrap(), "/a/c/g.exe");
}

#[test]
fn normalizes_host_paths() {
    assert_eq!(normalize_host_path("/a/b/../c/./d"), "/a/c/d");
    assert_eq!(normalize_host_path("/../a"), "/a");
    assert_eq!(normalize_host_path("../a//b/"), "a/b");
    assert_eq!(normalize_host_path(""), "");
}

#[test]
fn recognises_its_own_shim_but_not_the_stock_helper() {
    let mut shim = vec![0u8; 4096];
    shim[100..122].copy_from_slice(b"DARWINPLAY_SWH_SHIM_V1");
    assert!(is_webhelper_shim(shim.len() as u64, &shim));
    assert!(!is_webhelper_shim(STEAM_WEBHELPER_SHIM_MAX_LEN + 1, &shim));
    assert!(!is_webhelper_shim(10, b"MZ-ORIGINAL"));
}

#[test]
fn shim_install_preserves_stock_helper_and_is_idempotent() {
    assert_eq!(webhelper_shim_action(true, false, false), ShimAction::Install);
    assert_eq!(webhelper_shim_action(true, true, true), ShimAction::Skip);
    assert_eq!(webhelper_shim_action(true, false, true), ShimAction::Install);
    assert_eq!(webhelper_shim_action(true, true, false), ShimAction::Broken);
    assert_eq!(webhelper_shim_action(false, false, false), ShimAction::Skip);
}

#[test]
fn merges_games_by_app_id() {
    let game = |id: u32, name: &str| SteamGame {
        app_id: id,
        name: name.into(),
        install_dir: String::new(),
        install_path: String::new(),
        manifest_path: String::new(),
        state_flags: 0,
        size_on_disk: 0,
    };
    let merged = merge_games(vec![game(570, "old"), game(10, "cs"), game(570, "new"), game(440, "tf2")]);
    let view: Vec<(u32, &str)> = merged.iter().map(|g| (g.app_id, g.name.as_str())).collect();
    assert_eq!(view, vec![(10, "cs"), (440, "tf2"), (570, "new")]);
}

#[test]
fn reads_library_folders() {
    let text = r#""libraryfolders" { "0" { "path" "C:\\Program Files (x86)\\Steam" } "1" "D:\\Games" "contentstatsid" { "x" "y" } }"#;
    assert_eq!(
        library_folder_windows_paths(text).unwrap(),
        vec!["C:\\Program Files (x86)\\Steam".to_string(), "D:\\Games".to_string()]
    );
    match library_folder_windows_paths(r#""x" { }"#) {
        Err(AppError::InvalidVdf(m)) => assert_eq!(m, "libraryfolders root is missing"),
        other => panic!("{other:?}"),
    }
}

#[test]
fn steam_status_and_start_decisions() {
    let steam = SteamManager::new("/s");
    assert_eq!(steam.prefix_path().unwrap(), "/s/prefixes/steam");
    let status = steam
        .status(SteamObservation {
            steam_path: Some("/s/prefixes/steam/drive_c/Program Files (x86)/Steam/steam.exe".into()),
            games_installed: 3,
            prefix_runtime_version: None,
            runtime_compatible: None,
            steam_running: Some(true),
            session: Some(SteamUiSession { ui_policy_version: 8 }),
        })
        .unwrap();
    assert!(status.installed && status.running && !status.ui_policy_current);
    assert_eq!(status.games_installed, 3);
    let absent = steam
        .status(SteamObservation {
            steam_path: None,
            games_installed: 3,
            prefix_runtime_version: None,
            runtime_compatible: Some(false),
            steam_running: Some(true),
            session: None,
        })
        .unwrap();
    assert!(!absent.installed && !absent.running && absent.ui_policy_current);
    assert_eq!(absent.games_installed, 0);
    assert_eq!(start_plan(true, Some(SteamUiSession { ui_policy_version: STEAM_UI_POLICY_VERSION })), StartPlan::AlreadyRunning);
    assert_eq!(start_plan(true, None), StartPlan::RestartForPolicy);
    assert_eq!(start_plan(false, None), StartPlan::Launch);
    assert_eq!(after_client_exit(0, 0), ClientExit::Done);
    assert_eq!(after_client_exit(0, 42), ClientExit::Restart);
    assert_eq!(after_client_exit(2, 42), ClientExit::TooManyRestarts);
    let found = find_steam_executable("/p", &[false, true]).unwrap();
    assert_eq!(found.windows_path, "C:\\Program Files\\Steam\\steam.exe");
    assert!(find_steam_executable("/p", &[false, false]).is_none());
}

#[test]
fn reads_ui_diagnostics() {
    assert!(gpu_acceleration_disabled_in_registry(Some("[x]\n  \"GPUAccelWebViewsV3\"=dword:00000000  \r\n")));
    assert!(!gpu_acceleration_disabled_in_registry(Some("\"GPUAccelWebViewsV3\"=dword:00000001")));
    assert!(!gpu_acceleration_disabled_in_registry(None));
    assert_eq!(log_tail(b"0123456789", 4), "6789");
    assert_eq!(content_length("HTTP/2 200\r\ncontent-length: 10\r\nContent-Length : 2048\r\nx: y\r\n"), Some(2048));
    assert_eq!(content_length("HTTP/2 200\r\n"), None);
}

#[test]
fn library_order_is_a_path_set() {
    let paths = vec![
        "/steam/b".to_string(),
        "/steam/a".to_string(),
        "/steam/a/".to_string(),
        "/steam//b/.".to_string(),
        "/steam/a b".to_string(),
        "relative".to_string(),
    ];
    assert_eq!(
        library_order(&paths),
        vec![
            "/steam/a".to_string(),
            "/steam/a b".to_string(),
            "/steam/b".to_string(),
            "relative".to_string(),
        ]
    );
}

#[test]
fn library_order_puts_parent_steps_before_names() {
    let paths = vec!["/x/name".to_string(), "/x/..".to_string(), "/x".to_string()];
    assert_eq!(
        library_order(&paths),
        vec!["/x".to_string(), "/x/..".to_string(), "/x/name".to_string()]
    );
}

#[test]
fn directory_entries_sort_case_insensitively_and_stably() {
    let names = vec![
        "b.acf".to_string(),
        "A.acf".to_string(),
        "a.acf".to_string(),
        "C".to_string(),
    ];
    assert_eq!(
        sort_by_lowercase(&names),
        vec!["A.acf".to_string(), "a.acf".to_string(), "b.acf".to_string(), "C".to_string()]
    );
}

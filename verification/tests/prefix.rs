use darwinplay_runtime::error::AppError;
use darwinplay_runtime::prefix::{
    application_support, check_prefix_runtime, validate_drive_letter, validate_game_id, PrefixManager, PrefixSetup,
};

#[test]
fn validates_safe_game_ids() {
    assert!(validate_game_id("8F73CA87-55A1-4A11").is_ok());
    assert!(validate_game_id("game_01").is_ok());
    assert!(validate_game_id("../escape").is_err());
    assert!(validate_game_id("").is_err());
}

#[test]
fn validates_drive_letters() {
    assert_eq!(validate_drive_letter('G').unwrap(), 'g');
    assert_eq!(validate_drive_letter('i').unwrap(), 'i');
    assert!(validate_drive_letter('c').is_err());
    assert!(validate_drive_letter('z').is_err());
    assert!(validate_drive_letter('1').is_err());
}

#[test]
fn game_id_limits() {
    assert!(validate_game_id(&"a".repeat(64)).is_ok());
    assert!(validate_game_id(&"a".repeat(65)).is_err());
    match validate_game_id("é") {
        Err(AppError::InvalidGameId(v)) => assert_eq!(v, "é"),
        other => panic!("{other:?}"),
    }
    match validate_drive_letter('C') {
        Err(AppError::ProcessFailed(m)) => assert_eq!(m, "invalid Wine drive letter: c"),
        other => panic!("{other:?}"),
    }
}

#[test]
fn prefix_paths_and_drive_mappings() {
    let prefixes = PrefixManager::new("/support");
    assert_eq!(prefixes.root, "/support/prefixes");
    assert_eq!(prefixes.path("steam").unwrap(), "/support/prefixes/steam");
    assert_eq!(prefixes.bind_drive("/p", 'I', "/downloads", true).unwrap(), "/p/dosdevices/i:");
    assert!(matches!(prefixes.bind_drive("/p", 'i', "/nope", false), Err(AppError::InvalidDirectory(_))));
    assert_eq!(prefixes.unbind_drive("/p", 'i').unwrap(), "/p/dosdevices/i:");
    assert_eq!(
        prefixes.bind_game_drive("/p", "/games/x/game.exe", Some("/games/x"), true).unwrap(),
        "/p/dosdevices/g:"
    );
    assert!(matches!(prefixes.bind_game_drive("/p", "/", None, false), Err(AppError::MissingParent(_))));
    assert_eq!(prefixes.reset("game").unwrap(), "/support/prefixes/game");
    let files = prefixes.payload_files("/p");
    assert_eq!(files[0], "/p/drive_c/windows/system32/kernel32.dll");
}

#[test]
fn prefix_setup_decisions() {
    let prefixes = PrefixManager::new("/s");
    assert!(matches!(prefixes.ensure("g", true, true, 7).unwrap(), PrefixSetup::Ready(p) if p == "/s/prefixes/g"));
    assert!(matches!(prefixes.ensure("g", true, false, 7), Err(AppError::CorruptPrefix(_))));
    match prefixes.ensure("g", false, false, 7).unwrap() {
        PrefixSetup::Create { path, staging, z_mapping, marker } => {
            assert_eq!(path, "/s/prefixes/g");
            assert_eq!(staging, "/s/prefixes/.g.creating-7");
            assert_eq!(z_mapping, "/s/prefixes/.g.creating-7/dosdevices/z:");
            assert_eq!(marker, "/s/prefixes/.g.creating-7/.darwinplay-initialized");
        }
        other => panic!("{other:?}"),
    }
}

#[test]
fn application_support_location() {
    assert_eq!(application_support(Some("/custom"), Some("/Users/me")).unwrap(), "/custom");
    assert_eq!(
        application_support(None, Some("/Users/me")).unwrap(),
        "/Users/me/Library/Application Support/DarwinPlay"
    );
    assert!(matches!(application_support(None, None), Err(AppError::HomeNotSet)));
}

#[test]
fn prefix_suits_runtimes_of_its_major_wine_version() {
    assert!(check_prefix_runtime(None, "wine-10.0").is_ok());
    assert!(check_prefix_runtime(Some("wine-10.0"), "wine-10.0").is_ok());
    assert!(check_prefix_runtime(Some("wine-10.0 (Staging)"), "wine-10.2").is_ok());
    match check_prefix_runtime(Some("wine-9.0"), "wine-10.0") {
        Err(AppError::PrefixRuntimeMismatch(a, b)) => {
            assert_eq!(a, "wine-9.0");
            assert_eq!(b, "wine-10.0");
        }
        other => panic!("unexpected {other:?}"),
    }
    assert!(check_prefix_runtime(Some("custom"), "custom").is_ok());
    assert!(check_prefix_runtime(Some("custom"), "wine-10.0").is_err());
}

#[test]
fn validates_prefix_payload() {
    let prefixes = PrefixManager::new("/tmp/darwinplay");
    assert_eq!(
        prefixes.payload_files("/tmp/darwinplay/prefixes/game"),
        vec![
            "/tmp/darwinplay/prefixes/game/drive_c/windows/system32/kernel32.dll".to_string(),
            "/tmp/darwinplay/prefixes/game/system.reg".to_string(),
            "/tmp/darwinplay/prefixes/game/user.reg".to_string(),
        ]
    );
    // Only the directory exists: the payload is not ready and a marked
    // prefix counts as corrupt.
    match prefixes.ensure("game", true, false, 1) {
        Err(AppError::CorruptPrefix(path)) => assert_eq!(path, "/tmp/darwinplay/prefixes/game"),
        other => panic!("unexpected {other:?}"),
    }
    // With all three files the prefix is ready.
    match prefixes.ensure("game", true, true, 1) {
        Ok(PrefixSetup::Ready(path)) => assert_eq!(path, "/tmp/darwinplay/prefixes/game"),
        other => panic!("unexpected {other:?}"),
    }
}

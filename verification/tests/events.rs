use darwinplay_runtime::cli::{Command, SteamCommand, SteamProfileCommand};
use darwinplay_runtime::events::RuntimeEvent;

#[test]
fn builds_runtime_events() {
    let started = RuntimeEvent::started(42, "/p");
    assert_eq!(started.kind, "started");
    assert_eq!(started.pid, Some(42));
    assert_eq!(started.prefix, Some("/p"));
    let exited = RuntimeEvent::exited(3);
    assert_eq!(exited.kind, "exited");
    assert_eq!(exited.exit_code, Some(3));
    let log = RuntimeEvent::log("stderr", "hello");
    assert_eq!((log.kind, log.stream, log.message), ("log", Some("stderr"), Some("hello")));
    let state = RuntimeEvent::state("already_running", "Steam is running");
    assert_eq!(state.kind, "already_running");
}

#[test]
fn commands_report_json_preference() {
    assert!(Command::Doctor { json: true }.json());
    assert!(!Command::Stop { game_id: "g".into() }.json());
    let set = Command::Steam {
        command: SteamCommand::Profile {
            command: SteamProfileCommand::Update {
                app_id: 1,
                executable: None,
                launch_arguments: vec![],
                json: true,
            },
        },
    };
    assert!(set.json());
    assert!(!Command::Steam { command: SteamCommand::Stop }.json());
}

use darwinplay_runtime::error::AppError;
use darwinplay_runtime::wineboot::{wineboot_begin, wineboot_step, BootAction, BootEvent, BootKind, BootPhase, BootState};

fn ok() -> BootEvent {
    BootEvent::Finished { success: true, status: "exited with code 0".into() }
}

fn fail(code: i32) -> BootEvent {
    BootEvent::Finished { success: false, status: format!("exited with code {code}") }
}

fn drain_to_polling(kind: BootKind) -> BootState {
    let (state, action) = wineboot_begin(kind);
    assert!(matches!(action, BootAction::Wineboot { timeout_secs: 90, debug: None }));
    let (state, action) = wineboot_step(state, ok());
    assert!(matches!(action, BootAction::Drain { timeout_secs: 30 }));
    let (state, action) = wineboot_step(state, ok());
    assert!(matches!(action, BootAction::CheckRegistry));
    state
}

fn exhaust_registry(mut state: BootState) -> (BootState, BootAction) {
    for checks in 1..=50u32 {
        let (s, action) = wineboot_step(state, BootEvent::Registry { present: false });
        assert!(matches!(action, BootAction::Pause { ms: 100 }));
        assert_eq!(s.phase, BootPhase::Pausing { checks });
        let (s, action) = wineboot_step(s, BootEvent::Paused);
        if checks < 50 {
            assert!(matches!(action, BootAction::CheckRegistry));
            state = s;
        } else {
            return (s, action);
        }
    }
    unreachable!()
}

#[test]
fn runtime_check_accepts_once_system_reg_appears() {
    let state = drain_to_polling(BootKind::RuntimeCheck);
    let (state, action) = wineboot_step(state, BootEvent::Registry { present: false });
    assert!(matches!(action, BootAction::Pause { ms: 100 }));
    let (state, action) = wineboot_step(state, BootEvent::Paused);
    assert!(matches!(action, BootAction::CheckRegistry));
    let (state, action) = wineboot_step(state, BootEvent::Registry { present: true });
    assert!(matches!(action, BootAction::Succeed));
    assert_eq!(state.phase, BootPhase::Over);
}

#[test]
fn failed_commands_name_the_step_and_status() {
    let (state, _) = wineboot_begin(BootKind::RuntimeCheck);
    match wineboot_step(state, fail(3)).1 {
        BootAction::Fail { what, status } => {
            assert_eq!(what, "DarwinWine wineboot probe failed");
            assert_eq!(status.as_deref(), Some("exited with code 3"));
        }
        other => panic!("{other:?}"),
    }
    let (state, _) = wineboot_begin(BootKind::Prefix);
    let (state, _) = wineboot_step(state, ok());
    match wineboot_step(state, fail(1)).1 {
        BootAction::Fail { what, status } => {
            assert_eq!(what, "wineserver -w failed");
            assert_eq!(status.as_deref(), Some("exited with code 1"));
        }
        other => panic!("{other:?}"),
    }
    let (state, _) = wineboot_begin(BootKind::Prefix);
    match wineboot_step(state, BootEvent::CommandError(AppError::Runtime("timed out".into()))).1 {
        BootAction::Abort(AppError::Runtime(m)) => assert_eq!(m, "timed out"),
        other => panic!("{other:?}"),
    }
}

#[test]
fn prefix_without_registry_fails_after_fifty_looks() {
    let state = drain_to_polling(BootKind::Prefix);
    let (state, action) = exhaust_registry(state);
    assert_eq!(state.phase, BootPhase::Over);
    match action {
        BootAction::Fail { what, status } => {
            assert_eq!(what, "wineboot completed but did not create system.reg");
            assert_eq!(status, None);
        }
        other => panic!("{other:?}"),
    }
}

#[test]
fn quiet_runtime_check_runs_one_traced_boot() {
    let state = drain_to_polling(BootKind::RuntimeCheck);
    let (state, action) = exhaust_registry(state);
    assert!(matches!(action, BootAction::CheckLog));
    let (state, action) = wineboot_step(state, BootEvent::Log { empty: true });
    match &action {
        BootAction::Wineboot { timeout_secs, debug } => {
            assert_eq!(*timeout_secs, 30);
            assert_eq!(debug.as_deref(), Some("+process,+module,+loaddll,+seh"));
        }
        other => panic!("{other:?}"),
    }
    let (state, action) = wineboot_step(state, BootEvent::CommandError(AppError::Runtime("x".into())));
    assert!(matches!(action, BootAction::Drain { timeout_secs: 10 }));
    let (_, action) = wineboot_step(state, ok());
    match action {
        BootAction::Fail { what, status } => {
            assert_eq!(what, "DarwinWine wineboot probe completed but did not create system.reg");
            assert_eq!(status, None);
        }
        other => panic!("{other:?}"),
    }
}

#[test]
fn runtime_check_with_output_skips_the_trace() {
    let state = drain_to_polling(BootKind::RuntimeCheck);
    let (state, _) = exhaust_registry(state);
    match wineboot_step(state, BootEvent::Log { empty: false }).1 {
        BootAction::Fail { what, .. } => {
            assert_eq!(what, "DarwinWine wineboot probe completed but did not create system.reg")
        }
        other => panic!("{other:?}"),
    }
}

use darwinplay_runtime::compatibility::{BackendOverride, CompatibilityLevel, SteamCompatibilityProfile};
use darwinplay_runtime::error::AppError;
use darwinplay_runtime::runtime_install::{
    extraction_begin, extraction_step, runtime_install_begin, runtime_install_step, ExtractionAction,
    ExtractionEvent, InstallPhase, RuntimeInstallAction, RuntimeInstallEvent,
};
use darwinplay_runtime::steam::{launch_game, GameLaunch, SteamUiSession, STEAM_UI_POLICY_VERSION};
use darwinplay_runtime::steam_setup::{
    steam_install_begin, steam_install_step, SteamInstallAction, SteamInstallEvent, SteamInstallState,
};
use darwinplay_runtime::wine::{runtime_status, DarwinWineManifest, DarwinWineStatus, RuntimeObservation};

fn chars(s: &str) -> Vec<char> {
    s.chars().collect()
}

#[test]
fn steam_install_runs_the_inspected_installer_and_unbinds() {
    let (state, action) = steam_install_begin(Some("/dl/SteamSetup.exe".to_string()));
    assert!(matches!(action, SteamInstallAction::EnsurePrefix));
    let (state, action) = steam_install_step(state, SteamInstallEvent::PrefixEnsured(Ok(()), false));
    assert!(matches!(&action, SteamInstallAction::CheckInstaller(p) if p == "/dl/SteamSetup.exe"));
    let (state, action) = steam_install_step(state, SteamInstallEvent::InstallerChecked { is_file: true });
    assert!(matches!(&action, SteamInstallAction::Inspect(p) if p == "/dl/SteamSetup.exe"));
    let (state, action) = steam_install_step(
        state,
        SteamInstallEvent::Inspected {
            result: Ok(()),
            directory: Some("/dl".to_string()),
            name: Some("SteamSetup.exe".to_string()),
        },
    );
    assert!(matches!(action, SteamInstallAction::CheckSetupRunning));
    let (state, action) = steam_install_step(state, SteamInstallEvent::SetupChecked { running: false });
    assert!(matches!(&action, SteamInstallAction::BindInstallerDrive(d) if d == "/dl"));
    let (state, action) = steam_install_step(state, SteamInstallEvent::Bound(Ok(())));
    match &action {
        SteamInstallAction::Run { executable, arguments, timeout_secs } => {
            assert_eq!(executable, "I:\\SteamSetup.exe");
            assert_eq!(arguments, &vec!["/S".to_string()]);
            assert_eq!(*timeout_secs, 90);
        }
        other => panic!("unexpected {other:?}"),
    }
    let (state, action) = steam_install_step(state, SteamInstallEvent::InstallerRan(Ok(())));
    assert!(matches!(action, SteamInstallAction::Unbind));
    let (state, action) = steam_install_step(state, SteamInstallEvent::Unbound(Ok(())));
    assert!(matches!(action, SteamInstallAction::Verify));
    let (state, action) = steam_install_step(state, SteamInstallEvent::Verified { steam_found: true });
    assert!(matches!(action, SteamInstallAction::Succeed));
    assert!(matches!(state, SteamInstallState::Done));
}

#[test]
fn steam_install_error_precedence() {
    let running = || {
        let (s, _) = steam_install_begin(None);
        let (s, a) = steam_install_step(s, SteamInstallEvent::PrefixEnsured(Ok(()), false));
        assert!(matches!(a, SteamInstallAction::Download));
        let (s, _) = steam_install_step(s, SteamInstallEvent::Downloaded(Ok("/d/SteamSetup.exe".to_string())));
        let (s, _) = steam_install_step(
            s,
            SteamInstallEvent::Inspected { result: Ok(()), directory: Some("/d".into()), name: Some("SteamSetup.exe".into()) },
        );
        let (s, _) = steam_install_step(s, SteamInstallEvent::SetupChecked { running: true });
        let (s, a) = steam_install_step(s, SteamInstallEvent::SetupStopped(Ok(())));
        assert!(matches!(a, SteamInstallAction::BindInstallerDrive(_)));
        let (s, _) = steam_install_step(s, SteamInstallEvent::Bound(Ok(())));
        s
    };
    // The unmapping failure comes first.
    let (s, _) = steam_install_step(running(), SteamInstallEvent::InstallerRan(Err(AppError::ProcessFailed("installer".into()))));
    let (_, a) = steam_install_step(s, SteamInstallEvent::Unbound(Err(AppError::ProcessFailed("unbind".into()))));
    assert!(matches!(a, SteamInstallAction::Fail(AppError::ProcessFailed(m)) if m == "unbind"));
    // Then the installer's.
    let (s, _) = steam_install_step(running(), SteamInstallEvent::InstallerRan(Err(AppError::ProcessFailed("installer".into()))));
    let (s, _) = steam_install_step(s, SteamInstallEvent::Unbound(Ok(())));
    let (_, a) = steam_install_step(s, SteamInstallEvent::Verified { steam_found: false });
    assert!(matches!(a, SteamInstallAction::Fail(AppError::ProcessFailed(m)) if m == "installer"));
    // Then a missing steam.exe.
    let (s, _) = steam_install_step(running(), SteamInstallEvent::InstallerRan(Ok(())));
    let (s, _) = steam_install_step(s, SteamInstallEvent::Unbound(Ok(())));
    let (_, a) = steam_install_step(s, SteamInstallEvent::Verified { steam_found: false });
    assert!(matches!(a, SteamInstallAction::Fail(AppError::SteamInstallationMissing)));
}

#[test]
fn steam_install_recovers_a_corrupt_prefix_only_without_steam() {
    let (s, _) = steam_install_begin(None);
    let (s, a) = steam_install_step(s, SteamInstallEvent::PrefixEnsured(Err(AppError::CorruptPrefix("/p".into())), false));
    assert!(matches!(a, SteamInstallAction::ResetPrefix));
    let (s, a) = steam_install_step(s, SteamInstallEvent::PrefixReset(Ok(())));
    assert!(matches!(a, SteamInstallAction::EnsurePrefix));
    let (_, a) = steam_install_step(s, SteamInstallEvent::PrefixEnsured(Err(AppError::CorruptPrefix("/p".into())), false));
    assert!(matches!(a, SteamInstallAction::Fail(AppError::CorruptPrefix(_))));
    let (s, _) = steam_install_begin(None);
    let (_, a) = steam_install_step(s, SteamInstallEvent::PrefixEnsured(Err(AppError::CorruptPrefix("/p".into())), true));
    assert!(matches!(a, SteamInstallAction::Fail(AppError::CorruptPrefix(_))));
    let (s, _) = steam_install_begin(None);
    let (_, a) = steam_install_step(s, SteamInstallEvent::PrefixEnsured(Ok(()), true));
    assert!(matches!(a, SteamInstallAction::Succeed));
    let (s, _) = steam_install_begin(Some("/x.exe".into()));
    let (s, _) = steam_install_step(s, SteamInstallEvent::PrefixEnsured(Ok(()), false));
    let (_, a) = steam_install_step(s, SteamInstallEvent::InstallerChecked { is_file: false });
    assert!(matches!(a, SteamInstallAction::Fail(AppError::InvalidFile(p)) if p == "/x.exe"));
}

#[test]
fn extraction_counts_listed_entries_once_and_keeps_a_tail() {
    let mut s = extraction_begin(vec![chars("darwinwine/"), chars("darwinwine/bin/wine")]);
    for line in ["x darwinwine/", "x darwinwine/bin/wine", "x darwinwine/bin/wine", "", "tar: warning"] {
        let (next, a) = extraction_step(s, ExtractionEvent::Line(line.to_string()));
        assert!(matches!(a, ExtractionAction::Continue));
        s = next;
    }
    assert_eq!(s.count(), 2);
    assert_eq!(s.total(), 2);
    assert_eq!(s.tail, vec![chars("tar: warning")]);
    for i in 0..100 {
        let (next, _) = extraction_step(s, ExtractionEvent::Line(format!("noise {i}")));
        s = next;
    }
    assert_eq!(s.tail.len(), 80);
    assert_eq!(s.tail[0], chars("noise 20"));
    assert_eq!(s.tail[79], chars("noise 99"));
    let (s, a) = extraction_step(s, ExtractionEvent::Tick { elapsed_ms: 1000, idle_ms: 1000 });
    assert!(matches!(a, ExtractionAction::Continue));
    let (s, a) = extraction_step(s, ExtractionEvent::Tick { elapsed_ms: 1000, idle_ms: 300000 });
    assert!(matches!(a, ExtractionAction::Abort(AppError::Runtime(m)) if m == "DarwinWine extraction produced no progress for 5 minutes"));
    let (s, a) = extraction_step(s, ExtractionEvent::Tick { elapsed_ms: 1800000, idle_ms: 0 });
    assert!(matches!(a, ExtractionAction::Abort(AppError::Runtime(m)) if m == "DarwinWine extraction timed out after 30 minutes"));
    let (_, a) = extraction_step(s, ExtractionEvent::Exited(Some(0)));
    assert!(matches!(a, ExtractionAction::Done));
}

#[test]
fn extraction_failure_reports_the_tail() {
    let s = extraction_begin(vec![chars("a")]);
    let (s, _) = extraction_step(s, ExtractionEvent::Line("tar: bad".to_string()));
    let (s, _) = extraction_step(s, ExtractionEvent::Line("tar: worse ".to_string()));
    let (s, a) = extraction_step(s, ExtractionEvent::Exited(Some(2)));
    assert!(matches!(&a, ExtractionAction::Fail(AppError::Runtime(m)) if m == "DarwinWine extraction failed (exit code 2): tar: bad\ntar: worse"));
    let (_, a) = extraction_step(s, ExtractionEvent::Exited(None));
    assert!(matches!(&a, ExtractionAction::Fail(AppError::Runtime(m)) if m.starts_with("DarwinWine extraction failed (terminated by signal): ")));
}

fn manifest() -> DarwinWineManifest {
    DarwinWineManifest {
        schema_version: 2,
        id: "darwinwine-cx26.3-dp9".into(),
        name: "DarwinWine".into(),
        wine_version: "10.0".into(),
        darwin_wine_version: "cx26.3-dp9".into(),
        architecture: "x86_64".into(),
        minimum_mac_os: "13.0".into(),
        channel: "experimental".into(),
        entrypoint: "bin/wine".into(),
        wineserver: "bin/wineserver".into(),
        steam_validated: true,
        steam_login_validated: false,
    }
}

fn ready_status() -> DarwinWineStatus {
    runtime_status(RuntimeObservation::Installed {
        manifest: manifest(),
        wine_path: "/s/runtime/darwinwine/bin/wine".into(),
        probe: Ok("wine-10.0".into()),
    })
}

#[test]
fn runtime_install_activates_only_after_every_check() {
    let (i, a) = runtime_install_begin("/s", 7, "/a.tar.zst".into(), true);
    assert!(matches!(a, RuntimeInstallAction::ListArchive));
    assert_eq!(i.paths.staging, "/s/runtime/.darwinwine-install-7");
    assert_eq!(i.paths.target, "/s/runtime/darwinwine");
    let (i, a) = runtime_install_step(i, RuntimeInstallEvent::Listed(Ok(b"darwinwine/runtime.json\n".to_vec())));
    assert!(matches!(&a, RuntimeInstallAction::PrepareStaging { runtimes, .. } if runtimes == "/s/runtime"));
    let (i, a) = runtime_install_step(i, RuntimeInstallEvent::StagingPrepared(Ok(())));
    assert!(matches!(&a, RuntimeInstallAction::Extract { entries, .. } if entries.len() == 1));
    let (i, _) = runtime_install_step(i, RuntimeInstallEvent::Extracted(Ok(())));
    let root = "/s/runtime/.darwinwine-install-7/darwinwine".to_string();
    let (i, _) = runtime_install_step(i, RuntimeInstallEvent::RootLocated(Some(root.clone())));
    let (i, a) = runtime_install_step(i, RuntimeInstallEvent::ManifestLoaded(Ok(manifest())));
    assert!(matches!(&a, RuntimeInstallAction::CheckEntrypoints { wine, .. } if wine == "/s/runtime/.darwinwine-install-7/darwinwine/bin/wine"));
    let (i, a) = runtime_install_step(i, RuntimeInstallEvent::EntrypointsChecked { wine_is_file: true, wineserver_is_file: true });
    assert!(matches!(a, RuntimeInstallAction::ReadVersion { .. }));
    let (i, a) = runtime_install_step(i, RuntimeInstallEvent::VersionRead(Ok("wine-10.0".into())));
    assert!(matches!(&a, RuntimeInstallAction::ProbePrefix { prefix, .. } if prefix == "/s/runtime/.darwinwine-install-7/.probe-prefix"));
    let (i, a) = runtime_install_step(i, RuntimeInstallEvent::PrefixProbed(Ok(())));
    assert!(matches!(&a, RuntimeInstallAction::MoveActiveAside { backup, .. } if backup == "/s/runtime/.darwinwine-backup"));
    let (i, _) = runtime_install_step(i, RuntimeInstallEvent::MovedAside(Ok(())));
    let (i, a) = runtime_install_step(i, RuntimeInstallEvent::Activated(Ok(())));
    assert!(matches!(a, RuntimeInstallAction::CleanUp { .. }));
    let (i, a) = runtime_install_step(i, RuntimeInstallEvent::CleanedUp);
    assert!(matches!(a, RuntimeInstallAction::CheckStatus));
    let (i, a) = runtime_install_step(i, RuntimeInstallEvent::StatusChecked(ready_status()));
    assert!(matches!(&a, RuntimeInstallAction::RemoveLegacy(d) if d == &vec!["/s/engines".to_string(), "/s/downloads/wine".to_string()]));
    let (i, a) = runtime_install_step(i, RuntimeInstallEvent::LegacyRemoved(Ok(())));
    assert!(matches!(a, RuntimeInstallAction::Succeed(s) if s.ready));
    assert!(matches!(i.phase, InstallPhase::Done));
}

#[test]
fn runtime_install_refuses_early_and_restores_on_failed_activation() {
    let (_, a) = runtime_install_begin("/s", 7, "/missing.tar.zst".into(), false);
    assert!(matches!(a, RuntimeInstallAction::Fail(AppError::InvalidFile(p)) if p == "/missing.tar.zst"));
    let (i, _) = runtime_install_begin("/s", 7, "/a.tar.zst".into(), true);
    let (_, a) = runtime_install_step(i, RuntimeInstallEvent::Listed(Ok(b"../escape\n".to_vec())));
    assert!(matches!(a, RuntimeInstallAction::Fail(AppError::Runtime(m)) if m == "unsafe path in DarwinWine archive: ../escape"));
    // A version mismatch gives up before the active runtime is touched.
    let (i, _) = runtime_install_begin("/s", 7, "/a.tar.zst".into(), true);
    let (i, _) = runtime_install_step(i, RuntimeInstallEvent::Listed(Ok(b"r/runtime.json\n".to_vec())));
    let (i, _) = runtime_install_step(i, RuntimeInstallEvent::StagingPrepared(Ok(())));
    let (i, _) = runtime_install_step(i, RuntimeInstallEvent::Extracted(Ok(())));
    let (_, a) = runtime_install_step(i, RuntimeInstallEvent::RootLocated(None));
    assert!(matches!(a, RuntimeInstallAction::Fail(AppError::Runtime(m)) if m == "DarwinWine archive does not contain runtime.json"));
    let (i, _) = runtime_install_begin("/s", 7, "/a.tar.zst".into(), true);
    let (i, _) = runtime_install_step(i, RuntimeInstallEvent::Listed(Ok(b"r/runtime.json\n".to_vec())));
    let (i, _) = runtime_install_step(i, RuntimeInstallEvent::StagingPrepared(Ok(())));
    let (i, _) = runtime_install_step(i, RuntimeInstallEvent::Extracted(Ok(())));
    let (i, _) = runtime_install_step(i, RuntimeInstallEvent::RootLocated(Some("/r".into())));
    let (i, _) = runtime_install_step(i, RuntimeInstallEvent::ManifestLoaded(Ok(manifest())));
    let (i, _) = runtime_install_step(i, RuntimeInstallEvent::EntrypointsChecked { wine_is_file: true, wineserver_is_file: true });
    let (_, a) = runtime_install_step(i, RuntimeInstallEvent::VersionRead(Ok("wine-9.0".into())));
    assert!(matches!(a, RuntimeInstallAction::Fail(AppError::Runtime(m)) if m == "runtime reports wine-9.0, manifest expects Wine 10.0"));
    // A failed activation moves the old runtime back.
    let (i, _) = runtime_install_begin("/s", 7, "/a.tar.zst".into(), true);
    let (i, _) = runtime_install_step(i, RuntimeInstallEvent::Listed(Ok(b"r/runtime.json\n".to_vec())));
    let (i, _) = runtime_install_step(i, RuntimeInstallEvent::StagingPrepared(Ok(())));
    let (i, _) = runtime_install_step(i, RuntimeInstallEvent::Extracted(Ok(())));
    let (i, _) = runtime_install_step(i, RuntimeInstallEvent::RootLocated(Some("/r".into())));
    let (i, _) = runtime_install_step(i, RuntimeInstallEvent::ManifestLoaded(Ok(manifest())));
    let (i, _) = runtime_install_step(i, RuntimeInstallEvent::EntrypointsChecked { wine_is_file: true, wineserver_is_file: true });
    let (i, _) = runtime_install_step(i, RuntimeInstallEvent::VersionRead(Ok("wine-10.0".into())));
    let (i, _) = runtime_install_step(i, RuntimeInstallEvent::PrefixProbed(Ok(())));
    let (i, _) = runtime_install_step(i, RuntimeInstallEvent::MovedAside(Ok(())));
    let (i, a) = runtime_install_step(i, RuntimeInstallEvent::Activated(Err(AppError::Io("busy".into()))));
    assert!(matches!(&a, RuntimeInstallAction::RestoreActive { target, .. } if target == "/s/runtime/darwinwine"));
    let (_, a) = runtime_install_step(i, RuntimeInstallEvent::Restored);
    assert!(matches!(a, RuntimeInstallAction::Fail(AppError::Io(m)) if m == "busy"));
}

#[test]
fn missing_runtime_status_names_only_the_family() {
    for status in [
        runtime_status(RuntimeObservation::NotInstalled),
        runtime_status(RuntimeObservation::NoApplicationSupport("HOME is not set".into())),
    ] {
        assert!(!status.installed && !status.ready);
        assert_eq!(status.runtime_name.as_deref(), Some("DarwinWine"));
        assert!(!status.steam_validated && !status.steam_login_validated);
        assert!(status.runtime_id.is_none() && status.wine_path.is_none() && status.channel.is_none());
    }
}

#[test]
fn known_fixes_are_planned_before_the_launch() {
    let profile = |app_id: u32| SteamCompatibilityProfile {
        app_id,
        name: "Game".into(),
        backend_override: BackendOverride::Inherit,
        selected_executable: None,
        launch_arguments: vec![],
        recommended_executable: None,
        recommended_backend: None,
        effective_backend: "wined3d".into(),
        compatibility: CompatibilityLevel::Unknown,
        reasons: vec![],
        candidates: vec![],
        dxmt_installed: false,
        game_fixes: vec![],
    };
    let session = Some(SteamUiSession { ui_policy_version: STEAM_UI_POLICY_VERSION });
    let plan = launch_game(&profile(2054970), &vec!["-dx11".to_string()], true, session);
    assert_eq!(plan.fixes.len(), 1);
    assert_eq!(plan.fixes[0].commands.len(), 1);
    match plan.launch {
        GameLaunch::Dispatch(arguments) => {
            assert_eq!(arguments, vec!["-applaunch".to_string(), "2054970".to_string(), "-dx11".to_string()])
        }
        other => panic!("unexpected {other:?}"),
    }
    let plan = launch_game(&profile(10), &vec![], false, None);
    assert!(plan.fixes.is_empty());
    assert!(matches!(plan.launch, GameLaunch::Launch(_)));
}

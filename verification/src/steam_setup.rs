//! Installing Steam into its prefix, as a machine the program drives: each
//! step takes what the last action found and gives the next action.

use crate::error::AppError;
use crate::pe::strs;
use crate::text::owned;
use vstd::prelude::*;

verus! {

/// Where an installation of Steam stands.
#[derive(Debug)]
pub enum SteamInstallState {
    /// The Steam prefix is being made usable (`retried` after a corrupt one
    /// was deleted).
    EnsuringPrefix { installer: Option<String>, retried: bool },
    /// A corrupt prefix without Steam is being stopped and deleted.
    ResettingPrefix { installer: Option<String> },
    /// The given installer is being checked to be a file.
    CheckingInstaller { installer: String },
    /// No installer was given: it is being downloaded.
    Downloading,
    /// The installer's PE headers are being read.
    Inspecting { installer: String },
    /// Looking for a `SteamSetup.exe` left running in the prefix.
    CheckingSetup { name: String, directory: String },
    /// A left-over `SteamSetup.exe` is being stopped.
    StoppingSetup { name: String, directory: String },
    /// The installer's directory is being mapped to `i:`.
    Binding { name: String },
    /// The installer runs.
    Running,
    /// The prefix is stopped and `i:` unmapped; `install` is how the
    /// installer ended.
    Unbinding { install: Result<(), AppError> },
    /// Looking for `steam.exe` after the installer.
    Verifying { install: Result<(), AppError> },
    /// Nothing more to do.
    Done,
}

/// What the program found when it carried out the last action.
#[derive(Debug)]
pub enum SteamInstallEvent {
    /// How making the prefix usable ended, and whether `steam.exe` is in it.
    PrefixEnsured(Result<(), AppError>, bool),
    PrefixReset(Result<(), AppError>),
    InstallerChecked { is_file: bool },
    /// The downloaded installer's path, or why the download failed.
    Downloaded(Result<String, AppError>),
    /// How reading the PE headers ended, and the installer's parent
    /// directory and file name (`Path::parent`, `Path::file_name`).
    Inspected { result: Result<(), AppError>, directory: Option<String>, name: Option<String> },
    SetupChecked { running: bool },
    SetupStopped(Result<(), AppError>),
    Bound(Result<(), AppError>),
    InstallerRan(Result<(), AppError>),
    Unbound(Result<(), AppError>),
    Verified { steam_found: bool },
}

/// What the program does next.
#[derive(Debug)]
pub enum SteamInstallAction {
    /// Make the Steam prefix usable, then look for `steam.exe`.
    EnsurePrefix,
    /// Stop the prefix (a failure is ignored) and delete it.
    ResetPrefix,
    /// Check that the given installer is a file.
    CheckInstaller(String),
    /// Download the installer.
    Download,
    /// Read the installer's PE headers.
    Inspect(String),
    /// Look for a running `SteamSetup.exe`.
    CheckSetupRunning,
    /// Stop the prefix.
    StopPrefix,
    /// Map this directory to drive `i:`.
    BindInstallerDrive(String),
    /// Run this Windows program with these arguments, within the timeout.
    Run { executable: String, arguments: Vec<String>, timeout_secs: u64 },
    /// Stop the prefix (a failure is ignored), then unmap `i:`.
    Unbind,
    /// Look for `steam.exe`.
    Verify,
    /// Steam is installed: clear the UI session record and report the status.
    Succeed,
    /// Give up with this error.
    Fail(AppError),
}

pub open spec fn install_begin(installer: Option<String>) -> SteamInstallState {
    SteamInstallState::EnsuringPrefix { installer, retried: false }
}

/// Whether `e` answers the action that led to `s`.
pub open spec fn expects(s: SteamInstallState, e: SteamInstallEvent) -> bool {
    match s {
        SteamInstallState::EnsuringPrefix { .. } => e is PrefixEnsured,
        SteamInstallState::ResettingPrefix { .. } => e is PrefixReset,
        SteamInstallState::CheckingInstaller { .. } => e is InstallerChecked,
        SteamInstallState::Downloading => e is Downloaded,
        SteamInstallState::Inspecting { .. } => e is Inspected,
        SteamInstallState::CheckingSetup { .. } => e is SetupChecked,
        SteamInstallState::StoppingSetup { .. } => e is SetupStopped,
        SteamInstallState::Binding { .. } => e is Bound,
        SteamInstallState::Running => e is InstallerRan,
        SteamInstallState::Unbinding { .. } => e is Unbound,
        SteamInstallState::Verifying { .. } => e is Verified,
        SteamInstallState::Done => false,
    }
}

/// Giving up with `e`.
pub open spec fn failed(r: (SteamInstallState, SteamInstallAction), e: AppError) -> bool {
    r == (SteamInstallState::Done, SteamInstallAction::Fail(e))
}

/// The step of the installation from `s` on `e` gives `r`.
pub open spec fn install_step(
    s: SteamInstallState,
    e: SteamInstallEvent,
    r: (SteamInstallState, SteamInstallAction),
) -> bool {
    match (s, e) {
        (
            SteamInstallState::EnsuringPrefix { installer, retried },
            SteamInstallEvent::PrefixEnsured(res, found),
        ) => match res {
            Ok(()) => if found {
                r == (SteamInstallState::Done, SteamInstallAction::Succeed)
            } else {
                match installer {
                    Some(p) => r == (
                        SteamInstallState::CheckingInstaller { installer: p },
                        SteamInstallAction::CheckInstaller(p),
                    ),
                    None => r == (SteamInstallState::Downloading, SteamInstallAction::Download),
                }
            },
            Err(err) => if err is CorruptPrefix && !retried && !found {
                r == (
                    SteamInstallState::ResettingPrefix { installer },
                    SteamInstallAction::ResetPrefix,
                )
            } else {
                failed(r, err)
            },
        },
        (SteamInstallState::ResettingPrefix { installer }, SteamInstallEvent::PrefixReset(res)) => match res {
            Ok(()) => r == (
                SteamInstallState::EnsuringPrefix { installer, retried: true },
                SteamInstallAction::EnsurePrefix,
            ),
            Err(err) => failed(r, err),
        },
        (
            SteamInstallState::CheckingInstaller { installer },
            SteamInstallEvent::InstallerChecked { is_file },
        ) => if is_file {
            r == (
                SteamInstallState::Inspecting { installer },
                SteamInstallAction::Inspect(installer),
            )
        } else {
            failed(r, AppError::InvalidFile(installer))
        },
        (SteamInstallState::Downloading, SteamInstallEvent::Downloaded(res)) => match res {
            Ok(p) => r == (SteamInstallState::Inspecting { installer: p }, SteamInstallAction::Inspect(p)),
            Err(err) => failed(r, err),
        },
        (
            SteamInstallState::Inspecting { installer },
            SteamInstallEvent::Inspected { result, directory, name },
        ) => match result {
            Err(err) => failed(r, err),
            Ok(()) => match (directory, name) {
                (None, _) => failed(r, AppError::MissingParent(installer)),
                (Some(_), None) => failed(r, AppError::MissingFileName(installer)),
                (Some(d), Some(n)) => r == (
                    SteamInstallState::CheckingSetup { name: n, directory: d },
                    SteamInstallAction::CheckSetupRunning,
                ),
            },
        },
        (
            SteamInstallState::CheckingSetup { name, directory },
            SteamInstallEvent::SetupChecked { running },
        ) => if running {
            r == (SteamInstallState::StoppingSetup { name, directory }, SteamInstallAction::StopPrefix)
        } else {
            r == (SteamInstallState::Binding { name }, SteamInstallAction::BindInstallerDrive(directory))
        },
        (
            SteamInstallState::StoppingSetup { name, directory },
            SteamInstallEvent::SetupStopped(res),
        ) => match res {
            Ok(()) => r == (
                SteamInstallState::Binding { name },
                SteamInstallAction::BindInstallerDrive(directory),
            ),
            Err(err) => failed(r, err),
        },
        (SteamInstallState::Binding { name }, SteamInstallEvent::Bound(res)) => match res {
            Ok(()) => r.0 == SteamInstallState::Running && (r.1 matches SteamInstallAction::Run {
                executable,
                arguments,
                timeout_secs,
            } && executable@ == "I:\\"@ + name@ && strs(arguments@) == seq!["/S"@] && timeout_secs
                == crate::steam::STEAM_INSTALL_TIMEOUT_SECS),
            Err(err) => failed(r, err),
        },
        (SteamInstallState::Running, SteamInstallEvent::InstallerRan(res)) => r == (
            SteamInstallState::Unbinding { install: res },
            SteamInstallAction::Unbind,
        ),
        (SteamInstallState::Unbinding { install }, SteamInstallEvent::Unbound(res)) => match res {
            Err(err) => failed(r, err),
            Ok(()) => r == (SteamInstallState::Verifying { install }, SteamInstallAction::Verify),
        },
        (SteamInstallState::Verifying { install }, SteamInstallEvent::Verified { steam_found }) => match install {
            Err(err) => failed(r, err),
            Ok(()) => if steam_found {
                r == (SteamInstallState::Done, SteamInstallAction::Succeed)
            } else {
                failed(r, AppError::SteamInstallationMissing)
            },
        },
        _ => false,
    }
}

/// The first step: make the Steam prefix usable.
pub fn steam_install_begin(installer: Option<String>) -> (r: (SteamInstallState, SteamInstallAction))
    ensures
        r == (install_begin(installer), SteamInstallAction::EnsurePrefix),
{
    (SteamInstallState::EnsuringPrefix { installer, retried: false }, SteamInstallAction::EnsurePrefix)
}

/// The next step of installing Steam: a corrupt prefix is deleted and made
/// again only when it holds no Steam; a given installer must be a file, else
/// one is downloaded; the installer is inspected before Wine runs it; it
/// runs silently from drive `i:` within the timeout, after which the prefix
/// is stopped and `i:` unmapped; then an unmapping failure wins over the
/// installer's, which wins over a missing `steam.exe`.
pub fn steam_install_step(state: SteamInstallState, event: SteamInstallEvent) -> (r: (
    SteamInstallState,
    SteamInstallAction,
))
    requires
        expects(state, event),
    ensures
        install_step(state, event, r),
{
    match (state, event) {
        (
            SteamInstallState::EnsuringPrefix { installer, retried },
            SteamInstallEvent::PrefixEnsured(res, found),
        ) => match res {
            Ok(()) => if found {
                (SteamInstallState::Done, SteamInstallAction::Succeed)
            } else {
                match installer {
                    Some(p) => {
                        let q = p.clone();
                        (
                            SteamInstallState::CheckingInstaller { installer: p },
                            SteamInstallAction::CheckInstaller(q),
                        )
                    },
                    None => (SteamInstallState::Downloading, SteamInstallAction::Download),
                }
            },
            Err(err) => {
                let corrupt = match &err {
                    AppError::CorruptPrefix(_) => true,
                    _ => false,
                };
                if corrupt && !retried && !found {
                    (SteamInstallState::ResettingPrefix { installer }, SteamInstallAction::ResetPrefix)
                } else {
                    (SteamInstallState::Done, SteamInstallAction::Fail(err))
                }
            },
        },
        (SteamInstallState::ResettingPrefix { installer }, SteamInstallEvent::PrefixReset(res)) => match res {
            Ok(()) => (
                SteamInstallState::EnsuringPrefix { installer, retried: true },
                SteamInstallAction::EnsurePrefix,
            ),
            Err(err) => (SteamInstallState::Done, SteamInstallAction::Fail(err)),
        },
        (
            SteamInstallState::CheckingInstaller { installer },
            SteamInstallEvent::InstallerChecked { is_file },
        ) => if is_file {
            let q = installer.clone();
            (SteamInstallState::Inspecting { installer }, SteamInstallAction::Inspect(q))
        } else {
            (SteamInstallState::Done, SteamInstallAction::Fail(AppError::InvalidFile(installer)))
        },
        (SteamInstallState::Downloading, SteamInstallEvent::Downloaded(res)) => match res {
            Ok(p) => {
                let q = p.clone();
                (SteamInstallState::Inspecting { installer: p }, SteamInstallAction::Inspect(q))
            },
            Err(err) => (SteamInstallState::Done, SteamInstallAction::Fail(err)),
        },
        (
            SteamInstallState::Inspecting { installer },
            SteamInstallEvent::Inspected { result, directory, name },
        ) => match result {
            Err(err) => (SteamInstallState::Done, SteamInstallAction::Fail(err)),
            Ok(()) => match (directory, name) {
                (None, _) => (
                    SteamInstallState::Done,
                    SteamInstallAction::Fail(AppError::MissingParent(installer)),
                ),
                (Some(_), None) => (
                    SteamInstallState::Done,
                    SteamInstallAction::Fail(AppError::MissingFileName(installer)),
                ),
                (Some(d), Some(n)) => (
                    SteamInstallState::CheckingSetup { name: n, directory: d },
                    SteamInstallAction::CheckSetupRunning,
                ),
            },
        },
        (
            SteamInstallState::CheckingSetup { name, directory },
            SteamInstallEvent::SetupChecked { running },
        ) => if running {
            (SteamInstallState::StoppingSetup { name, directory }, SteamInstallAction::StopPrefix)
        } else {
            (SteamInstallState::Binding { name }, SteamInstallAction::BindInstallerDrive(directory))
        },
        (
            SteamInstallState::StoppingSetup { name, directory },
            SteamInstallEvent::SetupStopped(res),
        ) => match res {
            Ok(()) => (SteamInstallState::Binding { name }, SteamInstallAction::BindInstallerDrive(directory)),
            Err(err) => (SteamInstallState::Done, SteamInstallAction::Fail(err)),
        },
        (SteamInstallState::Binding { name }, SteamInstallEvent::Bound(res)) => match res {
            Ok(()) => {
                let executable = crate::steam::installer_windows_path(name.as_str());
                let mut arguments: Vec<String> = Vec::new();
                arguments.push(owned("/S"));
                assert(strs(arguments@) =~= seq!["/S"@]);
                (
                    SteamInstallState::Running,
                    SteamInstallAction::Run {
                        executable,
                        arguments,
                        timeout_secs: crate::steam::STEAM_INSTALL_TIMEOUT_SECS,
                    },
                )
            },
            Err(err) => (SteamInstallState::Done, SteamInstallAction::Fail(err)),
        },
        (SteamInstallState::Running, SteamInstallEvent::InstallerRan(res)) => (
            SteamInstallState::Unbinding { install: res },
            SteamInstallAction::Unbind,
        ),
        (SteamInstallState::Unbinding { install }, SteamInstallEvent::Unbound(res)) => match res {
            Err(err) => (SteamInstallState::Done, SteamInstallAction::Fail(err)),
            Ok(()) => (SteamInstallState::Verifying { install }, SteamInstallAction::Verify),
        },
        (SteamInstallState::Verifying { install }, SteamInstallEvent::Verified { steam_found }) => match install {
            Err(err) => (SteamInstallState::Done, SteamInstallAction::Fail(err)),
            Ok(()) => if steam_found {
                (SteamInstallState::Done, SteamInstallAction::Succeed)
            } else {
                (SteamInstallState::Done, SteamInstallAction::Fail(AppError::SteamInstallationMissing))
            },
        },
        (_, _) => {
            proof {
                assert(false);
            }
            (SteamInstallState::Done, SteamInstallAction::Succeed)
        },
    }
}

/// The states after the installer was inspected successfully.
pub open spec fn inspected(s: SteamInstallState) -> bool {
    ||| s is CheckingSetup
    ||| s is StoppingSetup
    ||| s is Binding
    ||| s is Running
    ||| s is Unbinding
    ||| s is Verifying
}

/// A run of the installation: `states[i]` on `events[i]` gives
/// `states[i + 1]` and `actions[i]`.
pub open spec fn install_run(
    installer: Option<String>,
    states: Seq<SteamInstallState>,
    events: Seq<SteamInstallEvent>,
    actions: Seq<SteamInstallAction>,
) -> bool {
    &&& states.len() == events.len() + 1
    &&& actions.len() == events.len()
    &&& states[0] == install_begin(installer)
    &&& forall|i: int|
        0 <= i < events.len() ==> install_step(#[trigger] states[i], events[i], (states[i + 1], actions[i]))
}

proof fn lemma_inspected_before(
    installer: Option<String>,
    states: Seq<SteamInstallState>,
    events: Seq<SteamInstallEvent>,
    actions: Seq<SteamInstallAction>,
    k: int,
)
    requires
        install_run(installer, states, events, actions),
        0 <= k < states.len(),
        inspected(states[k]),
    ensures
        exists|j: int| 0 <= j < k && #[trigger] events[j] matches SteamInstallEvent::Inspected {
            result: Ok(()),
            ..
        },
    decreases k,
{
    if k > 0 {
        assert(install_step(states[k - 1], events[k - 1], (states[k], actions[k - 1])));
        if inspected(states[k - 1]) {
            lemma_inspected_before(installer, states, events, actions, k - 1);
        } else {
            assert(events[k - 1] matches SteamInstallEvent::Inspected { result: Ok(()), .. });
        }
    }
}

/// The installer runs only after it was inspected successfully and its
/// directory was mapped to `i:`.
pub proof fn lemma_run_follows_inspection(
    installer: Option<String>,
    states: Seq<SteamInstallState>,
    events: Seq<SteamInstallEvent>,
    actions: Seq<SteamInstallAction>,
    i: int,
)
    requires
        install_run(installer, states, events, actions),
        0 <= i < actions.len(),
        actions[i] is Run,
    ensures
        events[i] matches SteamInstallEvent::Bound(Ok(())),
        exists|j: int| 0 <= j < i && #[trigger] events[j] matches SteamInstallEvent::Inspected {
            result: Ok(()),
            ..
        },
{
    assert(install_step(states[i], events[i], (states[i + 1], actions[i])));
    lemma_inspected_before(installer, states, events, actions, i);
}

/// Whatever the installer's outcome, the next action stops the prefix and
/// unmaps `i:`.
pub proof fn lemma_unbind_after_installer(
    s: SteamInstallState,
    outcome: Result<(), AppError>,
    r: (SteamInstallState, SteamInstallAction),
)
    requires
        install_step(s, SteamInstallEvent::InstallerRan(outcome), r),
    ensures
        r.1 is Unbind,
{
}

/// After the installer ran: an unmapping failure is reported first, then
/// the installer's failure, then a missing `steam.exe`; only when all went
/// well is the installation a success.
pub proof fn lemma_install_error_precedence(
    ran: Result<(), AppError>,
    unbound: Result<(), AppError>,
    steam_found: bool,
    r1: (SteamInstallState, SteamInstallAction),
    r2: (SteamInstallState, SteamInstallAction),
    r3: (SteamInstallState, SteamInstallAction),
)
    requires
        install_step(SteamInstallState::Running, SteamInstallEvent::InstallerRan(ran), r1),
        install_step(r1.0, SteamInstallEvent::Unbound(unbound), r2),
        unbound is Ok ==> install_step(r2.0, SteamInstallEvent::Verified { steam_found }, r3),
    ensures
        unbound matches Err(e) ==> r2.1 == SteamInstallAction::Fail(e),
        unbound is Ok ==> match ran {
            Err(e) => r3.1 == SteamInstallAction::Fail(e),
            Ok(()) => if steam_found {
                r3.1 is Succeed
            } else {
                r3.1 == SteamInstallAction::Fail(AppError::SteamInstallationMissing)
            },
        },
{
}

/// The installation succeeds only once `steam.exe` was found in the prefix.
pub proof fn lemma_success_needs_steam(
    s: SteamInstallState,
    e: SteamInstallEvent,
    r: (SteamInstallState, SteamInstallAction),
)
    requires
        install_step(s, e, r),
        r.1 is Succeed,
    ensures
        e matches SteamInstallEvent::PrefixEnsured(Ok(()), true) || e matches SteamInstallEvent::Verified {
            steam_found: true,
        },
{
}

} // verus!

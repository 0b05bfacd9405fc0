//! Booting a Wine prefix with `wineboot`, as a machine the program drives:
//! the check that a freshly installed DarwinWine runtime works, and the
//! creation of a game's prefix. A prefix is accepted once `wineboot -u` and
//! then `wineserver -w` succeeded and `system.reg` appeared.

use crate::error::AppError;
use crate::text::owned;
use vstd::prelude::*;

verus! {

/// How long `wineboot -u` may take.
pub const WINEBOOT_TIMEOUT_SECS: u64 = 90;

/// How long `wineserver -w` may take.
pub const DRAIN_TIMEOUT_SECS: u64 = 30;

/// How many times `system.reg` is looked for, a pause apart.
pub const REGISTRY_CHECKS: u32 = 50;

/// The pause between two looks for `system.reg`.
pub const REGISTRY_PAUSE_MS: u64 = 100;

/// How long the traced `wineboot -u` of a quiet runtime check may take.
pub const TRACE_TIMEOUT_SECS: u64 = 30;

/// How long the `wineserver -w` after it may take.
pub const TRACE_DRAIN_TIMEOUT_SECS: u64 = 10;

/// Which boot this is: the check of a newly installed runtime, in a prefix
/// that does not exist yet, or the creation of a game's prefix.
#[derive(Debug, Clone, Copy, PartialEq, Eq, Structural)]
pub enum BootKind {
    RuntimeCheck,
    Prefix,
}

/// Where a boot stands.
#[derive(Debug, Clone, Copy, PartialEq, Eq, Structural)]
pub enum BootPhase {
    /// `wineboot -u` runs.
    Booting,
    /// `wineserver -w` runs.
    Draining,
    /// `system.reg` is looked for, after `checks` earlier looks.
    Checking { checks: u32 },
    /// The pause after `checks` looks for `system.reg`.
    Pausing { checks: u32 },
    /// Looking whether the boot's log is empty.
    CheckingLog,
    /// The traced `wineboot -u` runs.
    Tracing,
    /// The `wineserver -w` after it runs.
    TraceDraining,
    /// Nothing more to do.
    Over,
}

#[derive(Debug, Clone, Copy, PartialEq, Eq, Structural)]
pub struct BootState {
    pub kind: BootKind,
    pub phase: BootPhase,
}

/// What the program found when it carried out the last action.
#[derive(Debug)]
pub enum BootEvent {
    /// The command ran to its end: whether it succeeded, and how it ended
    /// (`process_status_description`).
    Finished { success: bool, status: String },
    /// The command could not be run or timed out.
    CommandError(AppError),
    /// Whether `system.reg` is a file in the prefix.
    Registry { present: bool },
    /// The pause is over.
    Paused,
    /// Whether the log is empty (or cannot be read).
    Log { empty: bool },
}

/// What the program does next.
#[derive(Debug)]
pub enum BootAction {
    /// Run `wineboot -u` for the prefix within the timeout, its output
    /// appended to the log; `debug` replaces `WINEDEBUG`.
    Wineboot { timeout_secs: u64, debug: Option<String> },
    /// Run `wineserver -w` for the prefix within the timeout, its output
    /// appended to the log.
    Drain { timeout_secs: u64 },
    /// Look whether `system.reg` is a file in the prefix.
    CheckRegistry,
    /// Wait this long.
    Pause { ms: u64 },
    /// Look whether the log is empty.
    CheckLog,
    /// The prefix is booted: delete the log.
    Succeed,
    /// Give up with `probe_failure(what, status, tail of the log)`.
    Fail { what: String, status: Option<String> },
    /// Give up with this error.
    Abort(AppError),
}

pub open spec fn wineboot_failed_text(k: BootKind) -> Seq<char> {
    match k {
        BootKind::RuntimeCheck => "DarwinWine wineboot probe failed"@,
        BootKind::Prefix => "wineboot failed"@,
    }
}

pub open spec fn drain_failed_text(k: BootKind) -> Seq<char> {
    match k {
        BootKind::RuntimeCheck => "DarwinWine wineserver -w probe failed"@,
        BootKind::Prefix => "wineserver -w failed"@,
    }
}

pub open spec fn no_registry_text(k: BootKind) -> Seq<char> {
    match k {
        BootKind::RuntimeCheck => "DarwinWine wineboot probe completed but did not create system.reg"@,
        BootKind::Prefix => "wineboot completed but did not create system.reg"@,
    }
}

/// The `WINEDEBUG` channels of the traced boot.
pub open spec fn trace_channels() -> Seq<char> {
    "+process,+module,+loaddll,+seh"@
}

pub open spec fn over(k: BootKind) -> BootState {
    BootState { kind: k, phase: BootPhase::Over }
}

/// `a` gives up with `what` and the status `status`.
pub open spec fn fails_with(a: BootAction, what: Seq<char>, status: Option<Seq<char>>) -> bool {
    a matches BootAction::Fail { what: w, status: st } && w@ == what && match (st, status) {
        (Some(x), Some(y)) => x@ == y,
        (None, None) => true,
        _ => false,
    }
}

/// Whether `e` answers the action that led to `s`.
pub open spec fn boot_expects(s: BootState, e: BootEvent) -> bool {
    match s.phase {
        BootPhase::Booting | BootPhase::Draining | BootPhase::Tracing | BootPhase::TraceDraining => e is Finished
            || e is CommandError,
        BootPhase::Checking { checks } => checks < REGISTRY_CHECKS && e is Registry,
        BootPhase::Pausing { .. } => e is Paused,
        BootPhase::CheckingLog => e is Log,
        BootPhase::Over => false,
    }
}

/// The step of a boot from `s` on `e` gives `r`.
pub open spec fn boot_step(s: BootState, e: BootEvent, r: (BootState, BootAction)) -> bool {
    let k = s.kind;
    match s.phase {
        BootPhase::Booting => match e {
            BootEvent::Finished { success, status } => if success {
                r.0 == (BootState { kind: k, phase: BootPhase::Draining }) && (r.1 matches BootAction::Drain {
                    timeout_secs,
                } && timeout_secs == DRAIN_TIMEOUT_SECS)
            } else {
                r.0 == over(k) && fails_with(r.1, wineboot_failed_text(k), Some(status@))
            },
            BootEvent::CommandError(err) => r.0 == over(k) && r.1 == BootAction::Abort(err),
            _ => false,
        },
        BootPhase::Draining => match e {
            BootEvent::Finished { success, status } => if success {
                r.0 == (BootState { kind: k, phase: BootPhase::Checking { checks: 0 } }) && r.1 is CheckRegistry
            } else {
                r.0 == over(k) && fails_with(r.1, drain_failed_text(k), Some(status@))
            },
            BootEvent::CommandError(err) => r.0 == over(k) && r.1 == BootAction::Abort(err),
            _ => false,
        },
        BootPhase::Checking { checks } => match e {
            BootEvent::Registry { present } => if present {
                r.0 == over(k) && r.1 is Succeed
            } else {
                r.0 == (BootState { kind: k, phase: BootPhase::Pausing { checks: (checks + 1) as u32 } })
                    && (r.1 matches BootAction::Pause { ms } && ms == REGISTRY_PAUSE_MS)
            },
            _ => false,
        },
        BootPhase::Pausing { checks } => match e {
            BootEvent::Paused => if checks < REGISTRY_CHECKS {
                r.0 == (BootState { kind: k, phase: BootPhase::Checking { checks } }) && r.1 is CheckRegistry
            } else if k == BootKind::RuntimeCheck {
                r.0 == (BootState { kind: k, phase: BootPhase::CheckingLog }) && r.1 is CheckLog
            } else {
                r.0 == over(k) && fails_with(r.1, no_registry_text(k), None)
            },
            _ => false,
        },
        BootPhase::CheckingLog => match e {
            BootEvent::Log { empty } => if empty {
                r.0 == (BootState { kind: k, phase: BootPhase::Tracing }) && (r.1 matches BootAction::Wineboot {
                    timeout_secs,
                    debug: Some(d),
                } && timeout_secs == TRACE_TIMEOUT_SECS && d@ == trace_channels())
            } else {
                r.0 == over(k) && fails_with(r.1, no_registry_text(k), None)
            },
            _ => false,
        },
        BootPhase::Tracing => (e is Finished || e is CommandError) && r.0 == (BootState {
            kind: k,
            phase: BootPhase::TraceDraining,
        }) && (r.1 matches BootAction::Drain { timeout_secs } && timeout_secs == TRACE_DRAIN_TIMEOUT_SECS),
        BootPhase::TraceDraining => (e is Finished || e is CommandError) && r.0 == over(k) && fails_with(
            r.1,
            no_registry_text(k),
            None,
        ),
        BootPhase::Over => false,
    }
}

/// A boot of this kind starts with `wineboot -u`.
pub fn wineboot_begin(kind: BootKind) -> (r: (BootState, BootAction))
    ensures
        r.0 == (BootState { kind, phase: BootPhase::Booting }),
        r.1 matches BootAction::Wineboot { timeout_secs, debug: None } && timeout_secs
            == WINEBOOT_TIMEOUT_SECS,
{
    (
        BootState { kind, phase: BootPhase::Booting },
        BootAction::Wineboot { timeout_secs: WINEBOOT_TIMEOUT_SECS, debug: None },
    )
}

fn wineboot_failed(k: BootKind) -> (r: String)
    ensures
        r@ == wineboot_failed_text(k),
{
    match k {
        BootKind::RuntimeCheck => owned("DarwinWine wineboot probe failed"),
        BootKind::Prefix => owned("wineboot failed"),
    }
}

fn drain_failed(k: BootKind) -> (r: String)
    ensures
        r@ == drain_failed_text(k),
{
    match k {
        BootKind::RuntimeCheck => owned("DarwinWine wineserver -w probe failed"),
        BootKind::Prefix => owned("wineserver -w failed"),
    }
}

fn no_registry(k: BootKind) -> (r: String)
    ensures
        r@ == no_registry_text(k),
{
    match k {
        BootKind::RuntimeCheck => owned("DarwinWine wineboot probe completed but did not create system.reg"),
        BootKind::Prefix => owned("wineboot completed but did not create system.reg"),
    }
}

/// The next step of a boot: `wineboot -u`, then `wineserver -w`, must
/// succeed; then `system.reg` is looked for 50 times, 100 ms apart. When it
/// never appears, a runtime check whose log stayed empty first runs one
/// traced boot (whose outcome is ignored) so that the error has something
/// to show. A command that cannot be run ends the boot with its error.
pub fn wineboot_step(state: BootState, event: BootEvent) -> (r: (BootState, BootAction))
    requires
        boot_expects(state, event),
    ensures
        boot_step(state, event, r),
{
    let k = state.kind;
    let done = BootState { kind: k, phase: BootPhase::Over };
    match state.phase {
        BootPhase::Booting => match event {
            BootEvent::Finished { success, status } => if success {
                (
                    BootState { kind: k, phase: BootPhase::Draining },
                    BootAction::Drain { timeout_secs: DRAIN_TIMEOUT_SECS },
                )
            } else {
                (done, BootAction::Fail { what: wineboot_failed(k), status: Some(status) })
            },
            BootEvent::CommandError(err) => (done, BootAction::Abort(err)),
            _ => {
                proof {
                    assert(false);
                }
                (done, BootAction::Succeed)
            },
        },
        BootPhase::Draining => match event {
            BootEvent::Finished { success, status } => if success {
                (BootState { kind: k, phase: BootPhase::Checking { checks: 0 } }, BootAction::CheckRegistry)
            } else {
                (done, BootAction::Fail { what: drain_failed(k), status: Some(status) })
            },
            BootEvent::CommandError(err) => (done, BootAction::Abort(err)),
            _ => {
                proof {
                    assert(false);
                }
                (done, BootAction::Succeed)
            },
        },
        BootPhase::Checking { checks } => match event {
            BootEvent::Registry { present } => if present {
                (done, BootAction::Succeed)
            } else {
                (
                    BootState { kind: k, phase: BootPhase::Pausing { checks: checks + 1 } },
                    BootAction::Pause { ms: REGISTRY_PAUSE_MS },
                )
            },
            _ => {
                proof {
                    assert(false);
                }
                (done, BootAction::Succeed)
            },
        },
        BootPhase::Pausing { checks } => {
            if checks < REGISTRY_CHECKS {
                (BootState { kind: k, phase: BootPhase::Checking { checks } }, BootAction::CheckRegistry)
            } else {
                match k {
                    BootKind::RuntimeCheck => (
                        BootState { kind: k, phase: BootPhase::CheckingLog },
                        BootAction::CheckLog,
                    ),
                    BootKind::Prefix => (done, BootAction::Fail { what: no_registry(k), status: None }),
                }
            }
        },
        BootPhase::CheckingLog => match event {
            BootEvent::Log { empty } => if empty {
                (
                    BootState { kind: k, phase: BootPhase::Tracing },
                    BootAction::Wineboot {
                        timeout_secs: TRACE_TIMEOUT_SECS,
                        debug: Some(owned("+process,+module,+loaddll,+seh")),
                    },
                )
            } else {
                (done, BootAction::Fail { what: no_registry(k), status: None })
            },
            _ => {
                proof {
                    assert(false);
                }
                (done, BootAction::Succeed)
            },
        },
        BootPhase::Tracing => (
            BootState { kind: k, phase: BootPhase::TraceDraining },
            BootAction::Drain { timeout_secs: TRACE_DRAIN_TIMEOUT_SECS },
        ),
        BootPhase::TraceDraining => (done, BootAction::Fail { what: no_registry(k), status: None }),
        BootPhase::Over => {
            proof {
                assert(false);
            }
            (done, BootAction::Succeed)
        },
    }
}

// ---------------------------------------------------------------------------
// What every boot keeps
// ---------------------------------------------------------------------------

/// A run of a boot: `states[i]` on `events[i]` gives `states[i + 1]` and
/// `actions[i]`.
pub open spec fn boot_run(
    kind: BootKind,
    states: Seq<BootState>,
    events: Seq<BootEvent>,
    actions: Seq<BootAction>,
) -> bool {
    &&& states.len() == events.len() + 1
    &&& actions.len() == events.len()
    &&& states[0] == (BootState { kind, phase: BootPhase::Booting })
    &&& forall|i: int|
        0 <= i < events.len() ==> boot_step(#[trigger] states[i], events[i], (states[i + 1], actions[i]))
}

/// The states a boot of this kind can be in: `system.reg` is looked for at
/// most 50 times, and only a runtime check goes on to its log and the
/// traced boot.
pub open spec fn boot_wf(kind: BootKind, s: BootState) -> bool {
    &&& s.kind == kind
    &&& match s.phase {
        BootPhase::Checking { checks } => checks < REGISTRY_CHECKS,
        BootPhase::Pausing { checks } => 1 <= checks <= REGISTRY_CHECKS,
        BootPhase::CheckingLog | BootPhase::Tracing | BootPhase::TraceDraining => kind == BootKind::RuntimeCheck,
        _ => true,
    }
}

/// `s` is a state in which `system.reg` is looked for or waited on.
pub open spec fn polling(s: BootState) -> bool {
    s.phase is Checking || s.phase is Pausing
}

/// `wineboot -u` and then `wineserver -w` succeeded before step `k`.
pub open spec fn booted_and_drained_before(states: Seq<BootState>, events: Seq<BootEvent>, k: int) -> bool {
    exists|j: int, m: int|
        0 <= j < m < k && #[trigger] states[j].phase == BootPhase::Booting && (#[trigger] events[j] matches BootEvent::Finished {
            success: true,
            ..
        }) && #[trigger] states[m].phase == BootPhase::Draining && (#[trigger] events[m] matches BootEvent::Finished {
            success: true,
            ..
        })
}

/// Every state of a run is one a boot of its kind can be in.
pub proof fn lemma_boot_states_wf(
    kind: BootKind,
    states: Seq<BootState>,
    events: Seq<BootEvent>,
    actions: Seq<BootAction>,
    k: int,
)
    requires
        boot_run(kind, states, events, actions),
        0 <= k < states.len(),
    ensures
        boot_wf(kind, states[k]),
    decreases k,
{
    if k > 0 {
        lemma_boot_states_wf(kind, states, events, actions, k - 1);
        assert(boot_step(states[k - 1], events[k - 1], (states[k], actions[k - 1])));
    }
}

proof fn lemma_draining_after_boot(
    kind: BootKind,
    states: Seq<BootState>,
    events: Seq<BootEvent>,
    actions: Seq<BootAction>,
    m: int,
)
    requires
        boot_run(kind, states, events, actions),
        0 <= m < states.len(),
        states[m].phase == BootPhase::Draining,
    ensures
        m > 0,
        states[m - 1].phase == BootPhase::Booting,
        events[m - 1] matches BootEvent::Finished { success: true, .. },
{
    if m > 0 {
        assert(boot_step(states[m - 1], events[m - 1], (states[m], actions[m - 1])));
    }
}

proof fn lemma_polling_after_drain(
    kind: BootKind,
    states: Seq<BootState>,
    events: Seq<BootEvent>,
    actions: Seq<BootAction>,
    k: int,
)
    requires
        boot_run(kind, states, events, actions),
        0 <= k < states.len(),
        polling(states[k]),
    ensures
        booted_and_drained_before(states, events, k),
    decreases k,
{
    if k > 0 {
        assert(boot_step(states[k - 1], events[k - 1], (states[k], actions[k - 1])));
        if polling(states[k - 1]) {
            lemma_polling_after_drain(kind, states, events, actions, k - 1);
            let (j, m) = choose|j: int, m: int|
                0 <= j < m < k - 1 && #[trigger] states[j].phase == BootPhase::Booting && (#[trigger] events[j] matches BootEvent::Finished {
                    success: true,
                    ..
                }) && #[trigger] states[m].phase == BootPhase::Draining && (#[trigger] events[m] matches BootEvent::Finished {
                    success: true,
                    ..
                });
            assert(0 <= j < m < k);
        } else {
            assert(states[k - 1].phase == BootPhase::Draining);
            lemma_draining_after_boot(kind, states, events, actions, k - 1);
            assert(states[k - 2].phase == BootPhase::Booting);
        }
    }
}

/// A prefix is accepted only when `system.reg` was just seen, after
/// `wineboot -u` and then `wineserver -w` had succeeded.
pub proof fn lemma_accepted_after_boot_and_drain(
    kind: BootKind,
    states: Seq<BootState>,
    events: Seq<BootEvent>,
    actions: Seq<BootAction>,
    i: int,
)
    requires
        boot_run(kind, states, events, actions),
        0 <= i < actions.len(),
        actions[i] is Succeed,
    ensures
        events[i] matches BootEvent::Registry { present: true },
        booted_and_drained_before(states, events, i),
{
    assert(boot_step(states[i], events[i], (states[i + 1], actions[i])));
    lemma_polling_after_drain(kind, states, events, actions, i);
}

/// Creating a game's prefix never runs the traced boot: its every
/// `wineboot -u` is plain.
pub proof fn lemma_prefix_boot_untraced(
    states: Seq<BootState>,
    events: Seq<BootEvent>,
    actions: Seq<BootAction>,
    i: int,
)
    requires
        boot_run(BootKind::Prefix, states, events, actions),
        0 <= i < actions.len(),
    ensures
        actions[i] matches BootAction::Wineboot { debug, .. } ==> debug is None,
        !(actions[i] is CheckLog),
{
    lemma_boot_states_wf(BootKind::Prefix, states, events, actions, i);
    assert(boot_step(states[i], events[i], (states[i + 1], actions[i])));
}

} // verus!

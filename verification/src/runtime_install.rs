//! Installing a DarwinWine runtime archive, as machines the program drives:
//! following `tar`'s extraction of the archive, and the transactional
//! install around it.

use crate::error::AppError;
use crate::order::char_vecs;
use crate::text::{chars_of, owned, path_join, push_chars, push_str, string_from_chars, trim, trim_chars};
use crate::wine::{extracted_entry, extracted_entry_of, joined_lines, vecs_contain};
use vstd::prelude::*;

verus! {

/// An extraction taking this long in all is stopped.
pub const EXTRACTION_TIMEOUT_MS: u64 = 1800000;

/// An extraction that reports nothing for this long is stopped.
pub const EXTRACTION_STALL_MS: u64 = 300000;

/// How many of `tar`'s other lines an extraction keeps for its error.
pub const EXTRACTION_TAIL_LINES: usize = 80;

/// What an extraction has seen: the archive's entries (from its listing),
/// those `tar` has reported extracted, each once, and the last other
/// non-empty lines it printed.
#[derive(Debug)]
pub struct ExtractionState {
    pub listed: Vec<Vec<char>>,
    pub extracted: Vec<Vec<char>>,
    pub tail: Vec<Vec<char>>,
}

/// What the program saw of `tar`.
#[derive(Debug)]
pub enum ExtractionEvent {
    /// A line on its standard output or error.
    Line(String),
    /// Nothing else happened: the time since it started and since its last
    /// line.
    Tick { elapsed_ms: u64, idle_ms: u64 },
    /// It exited, with this code (`None` when a signal ended it).
    Exited(Option<i32>),
}

/// What the program does next.
#[derive(Debug)]
pub enum ExtractionAction {
    /// Keep following `tar`.
    Continue,
    /// The archive is extracted.
    Done,
    /// `tar` failed: give up with this error.
    Fail(AppError),
    /// Kill `tar`, wait for it, and give up with this error.
    Abort(AppError),
}

/// The extracted entries and the tail, as text.
pub open spec fn progress_view(s: ExtractionState) -> (Seq<Seq<char>>, Seq<Seq<char>>) {
    (char_vecs(s.extracted@), char_vecs(s.tail@))
}

/// Whether a `tar` line is one other than an extracted entry.
pub open spec fn other_line(listed: Seq<Seq<char>>, line: Seq<char>) -> bool {
    !listed.contains(extracted_entry_of(line)) && trim(line).len() > 0
}

/// The extracted entries and tail after one more line of `tar`: a listed
/// entry counts once; any other non-empty line goes to the tail, which
/// keeps the last 80.
pub open spec fn line_step(
    listed: Seq<Seq<char>>,
    st: (Seq<Seq<char>>, Seq<Seq<char>>),
    line: Seq<char>,
) -> (Seq<Seq<char>>, Seq<Seq<char>>) {
    let n = extracted_entry_of(line);
    if listed.contains(n) {
        (if st.0.contains(n) {
            st.0
        } else {
            st.0.push(n)
        }, st.1)
    } else if trim(line).len() > 0 {
        (st.0, if st.1.len() >= EXTRACTION_TAIL_LINES {
            st.1.drop_first().push(line)
        } else {
            st.1.push(line)
        })
    } else {
        st
    }
}

/// The failure of a `tar` that exited unsuccessfully.
pub open spec fn extraction_failure(code: Option<i32>, tail: Seq<Seq<char>>) -> Seq<char> {
    "DarwinWine extraction failed ("@ + match code {
        Some(c) => "exit code "@ + crate::text::signed_decimal(c as int),
        None => "terminated by signal"@,
    } + "): "@ + trim(joined_lines(tail))
}

/// The step of an extraction from `s` on `e` gives `r`.
pub open spec fn extraction_step_spec(
    s: ExtractionState,
    e: ExtractionEvent,
    r: (ExtractionState, ExtractionAction),
) -> bool {
    &&& r.0.listed@ == s.listed@
    &&& match e {
        ExtractionEvent::Line(line) => progress_view(r.0) == line_step(
            char_vecs(s.listed@),
            progress_view(s),
            line@,
        ) && r.1 is Continue,
        ExtractionEvent::Tick { elapsed_ms, idle_ms } => progress_view(r.0) == progress_view(s) && if elapsed_ms
            >= EXTRACTION_TIMEOUT_MS {
            r.1 matches ExtractionAction::Abort(AppError::Runtime(t)) && t@
                == "DarwinWine extraction timed out after 30 minutes"@
        } else if idle_ms >= EXTRACTION_STALL_MS {
            r.1 matches ExtractionAction::Abort(AppError::Runtime(t)) && t@
                == "DarwinWine extraction produced no progress for 5 minutes"@
        } else {
            r.1 is Continue
        },
        ExtractionEvent::Exited(code) => progress_view(r.0) == progress_view(s) && if code == Some(
            0i32,
        ) {
            r.1 is Done
        } else {
            r.1 matches ExtractionAction::Fail(AppError::Runtime(t)) && t@ == extraction_failure(
                code,
                progress_view(s).1,
            )
        },
    }
}

/// An extraction of an archive with these entries, before `tar` printed
/// anything.
pub fn extraction_begin(listed: Vec<Vec<char>>) -> (r: ExtractionState)
    ensures
        r.listed@ == listed@,
        r.extracted@.len() == 0,
        r.tail@.len() == 0,
{
    ExtractionState { listed, extracted: Vec::new(), tail: Vec::new() }
}

impl ExtractionState {
    /// How many distinct listed entries `tar` has reported extracted.
    pub fn count(&self) -> (r: usize)
        ensures
            r == self.extracted@.len(),
    {
        self.extracted.len()
    }

    /// How many entries the archive lists.
    pub fn total(&self) -> (r: usize)
        ensures
            r == self.listed@.len(),
    {
        self.listed.len()
    }
}

fn join_with_newlines(ls: &Vec<Vec<char>>) -> (r: Vec<char>)
    ensures
        r@ == joined_lines(char_vecs(ls@)),
{
    let ghost all = char_vecs(ls@);
    let mut out: Vec<char> = Vec::new();
    let mut i: usize = 0;
    while i < ls.len()
        invariant
            i <= ls@.len(),
            all == char_vecs(ls@),
            out@ == joined_lines(all.take(i as int)),
        decreases ls@.len() - i,
    {
        assert(all.take(i + 1).drop_last() =~= all.take(i as int));
        assert(all[i as int] == ls@[i as int]@);
        if i > 0 {
            out.push('\n');
        }
        push_chars(&mut out, ls[i].as_slice());
        i = i + 1;
        assert(out@ =~= joined_lines(all.take(i as int)));
    }
    assert(all.take(i as int) =~= all);
    out
}

/// The next step of following `tar`: each reported entry of the archive is
/// counted once; other lines keep the last 80 for the error; an
/// unsuccessful exit fails with that tail; an extraction that takes 30
/// minutes in all, or 5 without a line, is stopped.
pub fn extraction_step(state: ExtractionState, event: ExtractionEvent) -> (r: (
    ExtractionState,
    ExtractionAction,
))
    ensures
        extraction_step_spec(state, event, r),
{
    let mut state = state;
    match event {
        ExtractionEvent::Line(line) => {
            let n = extracted_entry(line.as_str());
            let l = chars_of(line.as_str());
            let ghost before = progress_view(state);
            if vecs_contain(&state.listed, n.as_slice()) {
                if !vecs_contain(&state.extracted, n.as_slice()) {
                    state.extracted.push(n);
                    assert(char_vecs(state.extracted@) =~= before.0.push(extracted_entry_of(line@)));
                }
            } else if trim_chars(l.as_slice()).len() > 0 {
                if state.tail.len() >= EXTRACTION_TAIL_LINES {
                    state.tail.remove(0);
                    assert(char_vecs(state.tail@) =~= before.1.drop_first());
                }
                let ghost mid = char_vecs(state.tail@);
                state.tail.push(l);
                assert(char_vecs(state.tail@) =~= mid.push(line@));
            }
            (state, ExtractionAction::Continue)
        },
        ExtractionEvent::Tick { elapsed_ms, idle_ms } => {
            if elapsed_ms >= EXTRACTION_TIMEOUT_MS {
                (
                    state,
                    ExtractionAction::Abort(
                        AppError::Runtime(owned("DarwinWine extraction timed out after 30 minutes")),
                    ),
                )
            } else if idle_ms >= EXTRACTION_STALL_MS {
                (
                    state,
                    ExtractionAction::Abort(
                        AppError::Runtime(owned("DarwinWine extraction produced no progress for 5 minutes")),
                    ),
                )
            } else {
                (state, ExtractionAction::Continue)
            }
        },
        ExtractionEvent::Exited(code) => {
            match code {
                Some(0i32) => (state, ExtractionAction::Done),
                _ => {
                    let mut m = chars_of("DarwinWine extraction failed (");
                    match code {
                        Some(c) => {
                            push_str(&mut m, "exit code ");
                            push_chars(&mut m, crate::text::signed_decimal_i64(c as i64).as_slice());
                        },
                        None => {
                            push_str(&mut m, "terminated by signal");
                        },
                    }
                    push_str(&mut m, "): ");
                    let detail = trim_chars(join_with_newlines(&state.tail).as_slice());
                    push_chars(&mut m, detail.as_slice());
                    assert(m@ =~= extraction_failure(code, progress_view(state).1));
                    (state, ExtractionAction::Fail(AppError::Runtime(string_from_chars(m.as_slice()))))
                },
            }
        },
    }
}

// ---------------------------------------------------------------------------
// What the extraction keeps
// ---------------------------------------------------------------------------

/// The progress after a sequence of `tar` lines.
pub open spec fn lines_fold(listed: Seq<Seq<char>>, lines: Seq<Seq<char>>) -> (
    Seq<Seq<char>>,
    Seq<Seq<char>>,
)
    decreases lines.len(),
{
    if lines.len() == 0 {
        (seq![], seq![])
    } else {
        line_step(listed, lines_fold(listed, lines.drop_last()), lines.last())
    }
}

/// The other non-empty lines among `lines`, in order.
pub open spec fn other_lines(listed: Seq<Seq<char>>, lines: Seq<Seq<char>>) -> Seq<Seq<char>>
    decreases lines.len(),
{
    if lines.len() == 0 {
        seq![]
    } else if other_line(listed, lines.last()) {
        other_lines(listed, lines.drop_last()).push(lines.last())
    } else {
        other_lines(listed, lines.drop_last())
    }
}

/// The last `n` items of `s` (all of them when there are fewer).
pub open spec fn keep_last(s: Seq<Seq<char>>, n: nat) -> Seq<Seq<char>> {
    if s.len() <= n {
        s
    } else {
        s.skip(s.len() - n)
    }
}

/// The entry a line reports, when the archive lists it.
pub open spec fn reports(listed: Seq<Seq<char>>, line: Seq<char>, n: Seq<char>) -> bool {
    n == extracted_entry_of(line) && listed.contains(n)
}

/// What an extraction keeps after any sequence of `tar` lines: the
/// extracted entries are exactly the distinct listed entries the lines
/// reported, each once, so their count never exceeds the archive's entries;
/// the tail is the last 80 other non-empty lines, in order.
pub proof fn lemma_extraction_keeps(listed: Seq<Seq<char>>, lines: Seq<Seq<char>>)
    ensures
        lines_fold(listed, lines).0.no_duplicates(),
        forall|n: Seq<char>|
            lines_fold(listed, lines).0.contains(n) <==> exists|i: int|
                0 <= i < lines.len() && reports(listed, #[trigger] lines[i], n),
        lines_fold(listed, lines).0.len() <= listed.len(),
        lines_fold(listed, lines).1 == keep_last(other_lines(listed, lines), EXTRACTION_TAIL_LINES as nat),
    decreases lines.len(),
{
    if lines.len() > 0 {
        let d = lines.drop_last();
        let l = lines.last();
        lemma_extraction_keeps(listed, d);
        let prev = lines_fold(listed, d);
        let n0 = extracted_entry_of(l);
        let new0 = lines_fold(listed, lines).0;
        let grows = listed.contains(n0) && !prev.0.contains(n0);
        if grows {
            assert(new0 == prev.0.push(n0));
        } else {
            assert(new0 == prev.0);
        }
        assert forall|n: Seq<char>| new0.contains(n) implies exists|i: int|
            0 <= i < lines.len() && reports(listed, #[trigger] lines[i], n) by {
            let k = choose|k: int| 0 <= k < new0.len() && new0[k] == n;
            if k < prev.0.len() {
                assert(prev.0[k] == n);
                assert(prev.0.contains(n));
                let i = choose|i: int| 0 <= i < d.len() && reports(listed, #[trigger] d[i], n);
                assert(lines[i] == d[i]);
            } else {
                assert(reports(listed, lines[lines.len() - 1], n));
            }
        }
        assert forall|n: Seq<char>| (exists|i: int|
            0 <= i < lines.len() && reports(listed, #[trigger] lines[i], n)) implies new0.contains(n) by {
            let i = choose|i: int| 0 <= i < lines.len() && reports(listed, #[trigger] lines[i], n);
            if i < d.len() {
                assert(lines[i] == d[i]);
                assert(reports(listed, d[i], n));
                assert(prev.0.contains(n));
                let k = choose|k: int| 0 <= k < prev.0.len() && prev.0[k] == n;
                assert(new0[k] == n);
            } else {
                assert(n == n0);
                if grows {
                    assert(new0[prev.0.len() as int] == n);
                }
            }
        }
        // the tail
        let o = other_lines(listed, d);
        if !listed.contains(n0) && trim(l).len() > 0 {
            if o.len() >= EXTRACTION_TAIL_LINES {
                assert(keep_last(o, 80).drop_first().push(l) =~= keep_last(o.push(l), 80));
            } else {
                assert(keep_last(o, 80) =~= o);
                assert(keep_last(o.push(l), 80) =~= o.push(l));
            }
        }
        // the count
        let e = lines_fold(listed, lines).0;
        if listed.contains(n0) && !prev.0.contains(n0) {
            assert forall|i: int, j: int| 0 <= i < e.len() && 0 <= j < e.len() && i != j implies e[i]
                != e[j] by {
                if i == prev.0.len() as int {
                    assert(prev.0.contains(e[j]));
                } else if j == prev.0.len() as int {
                    assert(prev.0.contains(e[i]));
                }
            }
        }
        assert forall|x: Seq<char>| e.to_set().contains(x) implies listed.to_set().contains(x) by {
            assert(e.contains(x));
            let i = choose|i: int| 0 <= i < lines.len() && reports(listed, #[trigger] lines[i], x);
        }
        e.unique_seq_to_set();
        listed.lemma_cardinality_of_set();
        vstd::set_lib::lemma_len_subset(e.to_set(), listed.to_set());
    } else {
        assert(lines_fold(listed, lines).0 =~= Seq::<Seq<char>>::empty());
    }
}

// ---------------------------------------------------------------------------
// The transactional install
// ---------------------------------------------------------------------------

/// Where an install works, below the application support directory.
#[derive(Debug)]
pub struct InstallPaths {
    pub support: String,
    /// `runtime`: holds the active runtime and the install's scratch.
    pub runtimes: String,
    /// `runtime/.darwinwine-install-<pid>`: the archive is unpacked here.
    pub staging: String,
    /// `runtime/darwinwine`: the active runtime.
    pub target: String,
    /// `runtime/.darwinwine-backup`: the active runtime while it is replaced.
    pub backup: String,
}

/// Where an install stands.
#[derive(Debug)]
pub enum InstallPhase {
    Listing,
    Staging { entries: Vec<Vec<char>> },
    Extracting,
    Locating,
    Loading { root: String },
    CheckingEntrypoints { root: String, manifest: crate::wine::DarwinWineManifest, wine: String, wineserver: String },
    ReadingVersion { root: String, manifest: crate::wine::DarwinWineManifest, wine: String, wineserver: String },
    Probing { root: String },
    MovingAside { root: String },
    Activating,
    Restoring { error: AppError },
    CleaningUp,
    CheckingStatus,
    RemovingLegacy { status: crate::wine::DarwinWineStatus },
    Done,
}

#[derive(Debug)]
pub struct RuntimeInstall {
    pub paths: InstallPaths,
    pub phase: InstallPhase,
}

/// What the program found when it carried out the last action.
#[derive(Debug)]
pub enum RuntimeInstallEvent {
    /// What `tar -tf` printed, or why it failed.
    Listed(Result<Vec<u8>, AppError>),
    StagingPrepared(Result<(), AppError>),
    Extracted(Result<(), AppError>),
    /// The directory holding `runtime.json` (up to 3 levels down), if any.
    RootLocated(Option<String>),
    ManifestLoaded(Result<crate::wine::DarwinWineManifest, AppError>),
    EntrypointsChecked { wine_is_file: bool, wineserver_is_file: bool },
    /// What `wine --version` printed (trimmed), or why it failed.
    VersionRead(Result<String, AppError>),
    PrefixProbed(Result<(), AppError>),
    MovedAside(Result<(), AppError>),
    Activated(Result<(), AppError>),
    Restored,
    CleanedUp,
    StatusChecked(crate::wine::DarwinWineStatus),
    LegacyRemoved(Result<(), AppError>),
}

/// What the program does next.
#[derive(Debug)]
pub enum RuntimeInstallAction {
    /// List the archive with `tar -tf`.
    ListArchive,
    /// Create `runtimes`, sweep what earlier installs left there, and make
    /// `staging` a new empty directory.
    PrepareStaging { runtimes: String, staging: String },
    /// Extract the archive into `staging`, following `tar` with
    /// `extraction_step`.
    Extract { staging: String, entries: Vec<Vec<char>> },
    /// Look for `runtime.json` up to 3 levels below `staging`.
    LocateRoot { staging: String },
    /// Read and parse `root/runtime.json`.
    LoadManifest { root: String },
    /// Check that the entrypoints are files.
    CheckEntrypoints { wine: String, wineserver: String },
    /// Run `wine --version`.
    ReadVersion { wine: String },
    /// Create a disposable prefix at `prefix` with the runtime, then delete it.
    ProbePrefix { runtime: crate::wine::WineRuntime, prefix: String },
    /// Delete `backup`, then move `target` (when present) to `backup`.
    MoveActiveAside { target: String, backup: String },
    /// Move the unpacked runtime at `root` to `target`.
    Activate { root: String, target: String },
    /// Move `backup` (when present) back to `target`.
    RestoreActive { backup: String, target: String },
    /// Delete `backup` and `staging`; a failure is ignored.
    CleanUp { backup: String, staging: String },
    /// Report the active runtime's status.
    CheckStatus,
    /// Delete these directories of earlier releases.
    RemoveLegacy(Vec<String>),
    /// The runtime is installed, with this status.
    Succeed(crate::wine::DarwinWineStatus),
    /// Give up with this error.
    Fail(AppError),
}

pub open spec fn paths_of(p: InstallPaths, support: Seq<char>, pid: u32) -> bool {
    let runtimes = path_join(support, "runtime"@);
    &&& p.support@ == support
    &&& p.runtimes@ == runtimes
    &&& p.staging@ == path_join(runtimes, ".darwinwine-install-"@ + crate::text::decimal(pid as nat))
    &&& p.target@ == path_join(runtimes, "darwinwine"@)
    &&& p.backup@ == path_join(runtimes, ".darwinwine-backup"@)
}

/// `r` moves `s` on to `phase` with `action`.
pub open spec fn goes(s: RuntimeInstall, r: (RuntimeInstall, RuntimeInstallAction), phase: InstallPhase, action: RuntimeInstallAction) -> bool {
    r == (RuntimeInstall { paths: s.paths, phase }, action)
}

/// `r` gives up with `e`.
pub open spec fn gives_up(s: RuntimeInstall, r: (RuntimeInstall, RuntimeInstallAction), e: AppError) -> bool {
    goes(s, r, InstallPhase::Done, RuntimeInstallAction::Fail(e))
}

/// `r` gives up with a runtime error of text `t`.
pub open spec fn gives_up_with(s: RuntimeInstall, r: (RuntimeInstall, RuntimeInstallAction), t: Seq<char>) -> bool {
    &&& r.0.paths == s.paths
    &&& r.0.phase is Done
    &&& r.1 matches RuntimeInstallAction::Fail(AppError::Runtime(m)) && m@ == t
}

/// The step of the install from `s` on `e` gives `r`.
pub open spec fn install_step(s: RuntimeInstall, e: RuntimeInstallEvent, r: (RuntimeInstall, RuntimeInstallAction)) -> bool {
    match (s.phase, e) {
        (InstallPhase::Listing, RuntimeInstallEvent::Listed(res)) => match res {
            Err(err) => gives_up(s, r, err),
            Ok(bytes) => match crate::wine::archive_entries(crate::text::lines_of(crate::pe::utf8_lossy(bytes@))) {
                Err(m) => gives_up_with(s, r, m),
                Ok(es) => if es.len() == 0 {
                    gives_up_with(s, r, "DarwinWine archive is empty"@)
                } else {
                    &&& r.0.paths == s.paths
                    &&& r.0.phase matches InstallPhase::Staging { entries } && char_vecs(entries@) == es
                    &&& r.1 matches RuntimeInstallAction::PrepareStaging { runtimes, staging }
                        && runtimes == s.paths.runtimes && staging == s.paths.staging
                },
            },
        },
        (InstallPhase::Staging { entries }, RuntimeInstallEvent::StagingPrepared(res)) => match res {
            Err(err) => gives_up(s, r, err),
            Ok(()) => goes(s, r, InstallPhase::Extracting, RuntimeInstallAction::Extract {
                staging: s.paths.staging,
                entries,
            }),
        },
        (InstallPhase::Extracting, RuntimeInstallEvent::Extracted(res)) => match res {
            Err(err) => gives_up(s, r, err),
            Ok(()) => goes(s, r, InstallPhase::Locating, RuntimeInstallAction::LocateRoot {
                staging: s.paths.staging,
            }),
        },
        (InstallPhase::Locating, RuntimeInstallEvent::RootLocated(found)) => match found {
            None => gives_up_with(s, r, "DarwinWine archive does not contain runtime.json"@),
            Some(root) => goes(s, r, InstallPhase::Loading { root }, RuntimeInstallAction::LoadManifest { root }),
        },
        (InstallPhase::Loading { root }, RuntimeInstallEvent::ManifestLoaded(res)) => match res {
            Err(err) => gives_up(s, r, err),
            Ok(m) => match crate::wine::manifest_error(m) {
                Some(t) => gives_up_with(s, r, t),
                None => {
                    &&& r.0.paths == s.paths
                    &&& r.0.phase matches InstallPhase::CheckingEntrypoints { root: rt, manifest, wine, wineserver }
                        && rt == root && manifest == m && wine@ == path_join(root@, m.entrypoint@)
                        && wineserver@ == path_join(root@, m.wineserver@)
                        && r.1 == (RuntimeInstallAction::CheckEntrypoints { wine, wineserver })
                },
            },
        },
        (
            InstallPhase::CheckingEntrypoints { root, manifest, wine, wineserver },
            RuntimeInstallEvent::EntrypointsChecked { wine_is_file, wineserver_is_file },
        ) => if wine_is_file && wineserver_is_file {
            goes(s, r, InstallPhase::ReadingVersion { root, manifest, wine, wineserver }, RuntimeInstallAction::ReadVersion { wine })
        } else {
            gives_up_with(s, r, "DarwinWine entrypoints are missing"@)
        },
        (
            InstallPhase::ReadingVersion { root, manifest, wine, wineserver },
            RuntimeInstallEvent::VersionRead(res),
        ) => match res {
            Err(err) => gives_up(s, r, err),
            Ok(v) => if crate::text::seq_contains(v@, manifest.wine_version@) {
                &&& r.0.paths == s.paths
                &&& r.0.phase == InstallPhase::Probing { root }
                &&& r.1 matches RuntimeInstallAction::ProbePrefix { runtime, prefix }
                    && runtime.wine == wine && runtime.wineserver == wineserver && runtime.version == v
                    && prefix@ == path_join(s.paths.staging@, ".probe-prefix"@)
            } else {
                gives_up_with(s, r, "runtime reports "@ + v@ + ", manifest expects Wine "@ + manifest.wine_version@)
            },
        },
        (InstallPhase::Probing { root }, RuntimeInstallEvent::PrefixProbed(res)) => match res {
            Err(err) => gives_up(s, r, err),
            Ok(()) => goes(s, r, InstallPhase::MovingAside { root }, RuntimeInstallAction::MoveActiveAside {
                target: s.paths.target,
                backup: s.paths.backup,
            }),
        },
        (InstallPhase::MovingAside { root }, RuntimeInstallEvent::MovedAside(res)) => match res {
            Err(err) => gives_up(s, r, err),
            Ok(()) => goes(s, r, InstallPhase::Activating, RuntimeInstallAction::Activate {
                root,
                target: s.paths.target,
            }),
        },
        (InstallPhase::Activating, RuntimeInstallEvent::Activated(res)) => match res {
            Err(err) => goes(s, r, InstallPhase::Restoring { error: err }, RuntimeInstallAction::RestoreActive {
                backup: s.paths.backup,
                target: s.paths.target,
            }),
            Ok(()) => goes(s, r, InstallPhase::CleaningUp, RuntimeInstallAction::CleanUp {
                backup: s.paths.backup,
                staging: s.paths.staging,
            }),
        },
        (InstallPhase::Restoring { error }, RuntimeInstallEvent::Restored) => gives_up(s, r, error),
        (InstallPhase::CleaningUp, RuntimeInstallEvent::CleanedUp) => goes(
            s,
            r,
            InstallPhase::CheckingStatus,
            RuntimeInstallAction::CheckStatus,
        ),
        (InstallPhase::CheckingStatus, RuntimeInstallEvent::StatusChecked(status)) => if status.ready {
            &&& r.0.paths == s.paths
            &&& r.0.phase == InstallPhase::RemovingLegacy { status }
            &&& r.1 matches RuntimeInstallAction::RemoveLegacy(dirs) && crate::pe::strs(dirs@) == seq![
                path_join(s.paths.support@, "engines"@),
                path_join(path_join(s.paths.support@, "downloads"@), "wine"@),
            ]
        } else {
            match status.probe_error {
                Some(m) => gives_up(s, r, AppError::Runtime(m)),
                None => gives_up_with(s, r, "DarwinWine activation failed"@),
            }
        },
        (InstallPhase::RemovingLegacy { status }, RuntimeInstallEvent::LegacyRemoved(res)) => match res {
            Err(err) => gives_up(s, r, err),
            Ok(()) => goes(s, r, InstallPhase::Done, RuntimeInstallAction::Succeed(status)),
        },
        _ => false,
    }
}

/// Whether `e` answers the action that led to `s`.
pub open spec fn install_expects(s: RuntimeInstall, e: RuntimeInstallEvent) -> bool {
    match s.phase {
        InstallPhase::Listing => e is Listed,
        InstallPhase::Staging { .. } => e is StagingPrepared,
        InstallPhase::Extracting => e is Extracted,
        InstallPhase::Locating => e is RootLocated,
        InstallPhase::Loading { .. } => e is ManifestLoaded,
        InstallPhase::CheckingEntrypoints { .. } => e is EntrypointsChecked,
        InstallPhase::ReadingVersion { .. } => e is VersionRead,
        InstallPhase::Probing { .. } => e is PrefixProbed,
        InstallPhase::MovingAside { .. } => e is MovedAside,
        InstallPhase::Activating => e is Activated,
        InstallPhase::Restoring { .. } => e is Restored,
        InstallPhase::CleaningUp => e is CleanedUp,
        InstallPhase::CheckingStatus => e is StatusChecked,
        InstallPhase::RemovingLegacy { .. } => e is LegacyRemoved,
        InstallPhase::Done => false,
    }
}

/// The first step of installing the archive `archive`: it must be a file.
pub fn runtime_install_begin(support: &str, pid: u32, archive: String, archive_is_file: bool) -> (r: (
    RuntimeInstall,
    RuntimeInstallAction,
))
    ensures
        paths_of(r.0.paths, support@, pid),
        archive_is_file ==> r.0.phase is Listing && r.1 is ListArchive,
        !archive_is_file ==> r.0.phase is Done && r.1 == RuntimeInstallAction::Fail(AppError::InvalidFile(archive)),
{
    let runtimes = crate::text::join_path(support, "runtime");
    let mut name = chars_of(".darwinwine-install-");
    push_chars(&mut name, crate::text::decimal_u64(pid as u64).as_slice());
    let staging = crate::text::join_path_chars(runtimes.as_str(), name.as_slice());
    let target = crate::text::join_path(runtimes.as_str(), "darwinwine");
    let backup = crate::text::join_path(runtimes.as_str(), ".darwinwine-backup");
    let paths = InstallPaths { support: owned(support), runtimes, staging, target, backup };
    if archive_is_file {
        (RuntimeInstall { paths, phase: InstallPhase::Listing }, RuntimeInstallAction::ListArchive)
    } else {
        (RuntimeInstall { paths, phase: InstallPhase::Done }, RuntimeInstallAction::Fail(AppError::InvalidFile(archive)))
    }
}

fn give_up(paths: InstallPaths, e: AppError) -> (r: (RuntimeInstall, RuntimeInstallAction))
    ensures
        r == (RuntimeInstall { paths, phase: InstallPhase::Done }, RuntimeInstallAction::Fail(e)),
{
    (RuntimeInstall { paths, phase: InstallPhase::Done }, RuntimeInstallAction::Fail(e))
}

/// The next step of installing a runtime archive: its listing must be safe
/// and non-empty; it is extracted into staging; the unpacked runtime must
/// hold an acceptable `runtime.json`, its entrypoints, report the manifest's
/// Wine version and boot a disposable prefix; only then is the active runtime
/// moved aside and the new one moved in (the old one is moved back when that
/// fails); the directories of earlier releases are removed only once the
/// activated runtime reports ready.
pub fn runtime_install_step(state: RuntimeInstall, event: RuntimeInstallEvent) -> (r: (
    RuntimeInstall,
    RuntimeInstallAction,
))
    requires
        install_expects(state, event),
    ensures
        install_step(state, event, r),
{
    let RuntimeInstall { paths, phase } = state;
    match (phase, event) {
        (InstallPhase::Listing, RuntimeInstallEvent::Listed(res)) => match res {
            Err(err) => give_up(paths, err),
            Ok(bytes) => match crate::wine::validate_archive_listing(bytes.as_slice()) {
                Err(err) => give_up(paths, err),
                Ok(entries) => {
                    let runtimes = paths.runtimes.clone();
                    let staging = paths.staging.clone();
                    (
                        RuntimeInstall { paths, phase: InstallPhase::Staging { entries } },
                        RuntimeInstallAction::PrepareStaging { runtimes, staging },
                    )
                },
            },
        },
        (InstallPhase::Staging { entries }, RuntimeInstallEvent::StagingPrepared(res)) => match res {
            Err(err) => give_up(paths, err),
            Ok(()) => {
                let staging = paths.staging.clone();
                (
                    RuntimeInstall { paths, phase: InstallPhase::Extracting },
                    RuntimeInstallAction::Extract { staging, entries },
                )
            },
        },
        (InstallPhase::Extracting, RuntimeInstallEvent::Extracted(res)) => match res {
            Err(err) => give_up(paths, err),
            Ok(()) => {
                let staging = paths.staging.clone();
                (RuntimeInstall { paths, phase: InstallPhase::Locating }, RuntimeInstallAction::LocateRoot { staging })
            },
        },
        (InstallPhase::Locating, RuntimeInstallEvent::RootLocated(found)) => match found {
            None => give_up(paths, AppError::Runtime(owned("DarwinWine archive does not contain runtime.json"))),
            Some(root) => {
                let r2 = root.clone();
                (
                    RuntimeInstall { paths, phase: InstallPhase::Loading { root } },
                    RuntimeInstallAction::LoadManifest { root: r2 },
                )
            },
        },
        (InstallPhase::Loading { root }, RuntimeInstallEvent::ManifestLoaded(res)) => match res {
            Err(err) => give_up(paths, err),
            Ok(m) => match crate::wine::validate_manifest(&m) {
                Err(err) => give_up(paths, err),
                Ok(()) => {
                    let wine = crate::text::join_path(root.as_str(), m.entrypoint.as_str());
                    let wineserver = crate::text::join_path(root.as_str(), m.wineserver.as_str());
                    let w2 = wine.clone();
                    let s2 = wineserver.clone();
                    (
                        RuntimeInstall {
                            paths,
                            phase: InstallPhase::CheckingEntrypoints { root, manifest: m, wine, wineserver },
                        },
                        RuntimeInstallAction::CheckEntrypoints { wine: w2, wineserver: s2 },
                    )
                },
            },
        },
        (
            InstallPhase::CheckingEntrypoints { root, manifest, wine, wineserver },
            RuntimeInstallEvent::EntrypointsChecked { wine_is_file, wineserver_is_file },
        ) => match crate::wine::check_entrypoints(wine_is_file, wineserver_is_file) {
            Err(err) => give_up(paths, err),
            Ok(()) => {
                let w2 = wine.clone();
                (
                    RuntimeInstall {
                        paths,
                        phase: InstallPhase::ReadingVersion { root, manifest, wine, wineserver },
                    },
                    RuntimeInstallAction::ReadVersion { wine: w2 },
                )
            },
        },
        (
            InstallPhase::ReadingVersion { root, manifest, wine, wineserver },
            RuntimeInstallEvent::VersionRead(res),
        ) => match res {
            Err(err) => give_up(paths, err),
            Ok(v) => match crate::wine::check_reported_version(v.as_str(), &manifest) {
                Err(err) => give_up(paths, err),
                Ok(()) => {
                    let prefix = crate::text::join_path(paths.staging.as_str(), ".probe-prefix");
                    (
                        RuntimeInstall { paths, phase: InstallPhase::Probing { root } },
                        RuntimeInstallAction::ProbePrefix {
                            runtime: crate::wine::WineRuntime { wine, wineserver, version: v },
                            prefix,
                        },
                    )
                },
            },
        },
        (InstallPhase::Probing { root }, RuntimeInstallEvent::PrefixProbed(res)) => match res {
            Err(err) => give_up(paths, err),
            Ok(()) => {
                let target = paths.target.clone();
                let backup = paths.backup.clone();
                (
                    RuntimeInstall { paths, phase: InstallPhase::MovingAside { root } },
                    RuntimeInstallAction::MoveActiveAside { target, backup },
                )
            },
        },
        (InstallPhase::MovingAside { root }, RuntimeInstallEvent::MovedAside(res)) => match res {
            Err(err) => give_up(paths, err),
            Ok(()) => {
                let target = paths.target.clone();
                (RuntimeInstall { paths, phase: InstallPhase::Activating }, RuntimeInstallAction::Activate { root, target })
            },
        },
        (InstallPhase::Activating, RuntimeInstallEvent::Activated(res)) => {
            let target = paths.target.clone();
            let backup = paths.backup.clone();
            match res {
                Err(err) => (
                    RuntimeInstall { paths, phase: InstallPhase::Restoring { error: err } },
                    RuntimeInstallAction::RestoreActive { backup, target },
                ),
                Ok(()) => {
                    let staging = paths.staging.clone();
                    (
                        RuntimeInstall { paths, phase: InstallPhase::CleaningUp },
                        RuntimeInstallAction::CleanUp { backup, staging },
                    )
                },
            }
        },
        (InstallPhase::Restoring { error }, RuntimeInstallEvent::Restored) => give_up(paths, error),
        (InstallPhase::CleaningUp, RuntimeInstallEvent::CleanedUp) => (
            RuntimeInstall { paths, phase: InstallPhase::CheckingStatus },
            RuntimeInstallAction::CheckStatus,
        ),
        (InstallPhase::CheckingStatus, RuntimeInstallEvent::StatusChecked(status)) => if status.ready {
            let dirs = crate::wine::remove_legacy_managed_wine_state(paths.support.as_str());
            assert(crate::pe::strs(dirs@) =~= seq![
                path_join(paths.support@, "engines"@),
                path_join(path_join(paths.support@, "downloads"@), "wine"@),
            ]);
            (
                RuntimeInstall { paths, phase: InstallPhase::RemovingLegacy { status } },
                RuntimeInstallAction::RemoveLegacy(dirs),
            )
        } else {
            match status.probe_error {
                Some(m) => give_up(paths, AppError::Runtime(m)),
                None => give_up(paths, AppError::Runtime(owned("DarwinWine activation failed"))),
            }
        },
        (InstallPhase::RemovingLegacy { status }, RuntimeInstallEvent::LegacyRemoved(res)) => match res {
            Err(err) => give_up(paths, err),
            Ok(()) => (RuntimeInstall { paths, phase: InstallPhase::Done }, RuntimeInstallAction::Succeed(status)),
        },
        (_, _) => {
            proof {
                assert(false);
            }
            give_up(paths, AppError::RuntimeNotFound)
        },
    }
}

/// The phases after the disposable prefix booted.
pub open spec fn probed(p: InstallPhase) -> bool {
    ||| p is MovingAside
    ||| p is Activating
    ||| p is Restoring
    ||| p is CleaningUp
    ||| p is CheckingStatus
    ||| p is RemovingLegacy
}

/// The phases after the manifest was accepted.
pub open spec fn manifest_accepted(p: InstallPhase) -> bool {
    ||| p is CheckingEntrypoints
    ||| p is ReadingVersion
    ||| p is Probing
    ||| probed(p)
}

/// The phases after the new runtime was moved into place.
pub open spec fn activated(p: InstallPhase) -> bool {
    ||| p is CleaningUp
    ||| p is CheckingStatus
    ||| p is RemovingLegacy
}

/// The actions that change the active runtime.
pub open spec fn touches_active(a: RuntimeInstallAction) -> bool {
    ||| a is MoveActiveAside
    ||| a is Activate
    ||| a is RestoreActive
}

/// A run of the install from its first step: `states[i]` on `events[i]`
/// gives `states[i + 1]` and `actions[i]`.
pub open spec fn install_run(
    states: Seq<RuntimeInstall>,
    events: Seq<RuntimeInstallEvent>,
    actions: Seq<RuntimeInstallAction>,
) -> bool {
    &&& states.len() == events.len() + 1
    &&& actions.len() == events.len()
    &&& states[0].phase is Listing
    &&& forall|i: int|
        0 <= i < events.len() ==> install_step(#[trigger] states[i], events[i], (states[i + 1], actions[i]))
}

proof fn lemma_entered(
    states: Seq<RuntimeInstall>,
    events: Seq<RuntimeInstallEvent>,
    actions: Seq<RuntimeInstallAction>,
    region: spec_fn(InstallPhase) -> bool,
    gate: spec_fn(RuntimeInstallEvent) -> bool,
    k: int,
)
    requires
        install_run(states, events, actions),
        !region(states[0].phase),
        forall|i: int|
            0 <= i < events.len() && region(#[trigger] states[i + 1].phase) && !region(states[i].phase)
                ==> gate(events[i]),
        0 <= k < states.len(),
        region(states[k].phase),
    ensures
        exists|j: int| 0 <= j < k && gate(#[trigger] events[j]),
    decreases k,
{
    if region(states[k - 1].phase) {
        lemma_entered(states, events, actions, region, gate, k - 1);
        let j = choose|j: int| 0 <= j < k - 1 && gate(#[trigger] events[j]);
    } else {
        assert(gate(events[k - 1]));
    }
}

proof fn lemma_step_facts(s: RuntimeInstall, e: RuntimeInstallEvent, r: (RuntimeInstall, RuntimeInstallAction))
    requires
        install_step(s, e, r),
    ensures
        probed(r.0.phase) && !probed(s.phase) ==> e matches RuntimeInstallEvent::PrefixProbed(Ok(())),
        manifest_accepted(r.0.phase) && !manifest_accepted(s.phase) ==> (e matches RuntimeInstallEvent::ManifestLoaded(Ok(m))
            && crate::wine::manifest_error(m) is None),
        activated(r.0.phase) && !activated(s.phase) ==> e matches RuntimeInstallEvent::Activated(Ok(())),
        touches_active(r.1) ==> probed(r.0.phase),
        probed(s.phase) ==> probed(r.0.phase) || r.0.phase is Done,
{
}

/// The active runtime is changed only after every check passed: the
/// manifest was accepted and the new runtime booted a disposable prefix.
pub proof fn lemma_active_changed_after_checks(
    states: Seq<RuntimeInstall>,
    events: Seq<RuntimeInstallEvent>,
    actions: Seq<RuntimeInstallAction>,
    i: int,
)
    requires
        install_run(states, events, actions),
        0 <= i < actions.len(),
        touches_active(actions[i]),
    ensures
        exists|j: int| 0 <= j <= i && #[trigger] events[j] matches RuntimeInstallEvent::PrefixProbed(Ok(())),
        exists|j: int| 0 <= j <= i && (#[trigger] events[j] matches RuntimeInstallEvent::ManifestLoaded(Ok(m))
            && crate::wine::manifest_error(m) is None),
{
    assert forall|k: int| 0 <= k < events.len() && probed(#[trigger] states[k + 1].phase) && !probed(
        states[k].phase,
    ) implies events[k] matches RuntimeInstallEvent::PrefixProbed(Ok(())) by {
        assert(install_step(states[k], events[k], (states[k + 1], actions[k])));
        lemma_step_facts(states[k], events[k], (states[k + 1], actions[k]));
    }
    assert forall|k: int| 0 <= k < events.len() && manifest_accepted(#[trigger] states[k + 1].phase)
        && !manifest_accepted(states[k].phase) implies (events[k] matches RuntimeInstallEvent::ManifestLoaded(
        Ok(m),
    ) && crate::wine::manifest_error(m) is None) by {
        assert(install_step(states[k], events[k], (states[k + 1], actions[k])));
        lemma_step_facts(states[k], events[k], (states[k + 1], actions[k]));
    }
    assert(install_step(states[i], events[i], (states[i + 1], actions[i])));
    lemma_step_facts(states[i], events[i], (states[i + 1], actions[i]));
    let g1 = |e: RuntimeInstallEvent| e matches RuntimeInstallEvent::PrefixProbed(Ok(()));
    let g2 = |e: RuntimeInstallEvent| e matches RuntimeInstallEvent::ManifestLoaded(Ok(m))
        && crate::wine::manifest_error(m) is None;
    lemma_entered(states, events, actions, |p: InstallPhase| probed(p), g1, i + 1);
    lemma_entered(states, events, actions, |p: InstallPhase| manifest_accepted(p), g2, i + 1);
    let j1 = choose|j: int| 0 <= j < i + 1 && g1(#[trigger] events[j]);
    let j2 = choose|j: int| 0 <= j < i + 1 && g2(#[trigger] events[j]);
    assert(events[j1] matches RuntimeInstallEvent::PrefixProbed(Ok(())));
    assert(events[j2] matches RuntimeInstallEvent::ManifestLoaded(Ok(m)) && crate::wine::manifest_error(m) is None);
}

proof fn lemma_probed_stays(
    states: Seq<RuntimeInstall>,
    events: Seq<RuntimeInstallEvent>,
    actions: Seq<RuntimeInstallAction>,
    k: int,
    m: int,
)
    requires
        install_run(states, events, actions),
        0 <= k <= m < events.len(),
        probed(states[k].phase),
    ensures
        probed(states[m].phase),
    decreases m - k,
{
    if k < m {
        assert(install_step(states[k], events[k], (states[k + 1], actions[k])));
        lemma_step_facts(states[k], events[k], (states[k + 1], actions[k]));
        assert(install_step(states[k + 1], events[k + 1], (states[k + 2], actions[k + 1])));
        lemma_probed_stays(states, events, actions, k + 1, m);
    }
}

/// An install that fails before the new runtime booted its prefix never
/// changed the active runtime.
pub proof fn lemma_early_failure_keeps_active(
    states: Seq<RuntimeInstall>,
    events: Seq<RuntimeInstallEvent>,
    actions: Seq<RuntimeInstallAction>,
    i: int,
)
    requires
        install_run(states, events, actions),
        0 <= i < actions.len(),
        actions[i] is Fail,
        !probed(states[i].phase),
    ensures
        forall|k: int| 0 <= k <= i ==> !touches_active(#[trigger] actions[k]),
{
    assert forall|k: int| 0 <= k <= i implies !touches_active(#[trigger] actions[k]) by {
        if touches_active(actions[k]) {
            assert(install_step(states[k], events[k], (states[k + 1], actions[k])));
            lemma_step_facts(states[k], events[k], (states[k + 1], actions[k]));
            if k < i {
                lemma_probed_stays(states, events, actions, k + 1, i);
            }
        }
    }
}

/// When moving the new runtime into place fails, the old one is moved back
/// before the install gives up with that error.
pub proof fn lemma_failed_activation_restores(
    s: RuntimeInstall,
    err: AppError,
    r1: (RuntimeInstall, RuntimeInstallAction),
    r2: (RuntimeInstall, RuntimeInstallAction),
)
    requires
        install_step(s, RuntimeInstallEvent::Activated(Err(err)), r1),
        install_step(r1.0, RuntimeInstallEvent::Restored, r2),
    ensures
        r1.1 is RestoreActive,
        r2.1 == RuntimeInstallAction::Fail(err),
{
}

/// The directories of earlier releases are removed only after the new
/// runtime was moved into place and reports ready.
pub proof fn lemma_legacy_removed_after_activation(
    states: Seq<RuntimeInstall>,
    events: Seq<RuntimeInstallEvent>,
    actions: Seq<RuntimeInstallAction>,
    i: int,
)
    requires
        install_run(states, events, actions),
        0 <= i < actions.len(),
        actions[i] is RemoveLegacy,
    ensures
        events[i] matches RuntimeInstallEvent::StatusChecked(st) && st.ready,
        exists|j: int| 0 <= j < i && #[trigger] events[j] matches RuntimeInstallEvent::Activated(Ok(())),
{
    assert(install_step(states[i], events[i], (states[i + 1], actions[i])));
    assert forall|k: int| 0 <= k < events.len() && activated(#[trigger] states[k + 1].phase) && !activated(
        states[k].phase,
    ) implies events[k] matches RuntimeInstallEvent::Activated(Ok(())) by {
        assert(install_step(states[k], events[k], (states[k + 1], actions[k])));
        lemma_step_facts(states[k], events[k], (states[k + 1], actions[k]));
    }
    let g = |e: RuntimeInstallEvent| e matches RuntimeInstallEvent::Activated(Ok(()));
    lemma_entered(states, events, actions, |p: InstallPhase| activated(p), g, i);
    let j = choose|j: int| 0 <= j < i && g(#[trigger] events[j]);
    assert(events[j] matches RuntimeInstallEvent::Activated(Ok(())));
}

} // verus!

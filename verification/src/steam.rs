//! The Steam client inside its own prefix: where it is installed, what its
//! logs say about the UI, the launch arguments that keep its CEF UI
//! rendering, and the games its libraries hold.

use crate::compatibility::{
    validate_relative_executable, BackendOverride, CompatibilityManager, StoredProfile,
    SteamCompatibilityProfile,
};
use crate::error::AppError;
use crate::pe::{decode_lossy, strs, utf8_lossy};
use crate::prefix::PrefixManager;
use crate::text::{
    chars_eq_ignore_case, chars_of, contains, eq_ignore_case, find_chars, first_match, join_path,
    lines_chars, lines_of, lower_chars, lower_seq, owned, path_join, push_chars, push_str,
    seq_contains, string_chars, string_from_chars, sub_chars, trim, trim_chars,
};
use crate::order::char_vecs;
use vstd::prelude::*;

verus! {

/// The game id of Steam's prefix.
pub const STEAM_PREFIX_ID: &'static str = "steam";

/// The exit code with which the Steam client asks to be started again.
pub const STEAM_RESTART_EXIT_CODE: i32 = 42;

/// How many consecutive restarts Steam may ask for.
pub const STEAM_RESTART_LIMIT: usize = 3;

pub const STEAM_INSTALL_TIMEOUT_SECS: u64 = 90;

/// The version of the UI policy a running client was started with; a
/// client started under another policy is restarted.
pub const STEAM_UI_POLICY_VERSION: u32 = 9;

/// The genuine web helper is about 7 MiB; anything this small is the shim.
pub const STEAM_WEBHELPER_SHIM_MAX_LEN: u64 = 1048576;

/// How much of the end of a log the diagnostics read.
pub const LOG_TAIL_BYTES: usize = 1048576;

#[derive(Debug, Clone)]
pub struct SteamStatus {
    pub installed: bool,
    pub running: bool,
    pub prefix: String,
    pub steam_path: Option<String>,
    pub games_installed: usize,
    pub ui_policy_current: bool,
    pub prefix_runtime_compatible: bool,
    pub prefix_runtime_version: Option<String>,
}

#[derive(Debug, Clone)]
pub struct SteamGame {
    pub app_id: u32,
    pub name: String,
    pub install_dir: String,
    pub install_path: String,
    pub manifest_path: String,
    pub state_flags: u64,
    pub size_on_disk: u64,
}

#[derive(Debug)]
pub struct SteamLibrary {
    pub games: Vec<SteamGame>,
}

#[derive(Debug, Clone)]
pub struct SteamUiDiagnostics {
    pub webhelper_log_path: Option<String>,
    pub cef_log_path: Option<String>,
    pub webhelper_command_line: Option<String>,
    pub disable_gpu_observed: bool,
    pub disable_gpu_compositing_observed: bool,
    pub registry_gpu_acceleration_disabled: bool,
    pub vulkan_observed: bool,
    /// The shim is what keeps Steam's windows from rendering black.
    pub in_process_gpu_observed: bool,
}

/// The UI policy a running Steam client was started with.
#[derive(Debug, Clone, Copy)]
pub struct SteamUiSession {
    pub ui_policy_version: u32,
}

/// Where the Steam client is installed in its prefix: the host path of
/// `steam.exe` and the Windows path Wine starts it by.
#[derive(Debug)]
pub struct SteamExecutable {
    pub host_path: String,
    pub windows_path: &'static str,
}

/// The places `steam.exe` may be, in the order they are tried.
pub open spec fn steam_locations(prefix: Seq<char>) -> Seq<(Seq<char>, Seq<char>)> {
    seq![
        (
            path_join(prefix, "drive_c/Program Files (x86)/Steam/steam.exe"@),
            "C:\\Program Files (x86)\\Steam\\steam.exe"@,
        ),
        (path_join(prefix, "drive_c/Program Files/Steam/steam.exe"@), "C:\\Program Files\\Steam\\steam.exe"@),
    ]
}

/// The host paths to look for `steam.exe` at, in order.
pub fn steam_executable_candidates(prefix: &str) -> (r: Vec<String>)
    ensures
        r@.len() == 2,
        r@[0]@ == steam_locations(prefix@)[0].0,
        r@[1]@ == steam_locations(prefix@)[1].0,
{
    let mut v: Vec<String> = Vec::new();
    v.push(join_path(prefix, "drive_c/Program Files (x86)/Steam/steam.exe"));
    v.push(join_path(prefix, "drive_c/Program Files/Steam/steam.exe"));
    v
}

/// The first location whose `steam.exe` is a file; `present[i]` says
/// whether the `i`-th of `steam_executable_candidates` is.
pub fn find_steam_executable(prefix: &str, present: &[bool; 2]) -> (r: Option<SteamExecutable>)
    ensures
        present@[0] ==> (r matches Some(e) && e.host_path@ == steam_locations(prefix@)[0].0
            && e.windows_path@ == steam_locations(prefix@)[0].1),
        !present@[0] && present@[1] ==> (r matches Some(e) && e.host_path@ == steam_locations(
            prefix@,
        )[1].0 && e.windows_path@ == steam_locations(prefix@)[1].1),
        !present@[0] && !present@[1] ==> r is None,
{
    if present[0] {
        Some(
            SteamExecutable {
                host_path: join_path(prefix, "drive_c/Program Files (x86)/Steam/steam.exe"),
                windows_path: "C:\\Program Files (x86)\\Steam\\steam.exe",
            },
        )
    } else if present[1] {
        Some(
            SteamExecutable {
                host_path: join_path(prefix, "drive_c/Program Files/Steam/steam.exe"),
                windows_path: "C:\\Program Files\\Steam\\steam.exe",
            },
        )
    } else {
        None
    }
}

/// The directory of `steam.exe` at the location of index `k`.
pub open spec fn steam_root_of(prefix: Seq<char>, k: int) -> Seq<char> {
    if k == 0 {
        path_join(prefix, "drive_c/Program Files (x86)/Steam"@)
    } else {
        path_join(prefix, "drive_c/Program Files/Steam"@)
    }
}

/// Whether a recorded session was started under the current UI policy.
pub open spec fn session_current(session: Option<SteamUiSession>) -> bool {
    session matches Some(s) && s.ui_policy_version == STEAM_UI_POLICY_VERSION
}

pub fn session_is_current(session: Option<SteamUiSession>) -> (r: bool)
    ensures
        r == session_current(session),
{
    match session {
        Some(s) => s.ui_policy_version == STEAM_UI_POLICY_VERSION,
        None => false,
    }
}

/// The session record of a client started now.
pub fn current_session() -> (r: SteamUiSession)
    ensures
        session_current(Some(r)),
{
    SteamUiSession { ui_policy_version: STEAM_UI_POLICY_VERSION }
}

/// What the program observed about Steam's prefix for a status report.
#[derive(Debug)]
pub struct SteamObservation {
    /// The host path of the installed `steam.exe`, if any.
    pub steam_path: Option<String>,
    /// How many games the libraries list (read only when Steam is installed).
    pub games_installed: usize,
    /// The runtime version recorded in the prefix.
    pub prefix_runtime_version: Option<String>,
    /// Whether the prefix suits the current runtime; `None` without a runtime.
    pub runtime_compatible: Option<bool>,
    /// Whether `steam.exe` runs; `None` without a runtime or when the check
    /// failed.
    pub steam_running: Option<bool>,
    /// The recorded UI session, read only while Steam runs.
    pub session: Option<SteamUiSession>,
}

impl SteamManager {
    /// Steam's prefix and the per-game profiles below the application
    /// support directory.
    pub fn new(application_support: &str) -> (r: SteamManager)
        ensures
            r.prefixes.root@ == path_join(application_support@, "prefixes"@),
            r.compatibility.root@ == path_join(application_support@, "compatibility/steam"@),
    {
        SteamManager {
            prefixes: PrefixManager::new(application_support),
            compatibility: CompatibilityManager::new(application_support),
        }
    }

    /// The prefix Steam runs in.
    pub fn prefix_path(&self) -> (r: Result<String, AppError>)
        ensures
            r matches Ok(p) && p@ == path_join(self.prefixes.root@, "steam"@),
    {
        proof {
            reveal_strlit("steam");
            assert(crate::prefix::game_id_ok("steam"@));
        }
        self.prefixes.path(STEAM_PREFIX_ID)
    }

    /// The status report: Steam counts as running only when it is installed,
    /// the prefix suits the runtime and `steam.exe` was seen running; its UI
    /// policy is current unless it runs under another policy.
    pub fn status(&self, observation: SteamObservation) -> (r: Result<SteamStatus, AppError>)
        ensures
            ({
                let installed = observation.steam_path is Some;
                let compatible = match observation.runtime_compatible {
                    Some(c) => c,
                    None => true,
                };
                let running = installed && compatible && observation.steam_running == Some(true);
                r matches Ok(s) && s.installed == installed && s.running == running && s.prefix@
                    == path_join(self.prefixes.root@, "steam"@) && opt_text(s.steam_path)
                    == opt_text(observation.steam_path) && s.games_installed == (if installed {
                    observation.games_installed
                } else {
                    0
                }) && s.ui_policy_current == (!running || session_current(observation.session))
                    && s.prefix_runtime_compatible == compatible && opt_text(
                    s.prefix_runtime_version,
                ) == opt_text(observation.prefix_runtime_version)
            }),
    {
        let prefix = self.prefix_path()?;
        let SteamObservation {
            steam_path,
            games_installed,
            prefix_runtime_version,
            runtime_compatible,
            steam_running,
            session,
        } = observation;
        let installed = steam_path.is_some();
        let compatible = match runtime_compatible {
            Some(c) => c,
            None => true,
        };
        let running = installed && compatible && match steam_running {
            Some(b) => b,
            None => false,
        };
        Ok(
            SteamStatus {
                installed,
                running,
                prefix,
                steam_path,
                games_installed: if installed {
                    games_installed
                } else {
                    0
                },
                ui_policy_current: !running || session_is_current(session),
                prefix_runtime_compatible: compatible,
                prefix_runtime_version,
            },
        )
    }
}

/// The Steam prefix and the per-game profiles.
pub struct SteamManager {
    pub prefixes: PrefixManager,
    pub compatibility: CompatibilityManager,
}

pub open spec fn opt_text(o: Option<String>) -> Option<Seq<char>> {
    match o {
        Some(s) => Some(s@),
        None => None,
    }
}

// ---------------------------------------------------------------------------
// Steam's UI: logs, registry, launch arguments
// ---------------------------------------------------------------------------

/// The end of a log: its last `max_bytes` bytes, decoded leniently.
pub open spec fn log_tail_text(bytes: Seq<u8>, max_bytes: nat) -> Seq<char> {
    utf8_lossy(bytes.skip(if bytes.len() > max_bytes {
        bytes.len() - max_bytes
    } else {
        0
    }))
}

pub fn log_tail(bytes: &[u8], max_bytes: usize) -> (r: String)
    ensures
        r@ == log_tail_text(bytes@, max_bytes as nat),
{
    let start: usize = if bytes.len() > max_bytes {
        bytes.len() - max_bytes
    } else {
        0
    };
    let mut tail: Vec<u8> = Vec::new();
    let mut i: usize = start;
    while i < bytes.len()
        invariant
            start <= i <= bytes@.len(),
            tail@ == bytes@.subrange(start as int, i as int),
        decreases bytes@.len() - i,
    {
        tail.push(bytes[i]);
        i = i + 1;
        assert(tail@ =~= bytes@.subrange(start as int, i as int));
    }
    assert(tail@ =~= bytes@.skip(start as int));
    decode_lossy(tail.as_slice())
}

/// The command line of the most recently launched web helper: the text
/// after `commandline:` on the last log line that has it, trimmed.
pub open spec fn last_command_line(lines: Seq<Seq<char>>) -> Option<Seq<char>>
    decreases lines.len(),
{
    if lines.len() == 0 {
        None
    } else {
        let line = lines.last();
        match first_match(line, "commandline:"@, 0) {
            Some(i) => Some(trim(line.skip(i + 12))),
            None => last_command_line(lines.drop_last()),
        }
    }
}

pub fn latest_webhelper_command_line(text: &str) -> (r: Option<String>)
    ensures
        opt_text(r) == last_command_line(lines_of(text@)),
{
    let t = chars_of(text);
    let lines = lines_chars(t.as_slice());
    let ghost ls = char_vecs(lines@);
    let marker = chars_of("commandline:");
    proof {
        reveal_strlit("commandline:");
    }
    let mut k: usize = lines.len();
    assert(ls.take(k as int) =~= ls);
    while k > 0
        invariant
            k <= lines@.len(),
            ls == char_vecs(lines@),
            ls == lines_of(text@),
            marker@ == "commandline:"@,
            marker@.len() == 12,
            last_command_line(ls) == last_command_line(ls.take(k as int)),
        decreases k,
    {
        let line = &lines[k - 1];
        assert(ls.take(k as int).last() == line@);
        assert(ls.take(k as int).drop_last() =~= ls.take(k - 1));
        match find_chars(line.as_slice(), marker.as_slice()) {
            Some(i) => {
                let n = line.len();
                assert(i + 12 <= n);
                let rest = sub_chars(line.as_slice(), i + 12, n);
                assert(rest@ =~= line@.skip(i + 12));
                let value = trim_chars(rest.as_slice());
                return Some(string_from_chars(value.as_slice()));
            },
            None => {},
        }
        k = k - 1;
    }
    None
}

/// Steam's registry switch for GPU-accelerated web views, written off.
pub open spec fn gpu_acceleration_off_line(line: Seq<char>) -> bool {
    lower_seq(trim(line)) == "\"gpuaccelwebviewsv3\"=dword:00000000"@
}

/// Some line of a registry file turns GPU-accelerated web views off.
pub open spec fn registry_disables_gpu(text: Seq<char>) -> bool {
    exists|k: int|
        0 <= k < lines_of(text).len() && gpu_acceleration_off_line(#[trigger] lines_of(text)[k])
}

pub open spec fn registry_gpu_off(user_reg: Option<Seq<char>>) -> bool {
    match user_reg {
        Some(t) => registry_disables_gpu(t),
        None => false,
    }
}

/// Whether `user.reg` (when it could be read) turns GPU-accelerated web
/// views off.
pub fn gpu_acceleration_disabled_in_registry(user_reg: Option<&str>) -> (r: bool)
    ensures
        r == registry_gpu_off(
            match user_reg {
                Some(t) => Some(t@),
                None => None,
            },
        ),
{
    match user_reg {
        Some(text) => registry_text_disables_gpu(text),
        None => false,
    }
}

fn registry_text_disables_gpu(text: &str) -> (r: bool)
    ensures
        r == registry_disables_gpu(text@),
{
    let t = chars_of(text);
    let lines = lines_chars(t.as_slice());
    let ghost ls = char_vecs(lines@);
    let wanted = chars_of("\"gpuaccelwebviewsv3\"=dword:00000000");
    let mut k: usize = 0;
    while k < lines.len()
        invariant
            k <= lines@.len(),
            ls == char_vecs(lines@),
            ls == lines_of(text@),
            wanted@ == "\"gpuaccelwebviewsv3\"=dword:00000000"@,
            forall|j: int| 0 <= j < k ==> !gpu_acceleration_off_line(#[trigger] ls[j]),
        decreases lines@.len() - k,
    {
        assert(ls[k as int] == lines@[k as int]@);
        let normalized = lower_chars(trim_chars(lines[k].as_slice()).as_slice());
        if crate::text::chars_eq(normalized.as_slice(), wanted.as_slice()) {
            assert(gpu_acceleration_off_line(lines_of(text@)[k as int]));
            assert(exists|j: int|
                0 <= j < lines_of(text@).len() && gpu_acceleration_off_line(
                    #[trigger] lines_of(text@)[j],
                ));
            return true;
        }
        k = k + 1;
    }
    false
}

/// Flags in a lowercased command line.
pub open spec fn flag_seen(command: Seq<char>, flag: Seq<char>) -> bool {
    seq_contains(lower_seq(command), flag)
}

/// What the logs say about Steam's UI.
pub open spec fn diagnostics_of(
    d: SteamUiDiagnostics,
    webhelper: Option<Seq<char>>,
    cef: Option<Seq<char>>,
    webhelper_path: Seq<char>,
    webhelper_is_file: bool,
    cef_path: Seq<char>,
    cef_is_file: bool,
    registry_disabled: bool,
) -> bool {
    let command = match webhelper {
        Some(w) => last_command_line(lines_of(w)),
        None => None,
    };
    let c = match command {
        Some(x) => x,
        None => seq![],
    };
    let combined = match webhelper {
        Some(w) => w,
        None => seq![],
    } + "\n"@ + match cef {
        Some(x) => x,
        None => seq![],
    };
    &&& opt_text(d.webhelper_log_path) == (if webhelper_is_file {
        Some(webhelper_path)
    } else {
        None
    })
    &&& opt_text(d.cef_log_path) == (if cef_is_file {
        Some(cef_path)
    } else {
        None
    })
    &&& opt_text(d.webhelper_command_line) == command
    &&& d.disable_gpu_observed == flag_seen(c, "--disable-gpu"@)
    &&& d.disable_gpu_compositing_observed == flag_seen(c, "--disable-gpu-compositing"@)
    &&& d.registry_gpu_acceleration_disabled == registry_disabled
    &&& d.vulkan_observed == (flag_seen(combined, "vulkan"@) || flag_seen(
        combined,
        "angle_platform_vulkan"@,
    ))
    &&& d.in_process_gpu_observed == flag_seen(c, "--in-process-gpu"@)
}

fn text_of(o: &Option<String>) -> (r: Vec<char>)
    ensures
        r@ == match opt_text(*o) {
            Some(x) => x,
            None => seq![],
        },
{
    match o {
        Some(s) => string_chars(s),
        None => Vec::new(),
    }
}

fn seen(lower: &[char], flag: &str) -> (r: bool)
    ensures
        r == seq_contains(lower@, flag@),
{
    let f = chars_of(flag);
    contains(lower, f.as_slice())
}

impl SteamManager {
    /// The log files the diagnostics read: `logs/webhelper.txt` and
    /// `logs/cef_log.txt` next to `steam.exe` (at location `location`).
    pub fn ui_log_paths(&self, prefix: &str, location: usize) -> (r: (String, String))
        requires
            location < 2,
        ensures
            r.0@ == path_join(steam_root_of(prefix@, location as int), "logs/webhelper.txt"@),
            r.1@ == path_join(steam_root_of(prefix@, location as int), "logs/cef_log.txt"@),
    {
        let root = if location == 0 {
            join_path(prefix, "drive_c/Program Files (x86)/Steam")
        } else {
            join_path(prefix, "drive_c/Program Files/Steam")
        };
        (join_path(root.as_str(), "logs/webhelper.txt"), join_path(root.as_str(), "logs/cef_log.txt"))
    }

    /// The UI diagnostics, from the log tails (`log_tail`), whether the log
    /// files exist, and what `user.reg` holds; fails when Steam is not
    /// installed.
    pub fn ui_diagnostics(
        &self,
        steam: Option<&SteamExecutable>,
        webhelper_path: &str,
        webhelper: Option<String>,
        webhelper_is_file: bool,
        cef_path: &str,
        cef: Option<String>,
        cef_is_file: bool,
        user_reg: Option<&str>,
    ) -> (r: Result<SteamUiDiagnostics, AppError>)
        ensures
            steam is None ==> r matches Err(AppError::SteamNotInstalled),
            steam is Some ==> (r matches Ok(d) && diagnostics_of(
                d,
                opt_text(webhelper),
                opt_text(cef),
                webhelper_path@,
                webhelper_is_file,
                cef_path@,
                cef_is_file,
                registry_gpu_off(
                    match user_reg {
                        Some(t) => Some(t@),
                        None => None,
                    },
                ),
            )),
    {
        if steam.is_none() {
            return Err(AppError::SteamNotInstalled);
        }
        let command_line = match &webhelper {
            Some(w) => latest_webhelper_command_line(w.as_str()),
            None => None,
        };
        let mut combined = text_of(&webhelper);
        push_str(&mut combined, "\n");
        push_chars(&mut combined, text_of(&cef).as_slice());
        let normalized = lower_chars(combined.as_slice());
        let command = lower_chars(text_of(&command_line).as_slice());
        Ok(
            SteamUiDiagnostics {
                webhelper_log_path: if webhelper_is_file {
                    Some(owned(webhelper_path))
                } else {
                    None
                },
                cef_log_path: if cef_is_file {
                    Some(owned(cef_path))
                } else {
                    None
                },
                disable_gpu_observed: seen(command.as_slice(), "--disable-gpu"),
                disable_gpu_compositing_observed: seen(command.as_slice(), "--disable-gpu-compositing"),
                registry_gpu_acceleration_disabled: gpu_acceleration_disabled_in_registry(user_reg),
                vulkan_observed: seen(normalized.as_slice(), "vulkan") || seen(
                    normalized.as_slice(),
                    "angle_platform_vulkan",
                ),
                in_process_gpu_observed: seen(command.as_slice(), "--in-process-gpu"),
                webhelper_command_line: command_line,
            },
        )
    }
}

/// The arguments without those equal to `flag`, ignoring ASCII case.
pub open spec fn without_flag(args: Seq<Seq<char>>, flag: Seq<char>) -> Seq<Seq<char>>
    decreases args.len(),
{
    if args.len() == 0 {
        seq![]
    } else {
        without_flag(args.drop_last(), flag) + if eq_ignore_case(args.last(), flag) {
            seq![]
        } else {
            seq![args.last()]
        }
    }
}

pub open spec fn has_flag(args: Seq<Seq<char>>, flag: Seq<char>) -> bool {
    exists|k: int| 0 <= k < args.len() && eq_ignore_case(#[trigger] args[k], flag)
}

/// `flag` in front of the arguments unless they already have it.
pub open spec fn with_flag(args: Seq<Seq<char>>, flag: Seq<char>) -> Seq<Seq<char>> {
    if has_flag(args, flag) {
        args
    } else {
        seq![flag] + args
    }
}

/// The Steam client's arguments under the CEF-safe UI policy: never
/// `-cef-disable-gpu` (it costs acceleration and fixes nothing), always
/// `-system-composer` and `-noverifyfiles` (which keeps Steam from
/// repairing the web helper shim mid-session).
pub open spec fn cef_safe(args: Seq<Seq<char>>) -> Seq<Seq<char>> {
    with_flag(with_flag(without_flag(args, "-cef-disable-gpu"@), "-system-composer"@), "-noverifyfiles"@)
}

fn has_flag_exec(args: &Vec<String>, flag: &str) -> (r: bool)
    ensures
        r == has_flag(strs(args@), flag@),
{
    let f = chars_of(flag);
    let mut k: usize = 0;
    while k < args.len()
        invariant
            k <= args@.len(),
            f@ == flag@,
            forall|j: int| 0 <= j < k ==> !eq_ignore_case(#[trigger] strs(args@)[j], flag@),
        decreases args@.len() - k,
    {
        assert(strs(args@)[k as int] == args@[k as int]@);
        if chars_eq_ignore_case(string_chars(&args[k]).as_slice(), f.as_slice()) {
            return true;
        }
        k = k + 1;
    }
    false
}

pub fn steam_cef_safe_arguments(arguments: &[String]) -> (r: Vec<String>)
    ensures
        strs(r@) == cef_safe(strs(arguments@)),
{
    let ghost a = strs(arguments@);
    let drop = chars_of("-cef-disable-gpu");
    let mut result: Vec<String> = Vec::new();
    let mut i: usize = 0;
    while i < arguments.len()
        invariant
            i <= arguments@.len(),
            a == strs(arguments@),
            drop@ == "-cef-disable-gpu"@,
            strs(result@) == without_flag(a.take(i as int), "-cef-disable-gpu"@),
        decreases arguments@.len() - i,
    {
        assert(a.take(i + 1).drop_last() =~= a.take(i as int));
        assert(a[i as int] == arguments@[i as int]@);
        let ghost before = strs(result@);
        if !chars_eq_ignore_case(string_chars(&arguments[i]).as_slice(), drop.as_slice()) {
            result.push(arguments[i].clone());
            assert(strs(result@) =~= before + seq![a[i as int]]);
        } else {
            assert(before =~= before + Seq::<Seq<char>>::empty());
        }
        i = i + 1;
    }
    assert(a.take(i as int) =~= a);
    let ghost s0 = strs(result@);
    if !has_flag_exec(&result, "-system-composer") {
        result.insert(0, owned("-system-composer"));
        assert(strs(result@) =~= seq!["-system-composer"@] + s0);
    }
    let ghost s1 = strs(result@);
    if !has_flag_exec(&result, "-noverifyfiles") {
        result.insert(0, owned("-noverifyfiles"));
        assert(strs(result@) =~= seq!["-noverifyfiles"@] + s1);
    }
    result
}

proof fn lemma_without_flag_keeps_others(args: Seq<Seq<char>>, flag: Seq<char>)
    ensures
        forall|k: int|
            0 <= k < without_flag(args, flag).len() ==> !eq_ignore_case(
                #[trigger] without_flag(args, flag)[k],
                flag,
            ),
        !has_flag(args, flag) ==> without_flag(args, flag) == args,
    decreases args.len(),
{
    if args.len() > 0 {
        lemma_without_flag_keeps_others(args.drop_last(), flag);
        let d = without_flag(args.drop_last(), flag);
        assert forall|k: int|
            0 <= k < without_flag(args, flag).len() implies !eq_ignore_case(
                #[trigger] without_flag(args, flag)[k],
                flag,
            ) by {
            if k < d.len() {
                assert(without_flag(args, flag)[k] == d[k]);
            }
        }
        if !has_flag(args, flag) {
            assert(!has_flag(args.drop_last(), flag)) by {
                if has_flag(args.drop_last(), flag) {
                    let k = choose|k: int|
                        0 <= k < args.drop_last().len() && eq_ignore_case(
                            #[trigger] args.drop_last()[k],
                            flag,
                        );
                    assert(args[k] == args.drop_last()[k]);
                }
            }
            assert(!eq_ignore_case(args[args.len() - 1], flag));
            assert(args =~= args.drop_last() + seq![args.last()]);
        }
    } else {
        assert(args =~= Seq::<Seq<char>>::empty());
    }
}

proof fn lemma_without_flag_prefix(front: Seq<Seq<char>>, rest: Seq<Seq<char>>, flag: Seq<char>)
    requires
        forall|k: int| 0 <= k < front.len() ==> !eq_ignore_case(#[trigger] front[k], flag),
        !has_flag(rest, flag),
    ensures
        without_flag(front + rest, flag) == front + rest,
{
    lemma_without_flag_keeps_others(front + rest, flag);
    assert(!has_flag(front + rest, flag)) by {
        if has_flag(front + rest, flag) {
            let k = choose|k: int|
                0 <= k < (front + rest).len() && eq_ignore_case(#[trigger] (front + rest)[k], flag);
            if k < front.len() {
                assert((front + rest)[k] == front[k]);
            } else {
                assert((front + rest)[k] == rest[k - front.len()]);
            }
        }
    }
}

/// Applying the CEF-safe policy twice changes nothing: the flags are added
/// once and `-cef-disable-gpu` never comes back.
pub proof fn lemma_cef_safe_idempotent(args: Seq<Seq<char>>)
    ensures
        cef_safe(cef_safe(args)) == cef_safe(args),
        !has_flag(cef_safe(args), "-cef-disable-gpu"@),
        has_flag(cef_safe(args), "-system-composer"@),
        has_flag(cef_safe(args), "-noverifyfiles"@),
{
    reveal_strlit("-cef-disable-gpu");
    reveal_strlit("-system-composer");
    reveal_strlit("-noverifyfiles");
    let off = "-cef-disable-gpu"@;
    let sc = "-system-composer"@;
    let nv = "-noverifyfiles"@;
    assert(!eq_ignore_case(sc, off)) by {
        assert(lower_seq(sc)[1] != lower_seq(off)[1]);
    }
    assert(!eq_ignore_case(nv, off)) by {
        assert(lower_seq(nv).len() != lower_seq(off).len());
    }
    assert(!eq_ignore_case(nv, sc)) by {
        assert(lower_seq(nv).len() != lower_seq(sc).len());
    }
    let f = without_flag(args, off);
    lemma_without_flag_keeps_others(args, off);
    assert(!has_flag(f, off));
    let s1 = with_flag(f, sc);
    let s2 = with_flag(s1, nv);
    // s2 is some flags in front of `f`, none of them `-cef-disable-gpu`
    let front: Seq<Seq<char>> = if has_flag(s1, nv) {
        seq![]
    } else {
        seq![nv]
    } + if has_flag(f, sc) {
        seq![]
    } else {
        seq![sc]
    };
    assert(s2 =~= front + f);
    assert forall|k: int| 0 <= k < front.len() implies !eq_ignore_case(#[trigger] front[k], off) by {
        assert(front[k] == nv || front[k] == sc);
    }
    lemma_without_flag_prefix(front, f, off);
    assert(without_flag(s2, off) == s2);
    assert(has_flag(s1, sc)) by {
        if has_flag(f, sc) {
            let k = choose|k: int| 0 <= k < f.len() && eq_ignore_case(#[trigger] f[k], sc);
            assert(s1[k] == f[k]);
        } else {
            assert(s1[0] == sc);
            assert(eq_ignore_case(s1[0], sc));
        }
    }
    assert(has_flag(s2, sc)) by {
        let k = choose|k: int| 0 <= k < s1.len() && eq_ignore_case(#[trigger] s1[k], sc);
        if has_flag(s1, nv) {
            assert(s2[k] == s1[k]);
        } else {
            assert(s2[k + 1] == s1[k]);
        }
    }
    assert(has_flag(s2, nv)) by {
        if !has_flag(s1, nv) {
            assert(s2[0] == nv);
            assert(eq_ignore_case(s2[0], nv));
        } else {
            let k = choose|k: int| 0 <= k < s1.len() && eq_ignore_case(#[trigger] s1[k], nv);
            assert(s2[k] == s1[k]);
        }
    }
    assert(!has_flag(s2, off)) by {
        if has_flag(s2, off) {
            let k = choose|k: int| 0 <= k < s2.len() && eq_ignore_case(#[trigger] s2[k], off);
            if k < front.len() {
                assert(s2[k] == front[k]);
            } else {
                assert(s2[k] == f[k - front.len()]);
            }
        }
    }
}

/// The arguments that start a game through the Steam client:
/// `-applaunch <app id>` and the stored launch arguments.
pub open spec fn applaunch_arguments(app_id: u32, launch: Seq<Seq<char>>) -> Seq<Seq<char>> {
    seq!["-applaunch"@, crate::text::decimal(app_id as nat)] + launch
}

pub fn steam_launch_arguments(app_id: u32, launch_arguments: &Vec<String>) -> (r: Vec<String>)
    ensures
        strs(r@) == applaunch_arguments(app_id, strs(launch_arguments@)),
{
    let mut r: Vec<String> = Vec::new();
    r.push(owned("-applaunch"));
    r.push(string_from_chars(crate::text::decimal_u64(app_id as u64).as_slice()));
    let mut i: usize = 0;
    while i < launch_arguments.len()
        invariant
            i <= launch_arguments@.len(),
            strs(r@) == applaunch_arguments(app_id, strs(launch_arguments@).take(i as int)),
        decreases launch_arguments@.len() - i,
    {
        let ghost before = strs(r@);
        let item = launch_arguments[i].clone();
        assert(item@ == strs(launch_arguments@)[i as int]);
        r.push(item);
        assert(strs(r@) =~= before.push(item@));
        assert(strs(launch_arguments@).take(i + 1) =~= strs(launch_arguments@).take(i as int).push(
            item@,
        ));
        i = i + 1;
        assert(strs(r@) =~= applaunch_arguments(app_id, strs(launch_arguments@).take(i as int)));
    }
    assert(strs(launch_arguments@).take(i as int) =~= strs(launch_arguments@));
    r
}

/// What to do after the client exits with `exit_code` on attempt `attempt`
/// (counted from 0).
#[derive(Debug, Clone, Copy, PartialEq, Eq, Structural)]
pub enum ClientExit {
    /// The client exited for good.
    Done,
    /// The client asked to be restarted: stop the prefix and start it again.
    Restart,
    /// The client asked for more restarts than allowed.
    TooManyRestarts,
}

pub open spec fn client_exit(attempt: nat, exit_code: i32) -> ClientExit {
    if exit_code != STEAM_RESTART_EXIT_CODE {
        ClientExit::Done
    } else if attempt + 1 < STEAM_RESTART_LIMIT {
        ClientExit::Restart
    } else {
        ClientExit::TooManyRestarts
    }
}

pub fn after_client_exit(attempt: usize, exit_code: i32) -> (r: ClientExit)
    requires
        attempt < STEAM_RESTART_LIMIT,
    ensures
        r == client_exit(attempt as nat, exit_code),
{
    if exit_code != STEAM_RESTART_EXIT_CODE {
        ClientExit::Done
    } else if attempt + 1 < STEAM_RESTART_LIMIT {
        ClientExit::Restart
    } else {
        ClientExit::TooManyRestarts
    }
}

/// The error once Steam asked for too many restarts.
pub fn too_many_restarts() -> (r: AppError)
    ensures
        r matches AppError::ProcessFailed(t) && t@
            == "Steam requested more than 3 consecutive client restarts"@,
{
    AppError::ProcessFailed(owned("Steam requested more than 3 consecutive client restarts"))
}

/// The `reg.exe` arguments that turn Steam's GPU-accelerated web views off.
pub fn cef_safe_registry_arguments() -> (r: Vec<String>)
    ensures
        strs(r@) == seq![
            "add"@,
            "HKCU\\Software\\Valve\\Steam"@,
            "/v"@,
            "GPUAccelWebViewsV3"@,
            "/t"@,
            "REG_DWORD"@,
            "/d"@,
            "0"@,
            "/f"@,
        ],
{
    let mut v: Vec<String> = Vec::new();
    v.push(owned("add"));
    v.push(owned("HKCU\\Software\\Valve\\Steam"));
    v.push(owned("/v"));
    v.push(owned("GPUAccelWebViewsV3"));
    v.push(owned("/t"));
    v.push(owned("REG_DWORD"));
    v.push(owned("/d"));
    v.push(owned("0"));
    v.push(owned("/f"));
    assert(strs(v@) =~= seq![
        "add"@,
        "HKCU\\Software\\Valve\\Steam"@,
        "/v"@,
        "GPUAccelWebViewsV3"@,
        "/t"@,
        "REG_DWORD"@,
        "/d"@,
        "0"@,
        "/f"@,
    ]);
    v
}

// ---------------------------------------------------------------------------
// The web helper shim
// ---------------------------------------------------------------------------

/// The bytes that mark the DarwinPlay web helper shim.
pub open spec fn shim_marker() -> Seq<u8> {
    seq![
        68u8, 65u8, 82u8, 87u8, 73u8, 78u8, 80u8, 76u8, 65u8, 89u8, 95u8, 83u8, 87u8, 72u8, 95u8,
        83u8, 72u8, 73u8, 77u8, 95u8, 86u8, 49u8,
    ]
}

pub open spec fn window_is(bytes: Seq<u8>, marker: Seq<u8>, i: int) -> bool {
    0 <= i && i + marker.len() <= bytes.len() && bytes.subrange(i, i + marker.len()) == marker
}

pub open spec fn bytes_contain(bytes: Seq<u8>, marker: Seq<u8>) -> bool {
    exists|i: int| #[trigger] window_is(bytes, marker, i)
}

/// A helper is the shim when it is at most 1 MiB and holds the marker.
pub open spec fn webhelper_is_shim(len: u64, bytes: Seq<u8>) -> bool {
    len <= STEAM_WEBHELPER_SHIM_MAX_LEN && bytes_contain(bytes, shim_marker())
}

fn marker_bytes() -> (r: Vec<u8>)
    ensures
        r@ == shim_marker(),
{
    let v: Vec<u8> = vec![
        68u8, 65u8, 82u8, 87u8, 73u8, 78u8, 80u8, 76u8, 65u8, 89u8, 95u8, 83u8, 87u8, 72u8, 95u8,
        83u8, 72u8, 73u8, 77u8, 95u8, 86u8, 49u8,
    ];
    assert(v@ =~= shim_marker());
    v
}

/// Whether the helper of size `len`, holding `bytes` (read only when it is
/// small enough), is the shim.
pub fn is_webhelper_shim(len: u64, bytes: &[u8]) -> (r: bool)
    ensures
        r == webhelper_is_shim(len, bytes@),
{
    if len > STEAM_WEBHELPER_SHIM_MAX_LEN {
        return false;
    }
    let marker = marker_bytes();
    let m = marker.len();
    let n = bytes.len();
    if n < m {
        return false;
    }
    let mut i: usize = 0;
    while i <= n - m
        invariant
            m == marker@.len(),
            marker@ == shim_marker(),
            n == bytes@.len(),
            m <= n,
            len <= STEAM_WEBHELPER_SHIM_MAX_LEN,
            i <= n - m + 1,
            forall|j: int| 0 <= j < i ==> !#[trigger] window_is(bytes@, marker@, j),
        decreases n - m + 1 - i,
    {
        let mut k: usize = 0;
        while k < m && bytes[i + k] == marker[k]
            invariant
                k <= m,
                i + m <= n,
                n == bytes@.len(),
                m == marker@.len(),
                forall|q: int| 0 <= q < k ==> bytes@[i + q] == marker@[q],
            decreases m - k,
        {
            k = k + 1;
        }
        if k == m {
            assert(bytes@.subrange(i as int, i + m) =~= marker@);
            assert(window_is(bytes@, shim_marker(), i as int));
            return true;
        }
        assert(bytes@.subrange(i as int, i + m)[k as int] != marker@[k as int]);
        i = i + 1;
    }
    assert forall|j: int| !#[trigger] window_is(bytes@, shim_marker(), j) by {
        if window_is(bytes@, shim_marker(), j) {
            assert(j < i);
        }
    }
    false
}

/// What to do with one CEF directory when installing the shim.
#[derive(Debug, Clone, Copy, PartialEq, Eq, Structural)]
pub enum ShimAction {
    /// No helper here, or it is already the shim with the stock copy kept.
    Skip,
    /// The live helper is Steam's own: keep it as `steamwebhelper_real.exe`
    /// and write the shim in its place.
    Install,
    /// The shim is live but the stock helper is gone.
    Broken,
}

pub open spec fn shim_action(live_is_file: bool, live_is_shim: bool, stock_is_file: bool) -> ShimAction {
    if !live_is_file {
        ShimAction::Skip
    } else if live_is_shim {
        if stock_is_file {
            ShimAction::Skip
        } else {
            ShimAction::Broken
        }
    } else {
        ShimAction::Install
    }
}

pub fn webhelper_shim_action(live_is_file: bool, live_is_shim: bool, stock_is_file: bool) -> (r:
    ShimAction)
    ensures
        r == shim_action(live_is_file, live_is_shim, stock_is_file),
{
    if !live_is_file {
        ShimAction::Skip
    } else if live_is_shim {
        if stock_is_file {
            ShimAction::Skip
        } else {
            ShimAction::Broken
        }
    } else {
        ShimAction::Install
    }
}

/// Installing the shim is idempotent: once installed (the live helper is
/// the shim and the stock helper is kept) a directory needs nothing more.
pub proof fn lemma_shim_install_idempotent(live_is_file: bool, live_is_shim: bool, stock_is_file: bool)
    requires
        shim_action(live_is_file, live_is_shim, stock_is_file) == ShimAction::Install,
    ensures
        shim_action(true, true, true) == ShimAction::Skip,
{
}

/// The error for a CEF directory whose shim lost the stock helper.
pub fn broken_shim_error(live: &str, stock: &str) -> (r: AppError)
    ensures
        r matches AppError::ProcessFailed(t) && t@ == live@ + " is the DarwinPlay shim but "@ + stock@
            + " is missing; run Steam's own file verification to restore the helper"@,
{
    let mut m = chars_of(live);
    push_str(&mut m, " is the DarwinPlay shim but ");
    push_str(&mut m, stock);
    push_str(&mut m, " is missing; run Steam's own file verification to restore the helper");
    AppError::ProcessFailed(string_from_chars(m.as_slice()))
}

// ---------------------------------------------------------------------------
// Host paths
// ---------------------------------------------------------------------------

/// The components a normalized path keeps: `..` drops the component before
/// it (none at the root), `.` and empty pieces vanish.
pub open spec fn normal_parts(parts: Seq<Seq<char>>) -> Seq<Seq<char>>
    decreases parts.len(),
{
    if parts.len() == 0 {
        seq![]
    } else {
        let acc = normal_parts(parts.drop_last());
        let p = parts.last();
        if p.len() == 0 || p == seq!['.'] {
            acc
        } else if p == seq!['.', '.'] {
            if acc.len() > 0 {
                acc.drop_last()
            } else {
                acc
            }
        } else {
            acc.push(p)
        }
    }
}

pub open spec fn is_absolute(s: Seq<char>) -> bool {
    s.len() > 0 && s[0] == '/'
}

/// The normal components of a host path.
pub open spec fn host_parts(s: Seq<char>) -> Seq<Seq<char>> {
    normal_parts(crate::text::split_on(s, '/'))
}

/// Components joined by `sep`.
pub open spec fn joined_by(parts: Seq<Seq<char>>, sep: char) -> Seq<char>
    decreases parts.len(),
{
    if parts.len() == 0 {
        seq![]
    } else if parts.len() == 1 {
        parts[0]
    } else {
        joined_by(parts.drop_last(), sep) + seq![sep] + parts.last()
    }
}

/// A path written from its root flag and components.
pub open spec fn render_path(absolute: bool, parts: Seq<Seq<char>>) -> Seq<char> {
    (if absolute {
        seq!['/']
    } else {
        seq![]
    }) + joined_by(parts, '/')
}

/// A host path with `.` and `..` resolved lexically, as the runtime
/// compares paths.
pub open spec fn normalize_path(s: Seq<char>) -> Seq<char> {
    render_path(is_absolute(s), host_parts(s))
}

fn join_parts(parts: &Vec<Vec<char>>, sep: char) -> (r: Vec<char>)
    ensures
        r@ == joined_by(char_vecs(parts@), sep),
{
    let ghost ps = char_vecs(parts@);
    let mut r: Vec<char> = Vec::new();
    let mut i: usize = 0;
    while i < parts.len()
        invariant
            i <= parts@.len(),
            ps == char_vecs(parts@),
            r@ == joined_by(ps.take(i as int), sep),
        decreases parts@.len() - i,
    {
        assert(ps.take(i + 1).drop_last() =~= ps.take(i as int));
        assert(ps[i as int] == parts@[i as int]@);
        if i > 0 {
            r.push(sep);
        }
        push_chars(&mut r, parts[i].as_slice());
        i = i + 1;
        assert(r@ =~= joined_by(ps.take(i as int), sep));
    }
    assert(ps.take(i as int) =~= ps);
    r
}

fn normal_parts_of(pieces: &Vec<Vec<char>>) -> (r: Vec<Vec<char>>)
    ensures
        char_vecs(r@) == normal_parts(char_vecs(pieces@)),
{
    let ghost ps = char_vecs(pieces@);
    let mut r: Vec<Vec<char>> = Vec::new();
    let mut i: usize = 0;
    while i < pieces.len()
        invariant
            i <= pieces@.len(),
            ps == char_vecs(pieces@),
            char_vecs(r@) == normal_parts(ps.take(i as int)),
        decreases pieces@.len() - i,
    {
        assert(ps.take(i + 1).drop_last() =~= ps.take(i as int));
        assert(ps.take(i + 1).last() == pieces@[i as int]@);
        let p = &pieces[i];
        let ghost before = char_vecs(r@);
        if p.len() == 0 || (p.len() == 1 && p[0] == '.') {
            assert(p@.len() == 0 || p@ =~= seq!['.']);
        } else if p.len() == 2 && p[0] == '.' && p[1] == '.' {
            assert(p@ =~= seq!['.', '.']);
            if r.len() > 0 {
                r.pop();
                assert(char_vecs(r@) =~= before.drop_last());
            }
        } else {
            assert(p@ != seq!['.']);
            assert(p@ != seq!['.', '.']);
            let q = sub_chars(p.as_slice(), 0, p.len());
            assert(q@ =~= p@);
            r.push(q);
            assert(char_vecs(r@) =~= before.push(p@));
        }
        i = i + 1;
    }
    assert(ps.take(i as int) =~= ps);
    r
}

/// The normal components of a host path.
pub fn host_parts_of(path: &[char]) -> (r: Vec<Vec<char>>)
    ensures
        char_vecs(r@) == host_parts(path@),
{
    let pieces = crate::text::split_chars(path, '/');
    normal_parts_of(&pieces)
}

/// `normalize_host_path`: `.` and `..` resolved lexically.
pub fn normalize_host_path(path: &str) -> (r: String)
    ensures
        r@ == normalize_path(path@),
{
    let p = chars_of(path);
    let parts = host_parts_of(p.as_slice());
    let mut out: Vec<char> = Vec::new();
    if p.len() > 0 && p[0] == '/' {
        out.push('/');
    }
    push_chars(&mut out, join_parts(&parts, '/').as_slice());
    assert(out@ =~= normalize_path(path@));
    string_from_chars(out.as_slice())
}

/// `Path::starts_with` on normalized paths: the same root and the base's
/// components leading the path's.
pub open spec fn path_within(path: Seq<char>, base: Seq<char>) -> bool {
    is_absolute(path) == is_absolute(base) && host_parts(base).len() <= host_parts(path).len()
        && host_parts(path).take(host_parts(base).len() as int) == host_parts(base)
}

fn parts_prefix(a: &Vec<Vec<char>>, b: &Vec<Vec<char>>) -> (r: bool)
    ensures
        r == (char_vecs(a@).len() <= char_vecs(b@).len() && char_vecs(b@).take(
            char_vecs(a@).len() as int,
        ) == char_vecs(a@)),
{
    if a.len() > b.len() {
        return false;
    }
    let mut i: usize = 0;
    while i < a.len()
        invariant
            i <= a@.len() <= b@.len(),
            forall|j: int| 0 <= j < i ==> char_vecs(a@)[j] == char_vecs(b@)[j],
        decreases a@.len() - i,
    {
        if !crate::text::chars_eq(a[i].as_slice(), b[i].as_slice()) {
            assert(char_vecs(b@).take(a@.len() as int)[i as int] != char_vecs(a@)[i as int]);
            return false;
        }
        i = i + 1;
    }
    assert(char_vecs(b@).take(a@.len() as int) =~= char_vecs(a@));
    true
}

/// The host path of an executable a profile selected, relative to the
/// game's installation; the program then checks that it is a file.
pub fn resolve_game_executable(install_path: &str, relative: &str) -> (r: Result<String, AppError>)
    ensures
        !crate::compatibility::relative_executable_ok(relative@) ==> (r matches Err(
            AppError::InvalidCompatibilityProfile(t),
        ) && t@ == crate::compatibility::invalid_executable_text(relative@)),
        crate::compatibility::relative_executable_ok(relative@) ==> (r matches Ok(h) && h@
            == normalize_path(path_join(install_path@, relative@)) && path_within(
            h@,
            normalize_path(install_path@),
        )),
{
    validate_relative_executable(relative)?;
    let joined = join_path(install_path, relative);
    let host = normalize_host_path(joined.as_str());
    let base = normalize_host_path(install_path);
    let hp = host_parts_of(string_chars(&host).as_slice());
    let bp = host_parts_of(string_chars(&base).as_slice());
    let h = string_chars(&host);
    let b = string_chars(&base);
    let same_root = (h.len() > 0 && h[0] == '/') == (b.len() > 0 && b[0] == '/');
    if !same_root || !parts_prefix(&bp, &hp) {
        proof {
            lemma_join_stays_inside(install_path@, relative@);
        }
        return Err(AppError::InvalidFile(host));
    }
    Ok(host)
}

/// The resolved executable is launched only when it is a regular file.
pub fn check_game_executable(host: String, host_is_file: bool) -> (r: Result<String, AppError>)
    ensures
        host_is_file ==> r == Ok::<String, AppError>(host),
        !host_is_file ==> (r matches Err(AppError::InvalidFile(t)) && t@ == host@),
{
    if host_is_file {
        Ok(host)
    } else {
        Err(AppError::InvalidFile(host))
    }
}

proof fn lemma_index_of_concat(a: Seq<char>, b: Seq<char>, c: char)
    ensures
        crate::text::index_of(a + b, c) == if crate::text::index_of(a, c) < a.len() {
            crate::text::index_of(a, c) as int
        } else {
            a.len() + crate::text::index_of(b, c) as int
        },
    decreases a.len(),
{
    if a.len() > 0 {
        if a[0] != c {
            lemma_index_of_concat(a.drop_first(), b, c);
            assert((a + b).drop_first() =~= a.drop_first() + b);
        }
    } else {
        assert(a + b =~= b);
    }
}

proof fn lemma_split_concat(a: Seq<char>, b: Seq<char>, c: char)
    ensures
        crate::text::split_on(a + seq![c] + b, c) == crate::text::split_on(a, c)
            + crate::text::split_on(b, c),
    decreases a.len(),
{
    let s = a + seq![c] + b;
    assert(s =~= a + (seq![c] + b));
    lemma_index_of_concat(a, seq![c] + b, c);
    crate::text::lemma_index_of(a, c);
    let i = crate::text::index_of(a, c);
    if i >= a.len() {
        assert(crate::text::index_of(seq![c] + b, c) == 0);
        assert(s.take(a.len() as int) =~= a);
        assert(s.skip(a.len() + 1int) =~= b);
        assert(crate::text::split_on(a, c) =~= seq![a]);
    } else {
        assert(s.take(i as int) =~= a.take(i as int));
        assert(s.skip(i + 1int) =~= a.skip(i + 1int) + seq![c] + b);
        lemma_split_concat(a.skip(i + 1int), b, c);
    }
}

proof fn lemma_split_pieces_free(s: Seq<char>, c: char)
    ensures
        forall|k: int|
            0 <= k < crate::text::split_on(s, c).len() ==> !(#[trigger] crate::text::split_on(
                s,
                c,
            )[k]).contains(c),
    decreases s.len(),
{
    crate::text::lemma_index_of(s, c);
    let i = crate::text::index_of(s, c);
    if i < s.len() {
        lemma_split_pieces_free(s.skip(i + 1int), c);
        assert forall|k: int|
            0 <= k < crate::text::split_on(s, c).len() implies !(#[trigger] crate::text::split_on(
                s,
                c,
            )[k]).contains(c) by {
            if k == 0 {
                assert(crate::text::split_on(s, c)[0] == s.take(i as int));
            } else {
                assert(crate::text::split_on(s, c)[k] == crate::text::split_on(s.skip(i + 1int), c)[k
                    - 1]);
            }
        }
    }
}

proof fn lemma_split_free(s: Seq<char>, c: char)
    requires
        !s.contains(c),
    ensures
        crate::text::split_on(s, c) == seq![s],
{
    crate::text::lemma_index_of(s, c);
}

pub open spec fn normal_piece(p: Seq<char>) -> bool {
    p.len() != 0 && p != seq!['.'] && p != seq!['.', '.'] && !p.contains('/')
}

proof fn lemma_normal_parts_append(a: Seq<Seq<char>>, b: Seq<Seq<char>>)
    requires
        forall|k: int|
            0 <= k < b.len() ==> (#[trigger] b[k]).len() != 0 && b[k] != seq!['.'] && b[k] != seq![
                '.',
                '.',
            ],
    ensures
        normal_parts(a + b) == normal_parts(a) + b,
    decreases b.len(),
{
    if b.len() == 0 {
        assert(a + b =~= a);
        assert(normal_parts(a) + b =~= normal_parts(a));
    } else {
        lemma_normal_parts_append(a, b.drop_last());
        assert((a + b).drop_last() =~= a + b.drop_last());
        assert((a + b).last() == b.last());
        assert(normal_parts(a) + b =~= (normal_parts(a) + b.drop_last()).push(b.last()));
    }
}

proof fn lemma_normal_parts_normal(a: Seq<Seq<char>>)
    requires
        forall|k: int| 0 <= k < a.len() ==> !(#[trigger] a[k]).contains('/'),
    ensures
        forall|k: int| 0 <= k < normal_parts(a).len() ==> normal_piece(#[trigger] normal_parts(a)[k]),
    decreases a.len(),
{
    if a.len() > 0 {
        lemma_normal_parts_normal(a.drop_last());
        let acc = normal_parts(a.drop_last());
        assert forall|k: int| 0 <= k < normal_parts(a).len() implies normal_piece(
            #[trigger] normal_parts(a)[k],
        ) by {
            let p = a.last();
            if p.len() == 0 || p == seq!['.'] {
            } else if p == seq!['.', '.'] {
                if acc.len() > 0 {
                    assert(normal_parts(a)[k] == acc[k]);
                }
            } else {
                if k < acc.len() {
                    assert(normal_parts(a)[k] == acc[k]);
                } else {
                    assert(normal_parts(a)[k] == p);
                    assert(!a[a.len() - 1].contains('/'));
                }
            }
        }
    }
}

proof fn lemma_split_joined(ps: Seq<Seq<char>>)
    requires
        ps.len() > 0,
        forall|k: int| 0 <= k < ps.len() ==> !(#[trigger] ps[k]).contains('/'),
    ensures
        crate::text::split_on(joined_by(ps, '/'), '/') == ps,
    decreases ps.len(),
{
    if ps.len() == 1 {
        assert(!ps[0].contains('/'));
        lemma_split_free(ps[0], '/');
        assert(seq![ps[0]] =~= ps);
    } else {
        lemma_split_joined(ps.drop_last());
        assert(!ps[ps.len() - 1].contains('/'));
        lemma_split_free(ps.last(), '/');
        lemma_split_concat(joined_by(ps.drop_last(), '/'), ps.last(), '/');
        assert(ps.drop_last() + seq![ps.last()] =~= ps);
    }
}

proof fn lemma_joined_first(ps: Seq<Seq<char>>)
    requires
        ps.len() > 0,
        ps[0].len() > 0,
    ensures
        joined_by(ps, '/').len() > 0,
        joined_by(ps, '/')[0] == ps[0][0],
    decreases ps.len(),
{
    if ps.len() > 1 {
        lemma_joined_first(ps.drop_last());
    }
}

proof fn lemma_normal_parts_of_empty_pieces()
    ensures
        normal_parts(seq![Seq::<char>::empty()]) == Seq::<Seq<char>>::empty(),
        normal_parts(seq![Seq::<char>::empty(), Seq::<char>::empty()]) == Seq::<Seq<char>>::empty(),
{
    let e = Seq::<char>::empty();
    assert(seq![e].drop_last() =~= Seq::<Seq<char>>::empty());
    assert(seq![e, e].drop_last() =~= seq![e]);
    assert(normal_parts(Seq::<Seq<char>>::empty()) == Seq::<Seq<char>>::empty());
    assert(normal_parts(seq![e]) =~= Seq::<Seq<char>>::empty());
}

/// A rendered path has the root and components it was rendered from.
proof fn lemma_render_roundtrip(absolute: bool, ps: Seq<Seq<char>>)
    requires
        forall|k: int| 0 <= k < ps.len() ==> normal_piece(#[trigger] ps[k]),
    ensures
        host_parts(render_path(absolute, ps)) == ps,
        is_absolute(render_path(absolute, ps)) == absolute,
{
    let j = joined_by(ps, '/');
    assert forall|k: int| 0 <= k < ps.len() implies !(#[trigger] ps[k]).contains('/') by {
        assert(normal_piece(ps[k]));
    }
    let empty: Seq<char> = seq![];
    lemma_normal_parts_append(seq![], ps);
    assert(Seq::<Seq<char>>::empty() + ps =~= ps);
    if ps.len() > 0 {
        lemma_split_joined(ps);
        assert(normal_piece(ps[0]));
        lemma_joined_first(ps);
    } else {
        assert(j =~= empty);
        lemma_split_free(empty, '/');
    }
    lemma_normal_parts_of_empty_pieces();
    if absolute {
        assert(render_path(absolute, ps) =~= empty + seq!['/'] + j);
        lemma_split_concat(empty, j, '/');
        lemma_split_free(empty, '/');
        if ps.len() > 0 {
            lemma_normal_parts_append(seq![empty], ps);
            assert(seq![empty] + ps == crate::text::split_on(render_path(absolute, ps), '/'));
            assert(normal_parts(seq![empty]) + ps =~= ps);
        } else {
            assert(seq![empty] + seq![empty] =~= seq![empty, empty]);
        }
    } else {
        assert(render_path(absolute, ps) =~= j);
    }
}

/// The components of an installation joined with a valid relative path are
/// the installation's, then the relative path's.
proof fn lemma_host_parts_join(install: Seq<char>, relative: Seq<char>)
    requires
        crate::compatibility::relative_executable_ok(relative),
    ensures
        host_parts(path_join(install, relative)) == host_parts(install) + crate::text::split_on(
            relative,
            '/',
        ),
        is_absolute(path_join(install, relative)) == is_absolute(install),
{
    let rp = crate::text::split_on(relative, '/');
    assert forall|k: int|
        0 <= k < rp.len() implies (#[trigger] rp[k]).len() != 0 && rp[k] != seq!['.'] && rp[k]
        != seq!['.', '.'] by {}
    let empty: Seq<char> = seq![];
    if install.len() == 0 {
        assert(path_join(install, relative) =~= relative);
        lemma_split_free(empty, '/');
        lemma_normal_parts_append(seq![], rp);
        assert(Seq::<Seq<char>>::empty() + rp =~= rp);
        lemma_normal_parts_of_empty_pieces();
        assert(install =~= empty);
        assert(host_parts(install) =~= Seq::<Seq<char>>::empty());
        assert(host_parts(install) + rp =~= rp);
    } else if install.last() == '/' {
        let a = install.drop_last();
        assert(install =~= a + seq!['/'] + empty);
        assert(path_join(install, relative) =~= a + seq!['/'] + relative);
        lemma_split_concat(a, empty, '/');
        lemma_split_concat(a, relative, '/');
        lemma_split_free(empty, '/');
        let sa = crate::text::split_on(a, '/');
        assert(crate::text::split_on(install, '/') == sa + seq![empty]);
        assert(normal_parts(sa + seq![empty]) == normal_parts(sa)) by {
            assert((sa + seq![empty]).drop_last() =~= sa);
        }
        lemma_normal_parts_append(sa, rp);
    } else {
        assert(path_join(install, relative) =~= install + seq!['/'] + relative);
        lemma_split_concat(install, relative, '/');
        lemma_normal_parts_append(crate::text::split_on(install, '/'), rp);
    }
}

/// Joining a valid relative executable path to an installation never leaves
/// it: the normalized result lies within the normalized installation.
pub proof fn lemma_join_stays_inside(install: Seq<char>, relative: Seq<char>)
    requires
        crate::compatibility::relative_executable_ok(relative),
    ensures
        path_within(normalize_path(path_join(install, relative)), normalize_path(install)),
{
    let joined = path_join(install, relative);
    lemma_host_parts_join(install, relative);
    lemma_split_pieces_free(install, '/');
    lemma_split_pieces_free(joined, '/');
    lemma_normal_parts_normal(crate::text::split_on(install, '/'));
    lemma_normal_parts_normal(crate::text::split_on(joined, '/'));
    lemma_render_roundtrip(is_absolute(install), host_parts(install));
    lemma_render_roundtrip(is_absolute(joined), host_parts(joined));
    assert(host_parts(joined).take(host_parts(install).len() as int) =~= host_parts(install));
}

// ---------------------------------------------------------------------------
// Windows paths in the prefix
// ---------------------------------------------------------------------------

/// `PathBuf::push` of one component: an absolute component replaces the
/// path.
pub open spec fn push_path(base: Seq<char>, comp: Seq<char>) -> Seq<char> {
    if is_absolute(comp) {
        comp
    } else {
        path_join(base, comp)
    }
}

fn push_path_exec(base: &str, comp: &str) -> (r: String)
    ensures
        r@ == push_path(base@, comp@),
{
    let c = chars_of(comp);
    if c.len() > 0 && c[0] == '/' {
        owned(comp)
    } else {
        join_path(base, comp)
    }
}

/// The pieces that are not empty.
pub open spec fn nonempty(ps: Seq<Seq<char>>) -> Seq<Seq<char>>
    decreases ps.len(),
{
    if ps.len() == 0 {
        seq![]
    } else {
        nonempty(ps.drop_last()) + if ps.last().len() > 0 {
            seq![ps.last()]
        } else {
            seq![]
        }
    }
}

pub open spec fn dot_piece(p: Seq<char>) -> bool {
    p == seq!['.'] || p == seq!['.', '.']
}

/// Backslashes for slashes.
pub open spec fn backslashed(value: Seq<char>) -> Seq<char> {
    value.map_values(|c: char| if c == '/' {
        '\\'
    } else {
        c
    })
}

/// A DOS path `X:\...` (either slash), as its lowercased drive letter and
/// its non-empty components; `None` for other paths and for paths with a
/// `.` or `..` component.
pub open spec fn dos_path(value: Seq<char>) -> Option<(char, Seq<Seq<char>>)> {
    let n = backslashed(value);
    if n.len() < 3 || !crate::text::is_ascii_alpha(n[0]) || n[1] != ':' || n[2] != '\\' {
        None
    } else {
        let pieces = crate::text::split_on(n.skip(3), '\\');
        if exists|k: int| 0 <= k < pieces.len() && dot_piece(#[trigger] pieces[k]) {
            None
        } else {
            Some((crate::text::lower_char(n[0]), nonempty(pieces)))
        }
    }
}

/// The host path a DOS path names, when its drive links to `target`.
pub open spec fn dos_to_host(prefix: Seq<char>, drive: char, parts: Seq<Seq<char>>, target: Seq<char>) -> Seq<
    char,
> {
    let base = push_path(path_join(prefix, "dosdevices"@), target);
    let n = normalize_path(base);
    if parts.len() == 0 {
        n
    } else {
        path_join(n, joined_by(parts, '/'))
    }
}

fn dos_parts(value: &str) -> (r: Option<(char, Vec<Vec<char>>)>)
    ensures
        match dos_path(value@) {
            Some((d, ps)) => r matches Some((e, v)) && e == d && char_vecs(v@) == ps,
            None => r is None,
        },
{
    let raw = chars_of(value);
    let mut n: Vec<char> = Vec::new();
    let mut i: usize = 0;
    let ghost mapped = backslashed(value@);
    while i < raw.len()
        invariant
            i <= raw@.len(),
            raw@ == value@,
            mapped == backslashed(value@),
            n@ == mapped.take(i as int),
        decreases raw@.len() - i,
    {
        let c = raw[i];
        n.push(
            if c == '/' {
                '\\'
            } else {
                c
            },
        );
        i = i + 1;
        assert(n@ =~= mapped.take(i as int));
    }
    assert(mapped.take(i as int) =~= mapped);
    if n.len() < 3 || !crate::text::ascii_alpha(n[0]) || n[1] != ':' || n[2] != '\\' {
        return None;
    }
    let rest = sub_chars(n.as_slice(), 3, n.len());
    assert(rest@ =~= mapped.skip(3));
    let pieces = crate::text::split_chars(rest.as_slice(), '\\');
    let ghost ps = char_vecs(pieces@);
    let mut parts: Vec<Vec<char>> = Vec::new();
    let mut k: usize = 0;
    while k < pieces.len()
        invariant
            k <= pieces@.len(),
            ps == char_vecs(pieces@),
            ps == crate::text::split_on(backslashed(value@).skip(3), '\\'),
            n@ == backslashed(value@),
            n@.len() >= 3 && crate::text::is_ascii_alpha(n@[0]) && n@[1] == ':' && n@[2] == '\\',
            char_vecs(parts@) == nonempty(ps.take(k as int)),
            forall|j: int| 0 <= j < k ==> !dot_piece(#[trigger] ps[j]),
        decreases pieces@.len() - k,
    {
        let p = &pieces[k];
        assert(ps[k as int] == p@);
        assert(ps.take(k + 1).drop_last() =~= ps.take(k as int));
        assert(ps.take(k + 1).last() == p@);
        if (p.len() == 1 && p[0] == '.') || (p.len() == 2 && p[0] == '.' && p[1] == '.') {
            assert(p@ =~= seq!['.'] || p@ =~= seq!['.', '.']);
            assert(dot_piece(ps[k as int]));
            return None;
        }
        assert(p@ != seq!['.'] && p@ != seq!['.', '.']);
        let ghost before = char_vecs(parts@);
        if p.len() > 0 {
            let q = sub_chars(p.as_slice(), 0, p.len());
            assert(q@ =~= p@);
            parts.push(q);
            assert(char_vecs(parts@) =~= before.push(p@));
        } else {
            assert(before =~= before + Seq::<Seq<char>>::empty());
        }
        k = k + 1;
    }
    assert(ps.take(k as int) =~= ps);
    let drive = crate::text::ascii_lower(n[0]);
    Some((drive, parts))
}

/// The prefix entry of a DOS path's drive, which the program reads the link
/// target of; `None` for a path that is not a DOS path.
pub fn windows_drive_link(prefix: &str, value: &str) -> (r: Option<String>)
    ensures
        match dos_path(value@) {
            Some((d, _)) => r matches Some(l) && l@ == crate::prefix::drive_mapping(prefix@, d),
            None => r is None,
        },
{
    match dos_parts(value) {
        Some((drive, _)) => {
            let dos = join_path(prefix, "dosdevices");
            let mut name: Vec<char> = Vec::new();
            name.push(drive);
            name.push(':');
            Some(crate::text::join_path_chars(dos.as_str(), name.as_slice()))
        },
        None => None,
    }
}

/// The host path of a DOS path whose drive link points at `link_target`.
pub fn windows_path_to_host(prefix: &str, value: &str, link_target: &str) -> (r: Option<String>)
    ensures
        match dos_path(value@) {
            Some((d, ps)) => r matches Some(h) && h@ == dos_to_host(prefix@, d, ps, link_target@),
            None => r is None,
        },
{
    let (_drive, parts) = match dos_parts(value) {
        Some(x) => x,
        None => {
            return None;
        },
    };
    let dos = join_path(prefix, "dosdevices");
    let base = push_path_exec(dos.as_str(), link_target);
    let normalized = normalize_host_path(base.as_str());
    if parts.len() == 0 {
        return Some(normalized);
    }
    let tail = join_parts(&parts, '/');
    Some(crate::text::join_path_chars(normalized.as_str(), tail.as_slice()))
}

// ---------------------------------------------------------------------------
// App manifests and library folders
// ---------------------------------------------------------------------------

/// The text stored under `key`, when it is text.
pub open spec fn text_field(obj: Seq<(Seq<char>, crate::vdf::VdfTree)>, key: Seq<char>) -> Option<
    Seq<char>,
> {
    match crate::vdf::assoc_get(obj, key) {
        Some(crate::vdf::VdfTree::Text(s)) => Some(s),
        _ => None,
    }
}

/// The object stored under `key`, when it is one.
pub open spec fn object_field(obj: Seq<(Seq<char>, crate::vdf::VdfTree)>, key: Seq<char>) -> Option<
    Seq<(Seq<char>, crate::vdf::VdfTree)>,
> {
    match crate::vdf::assoc_get(obj, key) {
        Some(crate::vdf::VdfTree::Node(e)) => Some(e),
        _ => None,
    }
}

pub fn required_string<'a>(object: &'a crate::vdf::VdfObject, key: &str) -> (r: Result<&'a str, AppError>)
    ensures
        match text_field(object@, key@) {
            Some(t) => r matches Ok(s) && s@ == t,
            None => r matches Err(AppError::InvalidVdf(m)) && m@ == "missing "@ + key@,
        },
{
    match object.get(key) {
        Some(v) => match v.string() {
            Some(s) => Ok(s),
            None => {
                let mut m = chars_of("missing ");
                push_str(&mut m, key);
                Err(AppError::InvalidVdf(string_from_chars(m.as_slice())))
            },
        },
        None => {
            let mut m = chars_of("missing ");
            push_str(&mut m, key);
            Err(AppError::InvalidVdf(string_from_chars(m.as_slice())))
        },
    }
}

/// A numeric field, 0 when it is missing or not an unsigned number.
pub open spec fn number_field(obj: Seq<(Seq<char>, crate::vdf::VdfTree)>, key: Seq<char>) -> nat {
    match text_field(obj, key) {
        Some(t) => match crate::text::parse_unsigned(t, u64::MAX as nat) {
            Some(v) => v,
            None => 0,
        },
        None => 0,
    }
}

pub fn optional_u64(object: &crate::vdf::VdfObject, key: &str) -> (r: u64)
    ensures
        r == number_field(object@, key@),
{
    match object.get(key) {
        Some(v) => match v.string() {
            Some(s) => {
                let c = chars_of(s);
                match crate::text::parse_u64(c.as_slice()) {
                    Some(n) => n,
                    None => 0,
                }
            },
            None => 0,
        },
        None => 0,
    }
}

/// The fields of an app manifest: app id, name, install directory, state
/// flags and size on disk; or why the manifest is refused.
pub open spec fn manifest_fields(doc: Seq<(Seq<char>, crate::vdf::VdfTree)>) -> Result<
    (u32, Seq<char>, Seq<char>, nat, nat),
    Seq<char>,
> {
    match object_field(doc, "AppState"@) {
        None => Err("AppState root is missing"@),
        Some(root) => match text_field(root, "appid"@) {
            None => Err("missing "@ + "appid"@),
            Some(a) => match crate::text::parse_unsigned(a, u32::MAX as nat) {
                None => Err("appid is not an unsigned integer"@),
                Some(id) => match text_field(root, "name"@) {
                    None => Err("missing "@ + "name"@),
                    Some(name) => match text_field(root, "installdir"@) {
                        None => Err("missing "@ + "installdir"@),
                        Some(dir) => Ok(
                            (
                                id as u32,
                                name,
                                dir,
                                number_field(root, "StateFlags"@),
                                number_field(root, "SizeOnDisk"@),
                            ),
                        ),
                    },
                },
            },
        },
    }
}

/// Where a game's files are: `common/<installdir>` in its library.
pub open spec fn game_install_path(steamapps: Seq<char>, install_dir: Seq<char>) -> Seq<char> {
    push_path(path_join(steamapps, "common"@), install_dir)
}

/// `g` is the game an app manifest describes.
pub open spec fn game_of(
    g: SteamGame,
    fields: (u32, Seq<char>, Seq<char>, nat, nat),
    manifest_path: Seq<char>,
    steamapps: Seq<char>,
) -> bool {
    &&& g.app_id == fields.0
    &&& g.name@ == fields.1
    &&& g.install_dir@ == fields.2
    &&& g.state_flags == fields.3
    &&& g.size_on_disk == fields.4
    &&& g.install_path@ == game_install_path(steamapps, fields.2)
    &&& g.manifest_path@ == manifest_path
}

/// The game an app manifest (`appmanifest_<id>.acf` in `steamapps`)
/// describes; the program then checks that its install path is a
/// directory (see `require_installed`).
pub fn parse_app_manifest(text: &str, manifest_path: &str, steamapps: &str) -> (r: Result<SteamGame, AppError>)
    ensures
        match crate::vdf::spec_parse(text@) {
            Err(k) => r matches Err(AppError::InvalidVdf(m)) && m@ == crate::vdf::error_text(k),
            Ok(doc) => match manifest_fields(doc) {
                Err(m) => r matches Err(AppError::InvalidVdf(t)) && t@ == m,
                Ok(f) => r matches Ok(g) && game_of(g, f, manifest_path@, steamapps@),
            },
        },
{
    let parsed = crate::vdf::parse(text)?;
    proof {
        reveal_strlit("AppState");
    }
    let root = match parsed.get("AppState") {
        Some(v) => match v.object() {
            Some(o) => {
                proof {
                    crate::vdf::lemma_object_view(*o);
                }
                o
            },
            None => {
                return Err(AppError::InvalidVdf(owned("AppState root is missing")));
            },
        },
        None => {
            return Err(AppError::InvalidVdf(owned("AppState root is missing")));
        },
    };
    let appid = required_string(root, "appid")?;
    let id = match crate::text::parse_u32(chars_of(appid).as_slice()) {
        Some(id) => id,
        None => {
            return Err(AppError::InvalidVdf(owned("appid is not an unsigned integer")));
        },
    };
    let name = required_string(root, "name")?;
    let install_dir = required_string(root, "installdir")?;
    let state_flags = optional_u64(root, "StateFlags");
    let size_on_disk = optional_u64(root, "SizeOnDisk");
    let common = join_path(steamapps, "common");
    let install_path = push_path_exec(common.as_str(), install_dir);
    Ok(
        SteamGame {
            app_id: id,
            name: owned(name),
            install_dir: owned(install_dir),
            install_path,
            manifest_path: owned(manifest_path),
            state_flags,
            size_on_disk,
        },
    )
}

/// A game counts as installed only when its install path is a directory.
pub fn require_installed(game: SteamGame, install_path_is_dir: bool) -> (r: Result<SteamGame, AppError>)
    ensures
        install_path_is_dir ==> r == Ok::<SteamGame, AppError>(game),
        !install_path_is_dir ==> (r matches Err(AppError::SteamGameNotInstalled(id)) && id
            == game.app_id),
{
    if install_path_is_dir {
        Ok(game)
    } else {
        Err(AppError::SteamGameNotInstalled(game.app_id))
    }
}

/// The name of an app manifest file: `appmanifest_*.acf`.
pub open spec fn app_manifest_name(name: Seq<char>) -> bool {
    crate::text::seq_starts_with(name, "appmanifest_"@) && crate::text::seq_ends_with(name, ".acf"@)
}

pub fn is_app_manifest_name(name: &str) -> (r: bool)
    ensures
        r == app_manifest_name(name@),
{
    let n = chars_of(name);
    let p = chars_of("appmanifest_");
    let s = chars_of(".acf");
    crate::text::starts_with(n.as_slice(), p.as_slice()) && crate::text::ends_with(
        n.as_slice(),
        s.as_slice(),
    )
}

/// The Windows path a library folder entry names: the entry itself when it
/// is text, else its `path` field.
pub open spec fn library_entry_path(v: crate::vdf::VdfTree) -> Option<Seq<char>> {
    match v {
        crate::vdf::VdfTree::Text(s) => Some(s),
        crate::vdf::VdfTree::Node(e) => text_field(e, "path"@),
    }
}

/// The Windows paths of the library folders `libraryfolders.vdf` lists,
/// in file order.
pub open spec fn library_paths(entries: Seq<(Seq<char>, crate::vdf::VdfTree)>) -> Seq<Seq<char>>
    decreases entries.len(),
{
    if entries.len() == 0 {
        seq![]
    } else {
        library_paths(entries.drop_last()) + match library_entry_path(entries.last().1) {
            Some(p) => seq![p],
            None => seq![],
        }
    }
}

pub fn library_folder_windows_paths(text: &str) -> (r: Result<Vec<String>, AppError>)
    ensures
        match crate::vdf::spec_parse(text@) {
            Err(k) => r matches Err(AppError::InvalidVdf(m)) && m@ == crate::vdf::error_text(k),
            Ok(doc) => match object_field(doc, "libraryfolders"@) {
                None => r matches Err(AppError::InvalidVdf(m)) && m@
                    == "libraryfolders root is missing"@,
                Some(root) => r matches Ok(v) && strs(v@) == library_paths(root),
            },
        },
{
    let parsed = crate::vdf::parse(text)?;
    let root = match parsed.get("libraryfolders") {
        Some(v) => match v.object() {
            Some(o) => {
                proof {
                    crate::vdf::lemma_object_view(*o);
                }
                o
            },
            None => {
                return Err(AppError::InvalidVdf(owned("libraryfolders root is missing")));
            },
        },
        None => {
            return Err(AppError::InvalidVdf(owned("libraryfolders root is missing")));
        },
    };
    let ghost e = root@;
    let mut out: Vec<String> = Vec::new();
    let mut i: usize = 0;
    while i < root.entries.len()
        invariant
            i <= root.entries@.len(),
            e == root@,
            e.len() == root.entries@.len(),
            strs(out@) == library_paths(e.take(i as int)),
        decreases root.entries@.len() - i,
    {
        assert(e.take(i + 1).drop_last() =~= e.take(i as int));
        assert(e.take(i + 1).last() == e[i as int]);
        let ghost before = strs(out@);
        let value = &root.entries[i].1;
        assert(e[i as int].1 == value@);
        match value {
            crate::vdf::VdfValue::String(s) => {
                out.push(s.clone());
                assert(strs(out@) =~= before.push(s@));
            },
            crate::vdf::VdfValue::Object(o) => {
                proof {
                    crate::vdf::lemma_object_view(*o);
                }
                match o.get("path") {
                    Some(p) => match p.string() {
                        Some(s) => {
                            out.push(owned(s));
                            assert(strs(out@) =~= before.push(s@));
                        },
                        None => {
                            assert(strs(out@) =~= before + Seq::<Seq<char>>::empty());
                        },
                    },
                    None => {
                        assert(strs(out@) =~= before + Seq::<Seq<char>>::empty());
                    },
                }
            },
        }
        i = i + 1;
    }
    assert(e.take(i as int) =~= e);
    Ok(out)
}

// ---------------------------------------------------------------------------
// Host paths back to DOS paths
// ---------------------------------------------------------------------------

/// A `dosdevices` entry name of a drive: a letter and a colon.
pub open spec fn drive_entry(name: Seq<char>) -> bool {
    name.len() == 2 && crate::text::is_ascii_alpha(name[0]) && name[1] == ':'
}

pub open spec fn upper_char(c: char) -> char {
    if crate::text::is_ascii_lower(c) {
        ((c as u32) - 32) as char
    } else {
        c
    }
}

/// The DOS path of a normalized host path, trying the drive entries
/// `(name, link target)` in the given order; an entry whose link could not
/// be read ends the search.
pub open spec fn dos_of(
    host: Seq<char>,
    dosdevices: Seq<char>,
    entries: Seq<(Seq<char>, Option<Seq<char>>)>,
) -> Option<Seq<char>>
    decreases entries.len(),
{
    if entries.len() == 0 {
        None
    } else {
        let name = entries[0].0;
        if !drive_entry(name) {
            dos_of(host, dosdevices, entries.drop_first())
        } else {
            match entries[0].1 {
                None => None,
                Some(t) => {
                    let base = normalize_path(push_path(dosdevices, t));
                    if path_within(host, base) {
                        Some(
                            seq![upper_char(name[0]), ':', '\\'] + joined_by(
                                host_parts(host).skip(host_parts(base).len() as int),
                                '\\',
                            ),
                        )
                    } else {
                        dos_of(host, dosdevices, entries.drop_first())
                    }
                },
            }
        }
    }
}

/// Where a stable insertion by name puts `x`.
pub open spec fn name_pos(s: Seq<(Seq<char>, Option<Seq<char>>)>, x: (Seq<char>, Option<Seq<char>>)) -> int
    decreases s.len(),
{
    if s.len() == 0 {
        0
    } else if crate::order::seq_lt(x.0, s[0].0) {
        0
    } else {
        1 + name_pos(s.drop_first(), x)
    }
}

/// Entries in name order (a stable sort, as `sort_by_key` on the name).
pub open spec fn by_name(s: Seq<(Seq<char>, Option<Seq<char>>)>) -> Seq<(Seq<char>, Option<Seq<char>>)>
    decreases s.len(),
{
    if s.len() == 0 {
        seq![]
    } else {
        let t = by_name(s.drop_last());
        t.insert(name_pos(t, s.last()), s.last())
    }
}

pub open spec fn entry_view(e: (String, Option<String>)) -> (Seq<char>, Option<Seq<char>>) {
    (e.0@, opt_text(e.1))
}

pub open spec fn entry_views(s: Seq<(String, Option<String>)>) -> Seq<(Seq<char>, Option<Seq<char>>)> {
    s.map_values(|e: (String, Option<String>)| entry_view(e))
}

fn copy_entry(e: &(String, Option<String>)) -> (r: (String, Option<String>))
    ensures
        entry_view(r) == entry_view(*e),
{
    let t = match &e.1 {
        Some(s) => Some(s.clone()),
        None => None,
    };
    (e.0.clone(), t)
}

fn entries_by_name(entries: &[(String, Option<String>)]) -> (r: Vec<(String, Option<String>)>)
    ensures
        entry_views(r@) == by_name(entry_views(entries@)),
{
    let ghost all = entry_views(entries@);
    let mut out: Vec<(String, Option<String>)> = Vec::new();
    let mut i: usize = 0;
    while i < entries.len()
        invariant
            i <= entries@.len(),
            all == entry_views(entries@),
            entry_views(out@) == by_name(all.take(i as int)),
        decreases entries@.len() - i,
    {
        let x = copy_entry(&entries[i]);
        assert(all.take(i + 1).drop_last() =~= all.take(i as int));
        assert(all.take(i + 1).last() == entry_view(x));
        let ghost t = entry_views(out@);
        let mut j: usize = 0;
        let xn = string_chars(&x.0);
        assert(t.skip(0) =~= t);
        while j < out.len() && !crate::order::chars_lt(xn.as_slice(), string_chars(&out[j].0).as_slice())
            invariant
                j <= out@.len(),
                t == entry_views(out@),
                xn@ == x.0@,
                name_pos(t, entry_view(x)) == j + name_pos(t.skip(j as int), entry_view(x)),
            decreases out@.len() - j,
        {
            assert(t[j as int] == entry_view(out@[j as int]));
            assert(t.skip(j as int).drop_first() =~= t.skip(j + 1));
            j = j + 1;
        }
        proof {
            if j < out@.len() {
                assert(t[j as int] == entry_view(out@[j as int]));
                assert(t.skip(j as int)[0] == t[j as int]);
            }
        }
        out.insert(j, x);
        assert(entry_views(out@) =~= t.insert(j as int, entry_view(x)));
        i = i + 1;
    }
    assert(all.take(i as int) =~= all);
    out
}

/// The DOS path Wine accepts for a host path inside the prefix, from the
/// `dosdevices` entries as `(name, link target)` (`None` when the link could
/// not be read), in any order.
pub fn host_path_to_windows(prefix: &str, host: &str, entries: &[(String, Option<String>)]) -> (r:
    Option<String>)
    ensures
        opt_text(r) == dos_of(
            normalize_path(host@),
            path_join(prefix@, "dosdevices"@),
            by_name(entry_views(entries@)),
        ),
{
    let host_n = normalize_host_path(host);
    let hn = string_chars(&host_n);
    let hparts = host_parts_of(hn.as_slice());
    let dos = join_path(prefix, "dosdevices");
    let sorted = entries_by_name(entries);
    let ghost es = entry_views(sorted@);
    let mut k: usize = 0;
    assert(es.skip(0) =~= es);
    while k < sorted.len()
        invariant
            k <= sorted@.len(),
            es == entry_views(sorted@),
            es == by_name(entry_views(entries@)),
            hn@ == host_n@,
            host_n@ == normalize_path(host@),
            dos@ == path_join(prefix@, "dosdevices"@),
            char_vecs(hparts@) == host_parts(host_n@),
            dos_of(host_n@, dos@, es) == dos_of(host_n@, dos@, es.skip(k as int)),
        decreases sorted@.len() - k,
    {
        let ghost rest = es.skip(k as int);
        assert(rest[0] == entry_view(sorted@[k as int]));
        assert(rest.drop_first() =~= es.skip(k + 1));
        let name = string_chars(&sorted[k].0);
        if name.len() == 2 && crate::text::ascii_alpha(name[0]) && name[1] == ':' {
            assert(name@ == rest[0].0);
            assert(drive_entry(rest[0].0));
            let target = match &sorted[k].1 {
                Some(t) => t,
                None => {
                    assert(rest[0].1 is None);
                    return None;
                },
            };
            assert(rest[0].1 == Some(target@));
            let base_raw = push_path_exec(dos.as_str(), target.as_str());
            let base = normalize_host_path(base_raw.as_str());
            let bn = string_chars(&base);
            let bparts = host_parts_of(bn.as_slice());
            let same_root = (hn.len() > 0 && hn[0] == '/') == (bn.len() > 0 && bn[0] == '/');
            assert(base@ == normalize_path(push_path(dos@, target@)));
            assert(same_root == (is_absolute(host_n@) == is_absolute(base@)));
            if same_root && parts_prefix(&bparts, &hparts) {
                assert(path_within(host_n@, base@));
                let mut tail_parts: Vec<Vec<char>> = Vec::new();
                let mut q: usize = bparts.len();
                while q < hparts.len()
                    invariant
                        bparts@.len() <= q <= hparts@.len(),
                        char_vecs(tail_parts@) == char_vecs(hparts@).subrange(
                            bparts@.len() as int,
                            q as int,
                        ),
                    decreases hparts@.len() - q,
                {
                    let piece = sub_chars(hparts[q].as_slice(), 0, hparts[q].len());
                    assert(piece@ =~= hparts@[q as int]@);
                    let ghost before = char_vecs(tail_parts@);
                    tail_parts.push(piece);
                    assert(char_vecs(tail_parts@) =~= before.push(piece@));
                    q = q + 1;
                    assert(char_vecs(tail_parts@) =~= char_vecs(hparts@).subrange(
                        bparts@.len() as int,
                        q as int,
                    ));
                }
                assert(char_vecs(hparts@).subrange(bparts@.len() as int, q as int) =~= char_vecs(
                    hparts@,
                ).skip(bparts@.len() as int));
                let mut out: Vec<char> = Vec::new();
                let letter = name[0];
                let upper = if 'a' <= letter && letter <= 'z' {
                    ((letter as u8) - 32u8) as char
                } else {
                    letter
                };
                out.push(upper);
                out.push(':');
                out.push('\\');
                push_chars(&mut out, join_parts(&tail_parts, '\\').as_slice());
                assert(upper == upper_char(name@[0]));
                assert(out@ =~= seq![upper_char(name@[0]), ':', '\\'] + joined_by(
                    host_parts(host_n@).skip(host_parts(base@).len() as int),
                    '\\',
                ));
                return Some(string_from_chars(out.as_slice()));
            }
        }
        assert(dos_of(host_n@, dos@, rest) == dos_of(host_n@, dos@, rest.drop_first()));
        k = k + 1;
    }
    None
}

// ---------------------------------------------------------------------------
// The library: games by app id
// ---------------------------------------------------------------------------

/// Games keyed by app id in ascending order, a later game replacing an
/// earlier one with the same id (a map from app id to game).
pub open spec fn by_app_id(gs: Seq<SteamGame>) -> Seq<SteamGame>
    decreases gs.len(),
{
    if gs.len() == 0 {
        seq![]
    } else {
        let t = by_app_id(gs.drop_last());
        let g = gs.last();
        let p = id_pos(t, g.app_id);
        if p < t.len() && t[p].app_id == g.app_id {
            t.update(p, g)
        } else {
            t.insert(p, g)
        }
    }
}

/// The first position whose app id is not below `id`.
pub open spec fn id_pos(t: Seq<SteamGame>, id: u32) -> int
    decreases t.len(),
{
    if t.len() == 0 || id <= t[0].app_id {
        0
    } else {
        1 + id_pos(t.drop_first(), id)
    }
}

pub open spec fn ids_ascending(t: Seq<SteamGame>) -> bool {
    forall|i: int, j: int| 0 <= i < j < t.len() ==> (#[trigger] t[i]).app_id < (#[trigger] t[j]).app_id
}

proof fn lemma_id_pos(t: Seq<SteamGame>, id: u32)
    requires
        ids_ascending(t),
    ensures
        0 <= id_pos(t, id) <= t.len(),
        forall|j: int| 0 <= j < id_pos(t, id) ==> (#[trigger] t[j]).app_id < id,
        id_pos(t, id) < t.len() ==> id <= t[id_pos(t, id)].app_id,
    decreases t.len(),
{
    if t.len() > 0 && id > t[0].app_id {
        assert(ids_ascending(t.drop_first())) by {
            assert forall|i: int, j: int| 0 <= i < j < t.drop_first().len() implies (
            #[trigger] t.drop_first()[i]).app_id < (#[trigger] t.drop_first()[j]).app_id by {
                assert(t.drop_first()[i] == t[i + 1] && t.drop_first()[j] == t[j + 1]);
            }
        }
        lemma_id_pos(t.drop_first(), id);
        assert forall|j: int| 0 <= j < id_pos(t, id) implies (#[trigger] t[j]).app_id < id by {
            if j > 0 {
                assert(t[j] == t.drop_first()[j - 1]);
            }
        }
    }
}

proof fn lemma_by_app_id_ascending(gs: Seq<SteamGame>)
    ensures
        ids_ascending(by_app_id(gs)),
    decreases gs.len(),
{
    if gs.len() > 0 {
        let t = by_app_id(gs.drop_last());
        let g = gs.last();
        lemma_by_app_id_ascending(gs.drop_last());
        lemma_id_pos(t, g.app_id);
        let p = id_pos(t, g.app_id);
        let u = by_app_id(gs);
        let replace = p < t.len() && t[p].app_id == g.app_id;
        assert forall|i: int, j: int| 0 <= i < j < u.len() implies (#[trigger] u[i]).app_id < (
        #[trigger] u[j]).app_id by {
            if replace {
                assert(u[i].app_id == t[i].app_id && u[j].app_id == t[j].app_id);
            } else if j < p {
                assert(u[i] == t[i] && u[j] == t[j]);
            } else if j == p {
                assert(u[i] == t[i]);
            } else if i == p {
                assert(u[j] == t[j - 1]);
                if j - 1 > p {
                    assert(t[p].app_id < t[j - 1].app_id);
                }
            } else if i < p {
                assert(u[i] == t[i] && u[j] == t[j - 1]);
            } else {
                assert(u[i] == t[i - 1] && u[j] == t[j - 1]);
            }
        }
    }
}

/// A game stands for the last game read with its app id.
pub open spec fn last_of_its_id(gs: Seq<SteamGame>, x: SteamGame) -> bool {
    exists|i: int|
        0 <= i < gs.len() && gs[i] == x && forall|j: int|
            i < j < gs.len() ==> (#[trigger] gs[j]).app_id != x.app_id
}

#[verifier::rlimit(40)]
proof fn lemma_by_app_id_latest(gs: Seq<SteamGame>)
    ensures
        forall|k: int| 0 <= k < by_app_id(gs).len() ==> last_of_its_id(gs, #[trigger] by_app_id(gs)[k]),
    decreases gs.len(),
{
    if gs.len() > 0 {
        let d = gs.drop_last();
        let t = by_app_id(d);
        let g = gs.last();
        lemma_by_app_id_latest(d);
        lemma_by_app_id_ascending(d);
        lemma_id_pos(t, g.app_id);
        let p = id_pos(t, g.app_id);
        let u = by_app_id(gs);
        let replace = p < t.len() && t[p].app_id == g.app_id;
        let last = gs.len() - 1;
        assert forall|k: int| 0 <= k < u.len() implies last_of_its_id(gs, #[trigger] u[k]) by {
            if (replace && k == p) || (!replace && k == p) {
                assert(u[k] == g);
                assert(gs[last] == u[k]);
            } else {
                let tk = if replace || k < p {
                    k
                } else {
                    k - 1
                };
                assert(u[k] == t[tk]);
                assert(last_of_its_id(d, t[tk]));
                let i = choose|i: int|
                    0 <= i < d.len() && d[i] == t[tk] && forall|j: int|
                        i < j < d.len() ==> (#[trigger] d[j]).app_id != t[tk].app_id;
                assert(gs[i] == d[i]);
                assert(t[tk].app_id != g.app_id) by {
                    if tk < p {
                        assert(t[tk].app_id < g.app_id);
                    } else if tk > p {
                        assert(t[p].app_id < t[tk].app_id);
                    }
                }
                assert forall|j: int| i < j < gs.len() implies (#[trigger] gs[j]).app_id
                    != t[tk].app_id by {
                    if j < last {
                        assert(gs[j] == d[j]);
                    }
                }
            }
        }
    }
}

/// Some game of `t` has app id `id`.
pub open spec fn has_id(t: Seq<SteamGame>, id: u32) -> bool {
    exists|k: int| 0 <= k < t.len() && (#[trigger] t[k]).app_id == id
}

proof fn lemma_by_app_id_covers(gs: Seq<SteamGame>)
    ensures
        forall|i: int| 0 <= i < gs.len() ==> has_id(by_app_id(gs), (#[trigger] gs[i]).app_id),
    decreases gs.len(),
{
    if gs.len() > 0 {
        let d = gs.drop_last();
        let t = by_app_id(d);
        let g = gs.last();
        lemma_by_app_id_covers(d);
        lemma_by_app_id_ascending(d);
        lemma_id_pos(t, g.app_id);
        let p = id_pos(t, g.app_id);
        let u = by_app_id(gs);
        let replace = p < t.len() && t[p].app_id == g.app_id;
        assert forall|i: int| 0 <= i < gs.len() implies has_id(u, (#[trigger] gs[i]).app_id) by {
            if i == gs.len() - 1 {
                assert(u[p].app_id == g.app_id);
            } else {
                assert(gs[i] == d[i]);
                assert(has_id(t, d[i].app_id));
                let k = choose|k: int| 0 <= k < t.len() && (#[trigger] t[k]).app_id == d[i].app_id;
                if replace {
                    assert(u[k].app_id == t[k].app_id);
                } else if k < p {
                    assert(u[k] == t[k]);
                } else {
                    assert(u[k + 1] == t[k]);
                }
            }
        }
    }
}

/// The library lists each app id once, in ascending order, with the last
/// game read for it, and leaves no app id out.
pub proof fn lemma_by_app_id(gs: Seq<SteamGame>)
    ensures
        ids_ascending(by_app_id(gs)),
        forall|k: int| 0 <= k < by_app_id(gs).len() ==> last_of_its_id(gs, #[trigger] by_app_id(gs)[k]),
        forall|i: int| 0 <= i < gs.len() ==> has_id(by_app_id(gs), (#[trigger] gs[i]).app_id),
{
    lemma_by_app_id_ascending(gs);
    lemma_by_app_id_latest(gs);
    lemma_by_app_id_covers(gs);
}

/// The games of all libraries, one per app id in ascending order; a game
/// read later replaces one read earlier with the same id.
pub fn merge_games(games: Vec<SteamGame>) -> (r: Vec<SteamGame>)
    ensures
        r@ == by_app_id(games@),
{
    let ghost original = games@;
    let n = games.len();
    let mut input = games;
    let mut out: Vec<SteamGame> = Vec::new();
    let mut i: usize = 0;
    while input.len() > 0
        invariant
            i + input@.len() == original.len(),
            original.len() == n,
            input@ == original.skip(i as int),
            out@ == by_app_id(original.take(i as int)),
        decreases input@.len(),
    {
        let g = input.remove(0);
        assert(original.take(i + 1).drop_last() =~= original.take(i as int));
        assert(original.take(i + 1).last() == g);
        assert(input@ =~= original.skip(i + 1));
        let ghost t = out@;
        let mut j: usize = 0;
        assert(t.skip(0) =~= t);
        while j < out.len() && out[j].app_id < g.app_id
            invariant
                j <= out@.len(),
                t == out@,
                id_pos(t, g.app_id) == j + id_pos(t.skip(j as int), g.app_id),
            decreases out@.len() - j,
        {
            assert(t.skip(j as int).drop_first() =~= t.skip(j + 1));
            j = j + 1;
        }
        if j < out.len() && out[j].app_id == g.app_id {
            out.set(j, g);
        } else {
            out.insert(j, g);
        }
        i = i + 1;
    }
    assert(original.take(i as int) =~= original);
    out
}

// ---------------------------------------------------------------------------
// Games, profiles and the client's life cycle
// ---------------------------------------------------------------------------

/// The first game of the library with the app id.
pub open spec fn game_index(games: Seq<SteamGame>, app_id: u32) -> Option<int> {
    if exists|i: int| 0 <= i < games.len() && (#[trigger] games[i]).app_id == app_id {
        Some(
            choose|i: int|
                0 <= i < games.len() && games[i].app_id == app_id && forall|j: int|
                    0 <= j < i ==> (#[trigger] games[j]).app_id != app_id,
        )
    } else {
        None
    }
}

/// The relative paths of candidates.
pub open spec fn candidate_paths(cs: Seq<crate::compatibility::ExecutableCandidate>) -> Seq<Seq<char>> {
    cs.map_values(|c: crate::compatibility::ExecutableCandidate| c.relative_path@)
}

impl SteamManager {
    /// A game of the library by app id.
    pub fn game<'a>(&self, library: &'a SteamLibrary, app_id: u32) -> (r: Result<&'a SteamGame, AppError>)
        ensures
            match game_index(library.games@, app_id) {
                Some(i) => r matches Ok(g) && *g == library.games@[i],
                None => r matches Err(AppError::SteamGameNotInstalled(id)) && id == app_id,
            },
    {
        let mut i: usize = 0;
        while i < library.games.len()
            invariant
                i <= library.games@.len(),
                forall|j: int| 0 <= j < i ==> (#[trigger] library.games@[j]).app_id != app_id,
            decreases library.games@.len() - i,
        {
            if library.games[i].app_id == app_id {
                proof {
                    let g = library.games@;
                    let k = choose|k: int|
                        0 <= k < g.len() && g[k].app_id == app_id && forall|j: int|
                            0 <= j < k ==> (#[trigger] g[j]).app_id != app_id;
                    if k != i as int {
                        if k < i {
                            assert(g[k].app_id != app_id);
                        } else {
                            assert(g[i as int].app_id != app_id);
                        }
                    }
                }
                return Ok(&library.games[i]);
            }
            i = i + 1;
        }
        Err(AppError::SteamGameNotInstalled(app_id))
    }

    /// The compatibility profile of a game of the library (see
    /// `CompatibilityManager::analyze` for the other inputs).
    pub fn profile(
        &self,
        library: &SteamLibrary,
        app_id: u32,
        install_path_is_dir: bool,
        stored: Option<StoredProfile>,
        candidates: Vec<crate::compatibility::ExecutableCandidate>,
        dxmt_installed: bool,
        fallback_backend: crate::graphics::GraphicsBackend,
    ) -> (r: Result<SteamCompatibilityProfile, AppError>)
        ensures
            game_index(library.games@, app_id) is None ==> (r matches Err(
                AppError::SteamGameNotInstalled(id),
            ) && id == app_id),
            game_index(library.games@, app_id) matches Some(i) ==> ({
                let g = library.games@[i];
                &&& !install_path_is_dir ==> (r matches Err(AppError::InvalidDirectory(t)) && t@
                    == g.install_path@)
                &&& install_path_is_dir && stored is None ==> (r matches Ok(p) && p.app_id == app_id
                    && p.name@ == g.name@ && p.selected_executable is None
                    && p.backend_override == BackendOverride::Inherit && p.candidates@
                    == crate::compatibility::rank_order(candidates@))
                &&& install_path_is_dir ==> match stored {
                    Some(s) => match crate::compatibility::stored_error(app_id, s) {
                        Some(m) => r matches Err(AppError::InvalidCompatibilityProfile(t)) && t@ == m,
                        None => r matches Ok(p) && crate::compatibility::profile_of(
                            p,
                            app_id,
                            g.name@,
                            s,
                            crate::compatibility::rank_order(candidates@),
                            dxmt_installed,
                            fallback_backend,
                        ),
                    },
                    None => true,
                }
            }),
    {
        let game = self.game(library, app_id)?;
        self.compatibility.analyze(
            app_id,
            game.name.as_str(),
            game.install_path.as_str(),
            install_path_is_dir,
            stored,
            candidates,
            dxmt_installed,
            fallback_backend,
        )
    }

    /// New overrides for a game: the executable (one of the current
    /// profile's candidates) and the launch arguments; the backend override
    /// stays. Gives the profile to store.
    pub fn set_profile(
        &self,
        app_id: u32,
        current: &SteamCompatibilityProfile,
        executable: Option<&str>,
        launch_arguments: Vec<String>,
    ) -> (r: Result<StoredProfile, AppError>)
        ensures
            ({
                let allowed = candidate_paths(current.candidates@);
                let selected = match executable {
                    Some(v) => Some(v@),
                    None => None,
                };
                match crate::compatibility::save_error(selected, strs(launch_arguments@), allowed) {
                    Some(m) => r matches Err(AppError::InvalidCompatibilityProfile(t)) && t@ == m,
                    None => r matches Ok(p) && p.app_id == app_id && p.backend_override
                        == current.backend_override && crate::compatibility::opt_view(
                        p.selected_executable,
                    ) == selected && p.launch_arguments == launch_arguments
                        && p.schema_version == crate::compatibility::PROFILE_SCHEMA_VERSION,
                }
            }),
    {
        let mut allowed: Vec<String> = Vec::new();
        let mut i: usize = 0;
        while i < current.candidates.len()
            invariant
                i <= current.candidates@.len(),
                strs(allowed@) == candidate_paths(current.candidates@.take(i as int)),
            decreases current.candidates@.len() - i,
        {
            let ghost before = strs(allowed@);
            let path = current.candidates[i].relative_path.clone();
            allowed.push(path);
            assert(strs(allowed@) =~= before.push(path@));
            assert(candidate_paths(current.candidates@.take(i + 1)) =~= candidate_paths(
                current.candidates@.take(i as int),
            ).push(current.candidates@[i as int].relative_path@));
            i = i + 1;
        }
        assert(current.candidates@.take(i as int) =~= current.candidates@);
        self.compatibility.save(
            app_id,
            current.backend_override,
            executable,
            launch_arguments,
            allowed.as_slice(),
        )
    }

    /// The profile file to delete when a game's overrides are reset.
    pub fn reset_profile(&self, app_id: u32) -> (r: String)
        ensures
            r@ == path_join(self.compatibility.root@, crate::text::decimal(app_id as nat) + ".json"@),
    {
        self.compatibility.path(app_id)
    }

    /// The prefix to stop when Steam is stopped (the UI session record is
    /// cleared too).
    pub fn stop(&self) -> (r: Result<String, AppError>)
        ensures
            r matches Ok(p) && p@ == path_join(self.prefixes.root@, "steam"@),
    {
        self.prefix_path()
    }

    /// Resetting Steam: stop its prefix when it suits the runtime, clear the
    /// UI session record, then delete the prefix; gives the prefix to stop
    /// (if any) and the prefix to delete.
    pub fn reset(&self, runtime_compatible: bool) -> (r: Result<(Option<String>, String), AppError>)
        ensures
            r matches Ok((stop, remove)) && remove@ == path_join(self.prefixes.root@, "steam"@) && (
            runtime_compatible <==> stop is Some) && (stop matches Some(s) ==> s@ == remove@),
    {
        let prefix = self.prefix_path()?;
        proof {
            reveal_strlit("steam");
            assert(crate::prefix::game_id_ok("steam"@));
        }
        let remove = self.prefixes.reset(STEAM_PREFIX_ID)?;
        if runtime_compatible {
            Ok((Some(prefix), remove))
        } else {
            Ok((None, remove))
        }
    }
}

/// How to bring the client up when `steam` is asked to start.
#[derive(Debug, Clone, Copy, PartialEq, Eq, Structural)]
pub enum StartPlan {
    /// It runs under the current UI policy: nothing to do.
    AlreadyRunning,
    /// It runs under another policy: stop the prefix, clear the session,
    /// and launch it.
    RestartForPolicy,
    /// It does not run: stop whatever is left in the prefix and launch it.
    Launch,
}

pub open spec fn start_plan_of(running: bool, session: Option<SteamUiSession>) -> StartPlan {
    if running {
        if session_current(session) {
            StartPlan::AlreadyRunning
        } else {
            StartPlan::RestartForPolicy
        }
    } else {
        StartPlan::Launch
    }
}

pub fn start_plan(running: bool, session: Option<SteamUiSession>) -> (r: StartPlan)
    ensures
        r == start_plan_of(running, session),
{
    if running {
        if session_is_current(session) {
            StartPlan::AlreadyRunning
        } else {
            StartPlan::RestartForPolicy
        }
    } else {
        StartPlan::Launch
    }
}

/// How to launch a game.
#[derive(Debug)]
pub enum GameLaunch {
    /// Run the profile's selected executable directly (Steam must run).
    Direct { relative: String, arguments: Vec<String> },
    /// Hand `-applaunch` to the running client.
    Dispatch(Vec<String>),
    /// Restart the client under the current policy with these arguments.
    Restart(Vec<String>),
    /// Start the client with these arguments.
    Launch(Vec<String>),
}

/// The launch of a game: first the known fixes of the app are written into
/// the prefix (a failure does not block the launch), then the game starts.
#[derive(Debug)]
pub struct LaunchPlan {
    /// The `reg.exe` runs of the app's known fixes, made before Steam is
    /// asked to start the game.
    pub fixes: Vec<crate::gamefix::FixPlan>,
    pub launch: GameLaunch,
}

/// The launch of a game: its known fixes, then how it starts (see
/// `launch_of`).
pub fn launch_game(
    profile: &SteamCompatibilityProfile,
    launch_arguments: &Vec<String>,
    steam_running: bool,
    session: Option<SteamUiSession>,
) -> (r: LaunchPlan)
    ensures
        crate::gamefix::known_fix_plans(profile.app_id, r.fixes@),
        launch_of(profile, launch_arguments, steam_running, session, r.launch),
{
    let (fixes, _) = crate::gamefix::apply(profile.app_id);
    LaunchPlan { fixes, launch: client_launch(profile, launch_arguments, steam_running, session) }
}

/// How a game is started: its selected executable directly when the
/// profile has one; else through the client, reusing it only when it runs
/// under the current UI policy.
pub open spec fn launch_of(
    profile: &SteamCompatibilityProfile,
    launch_arguments: &Vec<String>,
    steam_running: bool,
    session: Option<SteamUiSession>,
    r: GameLaunch,
) -> bool {
    match profile.selected_executable {
        Some(rel) => r matches GameLaunch::Direct { relative, arguments } && relative@ == rel@
            && strs(arguments@) == strs(launch_arguments@),
        None => {
            let args = applaunch_arguments(profile.app_id, strs(launch_arguments@));
            if steam_running && session_current(session) {
                r matches GameLaunch::Dispatch(a) && strs(a@) == args
            } else if steam_running {
                r matches GameLaunch::Restart(a) && strs(a@) == args
            } else {
                r matches GameLaunch::Launch(a) && strs(a@) == args
            }
        },
    }
}

fn client_launch(
    profile: &SteamCompatibilityProfile,
    launch_arguments: &Vec<String>,
    steam_running: bool,
    session: Option<SteamUiSession>,
) -> (r: GameLaunch)
    ensures
        launch_of(profile, launch_arguments, steam_running, session, r),
{
    match &profile.selected_executable {
        Some(relative) => {
            let arguments = crate::text::clone_strings(launch_arguments);
            assert(strs(arguments@) =~= strs(launch_arguments@));
            GameLaunch::Direct { relative: relative.clone(), arguments }
        },
        None => {
            let arguments = steam_launch_arguments(profile.app_id, launch_arguments);
            if steam_running && session_is_current(session) {
                GameLaunch::Dispatch(arguments)
            } else if steam_running {
                GameLaunch::Restart(arguments)
            } else {
                GameLaunch::Launch(arguments)
            }
        },
    }
}

/// A selected executable is launched directly only while Steam runs, which
/// satisfies its client-side DRM.
pub fn direct_launch_check(relative: &str, steam_running: bool) -> (r: Result<(), AppError>)
    ensures
        steam_running ==> r is Ok,
        !steam_running ==> (r matches Err(AppError::ProcessFailed(t)) && t@ == "Steam must be running before launching "@
            + relative@ + " directly; start Steam first, then launch the game"@),
{
    if steam_running {
        Ok(())
    } else {
        let mut m = chars_of("Steam must be running before launching ");
        push_str(&mut m, relative);
        push_str(&mut m, " directly; start Steam first, then launch the game");
        Err(AppError::ProcessFailed(string_from_chars(m.as_slice())))
    }
}

/// The Windows path of the Steam installer once its directory is mapped to
/// drive `I:`.
pub fn installer_windows_path(installer_name: &str) -> (r: String)
    ensures
        r@ == "I:\\"@ + installer_name@,
{
    let mut m = chars_of("I:\\");
    push_str(&mut m, installer_name);
    string_from_chars(m.as_slice())
}

/// The value of a `Content-Length` header line, if the line is one.
pub open spec fn content_length_of(line: Seq<char>) -> Option<nat> {
    let i = crate::text::index_of(line, ':');
    if i >= line.len() {
        None
    } else if !eq_ignore_case(trim(line.take(i as int)), "content-length"@) {
        None
    } else {
        crate::text::parse_unsigned(trim(line.skip(i + 1int)), u64::MAX as nat)
    }
}

/// The last `Content-Length` the headers give.
pub open spec fn last_content_length(lines: Seq<Seq<char>>) -> Option<nat>
    decreases lines.len(),
{
    if lines.len() == 0 {
        None
    } else {
        match content_length_of(lines.last()) {
            Some(v) => Some(v),
            None => last_content_length(lines.drop_last()),
        }
    }
}

/// The installer's size from the response headers of a `HEAD` request.
pub fn content_length(headers: &str) -> (r: Option<u64>)
    ensures
        match last_content_length(lines_of(headers@)) {
            Some(v) => r == Some(v as u64),
            None => r is None,
        },
{
    let t = chars_of(headers);
    let lines = lines_chars(t.as_slice());
    let ghost ls = char_vecs(lines@);
    let header = chars_of("content-length");
    let mut k: usize = lines.len();
    assert(ls.take(k as int) =~= ls);
    while k > 0
        invariant
            k <= lines@.len(),
            ls == char_vecs(lines@),
            ls == lines_of(headers@),
            header@ == "content-length"@,
            last_content_length(ls) == last_content_length(ls.take(k as int)),
        decreases k,
    {
        let line = &lines[k - 1];
        assert(ls.take(k as int).last() == line@);
        assert(ls.take(k as int).drop_last() =~= ls.take(k - 1));
        let i = crate::text::find_char(line.as_slice(), ':');
        proof {
            crate::text::lemma_index_of(line@, ':');
        }
        if i < line.len() {
            let name = trim_chars(sub_chars(line.as_slice(), 0, i).as_slice());
            assert(line@.subrange(0, i as int) =~= line@.take(i as int));
            if chars_eq_ignore_case(name.as_slice(), header.as_slice()) {
                let value = trim_chars(sub_chars(line.as_slice(), i + 1, line.len()).as_slice());
                assert(line@.subrange(i + 1, line@.len() as int) =~= line@.skip(i + 1));
                match crate::text::parse_u64(value.as_slice()) {
                    Some(v) => {
                        return Some(v);
                    },
                    None => {},
                }
            }
        }
        k = k - 1;
    }
    None
}

// ---------------------------------------------------------------------------
// The set of library directories
// ---------------------------------------------------------------------------

/// The components of a path piece by piece, ranked as `Path` orders them:
/// `..` (2) before names (3); empty pieces and `.` are no components.
pub open spec fn ranked(pieces: Seq<Seq<char>>) -> Seq<(int, Seq<char>)>
    decreases pieces.len(),
{
    if pieces.len() == 0 {
        seq![]
    } else {
        let p = pieces.last();
        ranked(pieces.drop_last()) + if p.len() == 0 || p == seq!['.'] {
            Seq::<(int, Seq<char>)>::empty()
        } else if p == seq!['.', '.'] {
            seq![(2int, p)]
        } else {
            seq![(3int, p)]
        }
    }
}

/// The root component of an absolute path (rank 0).
pub open spec fn root_part(s: Seq<char>) -> Seq<(int, Seq<char>)> {
    if is_absolute(s) {
        seq![(0int, Seq::<char>::empty())]
    } else {
        Seq::<(int, Seq<char>)>::empty()
    }
}

/// The `.` that leads a relative path (rank 1).
pub open spec fn cur_part(s: Seq<char>) -> Seq<(int, Seq<char>)> {
    let pieces = crate::text::split_on(s, '/');
    if !is_absolute(s) && pieces.len() > 0 && pieces[0] == seq!['.'] {
        seq![(1int, seq!['.'])]
    } else {
        Seq::<(int, Seq<char>)>::empty()
    }
}

/// `Path::components` on a Unix host, each with its rank in `Path`'s order:
/// the root (0), a leading `.` of a relative path (1), `..` (2), names (3).
pub open spec fn path_components(s: Seq<char>) -> Seq<(int, Seq<char>)> {
    root_part(s) + cur_part(s) + ranked(crate::text::split_on(s, '/'))
}

pub open spec fn component_lt(a: (int, Seq<char>), b: (int, Seq<char>)) -> bool {
    a.0 < b.0 || (a.0 == b.0 && crate::order::seq_lt(a.1, b.1))
}

/// `Path`'s order: component by component, a prefix first.
pub open spec fn components_lt(a: Seq<(int, Seq<char>)>, b: Seq<(int, Seq<char>)>) -> bool
    decreases a.len(),
{
    if a.len() == 0 {
        b.len() > 0
    } else if b.len() == 0 {
        false
    } else if component_lt(a[0], b[0]) {
        true
    } else if a[0] == b[0] {
        components_lt(a.drop_first(), b.drop_first())
    } else {
        false
    }
}

/// Where a new path goes in an ordered set, or `None` when an equal path is
/// there already.
pub open spec fn set_pos(t: Seq<Seq<char>>, p: Seq<char>) -> Option<int>
    decreases t.len(),
{
    if t.len() == 0 {
        Some(0)
    } else if path_components(t[0]) == path_components(p) {
        None
    } else if components_lt(path_components(p), path_components(t[0])) {
        Some(0)
    } else {
        match set_pos(t.drop_first(), p) {
            Some(i) => Some(i + 1),
            None => None,
        }
    }
}

/// The paths as a set in `Path`'s order, the first of equal paths kept.
pub open spec fn path_set(ps: Seq<Seq<char>>) -> Seq<Seq<char>>
    decreases ps.len(),
{
    if ps.len() == 0 {
        seq![]
    } else {
        let t = path_set(ps.drop_last());
        match set_pos(t, ps.last()) {
            Some(i) => t.insert(i, ps.last()),
            None => t,
        }
    }
}

proof fn lemma_component_order(a: (int, Seq<char>), b: (int, Seq<char>), c: (int, Seq<char>))
    ensures
        !component_lt(a, a),
        component_lt(a, b) ==> !component_lt(b, a),
        a != b ==> component_lt(a, b) || component_lt(b, a),
        component_lt(a, b) && component_lt(b, c) ==> component_lt(a, c),
{
    crate::order::lemma_lt_irreflexive(a.1);
    crate::order::lemma_lt_asymmetric(a.1, b.1);
    crate::order::lemma_lt_total(a.1, b.1);
    if a.0 == b.0 && b.0 == c.0 && crate::order::seq_lt(a.1, b.1) && crate::order::seq_lt(b.1, c.1) {
        crate::order::lemma_lt_transitive(a.1, b.1, c.1);
    }
}

proof fn lemma_components_irreflexive(a: Seq<(int, Seq<char>)>)
    ensures
        !components_lt(a, a),
    decreases a.len(),
{
    if a.len() > 0 {
        lemma_component_order(a[0], a[0], a[0]);
        lemma_components_irreflexive(a.drop_first());
    }
}

proof fn lemma_components_asymmetric(a: Seq<(int, Seq<char>)>, b: Seq<(int, Seq<char>)>)
    ensures
        components_lt(a, b) ==> !components_lt(b, a),
    decreases a.len(),
{
    if a.len() > 0 && b.len() > 0 {
        lemma_component_order(a[0], b[0], b[0]);
        if a[0] == b[0] {
            lemma_components_asymmetric(a.drop_first(), b.drop_first());
        }
    }
}

proof fn lemma_components_total(a: Seq<(int, Seq<char>)>, b: Seq<(int, Seq<char>)>)
    ensures
        a != b ==> components_lt(a, b) || components_lt(b, a),
    decreases a.len(),
{
    if a.len() > 0 && b.len() > 0 {
        lemma_component_order(a[0], b[0], b[0]);
        if a[0] == b[0] {
            lemma_components_total(a.drop_first(), b.drop_first());
            if a.drop_first() == b.drop_first() {
                assert(a =~= seq![a[0]] + a.drop_first());
                assert(b =~= seq![b[0]] + b.drop_first());
            }
        }
    } else if a.len() == 0 && b.len() == 0 {
        assert(a =~= b);
    }
}

proof fn lemma_components_transitive(
    a: Seq<(int, Seq<char>)>,
    b: Seq<(int, Seq<char>)>,
    c: Seq<(int, Seq<char>)>,
)
    requires
        components_lt(a, b),
        components_lt(b, c),
    ensures
        components_lt(a, c),
    decreases a.len(),
{
    if a.len() > 0 && b.len() > 0 && c.len() > 0 {
        lemma_component_order(a[0], b[0], c[0]);
        if a[0] == b[0] && b[0] == c[0] {
            lemma_components_transitive(a.drop_first(), b.drop_first(), c.drop_first());
        } else if a[0] == b[0] {
            assert(component_lt(b[0], c[0]));
        } else if b[0] == c[0] {
            assert(component_lt(a[0], b[0]));
        }
    }
}

/// Paths strictly ascending in `Path`'s order.
pub open spec fn path_sorted(t: Seq<Seq<char>>) -> bool {
    forall|i: int, j: int|
        0 <= i < j < t.len() ==> components_lt(
            path_components(#[trigger] t[i]),
            path_components(#[trigger] t[j]),
        )
}

/// Some path of `t` equals `p`.
pub open spec fn represented(t: Seq<Seq<char>>, p: Seq<char>) -> bool {
    exists|k: int| 0 <= k < t.len() && path_components(#[trigger] t[k]) == path_components(p)
}

proof fn lemma_set_pos(t: Seq<Seq<char>>, p: Seq<char>)
    ensures
        set_pos(t, p) is None ==> represented(t, p),
        set_pos(t, p) matches Some(i) ==> 0 <= i <= t.len() && (forall|k: int|
            0 <= k < i ==> components_lt(path_components(#[trigger] t[k]), path_components(p)))
            && (i < t.len() ==> components_lt(path_components(p), path_components(t[i]))),
    decreases t.len(),
{
    if t.len() > 0 {
        lemma_components_total(path_components(t[0]), path_components(p));
        lemma_set_pos(t.drop_first(), p);
        if path_components(t[0]) != path_components(p) && !components_lt(
            path_components(p),
            path_components(t[0]),
        ) {
            match set_pos(t.drop_first(), p) {
                Some(i) => {
                    assert forall|k: int| 0 <= k < i + 1 implies components_lt(
                        path_components(#[trigger] t[k]),
                        path_components(p),
                    ) by {
                        if k > 0 {
                            assert(t[k] == t.drop_first()[k - 1]);
                        }
                    }
                    if i + 1 < t.len() {
                        assert(t[i + 1] == t.drop_first()[i]);
                    }
                },
                None => {
                    let k = choose|k: int|
                        0 <= k < t.drop_first().len() && path_components(#[trigger] t.drop_first()[k])
                            == path_components(p);
                    assert(t[k + 1] == t.drop_first()[k]);
                },
            }
        }
    }
}

proof fn lemma_insert_sorted(t: Seq<Seq<char>>, p: int, x: Seq<char>)
    requires
        path_sorted(t),
        0 <= p <= t.len(),
        forall|k: int| 0 <= k < p ==> components_lt(path_components(#[trigger] t[k]), path_components(x)),
        p < t.len() ==> components_lt(path_components(x), path_components(t[p])),
    ensures
        path_sorted(t.insert(p, x)),
{
    let r = t.insert(p, x);
    let kx = path_components(x);
    assert forall|i: int, j: int| 0 <= i < j < r.len() implies components_lt(
        path_components(#[trigger] r[i]),
        path_components(#[trigger] r[j]),
    ) by {
        if j < p {
            assert(r[i] == t[i] && r[j] == t[j]);
        } else if j == p {
            assert(r[i] == t[i] && r[j] == x);
        } else if i == p {
            assert(r[i] == x && r[j] == t[j - 1]);
            if j - 1 > p {
                lemma_components_transitive(kx, path_components(t[p]), path_components(t[j - 1]));
            }
        } else if i < p {
            assert(r[i] == t[i] && r[j] == t[j - 1]);
        } else {
            assert(r[i] == t[i - 1] && r[j] == t[j - 1]);
        }
    }
}

proof fn lemma_insert_keeps(ps: Seq<Seq<char>>, t: Seq<Seq<char>>, p: int)
    requires
        ps.len() > 0,
        0 <= p <= t.len(),
        forall|i: int| 0 <= i < t.len() ==> ps.drop_last().contains(#[trigger] t[i]),
        forall|q: int| 0 <= q < ps.len() - 1 ==> represented(t, #[trigger] ps.drop_last()[q]),
    ensures
        forall|i: int| 0 <= i < t.insert(p, ps.last()).len() ==> ps.contains(
            #[trigger] t.insert(p, ps.last())[i],
        ),
        forall|q: int| 0 <= q < ps.len() ==> represented(t.insert(p, ps.last()), #[trigger] ps[q]),
{
    let d = ps.drop_last();
    let x = ps.last();
    let r = t.insert(p, x);
    assert forall|i: int| 0 <= i < r.len() implies ps.contains(#[trigger] r[i]) by {
        if i == p {
            assert(ps[ps.len() - 1] == x);
        } else {
            let ti = if i < p {
                i
            } else {
                i - 1
            };
            assert(r[i] == t[ti]);
            assert(d.contains(t[ti]));
            let q = choose|q: int| 0 <= q < d.len() && d[q] == t[ti];
            assert(ps[q] == d[q]);
        }
    }
    assert forall|q: int| 0 <= q < ps.len() implies represented(r, #[trigger] ps[q]) by {
        if q < d.len() {
            assert(ps[q] == d[q]);
            assert(represented(t, d[q]));
            let k = choose|k: int|
                0 <= k < t.len() && path_components(#[trigger] t[k]) == path_components(d[q]);
            if k < p {
                assert(r[k] == t[k]);
            } else {
                assert(r[k + 1] == t[k]);
            }
        } else {
            assert(r[p] == x);
        }
    }
}

proof fn lemma_skip_keeps(ps: Seq<Seq<char>>, t: Seq<Seq<char>>)
    requires
        ps.len() > 0,
        represented(t, ps.last()),
        forall|i: int| 0 <= i < t.len() ==> ps.drop_last().contains(#[trigger] t[i]),
        forall|q: int| 0 <= q < ps.len() - 1 ==> represented(t, #[trigger] ps.drop_last()[q]),
    ensures
        forall|i: int| 0 <= i < t.len() ==> ps.contains(#[trigger] t[i]),
        forall|q: int| 0 <= q < ps.len() ==> represented(t, #[trigger] ps[q]),
{
    let d = ps.drop_last();
    assert forall|i: int| 0 <= i < t.len() implies ps.contains(#[trigger] t[i]) by {
        assert(d.contains(t[i]));
        let q = choose|q: int| 0 <= q < d.len() && d[q] == t[i];
        assert(ps[q] == d[q]);
    }
    assert forall|q: int| 0 <= q < ps.len() implies represented(t, #[trigger] ps[q]) by {
        if q < d.len() {
            assert(ps[q] == d[q]);
        }
    }
}

/// The library directories form a set in `Path`'s order, as a `BTreeSet` of
/// paths does: strictly ascending (so no path is listed twice), each one of
/// the given paths, and every given path represented by one equal to it.
pub proof fn lemma_path_set(ps: Seq<Seq<char>>)
    ensures
        path_sorted(path_set(ps)),
        forall|i: int| 0 <= i < path_set(ps).len() ==> ps.contains(#[trigger] path_set(ps)[i]),
        forall|q: int| 0 <= q < ps.len() ==> represented(path_set(ps), #[trigger] ps[q]),
    decreases ps.len(),
{
    if ps.len() > 0 {
        let d = ps.drop_last();
        let t = path_set(d);
        let x = ps.last();
        lemma_path_set(d);
        lemma_set_pos(t, x);
        match set_pos(t, x) {
            None => {
                lemma_skip_keeps(ps, t);
            },
            Some(p) => {
                lemma_insert_sorted(t, p, x);
                lemma_insert_keeps(ps, t, p);
            },
        }
    }
}

pub open spec fn ranked_view(v: Seq<(u8, Vec<char>)>) -> Seq<(int, Seq<char>)> {
    v.map_values(|c: (u8, Vec<char>)| (c.0 as int, c.1@))
}

fn path_components_of(path: &str) -> (r: Vec<(u8, Vec<char>)>)
    ensures
        ranked_view(r@) == path_components(path@),
{
    let s = chars_of(path);
    let pieces = crate::text::split_chars(s.as_slice(), '/');
    let ghost ps = char_vecs(pieces@);
    let absolute = s.len() > 0 && s[0] == '/';
    let mut out: Vec<(u8, Vec<char>)> = Vec::new();
    if absolute {
        out.push((0u8, Vec::new()));
    }
    assert(ranked_view(out@) =~= root_part(path@));
    let leading_dot = !absolute && pieces.len() > 0 && pieces[0].len() == 1 && pieces[0][0] == '.';
    proof {
        if pieces@.len() > 0 {
            assert(ps[0] == pieces@[0]@);
            if ps[0] == seq!['.'] {
                assert(pieces@[0]@.len() == 1);
            }
            if leading_dot {
                assert(pieces@[0]@ =~= seq!['.']);
            }
        }
        assert(leading_dot == (!is_absolute(path@) && ps.len() > 0 && ps[0] == seq!['.']));
    }
    if leading_dot {
        let mut dot: Vec<char> = Vec::new();
        dot.push('.');
        out.push((1u8, dot));
        assert(dot@ =~= seq!['.']);
    }
    let ghost head = ranked_view(out@);
    assert(head =~= root_part(path@) + cur_part(path@));
    let mut i: usize = 0;
    while i < pieces.len()
        invariant
            i <= pieces@.len(),
            ps == char_vecs(pieces@),
            ranked_view(out@) == head + ranked(ps.take(i as int)),
        decreases pieces@.len() - i,
    {
        let p = &pieces[i];
        assert(ps.take(i + 1).drop_last() =~= ps.take(i as int));
        assert(ps.take(i + 1).last() == p@);
        let ghost before = ranked_view(out@);
        if p.len() == 0 || (p.len() == 1 && p[0] == '.') {
            assert(p@.len() == 0 || p@ =~= seq!['.']);
            assert(before == head + ranked(ps.take(i + 1)));
        } else if p.len() == 2 && p[0] == '.' && p[1] == '.' {
            assert(p@ =~= seq!['.', '.']);
            let q = sub_chars(p.as_slice(), 0, p.len());
            assert(q@ =~= p@);
            out.push((2u8, q));
            assert(ranked_view(out@) =~= before.push((2int, p@)));
        } else {
            assert(p@ != seq!['.'] && p@ != seq!['.', '.']);
            let q = sub_chars(p.as_slice(), 0, p.len());
            assert(q@ =~= p@);
            out.push((3u8, q));
            assert(ranked_view(out@) =~= before.push((3int, p@)));
        }
        i = i + 1;
    }
    assert(ps.take(i as int) =~= ps);
    out
}

fn components_eq(a: &Vec<(u8, Vec<char>)>, b: &Vec<(u8, Vec<char>)>) -> (r: bool)
    ensures
        r == (ranked_view(a@) == ranked_view(b@)),
{
    if a.len() != b.len() {
        assert(ranked_view(a@).len() != ranked_view(b@).len());
        return false;
    }
    let mut i: usize = 0;
    while i < a.len()
        invariant
            i <= a@.len() == b@.len(),
            forall|j: int| 0 <= j < i ==> ranked_view(a@)[j] == ranked_view(b@)[j],
        decreases a@.len() - i,
    {
        if a[i].0 != b[i].0 || !crate::text::chars_eq(a[i].1.as_slice(), b[i].1.as_slice()) {
            assert(ranked_view(a@)[i as int] != ranked_view(b@)[i as int]);
            return false;
        }
        i = i + 1;
    }
    assert(ranked_view(a@) =~= ranked_view(b@));
    true
}

fn components_less(a: &Vec<(u8, Vec<char>)>, b: &Vec<(u8, Vec<char>)>) -> (r: bool)
    ensures
        r == components_lt(ranked_view(a@), ranked_view(b@)),
{
    let ghost av = ranked_view(a@);
    let ghost bv = ranked_view(b@);
    let mut i: usize = 0;
    assert(av.skip(0) =~= av && bv.skip(0) =~= bv);
    while i < a.len() && i < b.len()
        invariant
            i <= a@.len(),
            i <= b@.len(),
            av == ranked_view(a@),
            bv == ranked_view(b@),
            components_lt(av, bv) == components_lt(av.skip(i as int), bv.skip(i as int)),
        decreases a@.len() - i,
    {
        let (ra, ta) = (a[i].0, &a[i].1);
        let (rb, tb) = (b[i].0, &b[i].1);
        assert(av.skip(i as int)[0] == (ra as int, ta@));
        assert(bv.skip(i as int)[0] == (rb as int, tb@));
        if ra < rb {
            return true;
        }
        if ra == rb && crate::order::chars_lt(ta.as_slice(), tb.as_slice()) {
            return true;
        }
        if ra != rb || !crate::text::chars_eq(ta.as_slice(), tb.as_slice()) {
            return false;
        }
        assert(av.skip(i as int).drop_first() =~= av.skip(i + 1));
        assert(bv.skip(i as int).drop_first() =~= bv.skip(i + 1));
        i = i + 1;
    }
    i == a.len() && i < b.len()
}

/// Where `p` goes among the ordered paths `t`, given the components of
/// each: `None` when an equal path is there.
fn set_slot(
    keys: &Vec<Vec<(u8, Vec<char>)>>,
    key: &Vec<(u8, Vec<char>)>,
    Ghost(t): Ghost<Seq<Seq<char>>>,
    Ghost(p): Ghost<Seq<char>>,
) -> (r: Option<usize>)
    requires
        keys@.len() == t.len(),
        forall|k: int| 0 <= k < keys@.len() ==> ranked_view(#[trigger] keys@[k]@) == path_components(t[k]),
        ranked_view(key@) == path_components(p),
    ensures
        match r {
            Some(j) => j <= t.len() && set_pos(t, p) == Some(j as int),
            None => set_pos(t, p) is None,
        },
{
    let mut j: usize = 0;
    assert(t.skip(0) =~= t);
    while j < keys.len()
        invariant
            j <= keys@.len() == t.len(),
            forall|k: int| 0 <= k < keys@.len() ==> ranked_view(#[trigger] keys@[k]@) == path_components(t[k]),
            ranked_view(key@) == path_components(p),
            set_pos(t, p) == match set_pos(t.skip(j as int), p) {
                Some(x) => Some(x + j),
                None => None::<int>,
            },
        decreases keys@.len() - j,
    {
        assert(t.skip(j as int)[0] == t[j as int]);
        assert(t.skip(j as int).drop_first() =~= t.skip(j + 1));
        assert(ranked_view(keys@[j as int]@) == path_components(t[j as int]));
        if components_eq(&keys[j], key) {
            return None;
        }
        if components_less(key, &keys[j]) {
            return Some(j);
        }
        j = j + 1;
    }
    assert(t.skip(j as int) =~= Seq::<Seq<char>>::empty());
    Some(j)
}

/// The library directories as a set in `Path`'s order, as a `BTreeSet` of
/// paths holds them: an equal path added later is dropped.
pub fn library_order(paths: &[String]) -> (r: Vec<String>)
    ensures
        strs(r@) == path_set(strs(paths@)),
{
    let ghost all = strs(paths@);
    let mut out: Vec<String> = Vec::new();
    let mut keys: Vec<Vec<(u8, Vec<char>)>> = Vec::new();
    let mut i: usize = 0;
    while i < paths.len()
        invariant
            i <= paths@.len(),
            all == strs(paths@),
            strs(out@) == path_set(all.take(i as int)),
            keys@.len() == out@.len(),
            forall|k: int| 0 <= k < keys@.len() ==> ranked_view(#[trigger] keys@[k]@) == path_components(
                out@[k]@,
            ),
        decreases paths@.len() - i,
    {
        let p = &paths[i];
        assert(all.take(i + 1).drop_last() =~= all.take(i as int));
        assert(all.take(i + 1).last() == p@);
        let key = path_components_of(p.as_str());
        let ghost t = strs(out@);
        let ghost old_keys = keys@;
        let ghost old_out = out@;
        match set_slot(&keys, &key, Ghost(t), Ghost(p@)) {
            Some(j) => {
                out.insert(j, p.clone());
                keys.insert(j, key);
                assert(strs(out@) =~= t.insert(j as int, p@));
                assert forall|k: int| 0 <= k < keys@.len() implies ranked_view(
                    #[trigger] keys@[k]@,
                ) == path_components(out@[k]@) by {
                    if k < j {
                        assert(keys@[k] == old_keys[k] && out@[k] == old_out[k]);
                    } else if k > j {
                        assert(keys@[k] == old_keys[k - 1] && out@[k] == old_out[k - 1]);
                    }
                }
            },
            None => {},
        }
        i = i + 1;
    }
    assert(all.take(i as int) =~= all);
    out
}

/// Names sorted by their lowercase form, equal ones keeping their order
/// (how a directory's entries are scanned).
pub open spec fn lower_pos(t: Seq<Seq<char>>, x: Seq<char>) -> int
    decreases t.len(),
{
    if t.len() == 0 {
        0
    } else if crate::order::seq_lt(lower_seq(x), lower_seq(t[0])) {
        0
    } else {
        1 + lower_pos(t.drop_first(), x)
    }
}

pub open spec fn by_lowercase(s: Seq<Seq<char>>) -> Seq<Seq<char>>
    decreases s.len(),
{
    if s.len() == 0 {
        seq![]
    } else {
        let t = by_lowercase(s.drop_last());
        t.insert(lower_pos(t, s.last()), s.last())
    }
}

/// No name comes after one whose lowercase form is greater.
pub open spec fn lower_sorted(s: Seq<Seq<char>>) -> bool {
    forall|i: int, j: int|
        0 <= i < j < s.len() ==> !crate::order::seq_lt(
            lower_seq(#[trigger] s[j]),
            lower_seq(#[trigger] s[i]),
        )
}

proof fn lemma_lower_pos(t: Seq<Seq<char>>, x: Seq<char>)
    ensures
        0 <= lower_pos(t, x) <= t.len(),
        forall|k: int|
            0 <= k < lower_pos(t, x) ==> !crate::order::seq_lt(lower_seq(x), lower_seq(#[trigger] t[k])),
        lower_pos(t, x) < t.len() ==> crate::order::seq_lt(lower_seq(x), lower_seq(t[lower_pos(t, x)])),
    decreases t.len(),
{
    if t.len() > 0 && !crate::order::seq_lt(lower_seq(x), lower_seq(t[0])) {
        lemma_lower_pos(t.drop_first(), x);
        let p = lower_pos(t, x);
        assert forall|k: int| 0 <= k < p implies !crate::order::seq_lt(
            lower_seq(x),
            lower_seq(#[trigger] t[k]),
        ) by {
            if k > 0 {
                assert(t[k] == t.drop_first()[k - 1]);
            }
        }
        if p < t.len() {
            assert(t[p] == t.drop_first()[p - 1]);
        }
    }
}

/// A directory's entries are scanned in lowercase order: the sort keeps
/// every name, and no name comes after one whose lowercase form is greater
/// (names equal in lowercase keep their order).
pub proof fn lemma_by_lowercase_sorts(s: Seq<Seq<char>>)
    ensures
        lower_sorted(by_lowercase(s)),
        by_lowercase(s).to_multiset() == s.to_multiset(),
    decreases s.len(),
{
    if s.len() > 0 {
        let d = s.drop_last();
        let t = by_lowercase(d);
        let x = s.last();
        lemma_by_lowercase_sorts(d);
        lemma_lower_pos(t, x);
        let p = lower_pos(t, x);
        let r = t.insert(p, x);
        let lx = lower_seq(x);
        assert forall|i: int, j: int| 0 <= i < j < r.len() implies !crate::order::seq_lt(
            lower_seq(#[trigger] r[j]),
            lower_seq(#[trigger] r[i]),
        ) by {
            if j < p {
                assert(r[i] == t[i] && r[j] == t[j]);
            } else if j == p {
                assert(r[j] == x && r[i] == t[i]);
            } else if i == p {
                assert(r[i] == x && r[j] == t[j - 1]);
                let a = lower_seq(t[p]);
                let b = lower_seq(t[j - 1]);
                if j - 1 > p {
                    crate::order::lemma_lt_total(a, b);
                    if a != b {
                        crate::order::lemma_lt_transitive(lx, a, b);
                    }
                }
                crate::order::lemma_lt_asymmetric(lx, b);
            } else if i < p {
                assert(r[i] == t[i] && r[j] == t[j - 1]);
            } else {
                assert(r[i] == t[i - 1] && r[j] == t[j - 1]);
            }
        }
        assert(by_lowercase(s) == r);
        assert(s =~= d.push(x));
        vstd::seq_lib::to_multiset_build(d, x);
        vstd::seq_lib::to_multiset_insert(t, p, x);
        assert(r.to_multiset() =~= s.to_multiset());
    } else {
        assert(s =~= Seq::<Seq<char>>::empty());
        assert(by_lowercase(s) =~= s);
    }
}

pub fn sort_by_lowercase(names: &[String]) -> (r: Vec<String>)
    ensures
        strs(r@) == by_lowercase(strs(names@)),
{
    let ghost all = strs(names@);
    let mut out: Vec<String> = Vec::new();
    let mut i: usize = 0;
    while i < names.len()
        invariant
            i <= names@.len(),
            all == strs(names@),
            strs(out@) == by_lowercase(all.take(i as int)),
        decreases names@.len() - i,
    {
        let x = &names[i];
        assert(all.take(i + 1).drop_last() =~= all.take(i as int));
        assert(all.take(i + 1).last() == x@);
        let lx = lower_chars(string_chars(x).as_slice());
        let ghost t = strs(out@);
        let mut j: usize = 0;
        assert(t.skip(0) =~= t);
        while j < out.len() && !crate::order::chars_lt(
            lx.as_slice(),
            lower_chars(string_chars(&out[j]).as_slice()).as_slice(),
        )
            invariant
                j <= out@.len(),
                t == strs(out@),
                lx@ == lower_seq(x@),
                lower_pos(t, x@) == j + lower_pos(t.skip(j as int), x@),
            decreases out@.len() - j,
        {
            assert(t.skip(j as int)[0] == out@[j as int]@);
            assert(t.skip(j as int).drop_first() =~= t.skip(j + 1));
            j = j + 1;
        }
        proof {
            if j < out@.len() {
                assert(t.skip(j as int)[0] == out@[j as int]@);
            }
        }
        out.insert(j, x.clone());
        assert(strs(out@) =~= t.insert(j as int, x@));
        i = i + 1;
    }
    assert(all.take(i as int) =~= all);
    out
}

} // verus!

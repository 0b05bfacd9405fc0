//! Per-game compatibility analysis: which executables of an installed game
//! are worth launching, which graphics backend suits them, and the stored
//! per-game overrides.

use crate::error::AppError;
use crate::gamefix::{applied_texts, known_fix_reports, GameFixReport};
use crate::graphics::GraphicsBackend;
use crate::pe::{names_contain, strs, PeReport};
use crate::text::{
    byte_len, chars_of, contains, decimal, contains_any, contains_char, count_char, count_chars, ends_with,
    file_stem, file_stem_chars, is_ascii_alnum, ascii_alnum, lower_chars, lower_seq, owned,
    path_file_name, path_file_name_chars, push_chars, push_str, seq_contains, seq_contains_any,
    seq_ends_with, signed_decimal, signed_decimal_i64, split_chars, split_on, str_is,
    string_chars, string_from_chars, sub_chars, text_byte_len,
};
use crate::order::char_vecs;
use vstd::prelude::*;

verus! {

pub const PROFILE_SCHEMA_VERSION: u32 = 1;

pub const MAX_EXECUTABLES: usize = 512;

pub const MAX_SCAN_DEPTH: usize = 8;

pub const MAX_LAUNCH_ARGUMENTS: usize = 64;

pub const MAX_LAUNCH_ARGUMENT_LENGTH: usize = 1024;

pub const MAX_TOTAL_LAUNCH_ARGUMENT_LENGTH: usize = 8192;

/// The backend a player chose for one game; `Inherit` follows the global
/// setting.
#[derive(Debug, Clone, Copy, PartialEq, Eq, Structural)]
pub enum BackendOverride {
    Inherit,
    Auto,
    Dxmt,
    Wined3d,
}

#[derive(Debug, Clone, Copy, PartialEq, Eq, Structural)]
pub enum CompatibilityLevel {
    Promising,
    NeedsComponent,
    Fallback,
    Unsupported,
    Unknown,
}

#[derive(Debug, Clone, Copy, PartialEq, Eq, Structural)]
pub enum ExecutableKind {
    Game,
    Launcher,
    Tool,
    Redistributable,
}

/// An executable of an installed game and what the analysis found in it.
#[derive(Debug)]
pub struct ExecutableCandidate {
    pub relative_path: String,
    pub architecture: String,
    pub subsystem: String,
    pub graphics_apis: Vec<String>,
    pub imports: Vec<String>,
    pub score: i32,
    pub kind: ExecutableKind,
    pub recommended_backend: Option<String>,
    pub compatibility: CompatibilityLevel,
    pub reasons: Vec<String>,
}

/// The compatibility profile of a Steam game: the stored overrides, the
/// analysis of its executables and the known fixes applied at its launch.
#[derive(Debug)]
pub struct SteamCompatibilityProfile {
    pub app_id: u32,
    pub name: String,
    pub backend_override: BackendOverride,
    pub selected_executable: Option<String>,
    pub launch_arguments: Vec<String>,
    pub recommended_executable: Option<String>,
    pub recommended_backend: Option<String>,
    pub effective_backend: String,
    pub compatibility: CompatibilityLevel,
    pub reasons: Vec<String>,
    pub candidates: Vec<ExecutableCandidate>,
    pub dxmt_installed: bool,
    pub game_fixes: Vec<GameFixReport>,
}

/// The overrides a player stored for one game.
#[derive(Debug)]
pub struct StoredProfile {
    pub schema_version: u32,
    pub app_id: u32,
    pub backend_override: BackendOverride,
    pub selected_executable: Option<String>,
    pub launch_arguments: Vec<String>,
}

impl StoredProfile {
    /// The profile of a game without stored overrides.
    pub fn defaults(app_id: u32) -> (r: StoredProfile)
        ensures
            r.schema_version == PROFILE_SCHEMA_VERSION,
            r.app_id == app_id,
            r.backend_override == BackendOverride::Inherit,
            r.selected_executable is None,
            r.launch_arguments@.len() == 0,
    {
        StoredProfile {
            schema_version: PROFILE_SCHEMA_VERSION,
            app_id,
            backend_override: BackendOverride::Inherit,
            selected_executable: None,
            launch_arguments: Vec::new(),
        }
    }
}

/// Where the per-game profiles are stored.
pub struct CompatibilityManager {
    pub root: String,
}

/// The name of a backend as profiles and reports write it.
pub open spec fn backend_text(backend: GraphicsBackend) -> Seq<char> {
    match backend {
        GraphicsBackend::Auto => "auto"@,
        GraphicsBackend::WineD3d => "wined3d"@,
        GraphicsBackend::Dxmt => "dxmt"@,
    }
}

pub fn backend_name(backend: GraphicsBackend) -> (r: &'static str)
    ensures
        r@ == backend_text(backend),
{
    match backend {
        GraphicsBackend::Auto => "auto",
        GraphicsBackend::WineD3d => "wined3d",
        GraphicsBackend::Dxmt => "dxmt",
    }
}

pub open spec fn kind_text(kind: ExecutableKind) -> Seq<char> {
    match kind {
        ExecutableKind::Game => "game"@,
        ExecutableKind::Launcher => "launcher"@,
        ExecutableKind::Tool => "tool"@,
        ExecutableKind::Redistributable => "redistributable"@,
    }
}

pub fn kind_name(kind: ExecutableKind) -> (r: &'static str)
    ensures
        r@ == kind_text(kind),
{
    match kind {
        ExecutableKind::Game => "game",
        ExecutableKind::Launcher => "launcher",
        ExecutableKind::Tool => "tool",
        ExecutableKind::Redistributable => "redistributable",
    }
}

// ---------------------------------------------------------------------------
// Paths and arguments that profiles may hold
// ---------------------------------------------------------------------------

/// A relative path to an `.exe` inside the game directory: `/`-separated,
/// with no empty, `.` or `..` component, no drive and no backslash.
pub open spec fn relative_executable_ok(v: Seq<char>) -> bool {
    &&& v.len() > 0
    &&& v[0] != '/'
    &&& v[0] != '\\'
    &&& !v.contains(':')
    &&& !v.contains('\\')
    &&& forall|k: int|
        0 <= k < split_on(v, '/').len() ==> {
            let c = #[trigger] split_on(v, '/')[k];
            c.len() != 0 && c != seq!['.'] && c != seq!['.', '.']
        }
    &&& seq_ends_with(lower_seq(v), ".exe"@)
}

pub open spec fn invalid_executable_text(v: Seq<char>) -> Seq<char> {
    "invalid relative executable path: "@ + v
}

fn invalid_executable(value: &[char]) -> (r: AppError)
    ensures
        r matches AppError::InvalidCompatibilityProfile(t) && t@ == invalid_executable_text(value@),
{
    let mut m = chars_of("invalid relative executable path: ");
    push_chars(&mut m, value);
    AppError::InvalidCompatibilityProfile(string_from_chars(m.as_slice()))
}

pub fn validate_relative_executable(value: &str) -> (r: Result<(), AppError>)
    ensures
        relative_executable_ok(value@) ==> r is Ok,
        !relative_executable_ok(value@) ==> (r matches Err(AppError::InvalidCompatibilityProfile(t))
            && t@ == invalid_executable_text(value@)),
{
    let v = chars_of(value);
    if v.len() == 0 || v[0] == '/' || v[0] == '\\' || contains_char(v.as_slice(), ':')
        || contains_char(v.as_slice(), '\\') {
        return Err(invalid_executable(v.as_slice()));
    }
    let parts = split_chars(v.as_slice(), '/');
    let ghost ps = char_vecs(parts@);
    let mut k: usize = 0;
    while k < parts.len()
        invariant
            k <= parts@.len(),
            ps == char_vecs(parts@),
            ps == split_on(v@, '/'),
            v@ == value@,
            forall|j: int|
                0 <= j < k ==> {
                    let c = #[trigger] ps[j];
                    c.len() != 0 && c != seq!['.'] && c != seq!['.', '.']
                },
        decreases parts@.len() - k,
    {
        let p = &parts[k];
        assert(ps[k as int] == p@);
        if p.len() == 0 || (p.len() == 1 && p[0] == '.') || (p.len() == 2 && p[0] == '.' && p[1]
            == '.') {
            assert(p@.len() == 0 || p@ =~= seq!['.'] || p@ =~= seq!['.', '.']);
            return Err(invalid_executable(v.as_slice()));
        }
        assert(p@ != seq!['.']);
        assert(p@ != seq!['.', '.']);
        k = k + 1;
    }
    let lower = lower_chars(v.as_slice());
    let exe = chars_of(".exe");
    if !ends_with(lower.as_slice(), exe.as_slice()) {
        return Err(invalid_executable(v.as_slice()));
    }
    Ok(())
}

/// The total UTF-8 length of the arguments.
pub open spec fn total_len(args: Seq<Seq<char>>) -> nat
    decreases args.len(),
{
    if args.len() == 0 {
        0
    } else {
        total_len(args.drop_last()) + byte_len(args.last())
    }
}

/// An argument that a profile may not hold: one with a NUL character or
/// longer than 1024 bytes.
pub open spec fn bad_argument(a: Seq<char>) -> bool {
    a.contains('\0') || byte_len(a) > 1024
}

/// Why a list of launch arguments is refused, if it is.
pub open spec fn arguments_error(args: Seq<Seq<char>>) -> Option<Seq<char>> {
    if args.len() > 64 {
        Some("at most 64 launch arguments are allowed"@)
    } else if exists|i: int| 0 <= i < args.len() && bad_argument(#[trigger] args[i]) {
        Some("launch argument is invalid or too long"@)
    } else if total_len(args) > 8192 {
        Some("launch arguments exceed the total size limit"@)
    } else {
        None
    }
}

proof fn lemma_total_len_bound(args: Seq<Seq<char>>)
    requires
        forall|i: int| 0 <= i < args.len() ==> byte_len(#[trigger] args[i]) <= 1024,
    ensures
        total_len(args) <= 1024 * args.len(),
    decreases args.len(),
{
    if args.len() > 0 {
        assert(byte_len(args[args.len() - 1]) <= 1024);
        lemma_total_len_bound(args.drop_last());
    }
}

pub fn validate_launch_arguments(arguments: &[String]) -> (r: Result<(), AppError>)
    ensures
        match arguments_error(strs(arguments@)) {
            None => r is Ok,
            Some(m) => r matches Err(AppError::InvalidCompatibilityProfile(t)) && t@ == m,
        },
{
    let ghost a = strs(arguments@);
    if arguments.len() > MAX_LAUNCH_ARGUMENTS {
        return Err(AppError::InvalidCompatibilityProfile(owned("at most 64 launch arguments are allowed")));
    }
    let mut total: usize = 0;
    let mut i: usize = 0;
    while i < arguments.len()
        invariant
            i <= arguments@.len() <= 64,
            a == strs(arguments@),
            a.len() == arguments@.len(),
            forall|j: int| 0 <= j < i ==> !bad_argument(#[trigger] a[j]),
            total == total_len(a.take(i as int)),
            total <= 1024 * i,
        decreases arguments@.len() - i,
    {
        let arg = &arguments[i];
        assert(a[i as int] == arg@);
        let chars = string_chars(arg);
        let len = text_byte_len(arg.as_str());
        if contains_char(chars.as_slice(), '\0') || len > MAX_LAUNCH_ARGUMENT_LENGTH {
            return Err(AppError::InvalidCompatibilityProfile(owned("launch argument is invalid or too long")));
        }
        assert(a.take(i + 1).drop_last() =~= a.take(i as int));
        total = total + len;
        i = i + 1;
    }
    assert(a.take(i as int) =~= a);
    if total > MAX_TOTAL_LAUNCH_ARGUMENT_LENGTH {
        return Err(AppError::InvalidCompatibilityProfile(owned("launch arguments exceed the total size limit")));
    }
    Ok(())
}

// ---------------------------------------------------------------------------
// Classifying and assessing executables
// ---------------------------------------------------------------------------

pub open spec fn redistributable_markers() -> Seq<Seq<char>> {
    seq![
        "_commonredist"@,
        "commonredist"@,
        "redist/"@,
        "redistributable"@,
        "vcredist"@,
        "directx/"@,
        "dotnet/"@,
        "prereq"@,
        "prerequisite"@,
    ]
}

pub open spec fn tool_markers() -> Seq<Seq<char>> {
    seq![
        "crashreport"@,
        "crashpad"@,
        "unins"@,
        "uninstall"@,
        "benchmark"@,
        "editor"@,
        "server"@,
        "configtool"@,
        "configurator"@,
        "setup"@,
    ]
}

pub open spec fn launcher_markers() -> Seq<Seq<char>> {
    seq!["launcher"@, "bootstrap"@, "start_protected_game"@]
}

/// What an executable is, from its relative path: redistributables by any
/// marker in the path, tools and launchers by their file name.
pub open spec fn classification(path: Seq<char>) -> ExecutableKind {
    if seq_contains_any(lower_seq(path), redistributable_markers()) {
        ExecutableKind::Redistributable
    } else if seq_contains_any(lower_seq(path_file_name(path)), tool_markers()) {
        ExecutableKind::Tool
    } else if seq_contains_any(lower_seq(path_file_name(path)), launcher_markers()) {
        ExecutableKind::Launcher
    } else {
        ExecutableKind::Game
    }
}

/// An executable outside the redistributable folders is a tool exactly when
/// its lowercased file name contains one of the words crashreport,
/// crashpad, unins, uninstall, benchmark, editor, server, configtool,
/// configurator or setup; so a dedicated server, a crash reporter or an
/// uninstaller never counts as the game.
pub proof fn lemma_tool_words(path: Seq<char>)
    requires
        !seq_contains_any(lower_seq(path), redistributable_markers()),
    ensures
        (classification(path) == ExecutableKind::Tool) <==> ({
            ||| seq_contains(lower_seq(path_file_name(path)), "crashreport"@)
            ||| seq_contains(lower_seq(path_file_name(path)), "crashpad"@)
            ||| seq_contains(lower_seq(path_file_name(path)), "unins"@)
            ||| seq_contains(lower_seq(path_file_name(path)), "uninstall"@)
            ||| seq_contains(lower_seq(path_file_name(path)), "benchmark"@)
            ||| seq_contains(lower_seq(path_file_name(path)), "editor"@)
            ||| seq_contains(lower_seq(path_file_name(path)), "server"@)
            ||| seq_contains(lower_seq(path_file_name(path)), "configtool"@)
            ||| seq_contains(lower_seq(path_file_name(path)), "configurator"@)
            ||| seq_contains(lower_seq(path_file_name(path)), "setup"@)
        }),
{
    let name = lower_seq(path_file_name(path));
    let t = tool_markers();
    if seq_contains_any(name, t) {
        let k = choose|k: int| 0 <= k < t.len() && seq_contains(name, t[k]);
        assert(0 <= k < 10);
    }
        if seq_contains(name, "crashreport"@) {
            assert(t[0] == "crashreport"@);
            assert(seq_contains(name, t[0]));
        } else if seq_contains(name, "crashpad"@) {
            assert(t[1] == "crashpad"@);
            assert(seq_contains(name, t[1]));
        } else if seq_contains(name, "unins"@) {
            assert(t[2] == "unins"@);
            assert(seq_contains(name, t[2]));
        } else if seq_contains(name, "uninstall"@) {
            assert(t[3] == "uninstall"@);
            assert(seq_contains(name, t[3]));
        } else if seq_contains(name, "benchmark"@) {
            assert(t[4] == "benchmark"@);
            assert(seq_contains(name, t[4]));
        } else if seq_contains(name, "editor"@) {
            assert(t[5] == "editor"@);
            assert(seq_contains(name, t[5]));
        } else if seq_contains(name, "server"@) {
            assert(t[6] == "server"@);
            assert(seq_contains(name, t[6]));
        } else if seq_contains(name, "configtool"@) {
            assert(t[7] == "configtool"@);
            assert(seq_contains(name, t[7]));
        } else if seq_contains(name, "configurator"@) {
            assert(t[8] == "configurator"@);
            assert(seq_contains(name, t[8]));
        } else if seq_contains(name, "setup"@) {
            assert(t[9] == "setup"@);
            assert(seq_contains(name, t[9]));
        }
}

/// The views of a list of string literals.
pub open spec fn str_views(w: Seq<&str>) -> Seq<Seq<char>> {
    w.map_values(|x: &str| x@)
}

fn markers(words: &[&str]) -> (r: Vec<Vec<char>>)
    ensures
        char_vecs(r@) == str_views(words@),
{
    let mut r: Vec<Vec<char>> = Vec::new();
    let mut i: usize = 0;
    while i < words.len()
        invariant
            i <= words@.len(),
            char_vecs(r@) == str_views(words@.take(i as int)),
        decreases words@.len() - i,
    {
        let c = chars_of(words[i]);
        assert(c@ == words@[i as int]@);
        let ghost before = r@;
        r.push(c);
        assert(char_vecs(r@) =~= char_vecs(before).push(c@));
        assert(str_views(words@.take(i + 1)) =~= str_views(words@.take(i as int)).push(
            words@[i as int]@,
        ));
        i = i + 1;
    }
    assert(words@.take(i as int) =~= words@);
    r
}

pub fn classify(relative_path: &str) -> (r: ExecutableKind)
    ensures
        r == classification(relative_path@),
{
    let path = chars_of(relative_path);
    let lower = lower_chars(path.as_slice());
    let redist = markers(
        &[
            "_commonredist",
            "commonredist",
            "redist/",
            "redistributable",
            "vcredist",
            "directx/",
            "dotnet/",
            "prereq",
            "prerequisite",
        ],
    );
    assert(char_vecs(redist@) =~= redistributable_markers());
    if contains_any(lower.as_slice(), &redist) {
        return ExecutableKind::Redistributable;
    }
    let name = lower_chars(path_file_name_chars(path.as_slice()).as_slice());
    let tools = markers(
        &[
            "crashreport",
            "crashpad",
            "unins",
            "uninstall",
            "benchmark",
            "editor",
            "server",
            "configtool",
            "configurator",
            "setup",
        ],
    );
    assert(char_vecs(tools@) =~= tool_markers());
    if contains_any(name.as_slice(), &tools) {
        return ExecutableKind::Tool;
    }
    let launchers = markers(&["launcher", "bootstrap", "start_protected_game"]);
    assert(char_vecs(launchers@) =~= launcher_markers());
    if contains_any(name.as_slice(), &launchers) {
        return ExecutableKind::Launcher;
    }
    ExecutableKind::Game
}

/// The graphics verdict on an executable from its imports: the backend to
/// recommend, how promising it is, and why. Direct3D 10/11 goes to DXMT;
/// Direct3D 12 has no backend; Vulkan, Direct3D 9 and OpenGL fall back to
/// WineD3D.
pub open spec fn assessment(imports: Seq<Seq<char>>, dxmt_installed: bool) -> (
    Option<GraphicsBackend>,
    CompatibilityLevel,
    Seq<Seq<char>>,
) {
    let d3d11 = imports.contains("d3d11.dll"@);
    let d3d10 = imports.contains("d3d10.dll"@) || imports.contains("d3d10_1.dll"@)
        || imports.contains("d3d10core.dll"@);
    if d3d11 || d3d10 {
        (
            Some(GraphicsBackend::Dxmt),
            if dxmt_installed {
                CompatibilityLevel::Promising
            } else {
                CompatibilityLevel::NeedsComponent
            },
            seq![
                if d3d11 {
                    "Direct3D 11 imports detected"@
                } else {
                    "Direct3D 10 imports detected"@
                },
                if dxmt_installed {
                    "DXMT is installed"@
                } else {
                    "DXMT is not installed"@
                },
            ],
        )
    } else if imports.contains("d3d12.dll"@) {
        (
            None,
            CompatibilityLevel::Unsupported,
            seq![
                "Direct3D 12 imports detected"@,
                "This DarwinPlay build has no Direct3D 12 translation backend"@,
            ],
        )
    } else if imports.contains("vulkan-1.dll"@) {
        (
            Some(GraphicsBackend::WineD3d),
            CompatibilityLevel::Fallback,
            seq![
                "Vulkan imports detected"@,
                "Vulkan is expected to use Wine's Vulkan path rather than DXMT"@,
            ],
        )
    } else if imports.contains("d3d9.dll"@) {
        (
            Some(GraphicsBackend::WineD3d),
            CompatibilityLevel::Fallback,
            seq![
                "Direct3D 9 imports detected"@,
                "WineD3D is the available Direct3D 9 path in this build"@,
            ],
        )
    } else if imports.contains("opengl32.dll"@) {
        (Some(GraphicsBackend::WineD3d), CompatibilityLevel::Fallback, seq!["OpenGL imports detected"@])
    } else {
        (
            None,
            CompatibilityLevel::Unknown,
            seq!["No supported graphics API was detected from the PE import table"@],
        )
    }
}

fn strings_of2(a: &str, b: &str) -> (r: Vec<String>)
    ensures
        strs(r@) == seq![a@, b@],
{
    let mut v: Vec<String> = Vec::new();
    v.push(owned(a));
    v.push(owned(b));
    assert(strs(v@) =~= seq![a@, b@]);
    v
}

pub fn assess(report: &PeReport, dxmt_installed: bool) -> (r: (
    Option<GraphicsBackend>,
    CompatibilityLevel,
    Vec<String>,
))
    ensures
        r.0 == assessment(strs(report.imports@), dxmt_installed).0,
        r.1 == assessment(strs(report.imports@), dxmt_installed).1,
        strs(r.2@) == assessment(strs(report.imports@), dxmt_installed).2,
{
    let imports = &report.imports;
    let d3d11 = names_contain(imports, "d3d11.dll");
    let d3d10 = names_contain(imports, "d3d10.dll") || names_contain(imports, "d3d10_1.dll")
        || names_contain(imports, "d3d10core.dll");
    if d3d11 || d3d10 {
        let api = if d3d11 {
            "Direct3D 11 imports detected"
        } else {
            "Direct3D 10 imports detected"
        };
        let (level, component) = if dxmt_installed {
            (CompatibilityLevel::Promising, "DXMT is installed")
        } else {
            (CompatibilityLevel::NeedsComponent, "DXMT is not installed")
        };
        return (Some(GraphicsBackend::Dxmt), level, strings_of2(api, component));
    }
    if names_contain(imports, "d3d12.dll") {
        return (
            None,
            CompatibilityLevel::Unsupported,
            strings_of2(
                "Direct3D 12 imports detected",
                "This DarwinPlay build has no Direct3D 12 translation backend",
            ),
        );
    }
    if names_contain(imports, "vulkan-1.dll") {
        return (
            Some(GraphicsBackend::WineD3d),
            CompatibilityLevel::Fallback,
            strings_of2(
                "Vulkan imports detected",
                "Vulkan is expected to use Wine's Vulkan path rather than DXMT",
            ),
        );
    }
    if names_contain(imports, "d3d9.dll") {
        return (
            Some(GraphicsBackend::WineD3d),
            CompatibilityLevel::Fallback,
            strings_of2(
                "Direct3D 9 imports detected",
                "WineD3D is the available Direct3D 9 path in this build",
            ),
        );
    }
    let mut reasons: Vec<String> = Vec::new();
    if names_contain(imports, "opengl32.dll") {
        reasons.push(owned("OpenGL imports detected"));
        assert(strs(reasons@) =~= seq!["OpenGL imports detected"@]);
        return (Some(GraphicsBackend::WineD3d), CompatibilityLevel::Fallback, reasons);
    }
    reasons.push(owned("No supported graphics API was detected from the PE import table"));
    assert(strs(reasons@) =~= seq!["No supported graphics API was detected from the PE import table"@]);
    (None, CompatibilityLevel::Unknown, reasons)
}

/// The backend a per-game override asks for.
pub open spec fn requested_backend(o: BackendOverride, fallback: GraphicsBackend) -> GraphicsBackend {
    match o {
        BackendOverride::Inherit => fallback,
        BackendOverride::Auto => GraphicsBackend::Auto,
        BackendOverride::Dxmt => GraphicsBackend::Dxmt,
        BackendOverride::Wined3d => GraphicsBackend::WineD3d,
    }
}

/// The backend a launch uses: an explicit choice stands; `Auto` takes DXMT
/// when the selected executable recommends it and DXMT is installed, and
/// WineD3D otherwise.
pub open spec fn effective(
    o: BackendOverride,
    fallback: GraphicsBackend,
    recommended: Option<Seq<char>>,
    dxmt_installed: bool,
) -> GraphicsBackend {
    let requested = requested_backend(o, fallback);
    if requested != GraphicsBackend::Auto {
        requested
    } else if recommended == Some("dxmt"@) && dxmt_installed {
        GraphicsBackend::Dxmt
    } else {
        GraphicsBackend::WineD3d
    }
}

/// The recommended backend of an optional candidate, as text.
pub open spec fn recommendation_of(selected: Option<ExecutableCandidate>) -> Option<Seq<char>> {
    match selected {
        Some(c) => match c.recommended_backend {
            Some(b) => Some(b@),
            None => None,
        },
        None => None,
    }
}

pub fn effective_backend(
    backend_override: BackendOverride,
    fallback_backend: GraphicsBackend,
    selected: Option<&ExecutableCandidate>,
    dxmt_installed: bool,
) -> (r: GraphicsBackend)
    ensures
        r == effective(
            backend_override,
            fallback_backend,
            recommendation_of(
                match selected {
                    Some(c) => Some(*c),
                    None => None,
                },
            ),
            dxmt_installed,
        ),
{
    let requested = match backend_override {
        BackendOverride::Inherit => fallback_backend,
        BackendOverride::Auto => GraphicsBackend::Auto,
        BackendOverride::Dxmt => GraphicsBackend::Dxmt,
        BackendOverride::Wined3d => GraphicsBackend::WineD3d,
    };
    if requested != GraphicsBackend::Auto {
        return requested;
    }
    match selected {
        Some(candidate) => match &candidate.recommended_backend {
            Some(b) => {
                if str_is(b, "dxmt") && dxmt_installed {
                    GraphicsBackend::Dxmt
                } else {
                    GraphicsBackend::WineD3d
                }
            },
            None => GraphicsBackend::WineD3d,
        },
        None => GraphicsBackend::WineD3d,
    }
}

/// A launch never resolves to `Auto`, and resolves to DXMT only when DXMT is
/// explicitly chosen or installed.
pub proof fn lemma_effective_backend_is_concrete(
    o: BackendOverride,
    fallback: GraphicsBackend,
    recommended: Option<Seq<char>>,
    dxmt_installed: bool,
)
    ensures
        effective(o, fallback, recommended, dxmt_installed) != GraphicsBackend::Auto,
        effective(o, fallback, recommended, dxmt_installed) == GraphicsBackend::Dxmt ==> (
        requested_backend(o, fallback) == GraphicsBackend::Dxmt || dxmt_installed),
{
}

// ---------------------------------------------------------------------------
// Scoring executables
// ---------------------------------------------------------------------------

/// The length of the leading run of ASCII letters and digits.
pub open spec fn alnum_run(s: Seq<char>) -> nat
    decreases s.len(),
{
    if s.len() == 0 || !is_ascii_alnum(s[0]) {
        0
    } else {
        1 + alnum_run(s.drop_first())
    }
}

/// The words of a name: its maximal runs of ASCII letters and digits of at
/// least three characters, lowercased.
pub open spec fn tokens(s: Seq<char>) -> Seq<Seq<char>>
    decreases s.len(),
{
    if s.len() == 0 {
        seq![]
    } else {
        let n = alnum_run(s);
        let rest = if n < s.len() {
            tokens(s.skip(n + 1int))
        } else {
            seq![]
        };
        if n >= 3 {
            seq![lower_seq(s.take(n as int))] + rest
        } else {
            rest
        }
    }
}

proof fn lemma_alnum_run(t: Seq<char>, k: int)
    requires
        0 <= k <= t.len(),
        forall|j: int| 0 <= j < k ==> is_ascii_alnum(#[trigger] t[j]),
        k == t.len() || !is_ascii_alnum(t[k]),
    ensures
        alnum_run(t) == k,
    decreases k,
{
    if k > 0 {
        assert forall|j: int| 0 <= j < k - 1 implies is_ascii_alnum(#[trigger] t.drop_first()[j]) by {
            assert(t.drop_first()[j] == t[j + 1]);
        }
        lemma_alnum_run(t.drop_first(), k - 1);
    }
}

fn tokens_of(s: &[char]) -> (r: Vec<Vec<char>>)
    ensures
        char_vecs(r@) == tokens(s@),
{
    let mut out: Vec<Vec<char>> = Vec::new();
    let mut start: usize = 0;
    let mut i: usize = 0;
    assert(s@.skip(0) =~= s@);
    assert(char_vecs(out@) + tokens(s@.skip(0)) =~= tokens(s@));
    while i < s.len()
        invariant
            start <= i <= s@.len(),
            forall|j: int| start <= j < i ==> is_ascii_alnum(#[trigger] s@[j]),
            char_vecs(out@) + tokens(s@.skip(start as int)) == tokens(s@),
        decreases s@.len() - i,
    {
        if ascii_alnum(s[i]) {
            i = i + 1;
        } else {
            let ghost t = s@.skip(start as int);
            proof {
                assert forall|j: int| 0 <= j < i - start implies is_ascii_alnum(#[trigger] t[j]) by {
                    assert(t[j] == s@[start + j]);
                }
                lemma_alnum_run(t, i - start);
                assert(t.skip(i - start + 1) =~= s@.skip(i + 1));
                assert(t.take(i - start) =~= s@.subrange(start as int, i as int));
            }
            if i - start >= 3 {
                let piece = sub_chars(s, start, i);
                let low = lower_chars(piece.as_slice());
                let ghost before = char_vecs(out@);
                out.push(low);
                assert(char_vecs(out@) =~= before.push(low@));
                assert(char_vecs(out@) + tokens(s@.skip(i + 1)) =~= before + tokens(t));
            }
            start = i + 1;
            i = i + 1;
        }
    }
    if start < s.len() {
        let ghost t = s@.skip(start as int);
        proof {
            assert forall|j: int| 0 <= j < i - start implies is_ascii_alnum(#[trigger] t[j]) by {
                assert(t[j] == s@[start + j]);
            }
            lemma_alnum_run(t, i - start);
            assert(t.take(i - start) =~= s@.subrange(start as int, i as int));
        }
        if i - start >= 3 {
            let piece = sub_chars(s, start, i);
            let low = lower_chars(piece.as_slice());
            let ghost before = char_vecs(out@);
            out.push(low);
            assert(char_vecs(out@) =~= before.push(low@));
            assert(char_vecs(out@) =~= before + tokens(t));
        } else {
            assert(char_vecs(out@) =~= char_vecs(out@) + tokens(t));
        }
    } else {
        assert(s@.skip(start as int) =~= Seq::<char>::empty());
        assert(char_vecs(out@) =~= char_vecs(out@) + tokens(s@.skip(start as int)));
    }
    out
}

/// How many of the game's words (counted with repetition) occur among the
/// file's words.
pub open spec fn match_count(game: Seq<Seq<char>>, file: Seq<Seq<char>>) -> nat
    decreases game.len(),
{
    if game.len() == 0 {
        0
    } else {
        match_count(game.drop_last(), file) + if file.contains(game.last()) {
            1nat
        } else {
            0nat
        }
    }
}

/// Twelve points per shared word, for at most four words.
pub open spec fn similarity(file_name: Seq<char>, game_name: Seq<char>) -> int {
    let m = match_count(tokens(game_name), tokens(file_name));
    (if m < 4 {
        m as int
    } else {
        4
    }) * 12
}

fn vecs_contain(vs: &Vec<Vec<char>>, w: &[char]) -> (r: bool)
    ensures
        r == char_vecs(vs@).contains(w@),
{
    let mut i: usize = 0;
    while i < vs.len()
        invariant
            i <= vs@.len(),
            forall|k: int| 0 <= k < i ==> char_vecs(vs@)[k] != w@,
        decreases vs@.len() - i,
    {
        assert(char_vecs(vs@)[i as int] == vs@[i as int]@);
        if crate::text::chars_eq(vs[i].as_slice(), w) {
            return true;
        }
        i = i + 1;
    }
    false
}

pub fn name_similarity_score(file_name: &[char], game_name: &[char]) -> (r: i32)
    ensures
        r == similarity(file_name@, game_name@),
{
    let game_tokens = tokens_of(game_name);
    let file_tokens = tokens_of(file_name);
    let ghost g = char_vecs(game_tokens@);
    let ghost f = char_vecs(file_tokens@);
    let mut matches: usize = 0;
    let mut i: usize = 0;
    while i < game_tokens.len()
        invariant
            i <= game_tokens@.len(),
            g == char_vecs(game_tokens@),
            f == char_vecs(file_tokens@),
            matches == match_count(g.take(i as int), f),
            matches <= i,
        decreases game_tokens@.len() - i,
    {
        assert(g.take(i + 1).drop_last() =~= g.take(i as int));
        assert(g[i as int] == game_tokens@[i as int]@);
        if vecs_contain(&file_tokens, game_tokens[i].as_slice()) {
            matches = matches + 1;
        }
        i = i + 1;
    }
    assert(g.take(i as int) =~= g);
    let capped: i32 = if matches < 4 {
        matches as i32
    } else {
        4
    };
    capped * 12
}

pub open spec fn architecture_bonus(a: Seq<char>) -> int {
    if a == "x86_64"@ {
        35
    } else if a == "x86"@ {
        5
    } else {
        -80
    }
}

pub open spec fn subsystem_bonus(s: Seq<char>) -> int {
    if s == "windows-gui"@ {
        15
    } else {
        0
    }
}

/// Points for the strongest graphics API an executable imports.
pub open spec fn api_bonus(imports: Seq<Seq<char>>) -> int {
    if imports.contains("d3d11.dll"@) {
        260
    } else if imports.contains("d3d10.dll"@) || imports.contains("d3d10_1.dll"@)
        || imports.contains("d3d10core.dll"@) {
        220
    } else if imports.contains("vulkan-1.dll"@) {
        190
    } else if imports.contains("d3d9.dll"@) {
        160
    } else if imports.contains("opengl32.dll"@) {
        120
    } else if imports.contains("d3d12.dll"@) {
        90
    } else {
        0
    }
}

pub open spec fn steam_bonus(imports: Seq<Seq<char>>) -> int {
    if imports.contains("steam_api64.dll"@) || imports.contains("steam_api.dll"@) {
        35
    } else {
        0
    }
}

/// Points for API names in the (lowercased) path.
pub open spec fn path_bonus(lower: Seq<char>) -> int {
    (if seq_contains(lower, "dx11"@) || seq_contains(lower, "d3d11"@) {
        60int
    } else {
        0
    }) + (if seq_contains(lower, "dx10"@) || seq_contains(lower, "d3d10"@) {
        35int
    } else {
        0
    }) + (if seq_contains(lower, "dx9"@) || seq_contains(lower, "d3d9"@) {
        20int
    } else {
        0
    }) + (if seq_contains(lower, "dx12"@) || seq_contains(lower, "d3d12"@) {
        15int
    } else {
        0
    })
}

pub open spec fn kind_bonus(kind: ExecutableKind) -> int {
    match kind {
        ExecutableKind::Game => 50,
        ExecutableKind::Launcher => -20,
        ExecutableKind::Tool => -140,
        ExecutableKind::Redistributable => -400,
    }
}

/// Everything in a score that does not depend on the depth or the kind.
pub open spec fn base_score(
    path: Seq<char>,
    game_name: Seq<char>,
    architecture: Seq<char>,
    subsystem: Seq<char>,
    imports: Seq<Seq<char>>,
) -> int {
    architecture_bonus(architecture) + subsystem_bonus(subsystem) + api_bonus(imports)
        + steam_bonus(imports) + path_bonus(lower_seq(path)) + similarity(
        lower_seq(file_stem(path_file_name(path))),
        game_name,
    )
}

/// How likely an executable is to be the game itself; three points less per
/// directory level.
pub open spec fn score_of(
    path: Seq<char>,
    game_name: Seq<char>,
    architecture: Seq<char>,
    subsystem: Seq<char>,
    imports: Seq<Seq<char>>,
    kind: ExecutableKind,
) -> int {
    base_score(path, game_name, architecture, subsystem, imports) - 3 * count_char(path, '/')
        + kind_bonus(kind)
}

/// How the kind of an executable moves its score: against the same
/// executable counted as the game, a launcher scores 70 less, a tool 190
/// less and a redistributable 450 less; so of two executables that differ
/// only in kind, the game ranks first, then a launcher, a tool and a
/// redistributable.
pub proof fn lemma_kind_offsets(
    path: Seq<char>,
    game_name: Seq<char>,
    architecture: Seq<char>,
    subsystem: Seq<char>,
    imports: Seq<Seq<char>>,
)
    ensures
        score_of(path, game_name, architecture, subsystem, imports, ExecutableKind::Launcher) == score_of(
            path,
            game_name,
            architecture,
            subsystem,
            imports,
            ExecutableKind::Game,
        ) - 70,
        score_of(path, game_name, architecture, subsystem, imports, ExecutableKind::Tool) == score_of(
            path,
            game_name,
            architecture,
            subsystem,
            imports,
            ExecutableKind::Game,
        ) - 190,
        score_of(path, game_name, architecture, subsystem, imports, ExecutableKind::Redistributable)
            == score_of(path, game_name, architecture, subsystem, imports, ExecutableKind::Game) - 450,
{
}

/// The score is computed in `i32`: the inputs on which no step overflows.
pub open spec fn score_fits(
    path: Seq<char>,
    game_name: Seq<char>,
    architecture: Seq<char>,
    subsystem: Seq<char>,
    imports: Seq<Seq<char>>,
    kind: ExecutableKind,
) -> bool {
    &&& 3 * count_char(path, '/') <= i32::MAX
    &&& base_score(path, game_name, architecture, subsystem, imports) - 3 * count_char(path, '/')
        >= i32::MIN
    &&& score_of(path, game_name, architecture, subsystem, imports, kind) >= i32::MIN
}

fn lower_contains(lower: &[char], a: &str, b: &str) -> (r: bool)
    ensures
        r == (seq_contains(lower@, a@) || seq_contains(lower@, b@)),
{
    let pa = chars_of(a);
    let pb = chars_of(b);
    contains(lower, pa.as_slice()) || contains(lower, pb.as_slice())
}

fn architecture_points(report: &PeReport) -> (r: i32)
    ensures
        r == architecture_bonus(report.architecture@) + subsystem_bonus(report.subsystem@),
{
    let arch: i32 = if str_is(&report.architecture, "x86_64") {
        35
    } else if str_is(&report.architecture, "x86") {
        5
    } else {
        -80
    };
    if str_is(&report.subsystem, "windows-gui") {
        arch + 15
    } else {
        arch
    }
}

fn import_points(imports: &Vec<String>) -> (r: i32)
    ensures
        r == api_bonus(strs(imports@)) + steam_bonus(strs(imports@)),
{
    let api: i32 = if names_contain(imports, "d3d11.dll") {
        260
    } else if names_contain(imports, "d3d10.dll") || names_contain(imports, "d3d10_1.dll")
        || names_contain(imports, "d3d10core.dll") {
        220
    } else if names_contain(imports, "vulkan-1.dll") {
        190
    } else if names_contain(imports, "d3d9.dll") {
        160
    } else if names_contain(imports, "opengl32.dll") {
        120
    } else if names_contain(imports, "d3d12.dll") {
        90
    } else {
        0
    };
    if names_contain(imports, "steam_api64.dll") || names_contain(imports, "steam_api.dll") {
        api + 35
    } else {
        api
    }
}

fn path_points(lower: &[char]) -> (r: i32)
    ensures
        r == path_bonus(lower@),
{
    let a: i32 = if lower_contains(lower, "dx11", "d3d11") {
        60
    } else {
        0
    };
    let b: i32 = if lower_contains(lower, "dx10", "d3d10") {
        35
    } else {
        0
    };
    let c: i32 = if lower_contains(lower, "dx9", "d3d9") {
        20
    } else {
        0
    };
    let d: i32 = if lower_contains(lower, "dx12", "d3d12") {
        15
    } else {
        0
    };
    a + b + c + d
}

pub fn candidate_score(relative_path: &str, game_name: &str, report: &PeReport, kind: ExecutableKind) -> (r:
    i32)
    requires
        score_fits(
            relative_path@,
            game_name@,
            report.architecture@,
            report.subsystem@,
            strs(report.imports@),
            kind,
        ),
    ensures
        r == score_of(
            relative_path@,
            game_name@,
            report.architecture@,
            report.subsystem@,
            strs(report.imports@),
            kind,
        ),
{
    let path = chars_of(relative_path);
    let lower = lower_chars(path.as_slice());
    let stem = file_stem_chars(path_file_name_chars(path.as_slice()).as_slice());
    let file_name = lower_chars(stem.as_slice());
    let game = chars_of(game_name);
    let mut score: i32 = architecture_points(report);
    score = score + import_points(&report.imports);
    score = score + path_points(lower.as_slice());
    let similarity_points = name_similarity_score(file_name.as_slice(), game.as_slice());
    score = score + similarity_points;
    let depth = count_chars(path.as_slice(), '/');
    let depth32 = depth as i32;
    score = score - depth32 * 3;
    let bonus: i32 = match kind {
        ExecutableKind::Game => 50,
        ExecutableKind::Launcher => -20,
        ExecutableKind::Tool => -140,
        ExecutableKind::Redistributable => -400,
    };
    score + bonus
}

/// Whether the score of the executable at `relative_path` can be computed
/// in `i32` (`score_fits`), decided by computing it in `i64`.
pub fn score_fits_check(relative_path: &str, game_name: &str, report: &PeReport, kind: ExecutableKind) -> (r:
    bool)
    ensures
        r == score_fits(
            relative_path@,
            game_name@,
            report.architecture@,
            report.subsystem@,
            strs(report.imports@),
            kind,
        ),
{
    let path = chars_of(relative_path);
    let depth = count_chars(path.as_slice(), '/');
    if depth > 715_827_882 {
        return false;
    }
    let lower = lower_chars(path.as_slice());
    let stem = file_stem_chars(path_file_name_chars(path.as_slice()).as_slice());
    let file_name = lower_chars(stem.as_slice());
    let game = chars_of(game_name);
    let base: i64 = architecture_points(report) as i64 + import_points(&report.imports) as i64
        + path_points(lower.as_slice()) as i64 + name_similarity_score(
        file_name.as_slice(),
        game.as_slice(),
    ) as i64;
    let after_depth: i64 = base - 3 * (depth as i64);
    let bonus: i64 = match kind {
        ExecutableKind::Game => 50,
        ExecutableKind::Launcher => -20,
        ExecutableKind::Tool => -140,
        ExecutableKind::Redistributable => -400,
    };
    after_depth >= -2_147_483_648 && after_depth + bonus >= -2_147_483_648
}

/// Whether `Path::extension` of a path is `exe`, ignoring ASCII case.
pub open spec fn executable_path(path: Seq<char>) -> bool {
    match crate::text::file_extension(path_file_name(path)) {
        Some(e) => crate::text::eq_ignore_case(e, "exe"@),
        None => false,
    }
}

pub fn is_executable_path(path: &str) -> (r: bool)
    ensures
        r == executable_path(path@),
{
    let p = chars_of(path);
    let name = path_file_name_chars(p.as_slice());
    match crate::text::file_extension_chars(name.as_slice()) {
        Some(e) => {
            let exe = chars_of("exe");
            crate::text::chars_eq_ignore_case(e.as_slice(), exe.as_slice())
        },
        None => false,
    }
}

/// The reasons of a candidate: the assessment's, then its score and kind.
pub open spec fn candidate_reasons(assessed: Seq<Seq<char>>, score: int, kind: ExecutableKind) -> Seq<
    Seq<char>,
> {
    assessed + seq!["Candidate score: "@ + signed_decimal(score), "Candidate type: "@ + kind_text(kind)]
}

pub open spec fn backend_texts(b: Option<GraphicsBackend>) -> Option<Seq<char>> {
    match b {
        Some(x) => Some(backend_text(x)),
        None => None,
    }
}

/// `c` is the candidate built from the executable at `path` with `report`.
pub open spec fn candidate_of(
    c: ExecutableCandidate,
    path: Seq<char>,
    report: PeReport,
    game_name: Seq<char>,
    dxmt_installed: bool,
) -> bool {
    let imports = strs(report.imports@);
    let kind = classification(path);
    let a = assessment(imports, dxmt_installed);
    let score = score_of(path, game_name, report.architecture@, report.subsystem@, imports, kind);
    &&& c.relative_path@ == path
    &&& c.architecture@ == report.architecture@
    &&& c.subsystem@ == report.subsystem@
    &&& strs(c.graphics_apis@) == strs(report.graphics_apis@)
    &&& strs(c.imports@) == imports
    &&& c.score == score
    &&& c.kind == kind
    &&& recommendation_of(Some(c)) == backend_texts(a.0)
    &&& c.compatibility == a.1
    &&& strs(c.reasons@) == candidate_reasons(a.2, score, kind)
}

/// The inputs on which building a candidate computes its score.
pub open spec fn buildable(path: Seq<char>, report: PeReport, game_name: Seq<char>) -> bool {
    relative_executable_ok(path) ==> score_fits(
        path,
        game_name,
        report.architecture@,
        report.subsystem@,
        strs(report.imports@),
        classification(path),
    )
}

fn copy_strings(v: &Vec<String>) -> (r: Vec<String>)
    ensures
        strs(r@) == strs(v@),
{
    let r = crate::text::clone_strings(v);
    assert(strs(r@) =~= strs(v@));
    r
}

/// The candidate for the executable at `relative_path` (relative to the
/// game directory, `/`-separated), whose PE report is `report`.
pub fn build_candidate(relative_path: &str, report: &PeReport, game_name: &str, dxmt_installed: bool) -> (r:
    Result<ExecutableCandidate, AppError>)
    requires
        buildable(relative_path@, *report, game_name@),
    ensures
        relative_executable_ok(relative_path@) ==> (r matches Ok(c) && candidate_of(
            c,
            relative_path@,
            *report,
            game_name@,
            dxmt_installed,
        )),
        !relative_executable_ok(relative_path@) ==> (r matches Err(
            AppError::InvalidCompatibilityProfile(t),
        ) && t@ == invalid_executable_text(relative_path@)),
{
    validate_relative_executable(relative_path)?;
    let kind = classify(relative_path);
    let (recommended, compatibility, mut reasons) = assess(report, dxmt_installed);
    let score = candidate_score(relative_path, game_name, report, kind);
    let ghost assessed = strs(reasons@);
    let mut line = chars_of("Candidate score: ");
    push_chars(&mut line, signed_decimal_i64(score as i64).as_slice());
    reasons.push(string_from_chars(line.as_slice()));
    let mut kind_line = chars_of("Candidate type: ");
    push_str(&mut kind_line, kind_name(kind));
    reasons.push(string_from_chars(kind_line.as_slice()));
    assert(strs(reasons@) =~= candidate_reasons(assessed, score as int, kind));
    let recommended_backend = match recommended {
        Some(b) => Some(owned(backend_name(b))),
        None => None,
    };
    Ok(
        ExecutableCandidate {
            relative_path: owned(relative_path),
            architecture: report.architecture.clone(),
            subsystem: report.subsystem.clone(),
            graphics_apis: copy_strings(&report.graphics_apis),
            imports: copy_strings(&report.imports),
            score,
            kind,
            recommended_backend,
            compatibility,
            reasons,
        },
    )
}

// ---------------------------------------------------------------------------
// Scanning
// ---------------------------------------------------------------------------

/// An executable found under a game directory: its relative path and what
/// inspecting it gave.
pub open spec fn scanned_ok(f: (String, Result<PeReport, AppError>)) -> bool {
    f.1 is Ok && relative_executable_ok(f.0@)
}

/// A scanned executable on which building a candidate computes its score.
pub open spec fn scan_input_ok(f: (String, Result<PeReport, AppError>), game_name: Seq<char>) -> bool {
    match f.1 {
        Ok(rep) => buildable(f.0@, rep, game_name),
        Err(_) => true,
    }
}

/// The indices of the scanned executables that make candidates.
pub open spec fn kept(files: Seq<(String, Result<PeReport, AppError>)>) -> Seq<int>
    decreases files.len(),
{
    if files.len() == 0 {
        seq![]
    } else {
        kept(files.drop_last()) + if scanned_ok(files.last()) {
            seq![files.len() - 1]
        } else {
            seq![]
        }
    }
}

proof fn lemma_kept_bounds(files: Seq<(String, Result<PeReport, AppError>)>)
    ensures
        forall|k: int| 0 <= k < kept(files).len() ==> 0 <= #[trigger] kept(files)[k] < files.len(),
    decreases files.len(),
{
    if files.len() > 0 {
        let d = files.drop_last();
        lemma_kept_bounds(d);
        assert forall|k: int| 0 <= k < kept(files).len() implies 0 <= #[trigger] kept(files)[k]
            < files.len() by {
            if k < kept(d).len() {
                assert(kept(files)[k] == kept(d)[k]);
            }
        }
    }
}

/// `r` are the candidates of the scanned `files`: one per executable among
/// the first 512 that could be inspected and has a valid relative path, in
/// scan order.
pub open spec fn scan_result(
    r: Seq<ExecutableCandidate>,
    files: Seq<(String, Result<PeReport, AppError>)>,
    game_name: Seq<char>,
    dxmt_installed: bool,
) -> bool {
    let t = files.take(
        if files.len() < 512 {
            files.len() as int
        } else {
            512
        },
    );
    &&& r.len() == kept(t).len()
    &&& forall|k: int|
        0 <= k < r.len() ==> candidate_of(
            #[trigger] r[k],
            t[kept(t)[k]].0@,
            t[kept(t)[k]].1->Ok_0,
            game_name,
            dxmt_installed,
        )
}

/// Every scanned executable's score can be computed.
pub open spec fn scan_inputs_ok(files: Seq<(String, Result<PeReport, AppError>)>, game_name: Seq<char>) -> bool {
    forall|i: int| 0 <= i < files.len() ==> scan_input_ok(#[trigger] files[i], game_name)
}

/// The candidates of a game: one per scanned executable among the first 512
/// that could be inspected and has a valid relative path, in scan order.
pub fn scan_candidates(files: &[(String, Result<PeReport, AppError>)], game_name: &str, dxmt_installed: bool) -> (r:
    Vec<ExecutableCandidate>)
    requires
        scan_inputs_ok(files@, game_name@),
    ensures
        scan_result(r@, files@, game_name@, dxmt_installed),
{
    let limit: usize = if files.len() < MAX_EXECUTABLES {
        files.len()
    } else {
        MAX_EXECUTABLES
    };
    let ghost t = files@.take(limit as int);
    let mut out: Vec<ExecutableCandidate> = Vec::new();
    let mut i: usize = 0;
    while i < limit
        invariant
            i <= limit <= files@.len(),
            t == files@.take(limit as int),
            forall|j: int|
                0 <= j < files@.len() ==> scan_input_ok(#[trigger] files@[j], game_name@),
            out@.len() == kept(t.take(i as int)).len(),
            forall|k: int|
                0 <= k < out@.len() ==> candidate_of(
                    #[trigger] out@[k],
                    t[kept(t.take(i as int))[k]].0@,
                    t[kept(t.take(i as int))[k]].1->Ok_0,
                    game_name@,
                    dxmt_installed,
                ),
        decreases limit - i,
    {
        let ghost before = kept(t.take(i as int));
        proof {
            lemma_kept_bounds(t.take(i as int));
            assert(t.take(i + 1).drop_last() =~= t.take(i as int));
            assert(t.take(i + 1).last() == files@[i as int]);
        }
        let (path, result) = &files[i];
        match result {
            Ok(report) => {
                let built = build_candidate(path.as_str(), report, game_name, dxmt_installed);
                match built {
                    Ok(c) => {
                        assert(kept(t.take(i + 1)) =~= before.push(i as int));
                        out.push(c);
                    },
                    Err(_) => {
                        assert(kept(t.take(i + 1)) =~= before);
                    },
                }
            },
            Err(_) => {
                assert(kept(t.take(i + 1)) =~= before);
            },
        }
        i = i + 1;
    }
    assert(t.take(i as int) =~= t);
    out
}

/// The candidates of a game's scanned executables, where every one of their
/// scores can be computed in `i32`; `None` where one cannot.
pub fn scan_candidates_checked(
    files: &[(String, Result<PeReport, AppError>)],
    game_name: &str,
    dxmt_installed: bool,
) -> (r: Option<Vec<ExecutableCandidate>>)
    ensures
        r is Some <==> scan_inputs_ok(files@, game_name@),
        r matches Some(v) ==> scan_result(v@, files@, game_name@, dxmt_installed),
{
    let mut i: usize = 0;
    while i < files.len()
        invariant
            i <= files@.len(),
            forall|j: int| 0 <= j < i ==> scan_input_ok(#[trigger] files@[j], game_name@),
        decreases files@.len() - i,
    {
        let (path, result) = &files[i];
        match result {
            Ok(report) => {
                let fits = match validate_relative_executable(path.as_str()) {
                    Ok(()) => score_fits_check(path.as_str(), game_name, report, classify(path.as_str())),
                    Err(_) => true,
                };
                if !fits {
                    assert(!scan_input_ok(files@[i as int], game_name@));
                    return None;
                }
            },
            Err(_) => {},
        }
        i = i + 1;
    }
    Some(scan_candidates(files, game_name, dxmt_installed))
}

// ---------------------------------------------------------------------------
// Ordering candidates
// ---------------------------------------------------------------------------

/// `a` comes before `b`: a higher score, or the same score and a path that
/// is smaller once lowercased.
pub open spec fn ranks_before(a: ExecutableCandidate, b: ExecutableCandidate) -> bool {
    a.score > b.score || (a.score == b.score && crate::order::seq_lt(
        lower_seq(a.relative_path@),
        lower_seq(b.relative_path@),
    ))
}

/// Where a stable insertion puts `x`: before the first element that `x`
/// ranks before.
pub open spec fn insert_pos(s: Seq<ExecutableCandidate>, x: ExecutableCandidate) -> int
    decreases s.len(),
{
    if s.len() == 0 {
        0
    } else if ranks_before(x, s[0]) {
        0
    } else {
        1 + insert_pos(s.drop_first(), x)
    }
}

/// The candidates in rank order, equal ranks keeping their scan order (a
/// stable sort by descending score and then lowercased path).
pub open spec fn rank_order(s: Seq<ExecutableCandidate>) -> Seq<ExecutableCandidate>
    decreases s.len(),
{
    if s.len() == 0 {
        seq![]
    } else {
        let t = rank_order(s.drop_last());
        t.insert(insert_pos(t, s.last()), s.last())
    }
}

fn ranks_before_exec(a: &ExecutableCandidate, b: &ExecutableCandidate) -> (r: bool)
    ensures
        r == ranks_before(*a, *b),
{
    if a.score > b.score {
        return true;
    }
    if a.score < b.score {
        return false;
    }
    let la = lower_chars(string_chars(&a.relative_path).as_slice());
    let lb = lower_chars(string_chars(&b.relative_path).as_slice());
    crate::order::chars_lt(la.as_slice(), lb.as_slice())
}

fn find_insert_pos(s: &Vec<ExecutableCandidate>, x: &ExecutableCandidate) -> (r: usize)
    ensures
        r == insert_pos(s@, *x),
        r <= s@.len(),
{
    let mut j: usize = 0;
    assert(s@.skip(0) =~= s@);
    while j < s.len() && !ranks_before_exec(x, &s[j])
        invariant
            j <= s@.len(),
            insert_pos(s@, *x) == j + insert_pos(s@.skip(j as int), *x),
        decreases s@.len() - j,
    {
        assert(s@.skip(j as int).drop_first() =~= s@.skip(j + 1));
        j = j + 1;
    }
    j
}

/// Sorts candidates into rank order.
pub fn sort_candidates(v: Vec<ExecutableCandidate>) -> (r: Vec<ExecutableCandidate>)
    ensures
        r@ == rank_order(v@),
{
    let ghost original = v@;
    let n = v.len();
    let mut input = v;
    let mut out: Vec<ExecutableCandidate> = Vec::new();
    let mut i: usize = 0;
    while input.len() > 0
        invariant
            i + input@.len() == original.len(),
            original.len() == n,
            input@ == original.skip(i as int),
            out@ == rank_order(original.take(i as int)),
        decreases input@.len(),
    {
        let x = input.remove(0);
        assert(original.take(i + 1).drop_last() =~= original.take(i as int));
        assert(original.take(i + 1).last() == x);
        assert(input@ =~= original.skip(i + 1));
        let pos = find_insert_pos(&out, &x);
        out.insert(pos, x);
        i = i + 1;
    }
    assert(original.take(i as int) =~= original);
    out
}

proof fn lemma_ranks_before_transitive(a: ExecutableCandidate, b: ExecutableCandidate, c: ExecutableCandidate)
    requires
        ranks_before(a, b),
        ranks_before(b, c),
    ensures
        ranks_before(a, c),
{
    if a.score == b.score && b.score == c.score {
        crate::order::lemma_lt_transitive(
            lower_seq(a.relative_path@),
            lower_seq(b.relative_path@),
            lower_seq(c.relative_path@),
        );
    }
}

proof fn lemma_ranks_before_asymmetric(a: ExecutableCandidate, b: ExecutableCandidate)
    requires
        ranks_before(a, b),
    ensures
        !ranks_before(b, a),
{
    if a.score == b.score {
        crate::order::lemma_lt_asymmetric(lower_seq(a.relative_path@), lower_seq(b.relative_path@));
    }
}

proof fn lemma_insert_pos(s: Seq<ExecutableCandidate>, x: ExecutableCandidate)
    ensures
        0 <= insert_pos(s, x) <= s.len(),
        forall|j: int| 0 <= j < insert_pos(s, x) ==> !ranks_before(x, #[trigger] s[j]),
        insert_pos(s, x) < s.len() ==> ranks_before(x, s[insert_pos(s, x)]),
    decreases s.len(),
{
    if s.len() > 0 && !ranks_before(x, s[0]) {
        lemma_insert_pos(s.drop_first(), x);
        assert forall|j: int| 0 <= j < insert_pos(s, x) implies !ranks_before(x, #[trigger] s[j]) by {
            if j > 0 {
                assert(s[j] == s.drop_first()[j - 1]);
            }
        }
    }
}

/// No candidate ranks before one that precedes it.
pub open spec fn in_rank_order(s: Seq<ExecutableCandidate>) -> bool {
    forall|i: int, j: int| 0 <= i < j < s.len() ==> !ranks_before(#[trigger] s[j], #[trigger] s[i])
}

/// Sorting candidates puts them in rank order and keeps every candidate:
/// the first one is a best-scoring executable.
pub proof fn lemma_rank_order(s: Seq<ExecutableCandidate>)
    ensures
        in_rank_order(rank_order(s)),
        rank_order(s).to_multiset() == s.to_multiset(),
    decreases s.len(),
{
    broadcast use vstd::seq_lib::to_multiset_insert, vstd::seq_lib::to_multiset_build;

    if s.len() > 0 {
        let t = rank_order(s.drop_last());
        let x = s.last();
        lemma_rank_order(s.drop_last());
        lemma_insert_pos(t, x);
        let p = insert_pos(t, x);
        let u = t.insert(p, x);
        assert forall|i: int, j: int| 0 <= i < j < u.len() implies !ranks_before(
            #[trigger] u[j],
            #[trigger] u[i],
        ) by {
            if j < p {
                assert(u[i] == t[i] && u[j] == t[j]);
            } else if j == p {
                assert(u[i] == t[i]);
            } else if i == p {
                assert(u[j] == t[j - 1]);
                if ranks_before(t[j - 1], x) {
                    if j - 1 == p {
                        lemma_ranks_before_asymmetric(t[j - 1], x);
                    } else {
                        lemma_ranks_before_transitive(t[j - 1], x, t[p]);
                    }
                }
            } else if i < p {
                assert(u[i] == t[i] && u[j] == t[j - 1]);
            } else {
                assert(u[i] == t[i - 1] && u[j] == t[j - 1]);
            }
        }
        assert(s =~= s.drop_last().push(x));
        assert(s.drop_last().push(x).to_multiset() == s.drop_last().to_multiset().insert(x));
        assert(u.to_multiset() == t.to_multiset().insert(x));
    } else {
        assert(s =~= Seq::<ExecutableCandidate>::empty());
        assert(rank_order(s) =~= Seq::<ExecutableCandidate>::empty());
    }
}

// ---------------------------------------------------------------------------
// Stored profiles
// ---------------------------------------------------------------------------

pub open spec fn opt_view(o: Option<String>) -> Option<Seq<char>> {
    match o {
        Some(s) => Some(s@),
        None => None,
    }
}

pub open spec fn metadata_text(app_id: u32) -> Seq<char> {
    "invalid profile metadata for Steam app "@ + decimal(app_id as nat)
}

pub open spec fn selection_error(selected: Option<Seq<char>>) -> Option<Seq<char>> {
    match selected {
        Some(e) => if relative_executable_ok(e) {
            None
        } else {
            Some(invalid_executable_text(e))
        },
        None => None,
    }
}

/// Why a stored profile is refused for `app_id`, if it is.
pub open spec fn stored_error(app_id: u32, p: StoredProfile) -> Option<Seq<char>> {
    if p.schema_version != PROFILE_SCHEMA_VERSION || p.app_id != app_id {
        Some(metadata_text(app_id))
    } else if arguments_error(strs(p.launch_arguments@)) is Some {
        arguments_error(strs(p.launch_arguments@))
    } else {
        selection_error(opt_view(p.selected_executable))
    }
}

pub open spec fn foreign_executable_text(v: Seq<char>) -> Seq<char> {
    "executable is not part of the current Steam installation: "@ + v
}

/// Why overrides are refused, if they are: bad arguments, or a selected
/// executable that is not a valid relative path or not one of the game's.
pub open spec fn save_error(
    selected: Option<Seq<char>>,
    arguments: Seq<Seq<char>>,
    allowed: Seq<Seq<char>>,
) -> Option<Seq<char>> {
    if arguments_error(arguments) is Some {
        arguments_error(arguments)
    } else {
        match selected {
            Some(v) => if !relative_executable_ok(v) {
                Some(invalid_executable_text(v))
            } else if !allowed.contains(v) {
                Some(foreign_executable_text(v))
            } else {
                None
            },
            None => None,
        }
    }
}

fn contains_string(v: &[String], s: &str) -> (r: bool)
    ensures
        r == strs(v@).contains(s@),
{
    let w = owned(s);
    let mut i: usize = 0;
    while i < v.len()
        invariant
            i <= v@.len(),
            w@ == s@,
            forall|k: int| 0 <= k < i ==> strs(v@)[k] != s@,
        decreases v@.len() - i,
    {
        assert(strs(v@)[i as int] == v@[i as int]@);
        if v[i] == w {
            return true;
        }
        i = i + 1;
    }
    false
}

impl CompatibilityManager {
    /// Profiles live in `compatibility/steam` below the application support
    /// directory.
    pub fn new(application_support: &str) -> (r: CompatibilityManager)
        ensures
            r.root@ == crate::text::path_join(application_support@, "compatibility/steam"@),
    {
        CompatibilityManager { root: crate::text::join_path(application_support, "compatibility/steam") }
    }

    /// The file of a game's profile: `<app id>.json`.
    pub fn path(&self, app_id: u32) -> (r: String)
        ensures
            r@ == crate::text::path_join(self.root@, decimal(app_id as nat) + ".json"@),
    {
        let mut name = crate::text::decimal_u64(app_id as u64);
        push_str(&mut name, ".json");
        crate::text::join_path_chars(self.root.as_str(), name.as_slice())
    }

    /// The stored profile of a game, given what its file held (`None` when
    /// there is no file): the defaults, or the stored profile once checked.
    pub fn load(&self, app_id: u32, stored: Option<StoredProfile>) -> (r: Result<StoredProfile, AppError>)
        ensures
            match stored {
                None => r matches Ok(p) && p.schema_version == PROFILE_SCHEMA_VERSION && p.app_id
                    == app_id && p.backend_override == BackendOverride::Inherit
                    && p.selected_executable is None && p.launch_arguments@.len() == 0,
                Some(p) => match stored_error(app_id, p) {
                    Some(m) => r matches Err(AppError::InvalidCompatibilityProfile(t)) && t@ == m,
                    None => r == Ok::<StoredProfile, AppError>(p),
                },
            },
    {
        let profile = match stored {
            None => {
                return Ok(StoredProfile::defaults(app_id));
            },
            Some(p) => p,
        };
        if profile.schema_version != PROFILE_SCHEMA_VERSION || profile.app_id != app_id {
            let mut m = chars_of("invalid profile metadata for Steam app ");
            push_chars(&mut m, crate::text::decimal_u64(app_id as u64).as_slice());
            return Err(AppError::InvalidCompatibilityProfile(string_from_chars(m.as_slice())));
        }
        validate_launch_arguments(profile.launch_arguments.as_slice())?;
        match &profile.selected_executable {
            Some(e) => {
                validate_relative_executable(e.as_str())?;
            },
            None => {},
        }
        Ok(profile)
    }

    /// Checks new overrides for a game and gives the profile to store.
    pub fn save(
        &self,
        app_id: u32,
        backend_override: BackendOverride,
        selected_executable: Option<&str>,
        launch_arguments: Vec<String>,
        allowed_executables: &[String],
    ) -> (r: Result<StoredProfile, AppError>)
        ensures
            match save_error(
                match selected_executable {
                    Some(v) => Some(v@),
                    None => None,
                },
                strs(launch_arguments@),
                strs(allowed_executables@),
            ) {
                Some(m) => r matches Err(AppError::InvalidCompatibilityProfile(t)) && t@ == m,
                None => r matches Ok(p) && p.schema_version == PROFILE_SCHEMA_VERSION && p.app_id
                    == app_id && p.backend_override == backend_override && opt_view(
                    p.selected_executable,
                ) == (match selected_executable {
                    Some(v) => Some(v@),
                    None => None,
                }) && p.launch_arguments == launch_arguments,
            },
    {
        validate_launch_arguments(launch_arguments.as_slice())?;
        let selected = match selected_executable {
            Some(value) => {
                validate_relative_executable(value)?;
                if !contains_string(allowed_executables, value) {
                    let mut m = chars_of("executable is not part of the current Steam installation: ");
                    push_str(&mut m, value);
                    return Err(AppError::InvalidCompatibilityProfile(string_from_chars(m.as_slice())));
                }
                Some(owned(value))
            },
            None => None,
        };
        Ok(
            StoredProfile {
                schema_version: PROFILE_SCHEMA_VERSION,
                app_id,
                backend_override,
                selected_executable: selected,
                launch_arguments,
            },
        )
    }
}

/// What `save` accepts, `load` gives back unchanged.
pub proof fn lemma_saved_profile_loads(app_id: u32, p: StoredProfile, allowed: Seq<Seq<char>>)
    requires
        p.schema_version == PROFILE_SCHEMA_VERSION,
        p.app_id == app_id,
        save_error(opt_view(p.selected_executable), strs(p.launch_arguments@), allowed) is None,
    ensures
        stored_error(app_id, p) is None,
{
}

// ---------------------------------------------------------------------------
// Analysis
// ---------------------------------------------------------------------------

/// The first candidate whose relative path is `p`.
pub open spec fn find_path(c: Seq<ExecutableCandidate>, p: Seq<char>) -> Option<int> {
    if exists|i: int| 0 <= i < c.len() && (#[trigger] c[i]).relative_path@ == p {
        Some(
            choose|i: int|
                0 <= i < c.len() && c[i].relative_path@ == p && (forall|j: int|
                    0 <= j < i ==> (#[trigger] c[j]).relative_path@ != p),
        )
    } else {
        None
    }
}

proof fn lemma_find_path(c: Seq<ExecutableCandidate>, p: Seq<char>)
    ensures
        find_path(c, p) matches Some(i) ==> 0 <= i < c.len() && c[i].relative_path@ == p,
{
    if exists|i: int| 0 <= i < c.len() && (#[trigger] c[i]).relative_path@ == p {
        let w = choose|i: int| 0 <= i < c.len() && (#[trigger] c[i]).relative_path@ == p;
        lemma_first_with_path(c, p, w);
    }
}

proof fn lemma_first_with_path(c: Seq<ExecutableCandidate>, p: Seq<char>, w: int)
    requires
        0 <= w < c.len(),
        c[w].relative_path@ == p,
    ensures
        exists|i: int|
            0 <= i < c.len() && c[i].relative_path@ == p && (forall|j: int|
                0 <= j < i ==> (#[trigger] c[j]).relative_path@ != p),
    decreases w,
{
    if exists|j: int| 0 <= j < w && (#[trigger] c[j]).relative_path@ == p {
        let j = choose|j: int| 0 <= j < w && (#[trigger] c[j]).relative_path@ == p;
        lemma_first_with_path(c, p, j);
    } else {
        assert(0 <= w < c.len() && c[w].relative_path@ == p && (forall|j: int|
            0 <= j < w ==> (#[trigger] c[j]).relative_path@ != p));
    }
}

/// The analysed executable: the saved one while it is still installed,
/// else the best-ranked one.
pub open spec fn selection(c: Seq<ExecutableCandidate>, saved: Option<Seq<char>>) -> Option<int> {
    let first = if c.len() > 0 {
        Some(0int)
    } else {
        None
    };
    match saved {
        Some(p) => match find_path(c, p) {
            Some(i) => Some(i),
            None => first,
        },
        None => first,
    }
}

/// The saved selection, kept only while it is still installed.
pub open spec fn kept_selection(c: Seq<ExecutableCandidate>, saved: Option<Seq<char>>) -> Option<Seq<char>> {
    match saved {
        Some(p) => if find_path(c, p) is Some {
            Some(p)
        } else {
            None
        },
        None => None,
    }
}

pub open spec fn candidate_at(c: Seq<ExecutableCandidate>, i: Option<int>) -> Option<ExecutableCandidate> {
    match i {
        Some(k) => Some(c[k]),
        None => None,
    }
}

pub open spec fn analysis_reasons(c: Seq<ExecutableCandidate>, saved: Option<Seq<char>>) -> Seq<Seq<char>> {
    let base = match candidate_at(c, selection(c, saved)) {
        Some(x) => strs(x.reasons@),
        None => seq!["No Windows executables were detected in the installed game directory"@],
    };
    match saved {
        Some(p) => if find_path(c, p) is None {
            base.push("Saved analysis target is no longer installed: "@ + p)
        } else {
            base
        },
        None => base,
    }
}

/// `p` is the profile of a game with the given stored overrides and ranked
/// candidates.
pub open spec fn profile_of(
    p: SteamCompatibilityProfile,
    app_id: u32,
    name: Seq<char>,
    stored: StoredProfile,
    ranked: Seq<ExecutableCandidate>,
    dxmt_installed: bool,
    fallback: GraphicsBackend,
) -> bool {
    let saved = opt_view(stored.selected_executable);
    let selected = candidate_at(ranked, selection(ranked, saved));
    &&& p.app_id == app_id
    &&& p.name@ == name
    &&& p.backend_override == stored.backend_override
    &&& opt_view(p.selected_executable) == kept_selection(ranked, saved)
    &&& strs(p.launch_arguments@) == strs(stored.launch_arguments@)
    &&& opt_view(p.recommended_executable) == (if ranked.len() > 0 {
        Some(ranked[0].relative_path@)
    } else {
        None
    })
    &&& opt_view(p.recommended_backend) == recommendation_of(selected)
    &&& p.effective_backend@ == backend_text(
        effective(stored.backend_override, fallback, recommendation_of(selected), dxmt_installed),
    )
    &&& p.compatibility == match selected {
        Some(x) => x.compatibility,
        None => CompatibilityLevel::Unknown,
    }
    &&& strs(p.reasons@) == analysis_reasons(ranked, saved) + applied_texts(app_id)
    &&& p.candidates@ == ranked
    &&& p.dxmt_installed == dxmt_installed
    &&& known_fix_reports(app_id, p.game_fixes@)
}

fn find_candidate(c: &Vec<ExecutableCandidate>, p: &String) -> (r: Option<usize>)
    ensures
        r matches Some(i) ==> i < c@.len(),
        find_path(c@, p@) matches Some(j) ==> 0 <= j < c@.len(),
        r matches Some(i) ==> find_path(c@, p@) == Some(i as int),
        r is None ==> find_path(c@, p@) is None,
{
    let mut i: usize = 0;
    while i < c.len()
        invariant
            i <= c@.len(),
            forall|j: int| 0 <= j < i ==> (#[trigger] c@[j]).relative_path@ != p@,
        decreases c@.len() - i,
    {
        if c[i].relative_path == *p {
            proof {
                let k = choose|k: int|
                    0 <= k < c@.len() && c@[k].relative_path@ == p@ && (forall|j: int|
                        0 <= j < k ==> (#[trigger] c@[j]).relative_path@ != p@);
                if k != i as int {
                    if k < i {
                        assert(c@[k].relative_path@ != p@);
                    } else {
                        assert(c@[i as int].relative_path@ != p@);
                    }
                }
            }
            return Some(i);
        }
        i = i + 1;
    }
    None
}

fn copy_option(o: &Option<String>) -> (r: Option<String>)
    ensures
        opt_view(r) == opt_view(*o),
{
    match o {
        Some(s) => Some(s.clone()),
        None => None,
    }
}

fn selected_index(c: &Vec<ExecutableCandidate>, saved: &Option<String>) -> (r: Option<usize>)
    ensures
        r matches Some(i) ==> i < c@.len(),
        selection(c@, opt_view(*saved)) matches Some(j) ==> 0 <= j < c@.len(),
        r matches Some(i) ==> selection(c@, opt_view(*saved)) == Some(i as int),
        r is None ==> selection(c@, opt_view(*saved)) is None,
{
    let found = match saved {
        Some(p) => find_candidate(c, p),
        None => None,
    };
    match found {
        Some(i) => Some(i),
        None => if c.len() > 0 {
            Some(0)
        } else {
            None
        },
    }
}

fn selection_summary(ranked: &Vec<ExecutableCandidate>, selected: Option<usize>) -> (r: (
    Option<String>,
    CompatibilityLevel,
    Vec<String>,
))
    requires
        selected matches Some(i) ==> i < ranked@.len(),
    ensures
        ({
            let sel = candidate_at(
                ranked@,
                match selected {
                    Some(i) => Some(i as int),
                    None => None,
                },
            );
            &&& opt_view(r.0) == recommendation_of(sel)
            &&& r.1 == match sel {
                Some(x) => x.compatibility,
                None => CompatibilityLevel::Unknown,
            }
            &&& strs(r.2@) == match sel {
                Some(x) => strs(x.reasons@),
                None => seq!["No Windows executables were detected in the installed game directory"@],
            }
        }),
{
    match selected {
        Some(i) => (
            copy_option(&ranked[i].recommended_backend),
            ranked[i].compatibility,
            copy_strings(&ranked[i].reasons),
        ),
        None => {
            let mut v: Vec<String> = Vec::new();
            v.push(owned("No Windows executables were detected in the installed game directory"));
            assert(strs(v@) =~= seq![
                "No Windows executables were detected in the installed game directory"@,
            ]);
            (None, CompatibilityLevel::Unknown, v)
        },
    }
}

fn saved_selection(ranked: &Vec<ExecutableCandidate>, saved: &Option<String>) -> (r: (
    Option<String>,
    Option<String>,
))
    ensures
        opt_view(r.0) == kept_selection(ranked@, opt_view(*saved)),
        opt_view(r.1) == match opt_view(*saved) {
            Some(p) => if find_path(ranked@, p) is None {
                Some("Saved analysis target is no longer installed: "@ + p)
            } else {
                None
            },
            None => None,
        },
{
    match saved {
        Some(p) => match find_candidate(ranked, p) {
            Some(i) => {
                proof {
                    lemma_find_path(ranked@, p@);
                }
                (Some(ranked[i].relative_path.clone()), None)
            },
            None => {
                let mut m = chars_of("Saved analysis target is no longer installed: ");
                push_chars(&mut m, string_chars(p).as_slice());
                (None, Some(string_from_chars(m.as_slice())))
            },
        },
        None => (None, None),
    }
}

fn profile_from(
    app_id: u32,
    name: &str,
    stored: StoredProfile,
    candidates: Vec<ExecutableCandidate>,
    dxmt_installed: bool,
    fallback_backend: GraphicsBackend,
) -> (r: SteamCompatibilityProfile)
    ensures
        profile_of(r, app_id, name@, stored, rank_order(candidates@), dxmt_installed, fallback_backend),
        r.launch_arguments == stored.launch_arguments,
{
    let ranked = sort_candidates(candidates);
    let ghost saved = opt_view(stored.selected_executable);
    let selected = selected_index(&ranked, &stored.selected_executable);
    let ghost sel = candidate_at(ranked@, selection(ranked@, saved));
    let recommended_executable = if ranked.len() > 0 {
        Some(ranked[0].relative_path.clone())
    } else {
        None
    };
    let (recommended_backend, compatibility, mut reasons) = selection_summary(&ranked, selected);
    let backend = match selected {
        Some(i) => effective_backend(
            stored.backend_override,
            fallback_backend,
            Some(&ranked[i]),
            dxmt_installed,
        ),
        None => effective_backend(stored.backend_override, fallback_backend, None, dxmt_installed),
    };
    assert(backend == effective(stored.backend_override, fallback_backend, recommendation_of(sel), dxmt_installed));
    let (selected_executable, missing) = saved_selection(&ranked, &stored.selected_executable);
    let ghost base = strs(reasons@);
    match missing {
        Some(m) => {
            reasons.push(m);
            assert(strs(reasons@) =~= base.push(opt_view(Some(m))->0));
        },
        None => {},
    }
    assert(strs(reasons@) == analysis_reasons(ranked@, saved));
    let ghost analysed = strs(reasons@);
    let mut fix_lines = crate::gamefix::applied_lines(app_id);
    let ghost lines = fix_lines@;
    reasons.append(&mut fix_lines);
    assert(strs(reasons@) =~= analysed + strs(lines));
    let game_fixes = crate::gamefix::reports_for(app_id);
    let StoredProfile { backend_override, launch_arguments, .. } = stored;
    SteamCompatibilityProfile {
        app_id,
        name: owned(name),
        backend_override,
        selected_executable,
        launch_arguments,
        recommended_executable,
        recommended_backend,
        effective_backend: owned(backend_name(backend)),
        compatibility,
        reasons,
        candidates: ranked,
        dxmt_installed,
        game_fixes,
    }
}

impl CompatibilityManager {
    /// The compatibility profile of an installed game. `install_path_is_dir`
    /// says whether its directory exists; `stored` is what its profile file
    /// held; `candidates` are the executables found in it (see
    /// `scan_candidates`).
    pub fn analyze(
        &self,
        app_id: u32,
        name: &str,
        install_path: &str,
        install_path_is_dir: bool,
        stored: Option<StoredProfile>,
        candidates: Vec<ExecutableCandidate>,
        dxmt_installed: bool,
        fallback_backend: GraphicsBackend,
    ) -> (r: Result<SteamCompatibilityProfile, AppError>)
        ensures
            !install_path_is_dir ==> (r matches Err(AppError::InvalidDirectory(t)) && t@
                == install_path@),
            install_path_is_dir ==> match stored {
                Some(s) => match stored_error(app_id, s) {
                    Some(m) => r matches Err(AppError::InvalidCompatibilityProfile(t)) && t@ == m,
                    None => r matches Ok(p) && profile_of(
                        p,
                        app_id,
                        name@,
                        s,
                        rank_order(candidates@),
                        dxmt_installed,
                        fallback_backend,
                    ),
                },
                None => r matches Ok(p) && p.selected_executable is None && p.backend_override
                    == BackendOverride::Inherit && p.launch_arguments@.len() == 0 && profile_of(
                    p,
                    app_id,
                    name@,
                    StoredProfile {
                        schema_version: PROFILE_SCHEMA_VERSION,
                        app_id,
                        backend_override: BackendOverride::Inherit,
                        selected_executable: None,
                        launch_arguments: p.launch_arguments,
                    },
                    rank_order(candidates@),
                    dxmt_installed,
                    fallback_backend,
                ),
            },
    {
        if !install_path_is_dir {
            return Err(AppError::InvalidDirectory(owned(install_path)));
        }
        let stored = self.load(app_id, stored)?;
        Ok(profile_from(app_id, name, stored, candidates, dxmt_installed, fallback_backend))
    }

    /// What a launch of the profiled game uses: the backend, the imports of
    /// the executable it analysed, and the stored launch arguments.
    pub fn launch_configuration(&self, profile: &SteamCompatibilityProfile, fallback_backend: GraphicsBackend) -> (r:
        (GraphicsBackend, Vec<String>, Vec<String>))
        ensures
            ({
                let c = profile.candidates@;
                let selected = candidate_at(c, selection(c, opt_view(profile.selected_executable)));
                &&& r.0 == effective(
                    profile.backend_override,
                    fallback_backend,
                    recommendation_of(selected),
                    profile.dxmt_installed,
                )
                &&& strs(r.1@) == match selected {
                    Some(x) => strs(x.imports@),
                    None => seq![],
                }
                &&& strs(r.2@) == strs(profile.launch_arguments@)
            }),
    {
        let selected = selected_index(&profile.candidates, &profile.selected_executable);
        let arguments = copy_strings(&profile.launch_arguments);
        match selected {
            Some(i) => {
                let c = &profile.candidates[i];
                let backend = effective_backend(
                    profile.backend_override,
                    fallback_backend,
                    Some(c),
                    profile.dxmt_installed,
                );
                (backend, copy_strings(&c.imports), arguments)
            },
            None => {
                let backend = effective_backend(
                    profile.backend_override,
                    fallback_backend,
                    None,
                    profile.dxmt_installed,
                );
                let empty: Vec<String> = Vec::new();
                assert(strs(empty@) =~= seq![]);
                (backend, empty, arguments)
            },
        }
    }
}

/// A launch analyses the same executable that the profile reported: keeping
/// the saved selection only while it is installed does not change which
/// candidate is chosen.
pub proof fn lemma_launch_follows_analysis(c: Seq<ExecutableCandidate>, saved: Option<Seq<char>>)
    ensures
        selection(c, kept_selection(c, saved)) == selection(c, saved),
{
}

} // verus!

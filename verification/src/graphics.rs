//! Graphics backends: WineD3D is the baseline, DXMT an optional component
//! selected per game. Steam's own UI always stays on WineD3D.

use crate::error::AppError;
use crate::pe::strs;
use crate::release::{asset_names, GithubRelease};
use crate::text::{
    byte_len, join_path_chars, push_chars, string_from_chars,
    chars_of, contains, ends_with, join_path, lower_chars, lower_seq, owned, path_join,
    seq_contains, seq_ends_with,
};
use vstd::prelude::*;

verus! {

/// A graphics translation path for Direct3D.
#[derive(Debug, Clone, Copy, PartialEq, Eq, Structural)]
pub enum GraphicsBackend {
    Auto,
    WineD3d,
    Dxmt,
}

/// How an installed DXMT is activated: through Wine's DLL path (builtin) or
/// by placing its DLLs into the prefix (native).
#[derive(Debug, Clone, Copy, PartialEq, Eq, Structural)]
pub enum DxmtMode {
    Builtin,
    Native,
}

/// The manifest written next to an installed DXMT.
#[derive(Debug, Clone)]
pub struct DxmtManifest {
    pub schema_version: u32,
    pub mode: DxmtMode,
    pub source_name: String,
    pub has_d3d10core: bool,
    pub version: Option<String>,
    pub managed: bool,
}

/// What `graphics dxmt status` reports.
#[derive(Debug, Clone)]
pub struct DxmtStatus {
    pub installed: bool,
    pub root: Option<String>,
    pub mode: Option<DxmtMode>,
    pub source_name: Option<String>,
    pub has_d3d10core: bool,
    pub version: Option<String>,
    pub managed: bool,
}

/// The backend a launch uses and the environment variables it needs, in
/// ascending order of name.
#[derive(Debug)]
pub struct LaunchGraphics {
    pub backend: GraphicsBackend,
    pub environment: Vec<(String, String)>,
}

impl LaunchGraphics {
    /// The baseline: WineD3D with no extra environment.
    pub fn wined3d() -> (r: LaunchGraphics)
        ensures
            r.backend == GraphicsBackend::WineD3d,
            r.environment@.len() == 0,
    {
        LaunchGraphics { backend: GraphicsBackend::WineD3d, environment: Vec::new() }
    }
}

/// Where graphics components live.
pub struct GraphicsManager {
    pub root: String,
}

/// DLL names whose import makes an executable a DXMT candidate.
pub open spec fn dxmt_import(n: Seq<char>) -> bool {
    n == "d3d11.dll"@ || n == "d3d10.dll"@ || n == "d3d10_1.dll"@ || n == "d3d10core.dll"@
}

/// Whether the imports name Direct3D 10 or 11 (DXGI alone does not count).
pub open spec fn dxmt_candidate(imports: Seq<Seq<char>>) -> bool {
    exists|i: int| 0 <= i < imports.len() && dxmt_import(#[trigger] imports[i])
}

pub fn is_dxmt_candidate(imports: &[String]) -> (r: bool)
    ensures
        r == dxmt_candidate(imports@.map_values(|s: String| s@)),
{
    let ghost v = imports@.map_values(|s: String| s@);
    let d3d11 = owned("d3d11.dll");
    let d3d10 = owned("d3d10.dll");
    let d3d10_1 = owned("d3d10_1.dll");
    let d3d10core = owned("d3d10core.dll");
    let mut i: usize = 0;
    while i < imports.len()
        invariant
            i <= imports@.len(),
            v == imports@.map_values(|s: String| s@),
            d3d11@ == "d3d11.dll"@ && d3d10@ == "d3d10.dll"@ && d3d10_1@ == "d3d10_1.dll"@
                && d3d10core@ == "d3d10core.dll"@,
            forall|j: int| 0 <= j < i ==> !dxmt_import(#[trigger] v[j]),
        decreases imports@.len() - i,
    {
        let name = &imports[i];
        assert(v[i as int] == name@);
        if *name == d3d11 || *name == d3d10 || *name == d3d10_1 || *name == d3d10core {
            return true;
        }
        i = i + 1;
    }
    false
}

/// Whether resolving `requested` consults the DXMT installation.
pub open spec fn needs_dxmt_status(requested: GraphicsBackend, candidate: bool) -> bool {
    requested == GraphicsBackend::Dxmt || (requested == GraphicsBackend::Auto && candidate)
}

/// The backend a game launch resolves to: an explicit request stands (DXMT
/// only when installed); `Auto` picks DXMT for Direct3D 10/11 executables
/// when it is installed and WineD3D otherwise.
pub open spec fn resolved_backend(requested: GraphicsBackend, candidate: bool, installed: bool) -> Result<
    GraphicsBackend,
    (),
> {
    if requested != GraphicsBackend::Auto {
        if requested == GraphicsBackend::Dxmt && !installed {
            Err(())
        } else {
            Ok(requested)
        }
    } else if candidate && installed {
        Ok(GraphicsBackend::Dxmt)
    } else {
        Ok(GraphicsBackend::WineD3d)
    }
}

/// With `Auto` requested and DXMT installed, a game goes to DXMT exactly
/// when it imports d3d11.dll, d3d10.dll, d3d10_1.dll or d3d10core.dll, and
/// to WineD3D otherwise; without DXMT it always goes to WineD3D.
pub proof fn lemma_auto_backend(imports: Seq<Seq<char>>)
    ensures
        resolved_backend(GraphicsBackend::Auto, dxmt_candidate(imports), true) == (if imports.contains(
            "d3d11.dll"@,
        ) || imports.contains("d3d10.dll"@) || imports.contains("d3d10_1.dll"@) || imports.contains(
            "d3d10core.dll"@,
        ) {
            Ok::<GraphicsBackend, ()>(GraphicsBackend::Dxmt)
        } else {
            Ok::<GraphicsBackend, ()>(GraphicsBackend::WineD3d)
        }),
        resolved_backend(GraphicsBackend::Auto, dxmt_candidate(imports), false) == Ok::<
            GraphicsBackend,
            (),
        >(GraphicsBackend::WineD3d),
{
    if dxmt_candidate(imports) {
        let i = choose|i: int| 0 <= i < imports.len() && dxmt_import(#[trigger] imports[i]);
        assert(imports.contains(imports[i]));
    }
    if imports.contains("d3d11.dll"@) {
        let i = choose|i: int| 0 <= i < imports.len() && imports[i] == "d3d11.dll"@;
        assert(dxmt_import(imports[i]));
    }
    if imports.contains("d3d10.dll"@) {
        let i = choose|i: int| 0 <= i < imports.len() && imports[i] == "d3d10.dll"@;
        assert(dxmt_import(imports[i]));
    }
    if imports.contains("d3d10_1.dll"@) {
        let i = choose|i: int| 0 <= i < imports.len() && imports[i] == "d3d10_1.dll"@;
        assert(dxmt_import(imports[i]));
    }
    if imports.contains("d3d10core.dll"@) {
        let i = choose|i: int| 0 <= i < imports.len() && imports[i] == "d3d10core.dll"@;
        assert(dxmt_import(imports[i]));
    }
}

impl GraphicsManager {
    /// The components directory below the application support directory.
    pub fn new(application_support: &str) -> (r: GraphicsManager)
        ensures
            r.root@ == path_join(application_support@, "components"@),
    {
        GraphicsManager { root: join_path(application_support, "components") }
    }

    /// Where DXMT is installed.
    pub fn dxmt_root(&self) -> (r: String)
        ensures
            r@ == path_join(self.root@, "dxmt"@),
    {
        join_path(self.root.as_str(), "dxmt")
    }

    /// Whether `resolve_backend` needs to know if DXMT is installed.
    pub fn dxmt_status_needed(&self, requested: GraphicsBackend, imports: &[String]) -> (r: bool)
        ensures
            r == needs_dxmt_status(requested, dxmt_candidate(imports@.map_values(|s: String| s@))),
    {
        requested == GraphicsBackend::Dxmt || (requested == GraphicsBackend::Auto
            && is_dxmt_candidate(imports))
    }

    /// The backend for a game launch; `dxmt_installed` matters only when
    /// `dxmt_status_needed` says so.
    pub fn resolve_backend(&self, requested: GraphicsBackend, imports: &[String], dxmt_installed: bool) -> (r:
        Result<GraphicsBackend, AppError>)
        ensures
            match resolved_backend(
                requested,
                dxmt_candidate(imports@.map_values(|s: String| s@)),
                dxmt_installed,
            ) {
                Ok(b) => r == Ok::<GraphicsBackend, AppError>(b),
                Err(_) => r matches Err(AppError::DxmtNotInstalled),
            },
    {
        if requested != GraphicsBackend::Auto {
            if requested == GraphicsBackend::Dxmt && !dxmt_installed {
                return Err(AppError::DxmtNotInstalled);
            }
            return Ok(requested);
        }
        if is_dxmt_candidate(imports) && dxmt_installed {
            Ok(GraphicsBackend::Dxmt)
        } else {
            Ok(GraphicsBackend::WineD3d)
        }
    }

    /// Steam's UI is isolated from game renderers: it always uses WineD3D.
    pub fn resolve_steam_ui_backend(&self, _requested: GraphicsBackend) -> (r: Result<
        GraphicsBackend,
        AppError,
    >)
        ensures
            r == Ok::<GraphicsBackend, AppError>(GraphicsBackend::WineD3d),
    {
        Ok(GraphicsBackend::WineD3d)
    }
}

/// The answer of `resolve_backend` does not depend on the DXMT installation
/// whenever `dxmt_status_needed` is false.
pub proof fn lemma_status_only_when_needed(requested: GraphicsBackend, candidate: bool)
    requires
        !needs_dxmt_status(requested, candidate),
    ensures
        resolved_backend(requested, candidate, true) == resolved_backend(requested, candidate, false),
{
}

/// A launch never resolves to `Auto`, and resolves to DXMT only when DXMT is
/// installed.
pub proof fn lemma_resolved_is_concrete(requested: GraphicsBackend, candidate: bool, installed: bool)
    ensures
        resolved_backend(requested, candidate, installed) matches Ok(b) ==> b != GraphicsBackend::Auto
            && (b == GraphicsBackend::Dxmt ==> installed),
{
}

/// The environment of a DXMT launch: log level, log and shader cache paths,
/// and the activation variable of the mode, in ascending order of name.
pub open spec fn dxmt_environment(mode: DxmtMode, root: Seq<char>, log_path: Seq<char>, cache: Seq<char>) -> Seq<
    (Seq<char>, Seq<char>),
> {
    seq![
        ("DXMT_LOG_LEVEL"@, "info"@),
        ("DXMT_LOG_PATH"@, log_path),
        ("DXMT_SHADER_CACHE_PATH"@, cache),
        match mode {
            DxmtMode::Builtin => ("WINEDLLPATH_PREPEND"@, root),
            DxmtMode::Native => ("WINEDLLOVERRIDES"@, "dxgi,d3d11,d3d10core=n,b"@),
        },
    ]
}

pub open spec fn env_view(e: Seq<(String, String)>) -> Seq<(Seq<char>, Seq<char>)> {
    e.map_values(|p: (String, String)| (p.0@, p.1@))
}

/// The launch graphics of a DXMT launch.
pub fn dxmt_launch_graphics(mode: DxmtMode, root: &str, log_path: &str, shader_cache: &str) -> (r:
    LaunchGraphics)
    ensures
        r.backend == GraphicsBackend::Dxmt,
        env_view(r.environment@) == dxmt_environment(mode, root@, log_path@, shader_cache@),
{
    let mut environment: Vec<(String, String)> = Vec::new();
    environment.push((owned("DXMT_LOG_LEVEL"), owned("info")));
    environment.push((owned("DXMT_LOG_PATH"), owned(log_path)));
    environment.push((owned("DXMT_SHADER_CACHE_PATH"), owned(shader_cache)));
    match mode {
        DxmtMode::Builtin => environment.push((owned("WINEDLLPATH_PREPEND"), owned(root))),
        DxmtMode::Native => environment.push(
            (owned("WINEDLLOVERRIDES"), owned("dxgi,d3d11,d3d10core=n,b")),
        ),
    }
    assert(env_view(environment@) =~= dxmt_environment(mode, root@, log_path@, shader_cache@));
    LaunchGraphics { backend: GraphicsBackend::Dxmt, environment }
}

/// The DXMT log and shader cache directories of a game.
pub fn dxmt_log_paths(application_support: &str, game_id: &str) -> (r: (String, String))
    ensures
        r.0@ == path_join(path_join(path_join(application_support@, "logs"@), game_id@), "dxmt"@),
        r.1@ == path_join(
            path_join(path_join(application_support@, "shader-cache"@), game_id@),
            "dxmt"@,
        ),
{
    let logs = join_path(application_support, "logs");
    let logs_game = join_path(logs.as_str(), game_id);
    let cache = join_path(application_support, "shader-cache");
    let cache_game = join_path(cache.as_str(), game_id);
    (join_path(logs_game.as_str(), "dxmt"), join_path(cache_game.as_str(), "dxmt"))
}

/// The files of a DXMT package.
#[derive(Debug)]
pub struct DxmtPackage {
    pub winemetal_so: String,
    pub winemetal_dll: String,
    pub d3d11: String,
    pub dxgi: String,
    pub d3d10core: Option<String>,
}

impl DxmtPackage {
    /// The package at `source`, a directory; `d3d10core` is optional.
    pub fn discover(source: &str, source_is_dir: bool, d3d10core_present: bool) -> (r: Result<
        DxmtPackage,
        AppError,
    >)
        ensures
            !source_is_dir ==> (r matches Err(AppError::InvalidDirectory(t)) && t@ == source@),
            source_is_dir ==> (r matches Ok(p) && p.winemetal_so@ == path_join(
                path_join(source@, "x86_64-unix"@),
                "winemetal.so"@,
            ) && p.winemetal_dll@ == path_join(path_join(source@, "x86_64-windows"@), "winemetal.dll"@)
                && p.d3d11@ == path_join(path_join(source@, "x86_64-windows"@), "d3d11.dll"@)
                && p.dxgi@ == path_join(path_join(source@, "x86_64-windows"@), "dxgi.dll"@) && (
            d3d10core_present <==> p.d3d10core is Some) && (p.d3d10core matches Some(d) ==> d@
                == path_join(path_join(source@, "x86_64-windows"@), "d3d10core.dll"@))),
    {
        if !source_is_dir {
            return Err(AppError::InvalidDirectory(owned(source)));
        }
        let unix = join_path(source, "x86_64-unix");
        let windows = join_path(source, "x86_64-windows");
        Ok(
            DxmtPackage {
                winemetal_so: join_path(unix.as_str(), "winemetal.so"),
                winemetal_dll: join_path(windows.as_str(), "winemetal.dll"),
                d3d11: join_path(windows.as_str(), "d3d11.dll"),
                dxgi: join_path(windows.as_str(), "dxgi.dll"),
                d3d10core: if d3d10core_present {
                    Some(join_path(windows.as_str(), "d3d10core.dll"))
                } else {
                    None
                },
            },
        )
    }

    /// The required files, in the order they are checked.
    pub fn required_files(&self) -> (r: Vec<String>)
        ensures
            strs(r@) == seq![self.winemetal_so@, self.winemetal_dll@, self.d3d11@, self.dxgi@],
    {
        let mut v: Vec<String> = Vec::new();
        v.push(self.winemetal_so.clone());
        v.push(self.winemetal_dll.clone());
        v.push(self.d3d11.clone());
        v.push(self.dxgi.clone());
        assert(strs(v@) =~= seq![self.winemetal_so@, self.winemetal_dll@, self.d3d11@, self.dxgi@]);
        v
    }

    /// Fails on the first required file that is missing; `present[i]` says
    /// whether `required_files()[i]` is a regular file.
    pub fn validate(&self, present: &[bool; 4]) -> (r: Result<(), AppError>)
        ensures
            (forall|i: int| 0 <= i < 4 ==> present@[i]) ==> r is Ok,
            forall|i: int|
                0 <= i < 4 && !present@[i] && (forall|j: int| 0 <= j < i ==> present@[j]) ==> (
                r matches Err(AppError::DxmtPackageMissing(t)) && t@ == seq![
                    self.winemetal_so@,
                    self.winemetal_dll@,
                    self.d3d11@,
                    self.dxgi@,
                ][i]),
    {
        let files = self.required_files();
        assert(files@.len() == strs(files@).len());
        let mut i: usize = 0;
        while i < 4
            invariant
                i <= 4,
                files@.len() == 4,
                strs(files@) == seq![self.winemetal_so@, self.winemetal_dll@, self.d3d11@, self.dxgi@],
                forall|j: int| 0 <= j < i ==> present@[j],
            decreases 4 - i,
        {
            if !present[i] {
                assert(strs(files@)[i as int] == files@[i as int]@);
                return Err(AppError::DxmtPackageMissing(files[i].clone()));
            }
            i = i + 1;
        }
        Ok(())
    }
}

// ---------------------------------------------------------------------------
// DXMT releases
// ---------------------------------------------------------------------------

/// An asset of the builtin DXMT build: a `.tar.gz` whose name mentions
/// `builtin` (ignoring ASCII case).
pub open spec fn builtin_asset(name: Seq<char>) -> bool {
    seq_contains(lower_seq(name), "builtin"@) && seq_ends_with(lower_seq(name), ".tar.gz"@)
}

/// Among the builtin assets, the first with the shortest name.
pub open spec fn chosen_asset(names: Seq<Seq<char>>) -> Option<int> {
    if exists|i: int| 0 <= i < names.len() && builtin_asset(#[trigger] names[i]) {
        Some(
            choose|i: int|
                0 <= i < names.len() && builtin_asset(names[i]) && (forall|j: int|
                    0 <= j < names.len() && builtin_asset(#[trigger] names[j]) ==> byte_len(names[i])
                        <= byte_len(names[j])) && (forall|j: int|
                    0 <= j < i && builtin_asset(#[trigger] names[j]) ==> byte_len(names[i])
                        < byte_len(names[j])),
        )
    } else {
        None
    }
}

fn is_builtin_asset(name: &String) -> (r: bool)
    ensures
        r == builtin_asset(name@),
{
    let lower = lower_chars(chars_of(name.as_str()).as_slice());
    let builtin = chars_of("builtin");
    let suffix = chars_of(".tar.gz");
    contains(lower.as_slice(), builtin.as_slice()) && ends_with(lower.as_slice(), suffix.as_slice())
}

/// The builtin `.tar.gz` asset of a DXMT release with the shortest name
/// (the first of them on a tie).
pub fn select_builtin_asset(release: &GithubRelease) -> (r: Result<usize, AppError>)
    ensures
        match chosen_asset(asset_names(*release)) {
            Some(i) => r == Ok::<usize, AppError>(i as usize),
            None => r matches Err(AppError::DxmtRelease(t)) && t@
                == "latest DXMT release has no builtin tar.gz asset"@,
        },
        r matches Ok(i) ==> i < release.assets@.len(),
{
    let ghost names = asset_names(*release);
    let mut best: Option<usize> = None;
    let mut best_len: usize = 0;
    let mut i: usize = 0;
    while i < release.assets.len()
        invariant
            i <= release.assets@.len(),
            names == asset_names(*release),
            names.len() == release.assets@.len(),
            best is None ==> forall|j: int| 0 <= j < i ==> !builtin_asset(#[trigger] names[j]),
            best matches Some(b) ==> b < i && builtin_asset(names[b as int]) && best_len == byte_len(
                names[b as int],
            ) && (forall|j: int|
                0 <= j < i && builtin_asset(#[trigger] names[j]) ==> byte_len(names[b as int])
                    <= byte_len(names[j])) && (forall|j: int|
                0 <= j < b && builtin_asset(#[trigger] names[j]) ==> byte_len(names[b as int])
                    < byte_len(names[j])),
        decreases release.assets@.len() - i,
    {
        let asset = &release.assets[i];
        assert(names[i as int] == asset.name@);
        if is_builtin_asset(&asset.name) {
            let len = asset.name.as_str().as_bytes().len();
            match best {
                None => {
                    best = Some(i);
                    best_len = len;
                },
                Some(_) => {
                    if len < best_len {
                        best = Some(i);
                        best_len = len;
                    }
                },
            }
        }
        i = i + 1;
    }
    match best {
        Some(b) => {
            let ghost c = choose|k: int|
                0 <= k < names.len() && builtin_asset(names[k]) && (forall|j: int|
                    0 <= j < names.len() && builtin_asset(#[trigger] names[j]) ==> byte_len(names[k])
                        <= byte_len(names[j])) && (forall|j: int|
                    0 <= j < k && builtin_asset(#[trigger] names[j]) ==> byte_len(names[k])
                        < byte_len(names[j]));
            proof {
                assert(builtin_asset(names[b as int]));
                if c != b as int {
                    if c < b {
                        assert(byte_len(names[b as int]) < byte_len(names[c]));
                    } else {
                        assert(byte_len(names[c]) < byte_len(names[b as int]));
                    }
                }
            }
            Ok(b)
        },
        None => Err(AppError::DxmtRelease(owned("latest DXMT release has no builtin tar.gz asset"))),
    }
}

// ---------------------------------------------------------------------------
// Installed DXMT
// ---------------------------------------------------------------------------

/// The status of a missing DXMT.
pub open spec fn not_installed(s: DxmtStatus) -> bool {
    !s.installed && s.root is None && s.mode is None && s.source_name is None && !s.has_d3d10core
        && s.version is None && !s.managed
}

pub open spec fn opt_str(o: Option<String>) -> Option<Seq<char>> {
    match o {
        Some(s) => Some(s@),
        None => None,
    }
}

impl GraphicsManager {
    /// What `graphics dxmt status` reports. `manifest` is the installed
    /// manifest, `None` when there is none; the flags say whether the DXMT
    /// root is a directory, whether `d3d10core.dll` is present, and which of
    /// `DxmtPackage::required_files` are present.
    pub fn dxmt_status(
        &self,
        manifest: Option<&DxmtManifest>,
        root_is_dir: bool,
        d3d10core_present: bool,
        present: &[bool; 4],
    ) -> (r: Result<DxmtStatus, AppError>)
        ensures
            manifest is None ==> (r matches Ok(s) && not_installed(s)),
            manifest matches Some(m) ==> ({
                let root = path_join(self.root@, "dxmt"@);
                let files = seq![
                    path_join(path_join(root, "x86_64-unix"@), "winemetal.so"@),
                    path_join(path_join(root, "x86_64-windows"@), "winemetal.dll"@),
                    path_join(path_join(root, "x86_64-windows"@), "d3d11.dll"@),
                    path_join(path_join(root, "x86_64-windows"@), "dxgi.dll"@),
                ];
                &&& !root_is_dir ==> (r matches Err(AppError::InvalidDirectory(t)) && t@ == root)
                &&& root_is_dir && (forall|i: int| 0 <= i < 4 ==> present@[i]) ==> (r matches Ok(s)
                    && s.installed && opt_str(s.root) == Some(root) && s.mode == Some(m.mode)
                    && opt_str(s.source_name) == Some(m.source_name@) && s.has_d3d10core
                    == m.has_d3d10core && opt_str(s.version) == opt_str(m.version) && s.managed
                    == m.managed)
                &&& forall|i: int|
                    0 <= i < 4 && root_is_dir && !present@[i] && (forall|j: int|
                        0 <= j < i ==> present@[j]) ==> (r matches Err(
                        AppError::DxmtPackageMissing(t),
                    ) && t@ == files[i])
            }),
    {
        let m = match manifest {
            None => {
                return Ok(
                    DxmtStatus {
                        installed: false,
                        root: None,
                        mode: None,
                        source_name: None,
                        has_d3d10core: false,
                        version: None,
                        managed: false,
                    },
                );
            },
            Some(m) => m,
        };
        let root = self.dxmt_root();
        let package = DxmtPackage::discover(root.as_str(), root_is_dir, d3d10core_present)?;
        package.validate(present)?;
        Ok(
            DxmtStatus {
                installed: true,
                root: Some(root),
                mode: Some(m.mode),
                source_name: Some(m.source_name.clone()),
                has_d3d10core: m.has_d3d10core,
                version: match &m.version {
                    Some(v) => Some(v.clone()),
                    None => None,
                },
                managed: m.managed,
            },
        )
    }

    /// The DXMT installation to delete.
    pub fn remove_dxmt(&self) -> (r: String)
        ensures
            r@ == path_join(self.root@, "dxmt"@),
    {
        self.dxmt_root()
    }

    /// Steam's UI always runs on WineD3D: the program restores the prefix's
    /// own DLLs and launches with this.
    pub fn prepare_steam_ui(&self, _requested: GraphicsBackend) -> (r: LaunchGraphics)
        ensures
            r.backend == GraphicsBackend::WineD3d,
            r.environment@.len() == 0,
    {
        LaunchGraphics::wined3d()
    }

    /// The backend a game launch prepares: WineD3D (the program restores the
    /// prefix's own DLLs and launches with no extra environment) or DXMT
    /// (see `prepare_dxmt`).
    pub fn prepare_launch(&self, requested: GraphicsBackend, imports: &[String], dxmt_installed: bool) -> (r:
        Result<GraphicsBackend, AppError>)
        ensures
            match resolved_backend(
                requested,
                dxmt_candidate(imports@.map_values(|s: String| s@)),
                dxmt_installed,
            ) {
                Ok(b) => r == Ok::<GraphicsBackend, AppError>(b),
                Err(_) => r matches Err(AppError::DxmtNotInstalled),
            },
            r matches Ok(b) ==> b != GraphicsBackend::Auto,
    {
        self.resolve_backend(requested, imports, dxmt_installed)
    }
}

/// The DLLs DXMT manages in a prefix's `system32`.
pub open spec fn managed_dlls() -> Seq<Seq<char>> {
    seq!["winemetal.dll"@, "d3d11.dll"@, "dxgi.dll"@, "d3d10core.dll"@]
}

pub fn managed_dxmt_dlls() -> (r: Vec<String>)
    ensures
        strs(r@) == managed_dlls(),
{
    let mut v: Vec<String> = Vec::new();
    v.push(owned("winemetal.dll"));
    v.push(owned("d3d11.dll"));
    v.push(owned("dxgi.dll"));
    v.push(owned("d3d10core.dll"));
    assert(strs(v@) =~= managed_dlls());
    v
}

/// Builtin mode puts the prefix's own copy of every managed DLL back.
pub open spec fn builtin_steps() -> Seq<(Seq<char>, Option<Seq<char>>)> {
    managed_dlls().map_values(|n: Seq<char>| (n, None::<Seq<char>>))
}

/// One step of preparing DXMT in a prefix: install `source` as the DLL
/// `name`, or (with no source) restore the prefix's own `name`.
pub open spec fn native_steps(root: Seq<char>, has_d3d10core: bool) -> Seq<(Seq<char>, Option<Seq<char>>)> {
    let windows = path_join(root, "x86_64-windows"@);
    seq![
        ("winemetal.dll"@, Some(path_join(windows, "winemetal.dll"@))),
        ("d3d11.dll"@, Some(path_join(windows, "d3d11.dll"@))),
        ("dxgi.dll"@, Some(path_join(windows, "dxgi.dll"@))),
        ("d3d10core.dll"@, if has_d3d10core {
            Some(path_join(windows, "d3d10core.dll"@))
        } else {
            None
        }),
    ]
}

pub open spec fn step_views(v: Seq<(String, Option<String>)>) -> Seq<(Seq<char>, Option<Seq<char>>)> {
    v.map_values(|e: (String, Option<String>)| (e.0@, opt_str(e.1)))
}

/// The DXMT activation of a launch, for the program to carry out: the DLL
/// steps in the prefix, in order (native mode installs DXMT's DLLs; builtin
/// mode restores every managed DLL), the directories to create, whether the old log is cleared first
/// (only for Steam's UI), and the graphics to launch with.
#[derive(Debug)]
pub struct DxmtPreparation {
    pub dll_steps: Vec<(String, Option<String>)>,
    pub log_path: String,
    pub shader_cache: String,
    pub clear_log: bool,
    pub graphics: LaunchGraphics,
}

impl GraphicsManager {
    /// How to activate the installed DXMT (with `manifest`) for a launch of
    /// `game_id`.
    pub fn prepare_dxmt(&self, application_support: &str, game_id: &str, manifest: &DxmtManifest) -> (r:
        DxmtPreparation)
        ensures
            ({
                let root = path_join(self.root@, "dxmt"@);
                let log = path_join(
                    path_join(path_join(application_support@, "logs"@), game_id@),
                    "dxmt"@,
                );
                let cache = path_join(
                    path_join(path_join(application_support@, "shader-cache"@), game_id@),
                    "dxmt"@,
                );
                &&& step_views(r.dll_steps@) == match manifest.mode {
                    DxmtMode::Native => native_steps(root, manifest.has_d3d10core),
                    DxmtMode::Builtin => builtin_steps(),
                }
                &&& r.log_path@ == log
                &&& r.shader_cache@ == cache
                &&& r.clear_log == (game_id@ == "steam-ui"@)
                &&& r.graphics.backend == GraphicsBackend::Dxmt
                &&& env_view(r.graphics.environment@) == dxmt_environment(
                    manifest.mode,
                    root,
                    log,
                    cache,
                )
            }),
    {
        let root = self.dxmt_root();
        let mut steps: Vec<(String, Option<String>)> = Vec::new();
        match manifest.mode {
            DxmtMode::Native => {
                let windows = join_path(root.as_str(), "x86_64-windows");
                steps.push((owned("winemetal.dll"), Some(join_path(windows.as_str(), "winemetal.dll"))));
                steps.push((owned("d3d11.dll"), Some(join_path(windows.as_str(), "d3d11.dll"))));
                steps.push((owned("dxgi.dll"), Some(join_path(windows.as_str(), "dxgi.dll"))));
                if manifest.has_d3d10core {
                    steps.push(
                        (owned("d3d10core.dll"), Some(join_path(windows.as_str(), "d3d10core.dll"))),
                    );
                } else {
                    steps.push((owned("d3d10core.dll"), None));
                }
                assert(step_views(steps@) =~= native_steps(root@, manifest.has_d3d10core));
            },
            DxmtMode::Builtin => {
                steps.push((owned("winemetal.dll"), None));
                steps.push((owned("d3d11.dll"), None));
                steps.push((owned("dxgi.dll"), None));
                steps.push((owned("d3d10core.dll"), None));
                assert(step_views(steps@) =~= builtin_steps());
            },
        }
        let (log_path, shader_cache) = dxmt_log_paths(application_support, game_id);
        let graphics = dxmt_launch_graphics(
            manifest.mode,
            root.as_str(),
            log_path.as_str(),
            shader_cache.as_str(),
        );
        let g = chars_of(game_id);
        let s = chars_of("steam-ui");
        let clear_log = crate::text::chars_eq(g.as_slice(), s.as_slice());
        DxmtPreparation { dll_steps: steps, log_path, shader_cache, clear_log, graphics }
    }

    /// The manifest and the directories of installing a DXMT package: it is
    /// copied to `staging`, the current installation moved to `backup`,
    /// `staging` moved into place, and `backup` deleted.
    pub fn install_dxmt(
        &self,
        package: &DxmtPackage,
        mode: DxmtMode,
        source_name: String,
        version: Option<String>,
        managed: bool,
        pid: u32,
    ) -> (r: (DxmtManifest, String, String))
        ensures
            r.0.schema_version == 2,
            r.0.mode == mode,
            r.0.source_name == source_name,
            r.0.has_d3d10core == package.d3d10core is Some,
            r.0.version == version,
            r.0.managed == managed,
            r.1@ == path_join(self.root@, ".dxmt-staging-"@ + crate::text::decimal(pid as nat)),
            r.2@ == path_join(self.root@, ".dxmt-backup-"@ + crate::text::decimal(pid as nat)),
    {
        let mut staging = chars_of(".dxmt-staging-");
        push_chars(&mut staging, crate::text::decimal_u64(pid as u64).as_slice());
        let mut backup = chars_of(".dxmt-backup-");
        push_chars(&mut backup, crate::text::decimal_u64(pid as u64).as_slice());
        (
            DxmtManifest {
                schema_version: 2,
                mode,
                source_name,
                has_d3d10core: package.d3d10core.is_some(),
                version,
                managed,
            },
            join_path_chars(self.root.as_str(), staging.as_slice()),
            join_path_chars(self.root.as_str(), backup.as_slice()),
        )
    }
}

/// The name recorded for a DXMT installed from a directory: its file name,
/// or the whole path when it has none.
pub fn dxmt_source_name(source: &str) -> (r: String)
    ensures
        r@ == (if crate::text::path_file_name(source@).len() > 0 {
            crate::text::path_file_name(source@)
        } else {
            source@
        }),
{
    let s = chars_of(source);
    let name = crate::text::path_file_name_chars(s.as_slice());
    if name.len() > 0 {
        string_from_chars(name.as_slice())
    } else {
        owned(source)
    }
}

// ---------------------------------------------------------------------------
// Managed DLLs: backing up and restoring a prefix's own DLLs
// ---------------------------------------------------------------------------

/// What a prefix holds for one managed DLL: its `system32` copy, the saved
/// original and the marker that the original was absent. Contents are
/// named by numbers.
pub struct DllSlot {
    pub system32: Option<u64>,
    pub backup: Option<u64>,
    pub absent_marker: bool,
}

/// What backing up one DLL does.
#[derive(Debug, Clone, Copy, PartialEq, Eq, Structural)]
pub enum BackupAction {
    /// An original (or its absence) is saved already.
    Keep,
    /// Copy the DLL from `system32` to the backup.
    Save,
    /// Record that `system32` had no such DLL.
    MarkAbsent,
}

/// What restoring one DLL does.
#[derive(Debug, Clone, Copy, PartialEq, Eq, Structural)]
pub enum RestoreAction {
    /// Copy the saved original back to `system32`.
    CopyBack,
    /// The DLL was absent: delete it from `system32`.
    Remove,
    /// Nothing was saved: leave `system32` alone.
    Nothing,
}

pub open spec fn backup_action_of(backup_exists: bool, marker_exists: bool, source_is_file: bool) -> BackupAction {
    if backup_exists || marker_exists {
        BackupAction::Keep
    } else if source_is_file {
        BackupAction::Save
    } else {
        BackupAction::MarkAbsent
    }
}

pub open spec fn restore_action_of(backup_is_file: bool, marker_is_file: bool) -> RestoreAction {
    if backup_is_file {
        RestoreAction::CopyBack
    } else if marker_is_file {
        RestoreAction::Remove
    } else {
        RestoreAction::Nothing
    }
}

pub fn backup_action(backup_exists: bool, marker_exists: bool, source_is_file: bool) -> (r: BackupAction)
    ensures
        r == backup_action_of(backup_exists, marker_exists, source_is_file),
{
    if backup_exists || marker_exists {
        BackupAction::Keep
    } else if source_is_file {
        BackupAction::Save
    } else {
        BackupAction::MarkAbsent
    }
}

pub fn restore_action(backup_is_file: bool, marker_is_file: bool) -> (r: RestoreAction)
    ensures
        r == restore_action_of(backup_is_file, marker_is_file),
{
    if backup_is_file {
        RestoreAction::CopyBack
    } else if marker_is_file {
        RestoreAction::Remove
    } else {
        RestoreAction::Nothing
    }
}

/// A slot after backing up.
pub open spec fn after_backup(s: DllSlot) -> DllSlot {
    match backup_action_of(s.backup is Some, s.absent_marker, s.system32 is Some) {
        BackupAction::Keep => s,
        BackupAction::Save => DllSlot { backup: s.system32, ..s },
        BackupAction::MarkAbsent => DllSlot { absent_marker: true, ..s },
    }
}

/// A slot after installing `dll` (which backs up first).
pub open spec fn after_install(s: DllSlot, dll: u64) -> DllSlot {
    DllSlot { system32: Some(dll), ..after_backup(s) }
}

/// A slot after restoring.
pub open spec fn after_restore(s: DllSlot) -> DllSlot {
    match restore_action_of(s.backup is Some, s.absent_marker) {
        RestoreAction::CopyBack => DllSlot { system32: s.backup, ..s },
        RestoreAction::Remove => DllSlot { system32: None, ..s },
        RestoreAction::Nothing => s,
    }
}

/// Restoring after any number of installs gives the prefix back the DLL it
/// had before the first one (or its absence), however often DXMT replaced
/// it in between.
pub proof fn lemma_restore_undoes_install(s: DllSlot, first: u64, second: u64)
    requires
        s.backup is None,
        !s.absent_marker,
    ensures
        after_restore(after_install(s, first)).system32 == s.system32,
        after_restore(after_install(after_install(s, first), second)).system32 == s.system32,
{
}

// ---------------------------------------------------------------------------
// Downloading DXMT
// ---------------------------------------------------------------------------

/// The largest DXMT release asset accepted.
pub const DXMT_MAX_ASSET_BYTES: u64 = 256 * 1024 * 1024;

pub open spec fn asset_size_text(size: nat) -> Seq<char> {
    "DXMT asset size is outside the allowed range: "@ + crate::text::decimal(size) + " bytes"@
}

/// A DXMT asset must be non-empty and at most 256 MiB.
pub fn check_dxmt_asset_size(size: u64) -> (r: Result<(), AppError>)
    ensures
        (0 < size <= DXMT_MAX_ASSET_BYTES) ==> r is Ok,
        !(0 < size <= DXMT_MAX_ASSET_BYTES) ==> (r matches Err(AppError::DxmtRelease(t)) && t@
            == asset_size_text(size as nat)),
{
    if size == 0 || size > DXMT_MAX_ASSET_BYTES {
        let mut m = chars_of("DXMT asset size is outside the allowed range: ");
        push_chars(&mut m, crate::text::decimal_u64(size).as_slice());
        crate::text::push_str(&mut m, " bytes");
        return Err(AppError::DxmtRelease(string_from_chars(m.as_slice())));
    }
    Ok(())
}

/// The downloaded file must have the size GitHub reported.
pub fn check_downloaded_size(actual: u64, expected: u64) -> (r: Result<(), AppError>)
    ensures
        actual == expected ==> r is Ok,
        actual != expected ==> (r matches Err(AppError::DxmtRelease(t)) && t@
            == "downloaded DXMT asset size does not match GitHub metadata"@),
{
    if actual != expected {
        return Err(AppError::DxmtRelease(owned("downloaded DXMT asset size does not match GitHub metadata")));
    }
    Ok(())
}

/// DXMT is downloaded from `github.com` or its object storage only.
pub open spec fn dxmt_url_allowed(url: Seq<char>) -> bool {
    crate::text::seq_starts_with(url, "https://github.com/"@) || crate::text::seq_starts_with(
        url,
        "https://objects.githubusercontent.com/"@,
    )
}

pub fn check_dxmt_url(url: &str) -> (r: Result<(), AppError>)
    ensures
        dxmt_url_allowed(url@) ==> r is Ok,
        !dxmt_url_allowed(url@) ==> (r matches Err(AppError::DxmtRelease(t)) && t@
            == "DXMT asset URL is not an allowed GitHub HTTPS URL"@),
{
    let u = chars_of(url);
    let a = chars_of("https://github.com/");
    let b = chars_of("https://objects.githubusercontent.com/");
    if crate::text::starts_with(u.as_slice(), a.as_slice()) || crate::text::starts_with(
        u.as_slice(),
        b.as_slice(),
    ) {
        Ok(())
    } else {
        Err(AppError::DxmtRelease(owned("DXMT asset URL is not an allowed GitHub HTTPS URL")))
    }
}

/// The expected SHA-256 of a DXMT asset from GitHub's `sha256:<hex>`
/// digest, or why the digest is refused.
pub open spec fn dxmt_digest(d: Seq<char>) -> Result<Seq<char>, Seq<char>> {
    if !crate::text::seq_starts_with(d, "sha256:"@) {
        Err("unsupported DXMT digest: "@ + d)
    } else if !crate::release::sha256_hex(d.skip(7)) {
        Err("invalid DXMT sha256 digest from GitHub"@)
    } else {
        Ok(lower_seq(d.skip(7)))
    }
}

pub fn dxmt_expected_digest(digest: &str) -> (r: Result<String, AppError>)
    ensures
        match dxmt_digest(digest@) {
            Ok(v) => r matches Ok(s) && s@ == v,
            Err(m) => r matches Err(AppError::DxmtRelease(t)) && t@ == m,
        },
{
    let d = chars_of(digest);
    let prefix = chars_of("sha256:");
    proof {
        reveal_strlit("sha256:");
    }
    if !crate::text::starts_with(d.as_slice(), prefix.as_slice()) {
        let mut m = chars_of("unsupported DXMT digest: ");
        crate::text::push_str(&mut m, digest);
        return Err(AppError::DxmtRelease(string_from_chars(m.as_slice())));
    }
    let value = crate::text::sub_chars(d.as_slice(), 7, d.len());
    assert(value@ =~= digest@.skip(7));
    let v = string_from_chars(value.as_slice());
    if !crate::release::is_sha256_hex(v.as_str()) {
        return Err(AppError::DxmtRelease(owned("invalid DXMT sha256 digest from GitHub")));
    }
    Ok(string_from_chars(lower_chars(value.as_slice()).as_slice()))
}

/// Compares the output of `shasum -a 256` with the expected digest.
pub fn check_dxmt_digest(shasum_output: &[u8], expected: &str) -> (r: Result<(), AppError>)
    ensures
        crate::release::listed_digest(shasum_output@) == expected@ ==> r is Ok,
        crate::release::listed_digest(shasum_output@) != expected@ ==> (r matches Err(
            AppError::DxmtRelease(t),
        ) && t@ == "DXMT sha256 does not match GitHub metadata"@),
{
    match crate::release::check_artifact_digest(shasum_output, expected) {
        Ok(()) => Ok(()),
        Err(_) => Err(AppError::DxmtRelease(owned("DXMT sha256 does not match GitHub metadata"))),
    }
}

/// An archive entry that could land outside the extraction directory: an
/// absolute path or one with a `..` component.
pub open spec fn unsafe_entry(line: Seq<char>) -> bool {
    (line.len() > 0 && line[0] == '/') || crate::text::split_on(line, '/').contains(seq!['.', '.'])
}

/// Checks the listing of a DXMT archive (`tar -tzf`) line by line.
pub fn check_dxmt_archive_listing(listing: &[u8]) -> (r: Result<(), AppError>)
    ensures
        (forall|k: int|
            0 <= k < crate::text::lines_of(crate::pe::utf8_lossy(listing@)).len() ==> !unsafe_entry(
                #[trigger] crate::text::lines_of(crate::pe::utf8_lossy(listing@))[k],
            )) ==> r is Ok,
        (exists|k: int|
            0 <= k < crate::text::lines_of(crate::pe::utf8_lossy(listing@)).len() && unsafe_entry(
                #[trigger] crate::text::lines_of(crate::pe::utf8_lossy(listing@))[k],
            )) ==> (r matches Err(AppError::DxmtRelease(t)) && t@
            == "DXMT archive contains an unsafe path"@),
{
    let text = crate::pe::decode_lossy(listing);
    let t = crate::text::string_chars(&text);
    let lines = crate::text::lines_chars(t.as_slice());
    let ghost ls = crate::order::char_vecs(lines@);
    let mut k: usize = 0;
    while k < lines.len()
        invariant
            k <= lines@.len(),
            ls == crate::order::char_vecs(lines@),
            ls == crate::text::lines_of(crate::pe::utf8_lossy(listing@)),
            forall|j: int| 0 <= j < k ==> !unsafe_entry(#[trigger] ls[j]),
        decreases lines@.len() - k,
    {
        let line = &lines[k];
        assert(ls[k as int] == line@);
        let absolute = line.len() > 0 && line[0] == '/';
        let pieces = crate::text::split_chars(line.as_slice(), '/');
        let ghost ps = crate::order::char_vecs(pieces@);
        let mut parent = false;
        let mut q: usize = 0;
        while q < pieces.len()
            invariant
                q <= pieces@.len(),
                ps == crate::order::char_vecs(pieces@),
                parent == (exists|j: int| 0 <= j < q && #[trigger] ps[j] == seq!['.', '.']),
            decreases pieces@.len() - q,
        {
            let p = &pieces[q];
            assert(ps[q as int] == p@);
            if p.len() == 2 && p[0] == '.' && p[1] == '.' {
                assert(p@ =~= seq!['.', '.']);
                parent = true;
            } else {
                assert(p@ != seq!['.', '.']);
            }
            q = q + 1;
        }
        assert(parent == ps.contains(seq!['.', '.']));
        if absolute || parent {
            assert(unsafe_entry(ls[k as int]));
            return Err(AppError::DxmtRelease(owned("DXMT archive contains an unsafe path")));
        }
        k = k + 1;
    }
    Ok(())
}

} // verus!

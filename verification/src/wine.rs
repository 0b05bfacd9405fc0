//! DarwinWine runtime policy: which packaged runtimes are accepted, what the
//! runtime status reports, and the checks on Windows command paths and on
//! `tasklist` output.

use crate::error::AppError;
use crate::text::{
    chars_eq, chars_eq_ignore_case, chars_of, contains_char, decimal, find_chars, find_char,
    first_match, index_of, join_path, lines_chars, lines_of, lower_seq, matches_at, owned, parse_u32,
    parse_unsigned, push_chars, push_str, seq_starts_with, starts_with, strip_both, strip_both_chars,
    strip_front, strip_front_chars, string_from_chars, sub_chars, trim, trim_chars, CharClass,
    eq_ignore_case, lemma_index_of, path_join, split_on, str_is, text3,
};
use crate::order::char_vecs;
use vstd::prelude::*;

verus! {

/// The manifest schema DarwinPlay accepts.
pub const DARWINWINE_MANIFEST_SCHEMA: u32 = 2;

/// The oldest accepted DarwinWine: cx26.3-dp9.
pub const MIN_DARWINWINE_CX_MAJOR: u32 = 26;

pub const MIN_DARWINWINE_CX_MINOR: u32 = 3;

pub const MIN_DARWINWINE_DP_REVISION: u32 = 9;

/// A located DarwinWine runtime: its two entrypoints and the version that
/// `wine --version` reported.
#[derive(Debug, Clone)]
pub struct WineRuntime {
    pub wine: String,
    pub wineserver: String,
    pub version: String,
}

/// The `runtime.json` of a packaged DarwinWine runtime.
#[derive(Debug, Clone)]
pub struct DarwinWineManifest {
    pub schema_version: u32,
    pub id: String,
    pub name: String,
    pub wine_version: String,
    pub darwin_wine_version: String,
    pub architecture: String,
    pub minimum_mac_os: String,
    pub channel: String,
    pub entrypoint: String,
    pub wineserver: String,
    pub steam_validated: bool,
    pub steam_login_validated: bool,
}

/// What `runtime status` reports.
#[derive(Debug)]
pub struct DarwinWineStatus {
    pub installed: bool,
    pub ready: bool,
    pub runtime_id: Option<String>,
    pub runtime_name: Option<String>,
    pub wine_path: Option<String>,
    pub wine_version: Option<String>,
    pub darwin_wine_version: Option<String>,
    pub architecture: Option<String>,
    pub channel: Option<String>,
    pub steam_validated: bool,
    pub steam_login_validated: bool,
    pub probe_error: Option<String>,
}

/// What `doctor` reports.
#[derive(Debug)]
pub struct DoctorReport {
    pub wine_path: String,
    pub wine_version: String,
    pub host_architecture: String,
    pub wine_architecture: String,
}

// ---------------------------------------------------------------------------
// Runtime versions
// ---------------------------------------------------------------------------

pub open spec fn unsupported_version_text(value: Seq<char>) -> Seq<char> {
    "unsupported DarwinWine version "@ + value
        + "; DarwinPlay requires CrossOver-derived cx26.3-dp9 or newer"@
}

pub open spec fn invalid_version_text(value: Seq<char>) -> Seq<char> {
    "invalid DarwinWine version "@ + value
}

pub open spec fn old_version_text(value: Seq<char>) -> Seq<char> {
    "DarwinWine "@ + value + " is too old; DarwinPlay requires cx26.3-dp9 or newer"@
}

/// The parts of a `cx<major>.<minor>-dp<revision>` version: `None` when the
/// text is not of that shape.
pub open spec fn version_parts(value: Seq<char>) -> Option<(nat, nat, nat)> {
    let rest = value.skip(2);
    match first_match(rest, "-dp"@, 0) {
        None => None,
        Some(k) => {
            let crossover = rest.take(k);
            let revision = rest.skip(k + 3);
            let d = index_of(crossover, '.');
            if d >= crossover.len() {
                None
            } else {
                match (
                    parse_unsigned(crossover.take(d as int), u32::MAX as nat),
                    parse_unsigned(crossover.skip(d + 1int), u32::MAX as nat),
                    parse_unsigned(revision, u32::MAX as nat),
                ) {
                    (Some(major), Some(minor), Some(rev)) => Some((major, minor, rev)),
                    _ => None,
                }
            }
        },
    }
}

/// Whether `(major, minor, revision)` is at least cx26.3-dp9.
pub open spec fn version_supported(major: nat, minor: nat, revision: nat) -> bool {
    !(major < 26 || (major == 26 && minor < 3) || (major == 26 && minor == 3 && revision < 9))
}

/// Why a DarwinWine version is refused, or `None` when it is accepted.
pub open spec fn version_error(value: Seq<char>) -> Option<Seq<char>> {
    if !seq_starts_with(value, "cx"@) {
        Some(unsupported_version_text(value))
    } else {
        match version_parts(value) {
            None => Some(invalid_version_text(value)),
            Some((major, minor, revision)) => {
                if version_supported(major, minor, revision) {
                    None
                } else {
                    Some(old_version_text(value))
                }
            },
        }
    }
}

/// `cx<major>.<minor>-dp<revision>` written with decimal numbers.
pub open spec fn version_text(major: nat, minor: nat, revision: nat) -> Seq<char> {
    "cx"@ + decimal(major) + "."@ + decimal(minor) + "-dp"@ + decimal(revision)
}

proof fn lemma_decimal_digits(n: nat)
    ensures
        decimal(n).len() > 0,
        forall|i: int| 0 <= i < decimal(n).len() ==> crate::text::is_ascii_digit(#[trigger] decimal(n)[i]),
        crate::text::digits_value(decimal(n)) == n,
    decreases n,
{
    let c = crate::text::digit_char(n % 10);
    assert(c as u32 == (n % 10) + 48);
    assert(crate::text::char_digit(c) == n % 10);
    if n < 10 {
        let d = decimal(n);
        assert(d.drop_last() =~= Seq::<char>::empty());
        assert(crate::text::digits_value(d.drop_last()) == 0);
        assert(d.last() == c);
    } else {
        lemma_decimal_digits(n / 10);
        let d = decimal(n);
        assert(d.drop_last() =~= decimal(n / 10));
        assert(d.last() == c);
        assert(crate::text::digits_value(d) == (n / 10) * 10 + n % 10);
        assert forall|i: int| 0 <= i < d.len() implies crate::text::is_ascii_digit(#[trigger] d[i]) by {
            if i < d.len() - 1 {
                assert(d[i] == decimal(n / 10)[i]);
            }
        }
    }
}

proof fn lemma_parse_decimal(n: nat)
    requires
        n <= u32::MAX,
    ensures
        parse_unsigned(decimal(n), u32::MAX as nat) == Some(n),
{
    lemma_decimal_digits(n);
    assert(crate::text::unsigned_digits(decimal(n)) == decimal(n));
}

proof fn lemma_first_match_after(a: Seq<char>, p: Seq<char>, b: Seq<char>, i: int)
    requires
        p.len() > 0,
        0 <= i <= a.len(),
        forall|j: int| 0 <= j < a.len() ==> a[j] != p[0],
    ensures
        first_match(a + p + b, p, i) == Some(a.len() as int),
    decreases a.len() - i,
{
    let s = a + p + b;
    if i < a.len() {
        assert(s[i] == a[i]);
        assert(s.subrange(i, i + p.len())[0] == s[i]);
        lemma_first_match_after(a, p, b, i + 1);
    } else {
        assert(s.subrange(i, i + p.len()) =~= p);
    }
}

/// The runtime policy: a version written `cx<major>.<minor>-dp<revision>`
/// is accepted exactly when it is cx26.3-dp9 or newer, ordering first by
/// CrossOver major and minor version and then by DarwinWine revision; an
/// older one is refused as too old.
pub proof fn lemma_version_policy(major: nat, minor: nat, revision: nat)
    requires
        major <= u32::MAX,
        minor <= u32::MAX,
        revision <= u32::MAX,
    ensures
        (version_error(version_text(major, minor, revision)) is None) == version_supported(
            major,
            minor,
            revision,
        ),
        (version_error(version_text(major, minor, revision)) is None) <==> (major > 26 || (major == 26
            && minor > 3) || (major == 26 && minor == 3 && revision >= 9)),
        !(major > 26 || (major == 26 && minor > 3) || (major == 26 && minor == 3 && revision >= 9))
            ==> version_error(version_text(major, minor, revision)) == Some(
            old_version_text(version_text(major, minor, revision)),
        ),
{
    reveal_strlit("cx");
    reveal_strlit(".");
    reveal_strlit("-dp");
    let v = version_text(major, minor, revision);
    let dmaj = decimal(major);
    let dmin = decimal(minor);
    let drev = decimal(revision);
    lemma_decimal_digits(major);
    lemma_decimal_digits(minor);
    lemma_decimal_digits(revision);
    lemma_parse_decimal(major);
    lemma_parse_decimal(minor);
    lemma_parse_decimal(revision);
    assert(v.subrange(0, 2) =~= "cx"@);
    let rest = v.skip(2);
    let a = dmaj + "."@ + dmin;
    assert(rest =~= a + "-dp"@ + drev);
    assert forall|j: int| 0 <= j < a.len() implies a[j] != "-dp"@[0] by {
        if j < dmaj.len() {
            assert(a[j] == dmaj[j]);
        } else if j == dmaj.len() {
        } else {
            assert(a[j] == dmin[j - dmaj.len() - 1]);
        }
    }
    lemma_first_match_after(a, "-dp"@, drev, 0);
    assert(rest.take(a.len() as int) =~= a);
    assert(rest.skip(a.len() + 3int) =~= drev);
    // The first '.' of `major.minor` follows the major version's digits.
    assert(index_of(a, '.') == dmaj.len()) by {
        crate::text::lemma_index_of(a, '.');
        let d = index_of(a, '.');
        if d < dmaj.len() {
            assert(a[d as int] == dmaj[d as int]);
        }
        assert(a[dmaj.len() as int] == '.');
    }
    assert(a.take(dmaj.len() as int) =~= dmaj);
    assert(a.skip(dmaj.len() + 1int) =~= dmin);
    assert(version_parts(v) == Some((major, minor, revision)));
}

/// Accepts CrossOver-derived DarwinWine cx26.3-dp9 and newer.
pub fn validate_supported_darwinwine_version(value: &str) -> (r: Result<(), AppError>)
    ensures
        match version_error(value@) {
            None => r is Ok,
            Some(m) => r matches Err(AppError::Runtime(t)) && t@ == m,
        },
{
    let v = chars_of(value);
    let cx = chars_of("cx");
    if !starts_with(v.as_slice(), cx.as_slice()) {
        return Err(
            AppError::Runtime(
                text3(
                    "unsupported DarwinWine version ",
                    v.as_slice(),
                    "; DarwinPlay requires CrossOver-derived cx26.3-dp9 or newer",
                ),
            ),
        );
    }
    let invalid = AppError::Runtime(text3("invalid DarwinWine version ", v.as_slice(), ""));
    assert("invalid DarwinWine version "@ + v@ + ""@ =~= invalid_version_text(value@)) by {
        reveal_strlit("");
    }
    assert(cx@.len() == 2) by {
        reveal_strlit("cx");
    }
    let rest = sub_chars(v.as_slice(), 2, v.len());
    assert(rest@ =~= value@.skip(2));
    let dp = chars_of("-dp");
    assert(dp@.len() == 3) by {
        reveal_strlit("-dp");
    }
    let k = match find_chars(rest.as_slice(), dp.as_slice()) {
        Some(k) => k,
        None => {
            return Err(invalid);
        },
    };
    let crossover = sub_chars(rest.as_slice(), 0, k);
    let revision = sub_chars(rest.as_slice(), k + 3, rest.len());
    assert(crossover@ =~= rest@.take(k as int));
    assert(revision@ =~= rest@.skip(k + 3));
    let d = find_char(crossover.as_slice(), '.');
    if d >= crossover.len() {
        return Err(invalid);
    }
    let major_text = sub_chars(crossover.as_slice(), 0, d);
    let minor_text = sub_chars(crossover.as_slice(), d + 1, crossover.len());
    assert(major_text@ =~= crossover@.take(d as int));
    assert(minor_text@ =~= crossover@.skip(d + 1int));
    let major = match parse_u32(major_text.as_slice()) {
        Some(n) => n,
        None => {
            return Err(invalid);
        },
    };
    let minor = match parse_u32(minor_text.as_slice()) {
        Some(n) => n,
        None => {
            return Err(invalid);
        },
    };
    let revision = match parse_u32(revision.as_slice()) {
        Some(n) => n,
        None => {
            return Err(invalid);
        },
    };
    if major < MIN_DARWINWINE_CX_MAJOR || (major == MIN_DARWINWINE_CX_MAJOR && minor
        < MIN_DARWINWINE_CX_MINOR) || (major == MIN_DARWINWINE_CX_MAJOR && minor
        == MIN_DARWINWINE_CX_MINOR && revision < MIN_DARWINWINE_DP_REVISION) {
        return Err(
            AppError::Runtime(
                text3(
                    "DarwinWine ",
                    v.as_slice(),
                    " is too old; DarwinPlay requires cx26.3-dp9 or newer",
                ),
            ),
        );
    }
    Ok(())
}

// ---------------------------------------------------------------------------
// Manifest paths and the manifest
// ---------------------------------------------------------------------------

/// Whether `s` has a `..` component when split at `/`.
pub open spec fn has_parent_component(s: Seq<char>) -> bool {
    exists|i: int| 0 <= i < split_on(s, '/').len() && #[trigger] split_on(s, '/')[i] == ".."@
}

/// A manifest path must be relative and must not climb: not absolute and no
/// `..` component.
pub open spec fn runtime_path_ok(s: Seq<char>) -> bool {
    !(s.len() > 0 && s[0] == '/') && !has_parent_component(s)
}

pub fn validate_relative_runtime_path(value: &str) -> (r: Result<(), AppError>)
    ensures
        runtime_path_ok(value@) ==> r is Ok,
        !runtime_path_ok(value@) ==> (r matches Err(AppError::Runtime(t)) && t@
            == "invalid runtime path in manifest: "@ + value@),
{
    let v = chars_of(value);
    let parts = crate::text::split_chars(v.as_slice(), '/');
    let dotdot = chars_of("..");
    let mut bad = v.len() > 0 && v[0] == '/';
    let mut i: usize = 0;
    let mut found = false;
    while i < parts.len()
        invariant
            i <= parts@.len(),
            char_vecs(parts@) == split_on(value@, '/'),
            dotdot@ == ".."@,
            found <==> exists|j: int| 0 <= j < i && #[trigger] split_on(value@, '/')[j] == ".."@,
        decreases parts@.len() - i,
    {
        let ghost pi = char_vecs(parts@)[i as int];
        if chars_eq(parts[i].as_slice(), dotdot.as_slice()) {
            found = true;
        }
        i = i + 1;
    }
    bad = bad || found;
    if bad {
        let msg = text3("invalid runtime path in manifest: ", v.as_slice(), "");
        assert(msg@ =~= "invalid runtime path in manifest: "@ + value@) by {
            reveal_strlit("");
        }
        return Err(AppError::Runtime(msg));
    }
    Ok(())
}

pub open spec fn schema_text(n: u32) -> Seq<char> {
    "unsupported DarwinWine manifest schema "@ + decimal(n as nat) + "; DarwinPlay requires schema 2"@
}

/// Why a manifest is refused, or `None` when it is accepted; the checks run in
/// this order: schema, identity, architecture, version, entrypoint paths.
pub open spec fn manifest_error(m: DarwinWineManifest) -> Option<Seq<char>> {
    if m.schema_version != 2 {
        Some(schema_text(m.schema_version))
    } else if m.name@ != "DarwinWine"@ || !seq_starts_with(m.id@, "darwinwine-"@) {
        Some("archive is not a DarwinWine runtime"@)
    } else if m.architecture@ != "x86_64"@ {
        Some("unsupported DarwinWine architecture "@ + m.architecture@)
    } else if version_error(m.darwin_wine_version@) is Some {
        version_error(m.darwin_wine_version@)
    } else if !runtime_path_ok(m.entrypoint@) {
        Some("invalid runtime path in manifest: "@ + m.entrypoint@)
    } else if !runtime_path_ok(m.wineserver@) {
        Some("invalid runtime path in manifest: "@ + m.wineserver@)
    } else {
        None
    }
}

/// Accepts only a schema-2, `x86_64` DarwinWine manifest of a supported
/// version whose entrypoints are relative paths inside the runtime.
pub fn validate_manifest(manifest: &DarwinWineManifest) -> (r: Result<(), AppError>)
    ensures
        match manifest_error(*manifest) {
            None => r is Ok,
            Some(m) => r matches Err(AppError::Runtime(t)) && t@ == m,
        },
{
    if manifest.schema_version != DARWINWINE_MANIFEST_SCHEMA {
        let digits = crate::text::decimal_u64(manifest.schema_version as u64);
        return Err(
            AppError::Runtime(
                text3(
                    "unsupported DarwinWine manifest schema ",
                    digits.as_slice(),
                    "; DarwinPlay requires schema 2",
                ),
            ),
        );
    }
    let id = chars_of(manifest.id.as_str());
    let prefix = chars_of("darwinwine-");
    if !str_is(&manifest.name, "DarwinWine") || !starts_with(id.as_slice(), prefix.as_slice()) {
        return Err(AppError::Runtime(owned("archive is not a DarwinWine runtime")));
    }
    if !str_is(&manifest.architecture, "x86_64") {
        let arch = chars_of(manifest.architecture.as_str());
        let msg = text3("unsupported DarwinWine architecture ", arch.as_slice(), "");
        assert(msg@ =~= "unsupported DarwinWine architecture "@ + manifest.architecture@) by {
            reveal_strlit("");
        }
        return Err(AppError::Runtime(msg));
    }
    match validate_supported_darwinwine_version(manifest.darwin_wine_version.as_str()) {
        Ok(()) => {},
        Err(e) => {
            return Err(e);
        },
    }
    match validate_relative_runtime_path(manifest.entrypoint.as_str()) {
        Ok(()) => {},
        Err(e) => {
            return Err(e);
        },
    }
    validate_relative_runtime_path(manifest.wineserver.as_str())
}

// ---------------------------------------------------------------------------
// Locating the runtime and reporting its status
// ---------------------------------------------------------------------------

/// Where the active runtime lives below the application support directory.
pub fn darwinwine_root(application_support: &str) -> (r: String)
    ensures
        r@ == path_join(path_join(application_support@, "runtime"@), "darwinwine"@),
{
    let runtime = join_path(application_support, "runtime");
    join_path(runtime.as_str(), "darwinwine")
}

/// The entrypoint paths of the runtime at `root`, once it is known to exist
/// and its manifest to be acceptable.
pub open spec fn discover_result(root: Seq<char>, root_is_dir: bool, manifest: Option<
    DarwinWineManifest,
>) -> Result<(Seq<char>, Seq<char>), Option<Seq<char>>> {
    if !root_is_dir {
        Err(None)
    } else {
        match manifest {
            None => Err(None),
            Some(m) => match manifest_error(m) {
                Some(t) => Err(Some(t)),
                None => Ok((path_join(root, m.entrypoint@), path_join(root, m.wineserver@))),
            },
        }
    }
}

impl WineRuntime {
    /// Locates the active runtime: its root must be a directory with a
    /// readable manifest (else `RuntimeNotFound`), and the manifest must pass
    /// `validate_manifest`. Returns the paths of `wine` and `wineserver`,
    /// which the caller checks and probes before `WineRuntime::new`.
    pub fn discover(root: &str, root_is_dir: bool, manifest: Option<&DarwinWineManifest>) -> (r: Result<
        (String, String),
        AppError,
    >)
        ensures
            match discover_result(
                root@,
                root_is_dir,
                match manifest {
                    Some(m) => Some(*m),
                    None => None,
                },
            ) {
                Ok((w, s)) => r matches Ok((a, b)) && a@ == w && b@ == s,
                Err(None) => r matches Err(AppError::RuntimeNotFound),
                Err(Some(t)) => r matches Err(AppError::Runtime(m)) && m@ == t,
            },
    {
        if !root_is_dir {
            return Err(AppError::RuntimeNotFound);
        }
        let manifest = match manifest {
            Some(m) => m,
            None => {
                return Err(AppError::RuntimeNotFound);
            },
        };
        match validate_manifest(manifest) {
            Ok(()) => {},
            Err(e) => {
                return Err(e);
            },
        }
        Ok(
            (
                join_path(root, manifest.entrypoint.as_str()),
                join_path(root, manifest.wineserver.as_str()),
            ),
        )
    }

    /// A runtime from its probed parts.
    pub fn new(wine: String, wineserver: String, version: String) -> (r: WineRuntime)
        ensures
            r.wine@ == wine@,
            r.wineserver@ == wineserver@,
            r.version@ == version@,
    {
        WineRuntime { wine, wineserver, version }
    }

    /// The version that `wine --version` reported.
    pub fn version(&self) -> (r: &str)
        ensures
            r@ == self.version@,
    {
        self.version.as_str()
    }
}

/// The entrypoints a manifest names must exist as files.
pub fn check_entrypoints(wine_is_file: bool, wineserver_is_file: bool) -> (r: Result<(), AppError>)
    ensures
        wine_is_file && wineserver_is_file ==> r is Ok,
        !(wine_is_file && wineserver_is_file) ==> (r matches Err(AppError::Runtime(t)) && t@
            == "DarwinWine entrypoints are missing"@),
{
    if wine_is_file && wineserver_is_file {
        Ok(())
    } else {
        Err(AppError::Runtime(owned("DarwinWine entrypoints are missing")))
    }
}

/// An unpacked runtime must report (in `wine --version`) the Wine version
/// its manifest names.
pub fn check_reported_version(version: &str, manifest: &DarwinWineManifest) -> (r: Result<
    (),
    AppError,
>)
    ensures
        crate::text::seq_contains(version@, manifest.wine_version@) ==> r is Ok,
        !crate::text::seq_contains(version@, manifest.wine_version@) ==> (r matches Err(
            AppError::Runtime(t),
        ) && t@ == "runtime reports "@ + version@ + ", manifest expects Wine "@
            + manifest.wine_version@),
{
    let v = chars_of(version);
    let w = crate::text::string_chars(&manifest.wine_version);
    if crate::text::contains(v.as_slice(), w.as_slice()) {
        return Ok(());
    }
    let mut m = chars_of("runtime reports ");
    push_chars(&mut m, v.as_slice());
    push_str(&mut m, ", manifest expects Wine ");
    push_chars(&mut m, w.as_slice());
    Err(AppError::Runtime(string_from_chars(m.as_slice())))
}

/// What the host found when looking for the active runtime.
pub enum RuntimeObservation {
    /// The application support directory could not be located.
    NoApplicationSupport(String),
    /// The runtime directory does not exist.
    NotInstalled,
    /// The manifest could not be read.
    UnreadableManifest(String),
    /// The manifest was read; `probe` is the result of discovering the
    /// runtime (its version, or why discovery failed).
    Installed { manifest: DarwinWineManifest, wine_path: String, probe: Result<String, String> },
}

/// The status of a runtime that is not installed.
pub fn missing_status(error: Option<String>) -> (r: DarwinWineStatus)
    ensures
        !r.installed && !r.ready,
        r.runtime_id is None && r.wine_path is None && r.wine_version is None,
        r.darwin_wine_version is None && r.architecture is None && r.channel is None,
        r.runtime_name matches Some(n) && n@ == "DarwinWine"@,
        !r.steam_validated && !r.steam_login_validated,
        r.probe_error == error,
{
    DarwinWineStatus {
        installed: false,
        ready: false,
        runtime_id: None,
        runtime_name: Some(owned("DarwinWine")),
        wine_path: None,
        wine_version: None,
        darwin_wine_version: None,
        architecture: None,
        channel: None,
        steam_validated: false,
        steam_login_validated: false,
        probe_error: error,
    }
}

/// A status that knows nothing of a runtime but its family name.
pub open spec fn nothing_known(r: DarwinWineStatus) -> bool {
    &&& r.runtime_name matches Some(n) && n@ == "DarwinWine"@
    &&& r.runtime_id is None && r.wine_path is None && r.wine_version is None
    &&& r.darwin_wine_version is None && r.architecture is None && r.channel is None
    &&& !r.steam_validated && !r.steam_login_validated
}

/// The runtime status for what the host observed: installed when the
/// runtime directory exists, ready only when discovery succeeded; the
/// manifest's identity is reported whenever it could be read.
pub fn runtime_status(observation: RuntimeObservation) -> (r: DarwinWineStatus)
    ensures
        match observation {
            RuntimeObservation::NoApplicationSupport(e) => !r.installed && !r.ready
                && nothing_known(r) && r.probe_error == Some(e),
            RuntimeObservation::NotInstalled => !r.installed && !r.ready && nothing_known(r)
                && r.probe_error is None,
            RuntimeObservation::UnreadableManifest(e) => r.installed && !r.ready
                && nothing_known(r) && r.probe_error == Some(e),
            RuntimeObservation::Installed { manifest, wine_path, probe } => r.installed
                && r.ready == (probe is Ok) && r.runtime_id == Some(manifest.id)
                && r.runtime_name == Some(manifest.name) && r.wine_path == Some(wine_path)
                && r.darwin_wine_version == Some(manifest.darwin_wine_version)
                && r.architecture == Some(manifest.architecture) && r.channel == Some(
                manifest.channel,
            ) && r.steam_validated == manifest.steam_validated && r.steam_login_validated
                == manifest.steam_login_validated && match probe {
                Ok(version) => r.wine_version == Some(version) && r.probe_error is None,
                Err(e) => r.wine_version is None && r.probe_error == Some(e),
            },
        },
{
    match observation {
        RuntimeObservation::NoApplicationSupport(error) => missing_status(Some(error)),
        RuntimeObservation::NotInstalled => missing_status(None),
        RuntimeObservation::UnreadableManifest(error) => DarwinWineStatus {
            installed: true,
            ready: false,
            runtime_id: None,
            runtime_name: Some(owned("DarwinWine")),
            wine_path: None,
            wine_version: None,
            darwin_wine_version: None,
            architecture: None,
            channel: None,
            steam_validated: false,
            steam_login_validated: false,
            probe_error: Some(error),
        },
        RuntimeObservation::Installed { manifest, wine_path, probe } => {
            let (ready, wine_version, probe_error) = match probe {
                Ok(version) => (true, Some(version), None),
                Err(error) => (false, None, Some(error)),
            };
            DarwinWineStatus {
                installed: true,
                ready,
                runtime_id: Some(manifest.id),
                runtime_name: Some(manifest.name),
                wine_path: Some(wine_path),
                wine_version,
                darwin_wine_version: Some(manifest.darwin_wine_version),
                architecture: Some(manifest.architecture),
                channel: Some(manifest.channel),
                steam_validated: manifest.steam_validated,
                steam_login_validated: manifest.steam_login_validated,
                probe_error,
            }
        },
    }
}

/// The app-owned directories of pre-DarwinWine releases that an activated
/// runtime replaces.
pub fn remove_legacy_managed_wine_state(application_support: &str) -> (r: Vec<String>)
    ensures
        r@.len() == 2,
        r@[0]@ == path_join(application_support@, "engines"@),
        r@[1]@ == path_join(path_join(application_support@, "downloads"@), "wine"@),
{
    let mut paths: Vec<String> = Vec::new();
    paths.push(join_path(application_support, "engines"));
    let downloads = join_path(application_support, "downloads");
    paths.push(join_path(downloads.as_str(), "wine"));
    paths
}

// ---------------------------------------------------------------------------
// Windows paths and tasklist output
// ---------------------------------------------------------------------------

/// An absolute DOS path (`X:\...`) that does not climb and has no `/` or NUL.
pub open spec fn windows_executable_ok(s: Seq<char>) -> bool {
    &&& s.len() >= 3
    &&& crate::text::is_ascii_alpha(s[0])
    &&& s[1] == ':'
    &&& s[2] == '\\'
    &&& !crate::text::seq_contains(s, "..\\"@)
    &&& !crate::text::seq_ends_with(s, ".."@)
    &&& !s.contains('/')
    &&& !s.contains('\0')
}

pub fn validate_windows_executable(value: &str) -> (r: Result<(), AppError>)
    ensures
        windows_executable_ok(value@) ==> r is Ok,
        !windows_executable_ok(value@) ==> (r matches Err(AppError::InvalidFile(t)) && t@
            == value@),
{
    let v = chars_of(value);
    let climb = chars_of("..\\");
    let dots = chars_of("..");
    let valid = v.len() >= 3 && crate::text::ascii_alpha(v[0]) && v[1] == ':' && v[2] == '\\'
        && !crate::text::contains(v.as_slice(), climb.as_slice()) && !crate::text::ends_with(
        v.as_slice(),
        dots.as_slice(),
    ) && !contains_char(v.as_slice(), '/') && !contains_char(v.as_slice(), '\0');
    if valid {
        Ok(())
    } else {
        Err(AppError::InvalidFile(owned(value)))
    }
}

/// The image name column of one line of `tasklist /fo csv /nh`.
pub open spec fn tasklist_image(line: Seq<char>) -> Option<Seq<char>> {
    let l = strip_front(trim(line), CharClass::ByteOrderMark);
    if l.len() == 0 {
        None
    } else if l[0] == '"' {
        let rest = l.drop_first();
        let end = index_of(rest, '"');
        if end < rest.len() {
            Some(rest.take(end as int))
        } else {
            None
        }
    } else {
        let first = strip_both(trim(split_on(l, ',')[0]), CharClass::Quote);
        if first.len() == 0 {
            None
        } else {
            Some(first)
        }
    }
}

/// Whether some line's image name equals `image` ignoring ASCII case.
pub open spec fn tasklist_has(output: Seq<char>, image: Seq<char>) -> bool {
    exists|i: int|
        0 <= i < lines_of(output).len() && (#[trigger] tasklist_image(lines_of(output)[i]) matches Some(
            name,
        ) && eq_ignore_case(name, image))
}

proof fn lemma_split_nonempty(s: Seq<char>, c: char)
    ensures
        split_on(s, c).len() > 0,
{
    let i = index_of(s, c);
}

pub fn tasklist_image_name(line: &[char]) -> (r: Option<Vec<char>>)
    ensures
        match tasklist_image(line@) {
            Some(n) => r matches Some(v) && v@ == n,
            None => r is None,
        },
{
    let trimmed = trim_chars(line);
    let l = strip_front_chars(trimmed.as_slice(), CharClass::ByteOrderMark);
    if l.len() == 0 {
        return None;
    }
    if l[0] == '"' {
        let rest = sub_chars(l.as_slice(), 1, l.len());
        assert(rest@ =~= l@.drop_first());
        let end = find_char(rest.as_slice(), '"');
        if end < rest.len() {
            return Some(sub_chars(rest.as_slice(), 0, end));
        }
        return None;
    }
    let pieces = crate::text::split_chars(l.as_slice(), ',');
    proof {
        lemma_split_nonempty(l@, ',');
    }
    assert(char_vecs(pieces@)[0] == pieces@[0]@);
    let first_trimmed = trim_chars(pieces[0].as_slice());
    let first = strip_both_chars(first_trimmed.as_slice(), CharClass::Quote);
    if first.len() == 0 {
        None
    } else {
        Some(first)
    }
}

/// Whether `tasklist` output lists a process with the given image name.
pub fn tasklist_contains_image(output: &str, image_name: &str) -> (r: bool)
    ensures
        r == tasklist_has(output@, image_name@),
{
    let text = chars_of(output);
    let image = chars_of(image_name);
    let lines = lines_chars(text.as_slice());
    let mut i: usize = 0;
    while i < lines.len()
        invariant
            i <= lines@.len(),
            char_vecs(lines@) == lines_of(output@),
            image@ == image_name@,
            forall|j: int|
                0 <= j < i ==> !(#[trigger] tasklist_image(lines_of(output@)[j]) matches Some(name)
                    && eq_ignore_case(name, image_name@)),
        decreases lines@.len() - i,
    {
        assert(lines_of(output@)[i as int] == lines@[i as int]@);
        match tasklist_image_name(lines[i].as_slice()) {
            Some(name) => {
                if chars_eq_ignore_case(name.as_slice(), image.as_slice()) {
                    return true;
                }
            },
            None => {},
        }
        i = i + 1;
    }
    false
}

// ---------------------------------------------------------------------------
// Running Windows programs
// ---------------------------------------------------------------------------

/// The runtime installation to delete.
pub fn remove_darwinwine(application_support: &str) -> (r: String)
    ensures
        r@ == path_join(path_join(application_support@, "runtime"@), "darwinwine"@),
{
    darwinwine_root(application_support)
}

impl WineRuntime {
    /// The command line (after `wine`) that runs a Windows program.
    pub fn launch_windows(&self, executable: &str, arguments: &[String]) -> (r: Result<Vec<String>, AppError>)
        ensures
            windows_executable_ok(executable@) ==> (r matches Ok(v) && crate::pe::strs(v@) == seq![
                executable@,
            ] + crate::pe::strs(arguments@)),
            !windows_executable_ok(executable@) ==> (r matches Err(AppError::InvalidFile(t)) && t@
                == executable@),
    {
        validate_windows_executable(executable)?;
        let mut v: Vec<String> = Vec::new();
        v.push(owned(executable));
        let mut i: usize = 0;
        while i < arguments.len()
            invariant
                i <= arguments@.len(),
                crate::pe::strs(v@) == seq![executable@] + crate::pe::strs(arguments@).take(i as int),
            decreases arguments@.len() - i,
        {
            let ghost before = crate::pe::strs(v@);
            let a = arguments[i].clone();
            v.push(a);
            assert(crate::pe::strs(v@) =~= before.push(a@));
            assert(crate::pe::strs(arguments@).take(i + 1) =~= crate::pe::strs(arguments@).take(
                i as int,
            ).push(a@));
            i = i + 1;
        }
        assert(crate::pe::strs(arguments@).take(i as int) =~= crate::pe::strs(arguments@));
        Ok(v)
    }

    /// The Windows path a host executable is started by once its directory
    /// is mapped to drive `G:`: `G:\<file name>`.
    pub fn launch(&self, executable: &str) -> (r: Result<String, AppError>)
        ensures
            ({
                let name = crate::text::path_file_name(executable@);
                &&& name.len() == 0 ==> (r matches Err(AppError::MissingFileName(t)) && t@
                    == executable@)
                &&& name.len() > 0 && (name.contains('\\') || name.contains(':')) ==> (r matches Err(
                    AppError::InvalidFile(t),
                ) && t@ == executable@)
                &&& name.len() > 0 && !name.contains('\\') && !name.contains(':') ==> (r matches Ok(
                    w,
                ) && w@ == "G:\\"@ + name)
            }),
    {
        let e = chars_of(executable);
        let name = crate::text::path_file_name_chars(e.as_slice());
        if name.len() == 0 {
            return Err(AppError::MissingFileName(owned(executable)));
        }
        if contains_char(name.as_slice(), '\\') || contains_char(name.as_slice(), ':') {
            return Err(AppError::InvalidFile(owned(executable)));
        }
        Ok(crate::text::join_text("G:\\", name.as_slice()))
    }
}

/// The image name `tasklist` is searched for: trimmed, non-empty, with no
/// path separator or NUL.
pub open spec fn image_name_ok(t: Seq<char>) -> bool {
    t.len() > 0 && !t.contains('\\') && !t.contains('/') && !t.contains('\0')
}

pub fn check_image_name(image_name: &str) -> (r: Result<String, AppError>)
    ensures
        image_name_ok(trim(image_name@)) ==> (r matches Ok(s) && s@ == trim(image_name@)),
        !image_name_ok(trim(image_name@)) ==> (r matches Err(AppError::InvalidFile(t)) && t@ == trim(
            image_name@,
        )),
{
    let t = trim_chars(chars_of(image_name).as_slice());
    if t.len() == 0 || contains_char(t.as_slice(), '\\') || contains_char(t.as_slice(), '/')
        || contains_char(t.as_slice(), '\0') {
        return Err(AppError::InvalidFile(string_from_chars(t.as_slice())));
    }
    Ok(string_from_chars(t.as_slice()))
}

/// How a process ended, in words.
pub open spec fn status_text(code: Option<i32>, signal: Option<i32>) -> Seq<char> {
    match code {
        Some(c) => "exited with code "@ + crate::text::signed_decimal(c as int),
        None => match signal {
            Some(s) => "terminated by signal "@ + crate::text::signed_decimal(s as int),
            None => "terminated without an exit code"@,
        },
    }
}

pub fn process_status_description(code: Option<i32>, signal: Option<i32>) -> (r: String)
    ensures
        r@ == status_text(code, signal),
{
    match code {
        Some(c) => crate::text::join_text(
            "exited with code ",
            crate::text::signed_decimal_i64(c as i64).as_slice(),
        ),
        None => match signal {
            Some(s) => crate::text::join_text(
                "terminated by signal ",
                crate::text::signed_decimal_i64(s as i64).as_slice(),
            ),
            None => owned("terminated without an exit code"),
        },
    }
}

/// The error of a failed command: its trimmed standard error, else its
/// trimmed standard output, else how it ended.
pub open spec fn failure_detail(stdout: Seq<u8>, stderr: Seq<u8>, status: Seq<char>) -> Seq<char> {
    let e = trim(crate::pe::utf8_lossy(stderr));
    let o = trim(crate::pe::utf8_lossy(stdout));
    if e.len() > 0 {
        e
    } else if o.len() > 0 {
        o
    } else {
        status
    }
}

pub fn command_failure(name: &str, stdout: &[u8], stderr: &[u8], status: &str) -> (r: AppError)
    ensures
        r matches AppError::ProcessFailed(t) && t@ == name@ + ": "@ + failure_detail(
            stdout@,
            stderr@,
            status@,
        ),
{
    let e = trim_chars(crate::text::string_chars(&crate::pe::decode_lossy(stderr)).as_slice());
    let o = trim_chars(crate::text::string_chars(&crate::pe::decode_lossy(stdout)).as_slice());
    let mut m = chars_of(name);
    push_str(&mut m, ": ");
    if e.len() > 0 {
        push_chars(&mut m, e.as_slice());
    } else if o.len() > 0 {
        push_chars(&mut m, o.as_slice());
    } else {
        push_str(&mut m, status);
    }
    AppError::ProcessFailed(string_from_chars(m.as_slice()))
}

/// The last 40 lines of a log, joined by line feeds.
pub open spec fn log_tail_lines(text: Seq<char>) -> Seq<char> {
    let ls = lines_of(text);
    let start = if ls.len() > 40 {
        ls.len() - 40
    } else {
        0
    };
    joined_lines(ls.skip(start))
}

pub open spec fn joined_lines(ls: Seq<Seq<char>>) -> Seq<char>
    decreases ls.len(),
{
    if ls.len() == 0 {
        seq![]
    } else if ls.len() == 1 {
        ls[0]
    } else {
        joined_lines(ls.drop_last()) + seq!['\n'] + ls.last()
    }
}

pub fn probe_log_tail(log: &str) -> (r: String)
    ensures
        r@ == log_tail_lines(log@),
{
    let t = chars_of(log);
    let lines = lines_chars(t.as_slice());
    let ghost ls = char_vecs(lines@);
    let start: usize = if lines.len() > 40 {
        lines.len() - 40
    } else {
        0
    };
    let ghost tail = ls.skip(start as int);
    let mut out: Vec<char> = Vec::new();
    let mut i: usize = start;
    while i < lines.len()
        invariant
            start <= i <= lines@.len(),
            ls == char_vecs(lines@),
            tail == ls.skip(start as int),
            out@ == joined_lines(tail.take(i - start)),
        decreases lines@.len() - i,
    {
        assert(tail.take(i - start + 1).drop_last() =~= tail.take(i - start));
        assert(tail[i - start] == lines@[i as int]@);
        if i > start {
            out.push('\n');
        }
        push_chars(&mut out, lines[i].as_slice());
        i = i + 1;
        assert(out@ =~= joined_lines(tail.take(i - start)));
    }
    assert(tail.take(i - start) =~= tail);
    string_from_chars(out.as_slice())
}

/// The error of a failed runtime probe: what failed, how the command ended
/// and the tail of its log.
pub fn probe_failure(what: &str, status: Option<&str>, log_tail: &str) -> (r: AppError)
    ensures
        r matches AppError::Runtime(t) && t@ == what@ + match status {
            Some(s) => " ("@ + s@ + ")"@,
            None => seq![],
        } + if log_tail@.len() == 0 {
            seq![]
        } else {
            ": "@ + log_tail@
        },
{
    let mut m = chars_of(what);
    match status {
        Some(s) => {
            push_str(&mut m, " (");
            push_str(&mut m, s);
            push_str(&mut m, ")");
        },
        None => {},
    }
    let tail = chars_of(log_tail);
    if tail.len() > 0 {
        push_str(&mut m, ": ");
        push_chars(&mut m, tail.as_slice());
    }
    AppError::Runtime(string_from_chars(m.as_slice()))
}

// ---------------------------------------------------------------------------
// Runtime archives
// ---------------------------------------------------------------------------

/// An archive entry that is absolute or climbs out with `..`.
pub open spec fn unsafe_archive_entry(entry: Seq<char>) -> bool {
    (entry.len() > 0 && entry[0] == '/') || split_on(entry, '/').contains(seq!['.', '.'])
}

/// The entries of an archive listing (`tar -tf`): the trimmed non-empty
/// lines, each once, in listing order; or the first unsafe one.
pub open spec fn archive_entries(lines: Seq<Seq<char>>) -> Result<Seq<Seq<char>>, Seq<char>>
    decreases lines.len(),
{
    if lines.len() == 0 {
        Ok(seq![])
    } else {
        match archive_entries(lines.drop_last()) {
            Err(m) => Err(m),
            Ok(acc) => {
                let line = lines.last();
                let entry = trim(line);
                if entry.len() == 0 {
                    Ok(acc)
                } else if unsafe_archive_entry(entry) {
                    Err("unsafe path in DarwinWine archive: "@ + line)
                } else if acc.contains(entry) {
                    Ok(acc)
                } else {
                    Ok(acc.push(entry))
                }
            },
        }
    }
}

fn entry_unsafe(entry: &[char]) -> (r: bool)
    ensures
        r == unsafe_archive_entry(entry@),
{
    if entry.len() > 0 && entry[0] == '/' {
        return true;
    }
    let pieces = crate::text::split_chars(entry, '/');
    let ghost ps = char_vecs(pieces@);
    let mut q: usize = 0;
    while q < pieces.len()
        invariant
            q <= pieces@.len(),
            ps == char_vecs(pieces@),
            ps == split_on(entry@, '/'),
            forall|j: int| 0 <= j < q ==> #[trigger] ps[j] != seq!['.', '.'],
        decreases pieces@.len() - q,
    {
        let p = &pieces[q];
        assert(ps[q as int] == p@);
        if p.len() == 2 && p[0] == '.' && p[1] == '.' {
            assert(p@ =~= seq!['.', '.']);
            assert(ps[q as int] == seq!['.', '.']);
            assert(ps.contains(seq!['.', '.']));
            return true;
        }
        assert(p@ != seq!['.', '.']);
        q = q + 1;
    }
    false
}

pub(crate) fn vecs_contain(vs: &Vec<Vec<char>>, w: &[char]) -> (r: bool)
    ensures
        r == char_vecs(vs@).contains(w@),
{
    let mut i: usize = 0;
    while i < vs.len()
        invariant
            i <= vs@.len(),
            forall|k: int| 0 <= k < i ==> char_vecs(vs@)[k] != w@,
        decreases vs@.len() - i,
    {
        assert(char_vecs(vs@)[i as int] == vs@[i as int]@);
        if chars_eq(vs[i].as_slice(), w) {
            return true;
        }
        i = i + 1;
    }
    false
}

/// Checks a runtime archive's listing and gives its entries; an empty
/// archive is refused.
pub fn validate_archive_listing(listing: &[u8]) -> (r: Result<Vec<Vec<char>>, AppError>)
    ensures
        match archive_entries(lines_of(crate::pe::utf8_lossy(listing@))) {
            Err(m) => r matches Err(AppError::Runtime(t)) && t@ == m,
            Ok(es) => if es.len() == 0 {
                r matches Err(AppError::Runtime(t)) && t@ == "DarwinWine archive is empty"@
            } else {
                r matches Ok(v) && char_vecs(v@) == es
            },
        },
{
    let text = crate::pe::decode_lossy(listing);
    let t = crate::text::string_chars(&text);
    let lines = lines_chars(t.as_slice());
    let ghost ls = char_vecs(lines@);
    let mut entries: Vec<Vec<char>> = Vec::new();
    let mut k: usize = 0;
    assert(ls.take(0) =~= Seq::<Seq<char>>::empty());
    assert(char_vecs(entries@) =~= Seq::<Seq<char>>::empty());
    while k < lines.len()
        invariant
            k <= lines@.len(),
            ls == char_vecs(lines@),
            ls == lines_of(crate::pe::utf8_lossy(listing@)),
            archive_entries(ls.take(k as int)) == Ok::<Seq<Seq<char>>, Seq<char>>(char_vecs(entries@)),
        decreases lines@.len() - k,
    {
        let line = &lines[k];
        assert(ls.take(k + 1).drop_last() =~= ls.take(k as int));
        assert(ls.take(k + 1).last() == line@);
        let entry = trim_chars(line.as_slice());
        if entry.len() > 0 {
            if entry_unsafe(entry.as_slice()) {
                let mut m = chars_of("unsafe path in DarwinWine archive: ");
                push_chars(&mut m, line.as_slice());
                proof {
                    lemma_archive_error_sticks(ls, k + 1, "unsafe path in DarwinWine archive: "@ + line@);
                }
                return Err(AppError::Runtime(string_from_chars(m.as_slice())));
            }
            if !vecs_contain(&entries, entry.as_slice()) {
                let ghost before = char_vecs(entries@);
                entries.push(entry);
                assert(char_vecs(entries@) =~= before.push(trim(line@)));
            }
        }
        k = k + 1;
    }
    assert(ls.take(k as int) =~= ls);
    if entries.len() == 0 {
        return Err(AppError::Runtime(owned("DarwinWine archive is empty")));
    }
    Ok(entries)
}

/// Once a prefix of the listing is refused, the whole listing is, with the
/// same message.
proof fn lemma_archive_error_sticks(ls: Seq<Seq<char>>, k: int, m: Seq<char>)
    requires
        0 <= k <= ls.len(),
        archive_entries(ls.take(k)) == Err::<Seq<Seq<char>>, Seq<char>>(m),
    ensures
        archive_entries(ls) == Err::<Seq<Seq<char>>, Seq<char>>(m),
    decreases ls.len() - k,
{
    if k < ls.len() {
        assert(ls.take(k + 1).drop_last() =~= ls.take(k));
        lemma_archive_error_sticks(ls, k + 1, m);
    } else {
        assert(ls.take(k) =~= ls);
    }
}

/// An accepted runtime archive lists only safe relative paths: each entry
/// it gives back is non-empty, neither absolute nor climbing with `..`, and
/// listed once.
pub proof fn lemma_accepted_archive_is_safe(lines: Seq<Seq<char>>)
    ensures
        archive_entries(lines) matches Ok(es) ==> (forall|i: int|
            0 <= i < es.len() ==> #[trigger] es[i].len() > 0 && !unsafe_archive_entry(es[i])),
        archive_entries(lines) matches Ok(es) ==> es.no_duplicates(),
    decreases lines.len(),
{
    if lines.len() > 0 {
        lemma_accepted_archive_is_safe(lines.drop_last());
        match archive_entries(lines.drop_last()) {
            Ok(acc) => {
                let entry = trim(lines.last());
                if entry.len() > 0 && !unsafe_archive_entry(entry) && !acc.contains(entry) {
                    let es = acc.push(entry);
                    assert forall|i: int, j: int| 0 <= i < es.len() && 0 <= j < es.len() && i != j
                        implies es[i] != es[j] by {
                        if i == acc.len() as int {
                            assert(acc[j] == es[j]);
                        } else if j == acc.len() as int {
                            assert(acc[i] == es[i]);
                        }
                    }
                    assert forall|i: int| 0 <= i < es.len() implies #[trigger] es[i].len() > 0
                        && !unsafe_archive_entry(es[i]) by {
                        if i < acc.len() {
                            assert(es[i] == acc[i]);
                        }
                    }
                }
            },
            Err(_) => {},
        }
    }
}

/// The entry a line of `tar -xv` output names: without a leading `x `,
/// trimmed.
pub open spec fn extracted_entry_of(line: Seq<char>) -> Seq<char> {
    if seq_starts_with(line, "x "@) {
        trim(line.skip(2))
    } else {
        trim(line)
    }
}

pub fn extracted_entry(line: &str) -> (r: Vec<char>)
    ensures
        r@ == extracted_entry_of(line@),
{
    let l = chars_of(line);
    let p = chars_of("x ");
    proof {
        reveal_strlit("x ");
    }
    if starts_with(l.as_slice(), p.as_slice()) {
        let rest = sub_chars(l.as_slice(), 2, l.len());
        assert(rest@ =~= line@.skip(2));
        trim_chars(rest.as_slice())
    } else {
        trim_chars(l.as_slice())
    }
}

} // verus!

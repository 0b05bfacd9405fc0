//! Declarative per-game compatibility fixes. Every entry is data and carries
//! the reason it exists; the fixes are applied on every launch, so a
//! recreated prefix heals itself. The only fix kind is a per-executable DLL
//! override under `HKCU\Software\Wine\AppDefaults\<exe>\DllOverrides`,
//! written with `reg.exe` inside the prefix.

use crate::error::AppError;
use crate::text::{
    chars_of, decimal, decimal_u64, ends_with, is_ascii_alnum, lower_chars, lower_seq, owned,
    push_chars, push_str, seq_ends_with, string_from_chars,
};
use crate::pe::strs;
use vstd::prelude::*;

verus! {

/// The registry command that writes the overrides, inside the prefix.
pub const REG_EXE: &'static str = "C:\\windows\\system32\\reg.exe";

/// Seconds allowed for one `reg.exe` run: a cold prefix boots wineserver
/// first.
pub const REG_TIMEOUT_SECS: u64 = 180;

/// Wine's DLL override vocabulary.
#[derive(Debug, Clone, Copy, PartialEq, Eq, Structural)]
pub enum OverrideMode {
    /// The DLL never loads (registry value "").
    Disabled,
    Native,
    Builtin,
    NativeThenBuiltin,
    BuiltinThenNative,
}

pub open spec fn registry_text(m: OverrideMode) -> Seq<char> {
    match m {
        OverrideMode::Disabled => ""@,
        OverrideMode::Native => "native"@,
        OverrideMode::Builtin => "builtin"@,
        OverrideMode::NativeThenBuiltin => "native,builtin"@,
        OverrideMode::BuiltinThenNative => "builtin,native"@,
    }
}

pub open spec fn label_text(m: OverrideMode) -> Seq<char> {
    match m {
        OverrideMode::Disabled => "disabled"@,
        OverrideMode::Native => "native"@,
        OverrideMode::Builtin => "builtin"@,
        OverrideMode::NativeThenBuiltin => "native,builtin"@,
        OverrideMode::BuiltinThenNative => "builtin,native"@,
    }
}

impl OverrideMode {
    /// The value Wine reads from the registry.
    pub fn registry_value(self) -> (r: &'static str)
        ensures
            r@ == registry_text(self),
    {
        match self {
            OverrideMode::Disabled => "",
            OverrideMode::Native => "native",
            OverrideMode::Builtin => "builtin",
            OverrideMode::NativeThenBuiltin => "native,builtin",
            OverrideMode::BuiltinThenNative => "builtin,native",
        }
    }

    /// How reports name the mode.
    pub fn label(self) -> (r: &'static str)
        ensures
            r@ == label_text(self),
    {
        match self {
            OverrideMode::Disabled => "disabled",
            OverrideMode::Native => "native",
            OverrideMode::Builtin => "builtin",
            OverrideMode::NativeThenBuiltin => "native,builtin",
            OverrideMode::BuiltinThenNative => "builtin,native",
        }
    }
}

#[derive(Debug, Clone, Copy)]
pub struct DllOverride {
    pub dll: &'static str,
    pub mode: OverrideMode,
}

#[derive(Debug, Clone, Copy)]
pub struct GameFix {
    pub app_id: u32,
    pub title: &'static str,
    /// Image name Wine matches for `AppDefaults`, e.g. "DD2.exe".
    pub executable: &'static str,
    pub dll_overrides: &'static [DllOverride],
    pub reason: &'static str,
}

/// What a fix looks like in a compatibility profile.
#[derive(Debug, Clone, PartialEq, Eq)]
pub struct GameFixReport {
    pub executable: String,
    pub dll_overrides: Vec<String>,
    pub reason: String,
}

pub open spec fn dd2_reason() -> Seq<char> {
    "D3DMetal ships nvapi64.dll, which sends NVIDIA Streamline down the NVAPI path; on D3DMetal it then dereferences an unproxied ID3D12CommandQueue and crashes at launch. Hiding nvapi64 for this executable makes Streamline pass through. DLSS is reported unsupported on this hardware either way."@
}

/// The one known fix: Dragon's Dogma 2 with `nvapi64` disabled.
pub open spec fn is_dragons_dogma_2_fix(f: GameFix) -> bool {
    &&& f.app_id == 2054970
    &&& f.title@ == "Dragon's Dogma 2"@
    &&& f.executable@ == "DD2.exe"@
    &&& f.dll_overrides@.len() == 1
    &&& f.dll_overrides@[0].dll@ == "nvapi64"@
    &&& f.dll_overrides@[0].mode == OverrideMode::Disabled
    &&& f.reason@ == dd2_reason()
}

/// The fix database.
pub fn known_fixes() -> (r: Vec<GameFix>)
    ensures
        r@.len() == 1,
        is_dragons_dogma_2_fix(r@[0]),
{
    let mut v: Vec<GameFix> = Vec::new();
    v.push(
        GameFix {
            app_id: 2054970,
            title: "Dragon's Dogma 2",
            executable: "DD2.exe",
            dll_overrides: &[DllOverride { dll: "nvapi64", mode: OverrideMode::Disabled }],
            reason: "D3DMetal ships nvapi64.dll, which sends NVIDIA Streamline down the NVAPI path; on D3DMetal it then dereferences an unproxied ID3D12CommandQueue and crashes at launch. Hiding nvapi64 for this executable makes Streamline pass through. DLSS is reported unsupported on this hardware either way.",
        },
    );
    v
}

/// The known fixes of an app.
pub fn fixes_for(app_id: u32) -> (r: Vec<GameFix>)
    ensures
        r@.len() == (if app_id == 2054970 {
            1int
        } else {
            0
        }),
        forall|k: int| 0 <= k < r@.len() ==> is_dragons_dogma_2_fix(#[trigger] r@[k]),
{
    let all = known_fixes();
    let mut r: Vec<GameFix> = Vec::new();
    let mut i: usize = 0;
    while i < all.len()
        invariant
            i <= all@.len() == 1,
            is_dragons_dogma_2_fix(all@[0]),
            r@.len() == (if i == 1 && app_id == 2054970 {
                1int
            } else {
                0
            }),
            forall|k: int| 0 <= k < r@.len() ==> is_dragons_dogma_2_fix(#[trigger] r@[k]),
        decreases all@.len() - i,
    {
        if all[i].app_id == app_id {
            r.push(all[i]);
        }
        i = i + 1;
    }
    r
}

/// `dll=label` for one override.
pub open spec fn override_text(dll: Seq<char>, mode: OverrideMode) -> Seq<char> {
    dll + "="@ + label_text(mode)
}

pub open spec fn override_texts(os: Seq<DllOverride>) -> Seq<Seq<char>> {
    os.map_values(|o: DllOverride| override_text(o.dll@, o.mode))
}

fn override_line(o: &DllOverride) -> (r: String)
    ensures
        r@ == override_text(o.dll@, o.mode),
{
    let mut v = chars_of(o.dll);
    push_str(&mut v, "=");
    push_str(&mut v, o.mode.label());
    string_from_chars(v.as_slice())
}

fn override_lines(fix: &GameFix) -> (r: Vec<String>)
    ensures
        strs(r@) == override_texts(fix.dll_overrides@),
{
    let mut r: Vec<String> = Vec::new();
    let mut i: usize = 0;
    while i < fix.dll_overrides.len()
        invariant
            i <= fix.dll_overrides@.len(),
            strs(r@) == override_texts(fix.dll_overrides@.take(i as int)),
        decreases fix.dll_overrides@.len() - i,
    {
        let line = override_line(&fix.dll_overrides[i]);
        let ghost before = r@;
        r.push(line);
        assert(strs(r@) =~= strs(before).push(line@));
        assert(override_texts(fix.dll_overrides@.take(i + 1)) =~= override_texts(
            fix.dll_overrides@.take(i as int),
        ).push(override_text(fix.dll_overrides@[i as int].dll@, fix.dll_overrides@[i as int].mode)));
        i = i + 1;
    }
    assert(fix.dll_overrides@.take(i as int) =~= fix.dll_overrides@);
    r
}

/// The report of the Dragon's Dogma 2 fix.
pub open spec fn dragons_dogma_2_report(r: GameFixReport) -> bool {
    &&& r.executable@ == "DD2.exe"@
    &&& strs(r.dll_overrides@) == seq![override_text("nvapi64"@, OverrideMode::Disabled)]
    &&& r.reason@ == dd2_reason()
}

/// The reports of an app's fixes, in database order.
pub fn reports_for(app_id: u32) -> (r: Vec<GameFixReport>)
    ensures
        r@.len() == (if app_id == 2054970 {
            1int
        } else {
            0
        }),
        forall|k: int| 0 <= k < r@.len() ==> dragons_dogma_2_report(#[trigger] r@[k]),
{
    let fixes = fixes_for(app_id);
    let mut r: Vec<GameFixReport> = Vec::new();
    let mut i: usize = 0;
    while i < fixes.len()
        invariant
            i <= fixes@.len(),
            fixes@.len() <= 1,
            forall|k: int| 0 <= k < fixes@.len() ==> is_dragons_dogma_2_fix(#[trigger] fixes@[k]),
            r@.len() == i,
            forall|k: int| 0 <= k < r@.len() ==> dragons_dogma_2_report(#[trigger] r@[k]),
        decreases fixes@.len() - i,
    {
        let fix = &fixes[i];
        let report = GameFixReport {
            executable: owned(fix.executable),
            dll_overrides: override_lines(fix),
            reason: owned(fix.reason),
        };
        assert(fix.dll_overrides@.len() == 1);
        assert(override_texts(fix.dll_overrides@) =~= seq![override_text("nvapi64"@, OverrideMode::Disabled)]);
        r.push(report);
        i = i + 1;
    }
    r
}

/// The registry key of an executable's DLL overrides.
pub open spec fn override_key(executable: Seq<char>) -> Seq<char> {
    "HKCU\\Software\\Wine\\AppDefaults\\"@ + executable + "\\DllOverrides"@
}

/// The `reg.exe` arguments that write one override.
pub open spec fn registry_command(executable: Seq<char>, dll: Seq<char>, mode: OverrideMode) -> Seq<
    Seq<char>,
> {
    seq![
        "add"@,
        override_key(executable),
        "/v"@,
        dll,
        "/t"@,
        "REG_SZ"@,
        "/d"@,
        registry_text(mode),
        "/f"@,
    ]
}

fn registry_command_of(executable: &str, o: &DllOverride) -> (r: Vec<String>)
    ensures
        strs(r@) == registry_command(executable@, o.dll@, o.mode),
{
    let mut key = chars_of("HKCU\\Software\\Wine\\AppDefaults\\");
    push_str(&mut key, executable);
    push_str(&mut key, "\\DllOverrides");
    let mut v: Vec<String> = Vec::new();
    v.push(owned("add"));
    v.push(string_from_chars(key.as_slice()));
    v.push(owned("/v"));
    v.push(owned(o.dll));
    v.push(owned("/t"));
    v.push(owned("REG_SZ"));
    v.push(owned("/d"));
    v.push(owned(o.mode.registry_value()));
    v.push(owned("/f"));
    assert(strs(v@) =~= registry_command(executable@, o.dll@, o.mode));
    v
}

/// Registry command lines for one fix: one `reg.exe add` argument vector per
/// DLL override, in order. Arguments are never joined into a shell line.
pub fn registry_arguments(fix: &GameFix) -> (r: Vec<Vec<String>>)
    ensures
        r@.len() == fix.dll_overrides@.len(),
        forall|k: int|
            0 <= k < r@.len() ==> strs(#[trigger] r@[k]@) == registry_command(
                fix.executable@,
                fix.dll_overrides@[k].dll@,
                fix.dll_overrides@[k].mode,
            ),
{
    let mut r: Vec<Vec<String>> = Vec::new();
    let mut i: usize = 0;
    while i < fix.dll_overrides.len()
        invariant
            i <= fix.dll_overrides@.len(),
            r@.len() == i,
            forall|k: int|
                0 <= k < i ==> strs(#[trigger] r@[k]@) == registry_command(
                    fix.executable@,
                    fix.dll_overrides@[k].dll@,
                    fix.dll_overrides@[k].mode,
                ),
        decreases fix.dll_overrides@.len() - i,
    {
        let command = registry_command_of(fix.executable, &fix.dll_overrides[i]);
        r.push(command);
        i = i + 1;
    }
    r
}

/// A DLL name a fix may override: ASCII letters, digits, `_`, `-`, `.`.
pub open spec fn dll_name_ok(d: Seq<char>) -> bool {
    d.len() > 0 && forall|i: int|
        0 <= i < d.len() ==> is_ascii_alnum(#[trigger] d[i]) || d[i] == '_' || d[i] == '-' || d[i]
            == '.'
}

/// An executable name a fix may target: a bare `.exe` file name.
pub open spec fn fix_executable_ok(e: Seq<char>) -> bool {
    &&& e.len() > 0
    &&& seq_ends_with(lower_seq(e), ".exe"@)
    &&& !e.contains('/')
    &&& !e.contains('\\')
    &&& !e.contains(':')
    &&& !e.contains('\0')
}

pub open spec fn fix_ok(f: GameFix) -> bool {
    &&& fix_executable_ok(f.executable@)
    &&& f.dll_overrides@.len() > 0
    &&& forall|k: int| 0 <= k < f.dll_overrides@.len() ==> dll_name_ok(#[trigger] f.dll_overrides@[k].dll@)
}

pub open spec fn invalid_fix_text(app_id: u32) -> Seq<char> {
    "invalid game fix entry for Steam app "@ + decimal(app_id as nat)
}

fn dll_name_valid(d: &str) -> (r: bool)
    ensures
        r == dll_name_ok(d@),
{
    let v = chars_of(d);
    if v.len() == 0 {
        return false;
    }
    let mut i: usize = 0;
    while i < v.len()
        invariant
            i <= v@.len(),
            v@ == d@,
            forall|j: int|
                0 <= j < i ==> is_ascii_alnum(#[trigger] v@[j]) || v@[j] == '_' || v@[j] == '-'
                    || v@[j] == '.',
        decreases v@.len() - i,
    {
        let c = v[i];
        if !(crate::text::ascii_alnum(c) || c == '_' || c == '-' || c == '.') {
            return false;
        }
        i = i + 1;
    }
    true
}

/// Refuses a database entry that could escape the registry key or name no
/// DLL.
pub fn validate_fix(fix: &GameFix) -> (r: Result<(), AppError>)
    ensures
        fix_ok(*fix) ==> r is Ok,
        !fix_ok(*fix) ==> (r matches Err(AppError::InvalidCompatibilityProfile(t)) && t@
            == invalid_fix_text(fix.app_id)),
{
    let e = chars_of(fix.executable);
    let lower = lower_chars(e.as_slice());
    let exe = chars_of(".exe");
    let executable_ok = e.len() > 0 && ends_with(lower.as_slice(), exe.as_slice())
        && !crate::text::contains_char(e.as_slice(), '/') && !crate::text::contains_char(
        e.as_slice(),
        '\\',
    ) && !crate::text::contains_char(e.as_slice(), ':') && !crate::text::contains_char(
        e.as_slice(),
        '\0',
    );
    let mut dlls_ok = fix.dll_overrides.len() > 0;
    let mut i: usize = 0;
    while i < fix.dll_overrides.len()
        invariant
            i <= fix.dll_overrides@.len(),
            dlls_ok == (fix.dll_overrides@.len() > 0 && forall|k: int|
                0 <= k < i ==> dll_name_ok(#[trigger] fix.dll_overrides@[k].dll@)),
        decreases fix.dll_overrides@.len() - i,
    {
        let ok = dll_name_valid(fix.dll_overrides[i].dll);
        dlls_ok = dlls_ok && ok;
        i = i + 1;
    }
    if executable_ok && dlls_ok {
        Ok(())
    } else {
        let mut m = chars_of("invalid game fix entry for Steam app ");
        push_chars(&mut m, decimal_u64(fix.app_id as u64).as_slice());
        Err(AppError::InvalidCompatibilityProfile(string_from_chars(m.as_slice())))
    }
}

/// One fix to apply: the `reg.exe` runs, in order, and the line that
/// reports it once they have succeeded.
#[derive(Debug)]
pub struct FixPlan {
    pub commands: Vec<Vec<String>>,
    pub applied: String,
}

/// The words of `items` joined by `", "`.
pub open spec fn joined(items: Seq<Seq<char>>) -> Seq<char>
    decreases items.len(),
{
    if items.len() == 0 {
        seq![]
    } else if items.len() == 1 {
        items[0]
    } else {
        joined(items.drop_last()) + ", "@ + items.last()
    }
}

fn join_lines(items: &Vec<String>) -> (r: Vec<char>)
    ensures
        r@ == joined(strs(items@)),
{
    let ghost s = strs(items@);
    let mut r: Vec<char> = Vec::new();
    let mut i: usize = 0;
    while i < items.len()
        invariant
            i <= items@.len(),
            s == strs(items@),
            r@ == joined(s.take(i as int)),
        decreases items@.len() - i,
    {
        assert(s.take(i + 1).drop_last() =~= s.take(i as int));
        assert(s[i as int] == items@[i as int]@);
        if i > 0 {
            push_str(&mut r, ", ");
        }
        push_chars(&mut r, crate::text::string_chars(&items[i]).as_slice());
        i = i + 1;
        assert(r@ =~= joined(s.take(i as int)));
    }
    assert(s.take(i as int) =~= s);
    r
}

pub open spec fn applied_text(f: GameFix) -> Seq<char> {
    "Applied compatibility fix for "@ + f.title@ + " ("@ + f.executable@ + "): "@ + joined(
        override_texts(f.dll_overrides@),
    )
}

/// `p` applies fix `f`.
pub open spec fn plan_of(f: GameFix, p: FixPlan) -> bool {
    &&& p.commands@.len() == f.dll_overrides@.len()
    &&& forall|k: int|
        0 <= k < p.commands@.len() ==> strs(#[trigger] p.commands@[k]@) == registry_command(
            f.executable@,
            f.dll_overrides@[k].dll@,
            f.dll_overrides@[k].mode,
        )
    &&& p.applied@ == applied_text(f)
}

/// The plan of the Dragon's Dogma 2 fix: one `reg.exe` run that disables
/// `nvapi64` for `DD2.exe`.
pub open spec fn dragons_dogma_2_plan(p: FixPlan) -> bool {
    &&& p.commands@.len() == 1
    &&& strs(p.commands@[0]@) == registry_command("DD2.exe"@, "nvapi64"@, OverrideMode::Disabled)
    &&& p.applied@ == dragons_dogma_2_applied()
}

/// The line a compatibility profile and a launch give for the Dragon's
/// Dogma 2 fix.
pub open spec fn dragons_dogma_2_applied() -> Seq<char> {
    "Applied compatibility fix for "@ + "Dragon's Dogma 2"@ + " ("@ + "DD2.exe"@ + "): "@
        + override_text("nvapi64"@, OverrideMode::Disabled)
}

/// The lines of the known fixes of an app, in database order.
pub open spec fn applied_texts(app_id: u32) -> Seq<Seq<char>> {
    if app_id == 2054970 {
        seq![dragons_dogma_2_applied()]
    } else {
        seq![]
    }
}

/// The reports of the known fixes of an app, in database order.
pub open spec fn known_fix_reports(app_id: u32, reports: Seq<GameFixReport>) -> bool {
    &&& reports.len() == (if app_id == 2054970 {
        1int
    } else {
        0
    })
    &&& forall|k: int| 0 <= k < reports.len() ==> dragons_dogma_2_report(#[trigger] reports[k])
}

/// The plans of the known fixes of an app, in database order.
pub open spec fn known_fix_plans(app_id: u32, plans: Seq<FixPlan>) -> bool {
    &&& plans.len() == (if app_id == 2054970 {
        1int
    } else {
        0
    })
    &&& forall|k: int| 0 <= k < plans.len() ==> dragons_dogma_2_plan(#[trigger] plans[k])
}

/// How to apply every known fix of an app to a prefix: the plans of the
/// fixes in order, up to the first entry that fails validation, and that
/// entry's error. The program runs each plan's commands with `reg.exe` in
/// the prefix and reports the `applied` lines.
pub fn apply(app_id: u32) -> (r: (Vec<FixPlan>, Option<AppError>))
    ensures
        r.0@.len() == (if app_id == 2054970 {
            1int
        } else {
            0
        }),
        r.1 is None,
        forall|k: int| 0 <= k < r.0@.len() ==> dragons_dogma_2_plan(#[trigger] r.0@[k]),
{
    let fixes = fixes_for(app_id);
    let mut plans: Vec<FixPlan> = Vec::new();
    let mut i: usize = 0;
    while i < fixes.len()
        invariant
            i <= fixes@.len() <= 1,
            forall|k: int| 0 <= k < fixes@.len() ==> is_dragons_dogma_2_fix(#[trigger] fixes@[k]),
            plans@.len() == i,
            forall|k: int| 0 <= k < plans@.len() ==> dragons_dogma_2_plan(#[trigger] plans@[k]),
        decreases fixes@.len() - i,
    {
        let fix = &fixes[i];
        match validate_fix(fix) {
            Ok(()) => {},
            Err(e) => {
                proof {
                    reveal_strlit("DD2.exe");
                    reveal_strlit("nvapi64");
                    reveal_strlit(".exe");
                    assert(lower_seq(fix.executable@).subrange(3, 7) =~= ".exe"@);
                    assert(dll_name_ok(fix.dll_overrides@[0].dll@));
                    assert(fix_ok(*fix));
                }
                return (plans, Some(e));
            },
        }
        let commands = registry_arguments(fix);
        let lines = override_lines(fix);
        let mut text = chars_of("Applied compatibility fix for ");
        push_str(&mut text, fix.title);
        push_str(&mut text, " (");
        push_str(&mut text, fix.executable);
        push_str(&mut text, "): ");
        push_chars(&mut text, join_lines(&lines).as_slice());
        let plan = FixPlan { commands, applied: string_from_chars(text.as_slice()) };
        assert(override_texts(fix.dll_overrides@) =~= seq![override_text("nvapi64"@, OverrideMode::Disabled)]);
        assert(joined(seq![override_text("nvapi64"@, OverrideMode::Disabled)]) == override_text(
            "nvapi64"@,
            OverrideMode::Disabled,
        ));
        assert(plan_of(*fix, plan));
        plans.push(plan);
        i = i + 1;
    }
    (plans, None)
}

/// The `applied` lines of the known fixes of an app, in database order: what
/// its compatibility profile lists among its reasons.
pub fn applied_lines(app_id: u32) -> (r: Vec<String>)
    ensures
        strs(r@) == applied_texts(app_id),
{
    let (plans, _) = apply(app_id);
    let mut r: Vec<String> = Vec::new();
    let mut i: usize = 0;
    while i < plans.len()
        invariant
            i <= plans@.len(),
            plans@.len() == applied_texts(app_id).len(),
            forall|k: int| 0 <= k < plans@.len() ==> dragons_dogma_2_plan(#[trigger] plans@[k]),
            strs(r@) == applied_texts(app_id).take(i as int),
        decreases plans@.len() - i,
    {
        let ghost before = strs(r@);
        let line = plans[i].applied.clone();
        assert(dragons_dogma_2_plan(plans@[i as int]));
        assert(line@ == applied_texts(app_id)[i as int]);
        r.push(line);
        assert(strs(r@) =~= before.push(line@));
        assert(applied_texts(app_id).take(i + 1) =~= applied_texts(app_id).take(i as int).push(
            applied_texts(app_id)[i as int],
        ));
        i = i + 1;
    }
    assert(applied_texts(app_id).take(i as int) =~= applied_texts(app_id));
    r
}

/// What a game's compatibility profile lists among its reasons for its
/// fixes is exactly what its launch reports as applied, fix by fix.
pub proof fn lemma_profile_lines_are_launch_lines(app_id: u32, plans: Seq<FixPlan>)
    requires
        known_fix_plans(app_id, plans),
    ensures
        applied_texts(app_id) == plans.map_values(|p: FixPlan| p.applied@),
{
    assert(applied_texts(app_id) =~= plans.map_values(|p: FixPlan| p.applied@));
}

} // verus!

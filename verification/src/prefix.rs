//! Wine prefixes: one per game, named by a game id, and the drive letters
//! mapped inside them.

use crate::error::AppError;
use crate::text::{
    ascii_alnum, chars_of, is_ascii_alnum, join_path, lower_char, owned, path_join, push_str,
    string_from_chars,
};
use vstd::prelude::*;

verus! {

/// Where the runtime keeps its data: `$DARWINPLAY_HOME` when set, else
/// `~/Library/Application Support/DarwinPlay`.
pub fn application_support(darwinplay_home: Option<&str>, home: Option<&str>) -> (r: Result<
    String,
    AppError,
>)
    ensures
        match darwinplay_home {
            Some(d) => r matches Ok(p) && p@ == d@,
            None => match home {
                Some(h) => r matches Ok(p) && p@ == path_join(
                    path_join(path_join(h@, "Library"@), "Application Support"@),
                    "DarwinPlay"@,
                ),
                None => r matches Err(AppError::HomeNotSet),
            },
        },
{
    match darwinplay_home {
        Some(d) => Ok(owned(d)),
        None => match home {
            Some(h) => {
                let library = join_path(h, "Library");
                let support = join_path(library.as_str(), "Application Support");
                Ok(join_path(support.as_str(), "DarwinPlay"))
            },
            None => Err(AppError::HomeNotSet),
        },
    }
}

/// A game id names a prefix directory: 1 to 64 ASCII letters, digits, `-`
/// or `_`.
pub open spec fn game_id_ok(v: Seq<char>) -> bool {
    0 < v.len() <= 64 && forall|i: int|
        0 <= i < v.len() ==> is_ascii_alnum(#[trigger] v[i]) || v[i] == '-' || v[i] == '_'
}

pub fn validate_game_id(value: &str) -> (r: Result<(), AppError>)
    ensures
        game_id_ok(value@) ==> r is Ok,
        !game_id_ok(value@) ==> (r matches Err(AppError::InvalidGameId(t)) && t@ == value@),
{
    let v = chars_of(value);
    let mut ok = v.len() > 0 && v.len() <= 64;
    let mut i: usize = 0;
    while i < v.len()
        invariant
            i <= v@.len(),
            v@ == value@,
            ok == (0 < v@.len() <= 64 && forall|j: int|
                0 <= j < i ==> is_ascii_alnum(#[trigger] v@[j]) || v@[j] == '-' || v@[j] == '_'),
        decreases v@.len() - i,
    {
        let c = v[i];
        ok = ok && (ascii_alnum(c) || c == '-' || c == '_');
        i = i + 1;
    }
    if ok {
        Ok(())
    } else {
        Err(AppError::InvalidGameId(owned(value)))
    }
}

/// The drive letters a game may map: `a` to `z` but `c` (the system
/// drive) and `z` (the host root), in any case.
pub open spec fn drive_letter(c: char) -> Result<char, Seq<char>> {
    let l = lower_char(c);
    if 'a' <= l <= 'z' && l != 'c' && l != 'z' {
        Ok(l)
    } else {
        Err("invalid Wine drive letter: "@ + seq![l])
    }
}

pub fn validate_drive_letter(value: char) -> (r: Result<char, AppError>)
    ensures
        match drive_letter(value) {
            Ok(l) => r == Ok::<char, AppError>(l),
            Err(m) => r matches Err(AppError::ProcessFailed(t)) && t@ == m,
        },
{
    let lower = crate::text::ascii_lower(value);
    if 'a' <= lower && lower <= 'z' && lower != 'c' && lower != 'z' {
        Ok(lower)
    } else {
        let mut m = chars_of("invalid Wine drive letter: ");
        m.push(lower);
        Err(AppError::ProcessFailed(string_from_chars(m.as_slice())))
    }
}

/// The entry of a drive in a prefix: `dosdevices/<letter>:`.
pub open spec fn drive_mapping(prefix: Seq<char>, letter: char) -> Seq<char> {
    path_join(path_join(prefix, "dosdevices"@), seq![letter, ':'])
}

fn mapping_path(prefix: &str, letter: char) -> (r: String)
    ensures
        r@ == drive_mapping(prefix@, letter),
{
    let dos = join_path(prefix, "dosdevices");
    let mut name: Vec<char> = Vec::new();
    name.push(letter);
    name.push(':');
    crate::text::join_path_chars(dos.as_str(), name.as_slice())
}

/// Where the prefixes live.
pub struct PrefixManager {
    pub root: String,
}

/// The files whose presence makes an initialized prefix usable.
pub open spec fn payload_files(prefix: Seq<char>) -> Seq<Seq<char>> {
    seq![
        path_join(prefix, "drive_c/windows/system32/kernel32.dll"@),
        path_join(prefix, "system.reg"@),
        path_join(prefix, "user.reg"@),
    ]
}

/// What preparing a prefix takes: it is ready, or it is to be created in
/// `staging` (with the `z:` mapping removed and the marker written) and
/// then moved to `path`.
#[derive(Debug)]
pub enum PrefixSetup {
    Ready(String),
    Create { path: String, staging: String, z_mapping: String, marker: String },
}

impl PrefixManager {
    /// Prefixes live in `prefixes` below the application support directory.
    pub fn new(application_support: &str) -> (r: PrefixManager)
        ensures
            r.root@ == path_join(application_support@, "prefixes"@),
    {
        PrefixManager { root: join_path(application_support, "prefixes") }
    }

    /// The prefix directory of a game.
    pub fn path(&self, game_id: &str) -> (r: Result<String, AppError>)
        ensures
            game_id_ok(game_id@) ==> (r matches Ok(p) && p@ == path_join(self.root@, game_id@)),
            !game_id_ok(game_id@) ==> (r matches Err(AppError::InvalidGameId(t)) && t@ == game_id@),
    {
        validate_game_id(game_id)?;
        Ok(join_path(self.root.as_str(), game_id))
    }

    /// The files that must exist in a usable prefix.
    pub fn payload_files(&self, prefix: &str) -> (r: Vec<String>)
        ensures
            crate::pe::strs(r@) == payload_files(prefix@),
    {
        let mut v: Vec<String> = Vec::new();
        v.push(join_path(prefix, "drive_c/windows/system32/kernel32.dll"));
        v.push(join_path(prefix, "system.reg"));
        v.push(join_path(prefix, "user.reg"));
        assert(crate::pe::strs(v@) =~= payload_files(prefix@));
        v
    }

    /// How to make a game's prefix usable. `marker_present` says whether it
    /// holds the initialization marker and `payload_ready` whether all of
    /// `payload_files` exist; `pid` names the staging directory.
    pub fn ensure(&self, game_id: &str, marker_present: bool, payload_ready: bool, pid: u32) -> (r:
        Result<PrefixSetup, AppError>)
        ensures
            !game_id_ok(game_id@) ==> (r matches Err(AppError::InvalidGameId(t)) && t@ == game_id@),
            game_id_ok(game_id@) && marker_present && payload_ready ==> (r matches Ok(
                PrefixSetup::Ready(p),
            ) && p@ == path_join(self.root@, game_id@)),
            game_id_ok(game_id@) && marker_present && !payload_ready ==> (r matches Err(
                AppError::CorruptPrefix(t),
            ) && t@ == path_join(self.root@, game_id@)),
            game_id_ok(game_id@) && !marker_present ==> (r matches Ok(
                PrefixSetup::Create { path, staging, z_mapping, marker },
            ) && path@ == path_join(self.root@, game_id@) && staging@ == path_join(
                self.root@,
                "."@ + game_id@ + ".creating-"@ + crate::text::decimal(pid as nat),
            ) && z_mapping@ == drive_mapping(staging@, 'z') && marker@ == path_join(
                staging@,
                ".darwinplay-initialized"@,
            )),
    {
        let path = self.path(game_id)?;
        if marker_present {
            if payload_ready {
                return Ok(PrefixSetup::Ready(path));
            }
            return Err(AppError::CorruptPrefix(path));
        }
        let mut name = chars_of(".");
        push_str(&mut name, game_id);
        push_str(&mut name, ".creating-");
        crate::text::push_chars(&mut name, crate::text::decimal_u64(pid as u64).as_slice());
        let staging = crate::text::join_path_chars(self.root.as_str(), name.as_slice());
        let z_mapping = mapping_path(staging.as_str(), 'z');
        let marker = join_path(staging.as_str(), ".darwinplay-initialized");
        Ok(PrefixSetup::Create { path, staging, z_mapping, marker })
    }

    /// Maps the directory of a game's executable to drive `g:`; `parent` is
    /// the executable's parent directory (`Path::parent`), if it has one.
    pub fn bind_game_drive(&self, prefix: &str, executable: &str, parent: Option<&str>, parent_is_dir: bool) -> (r:
        Result<String, AppError>)
        ensures
            match parent {
                None => r matches Err(AppError::MissingParent(t)) && t@ == executable@,
                Some(d) => if parent_is_dir {
                    r matches Ok(m) && m@ == drive_mapping(prefix@, 'g')
                } else {
                    r matches Err(AppError::InvalidDirectory(t)) && t@ == d@
                },
            },
    {
        match parent {
            None => Err(AppError::MissingParent(owned(executable))),
            Some(d) => self.bind_drive(prefix, 'g', d, parent_is_dir),
        }
    }

    /// The prefix entry to point at `directory` for `drive`.
    pub fn bind_drive(&self, prefix: &str, drive: char, directory: &str, directory_is_dir: bool) -> (r:
        Result<String, AppError>)
        ensures
            match drive_letter(drive) {
                Err(m) => r matches Err(AppError::ProcessFailed(t)) && t@ == m,
                Ok(l) => if directory_is_dir {
                    r matches Ok(p) && p@ == drive_mapping(prefix@, l)
                } else {
                    r matches Err(AppError::InvalidDirectory(t)) && t@ == directory@
                },
            },
    {
        let letter = validate_drive_letter(drive)?;
        if !directory_is_dir {
            return Err(AppError::InvalidDirectory(owned(directory)));
        }
        Ok(mapping_path(prefix, letter))
    }

    /// The prefix entry to remove for `drive`.
    pub fn unbind_drive(&self, prefix: &str, drive: char) -> (r: Result<String, AppError>)
        ensures
            match drive_letter(drive) {
                Err(m) => r matches Err(AppError::ProcessFailed(t)) && t@ == m,
                Ok(l) => r matches Ok(p) && p@ == drive_mapping(prefix@, l),
            },
    {
        let letter = validate_drive_letter(drive)?;
        Ok(mapping_path(prefix, letter))
    }

    /// The prefix directory to delete when a game's prefix is reset.
    pub fn reset(&self, game_id: &str) -> (r: Result<String, AppError>)
        ensures
            game_id_ok(game_id@) ==> (r matches Ok(p) && p@ == path_join(self.root@, game_id@)),
            !game_id_ok(game_id@) ==> (r matches Err(AppError::InvalidGameId(t)) && t@ == game_id@),
    {
        self.path(game_id)
    }
}

/// The leading ASCII digits of a text.
pub open spec fn digit_run(s: Seq<char>) -> Seq<char>
    decreases s.len(),
{
    if s.len() > 0 && crate::text::is_ascii_digit(s[0]) {
        seq![s[0]] + digit_run(s.drop_first())
    } else {
        seq![]
    }
}

/// The major Wine version in what `wine --version` reports
/// (`wine-<major>.<minor> ...`): the digits that lead it after `wine-`.
pub open spec fn wine_major(version: Seq<char>) -> Seq<char> {
    digit_run(
        if crate::text::seq_starts_with(version, "wine-"@) {
            version.skip(5)
        } else {
            version
        },
    )
}

/// A prefix suits the runtime when both report the same major Wine version;
/// when either has none, only when the reports are equal.
pub open spec fn runtime_suits(recorded: Seq<char>, current: Seq<char>) -> bool {
    let a = wine_major(recorded);
    let b = wine_major(current);
    if a.len() > 0 && b.len() > 0 {
        a == b
    } else {
        recorded == current
    }
}

proof fn lemma_digit_run_step(s: Seq<char>, i: int)
    requires
        0 <= i < s.len(),
        crate::text::is_ascii_digit(s[i]),
    ensures
        digit_run(s.skip(i)) == seq![s[i]] + digit_run(s.skip(i + 1)),
{
    assert(s.skip(i).drop_first() =~= s.skip(i + 1));
}

fn major_of(v: &[char]) -> (r: Vec<char>)
    ensures
        r@ == wine_major(v@),
{
    let prefix = chars_of("wine-");
    let start: usize = if crate::text::starts_with(v, prefix.as_slice()) {
        5
    } else {
        0
    };
    proof {
        reveal_strlit("wine-");
    }
    let ghost rest = if crate::text::seq_starts_with(v@, "wine-"@) {
        v@.skip(5)
    } else {
        v@
    };
    assert(rest =~= v@.skip(start as int));
    let mut end: usize = start;
    while end < v.len() && crate::text::ascii_digit(v[end])
        invariant
            start <= end <= v@.len(),
            rest == v@.skip(start as int),
            digit_run(rest) == v@.subrange(start as int, end as int) + digit_run(v@.skip(end as int)),
        decreases v@.len() - end,
    {
        proof {
            lemma_digit_run_step(v@, end as int);
        }
        assert(v@.subrange(start as int, end + 1) =~= v@.subrange(start as int, end as int).push(
            v@[end as int],
        ));
        end = end + 1;
    }
    assert(digit_run(v@.skip(end as int)) =~= Seq::<char>::empty());
    crate::text::sub_chars(v, start, end)
}

/// A prefix records the version of the runtime that created it; it suits a
/// runtime of the same major Wine version (a prefix with no record suits
/// any), and otherwise must be reset.
pub fn check_prefix_runtime(recorded: Option<&str>, current: &str) -> (r: Result<(), AppError>)
    ensures
        match recorded {
            None => r is Ok,
            Some(v) => if runtime_suits(v@, current@) {
                r is Ok
            } else {
                r matches Err(AppError::PrefixRuntimeMismatch(a, b)) && a@ == v@ && b@ == current@
            },
        },
{
    match recorded {
        None => Ok(()),
        Some(v) => {
            let rv = chars_of(v);
            let cv = chars_of(current);
            let a = major_of(rv.as_slice());
            let b = major_of(cv.as_slice());
            let suits = if a.len() > 0 && b.len() > 0 {
                crate::text::chars_eq(a.as_slice(), b.as_slice())
            } else {
                crate::text::chars_eq(rv.as_slice(), cv.as_slice())
            };
            if suits {
                Ok(())
            } else {
                Err(AppError::PrefixRuntimeMismatch(owned(v), owned(current)))
            }
        },
    }
}

/// Drive letters ignore case: a letter and its lowercase form map the same
/// drive, and no game can map over `c:` or `z:`.
pub proof fn lemma_drive_letters(drive: char)
    ensures
        drive_letter(drive) == drive_letter(lower_char(drive)),
        drive_letter(drive) matches Ok(l) ==> l != 'c' && l != 'z' && 'a' <= l <= 'z',
{
    assert(lower_char(lower_char(drive)) == lower_char(drive));
}

} // verus!

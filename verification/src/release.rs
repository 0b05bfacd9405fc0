//! Choosing and checking a published DarwinWine runtime artifact. The runtime
//! is a GitHub release asset; the feed, the downloads and the hashing are the
//! program's, the choices are made here.

use crate::error::AppError;
use crate::pe::{decode_lossy, utf8_lossy};
use crate::text::{
    ascii_hex, chars_eq, chars_of, decimal, decimal_u64, ends_with, first_word, first_word_chars,
    is_ascii_hex, lower_chars, lower_seq, owned, push_chars, push_str, seq_ends_with,
    seq_starts_with, starts_with, string_chars, string_from_chars,
};
use vstd::prelude::*;

verus! {

/// GitHub caps a single release asset at 2 GiB; anything larger is not ours.
pub const MAX_ARTIFACT_BYTES: u64 = 2 * 1024 * 1024 * 1024;

/// An asset of a GitHub release, as the release feed describes it.
#[derive(Debug, Clone)]
pub struct GithubAsset {
    pub name: String,
    pub browser_download_url: String,
    pub size: u64,
    pub digest: Option<String>,
}

/// A GitHub release: its tag and its assets, in feed order.
#[derive(Debug, Clone)]
pub struct GithubRelease {
    pub tag_name: String,
    pub assets: Vec<GithubAsset>,
}

pub open spec fn asset_names(release: GithubRelease) -> Seq<Seq<char>> {
    release.assets@.map_values(|a: GithubAsset| a.name@)
}

/// The name of a DarwinWine runtime artifact.
pub open spec fn runtime_artifact(name: Seq<char>) -> bool {
    seq_starts_with(name, "DarwinWine-"@) && seq_ends_with(name, "-macos-x86_64.tar.zst"@)
}

/// The first name that satisfies `runtime_artifact`.
pub open spec fn first_artifact(names: Seq<Seq<char>>) -> Option<int> {
    if exists|i: int| 0 <= i < names.len() && runtime_artifact(#[trigger] names[i]) {
        Some(
            choose|i: int|
                0 <= i < names.len() && runtime_artifact(names[i]) && (forall|j: int|
                    0 <= j < i ==> !runtime_artifact(#[trigger] names[j])),
        )
    } else {
        None
    }
}

pub open spec fn no_artifact_text(tag: Seq<char>) -> Seq<char> {
    "release "@ + tag + " has no DarwinWine-*-macos-x86_64.tar.zst asset"@
}

pub open spec fn too_large_text(name: Seq<char>, size: nat) -> Seq<char> {
    "release asset "@ + name + " is implausibly large ("@ + decimal(size) + " bytes)"@
}

fn is_runtime_artifact(name: &String) -> (r: bool)
    ensures
        r == runtime_artifact(name@),
{
    let n = string_chars(name);
    let prefix = chars_of("DarwinWine-");
    let suffix = chars_of("-macos-x86_64.tar.zst");
    starts_with(n.as_slice(), prefix.as_slice()) && ends_with(n.as_slice(), suffix.as_slice())
}

/// The index of the runtime artifact of a release: the first asset named
/// `DarwinWine-*-macos-x86_64.tar.zst`, refused when it is larger than
/// GitHub allows.
pub fn select_runtime_asset(release: &GithubRelease) -> (r: Result<usize, AppError>)
    ensures
        match first_artifact(asset_names(*release)) {
            None => r matches Err(AppError::Release(t)) && t@ == no_artifact_text(release.tag_name@),
            Some(i) => if release.assets@[i].size > MAX_ARTIFACT_BYTES {
                r matches Err(AppError::Release(t)) && t@ == too_large_text(
                    release.assets@[i].name@,
                    release.assets@[i].size as nat,
                )
            } else {
                r == Ok::<usize, AppError>(i as usize)
            },
        },
{
    let ghost names = asset_names(*release);
    let mut i: usize = 0;
    while i < release.assets.len()
        invariant
            i <= release.assets@.len(),
            names == asset_names(*release),
            names.len() == release.assets@.len(),
            forall|j: int| 0 <= j < i ==> !runtime_artifact(#[trigger] names[j]),
        decreases release.assets@.len() - i,
    {
        let asset = &release.assets[i];
        assert(names[i as int] == asset.name@);
        if is_runtime_artifact(&asset.name) {
            proof {
                let c = choose|k: int|
                    0 <= k < names.len() && runtime_artifact(names[k]) && (forall|j: int|
                        0 <= j < k ==> !runtime_artifact(#[trigger] names[j]));
                if c != i as int {
                    if c < i {
                        assert(!runtime_artifact(names[c]));
                    } else {
                        assert(!runtime_artifact(names[i as int]));
                    }
                }
            }
            if asset.size > MAX_ARTIFACT_BYTES {
                let mut m = chars_of("release asset ");
                push_chars(&mut m, string_chars(&asset.name).as_slice());
                push_str(&mut m, " is implausibly large (");
                push_chars(&mut m, decimal_u64(asset.size).as_slice());
                push_str(&mut m, " bytes)");
                return Err(AppError::Release(string_from_chars(m.as_slice())));
            }
            return Ok(i);
        }
        i = i + 1;
    }
    let mut m = chars_of("release ");
    push_chars(&mut m, string_chars(&release.tag_name).as_slice());
    push_str(&mut m, " has no DarwinWine-*-macos-x86_64.tar.zst asset");
    Err(AppError::Release(string_from_chars(m.as_slice())))
}

/// Exactly 64 ASCII hexadecimal digits.
pub open spec fn sha256_hex(s: Seq<char>) -> bool {
    s.len() == 64 && forall|i: int| 0 <= i < s.len() ==> is_ascii_hex(#[trigger] s[i])
}

fn sha256_hex_chars(s: &[char]) -> (r: bool)
    ensures
        r == sha256_hex(s@),
{
    if s.len() != 64 {
        return false;
    }
    let mut i: usize = 0;
    while i < s.len()
        invariant
            i <= s@.len(),
            forall|j: int| 0 <= j < i ==> is_ascii_hex(#[trigger] s@[j]),
        decreases s@.len() - i,
    {
        if !ascii_hex(s[i]) {
            return false;
        }
        i = i + 1;
    }
    true
}

/// Whether a value is a SHA-256 digest written as 64 hexadecimal digits.
pub fn is_sha256_hex(value: &str) -> (r: bool)
    ensures
        r == sha256_hex(value@),
{
    let v = chars_of(value);
    sha256_hex_chars(v.as_slice())
}

/// The URLs a runtime may be downloaded from: HTTPS on GitHub's own hosts.
pub open spec fn allowed_download_url(url: Seq<char>) -> bool {
    seq_starts_with(url, "https://github.com/"@) || seq_starts_with(
        url,
        "https://objects.githubusercontent.com/"@,
    ) || seq_starts_with(url, "https://release-assets.githubusercontent.com/"@)
}

pub fn is_allowed_download_url(url: &str) -> (r: bool)
    ensures
        r == allowed_download_url(url@),
{
    let u = chars_of(url);
    let a = chars_of("https://github.com/");
    let b = chars_of("https://objects.githubusercontent.com/");
    let c = chars_of("https://release-assets.githubusercontent.com/");
    starts_with(u.as_slice(), a.as_slice()) || starts_with(u.as_slice(), b.as_slice())
        || starts_with(u.as_slice(), c.as_slice())
}

/// The check made before a download starts.
pub fn check_download_url(url: &str) -> (r: Result<(), AppError>)
    ensures
        allowed_download_url(url@) ==> r is Ok,
        !allowed_download_url(url@) ==> (r matches Err(AppError::Release(t)) && t@
            == "release asset URL is not an allowed GitHub HTTPS URL"@),
{
    if is_allowed_download_url(url) {
        Ok(())
    } else {
        Err(AppError::Release(owned("release asset URL is not an allowed GitHub HTTPS URL")))
    }
}

/// A digest as GitHub reports it, without its `sha256:` prefix if it has one.
pub open spec fn digest_value(d: Seq<char>) -> Seq<char> {
    if seq_starts_with(d, "sha256:"@) {
        d.skip(7)
    } else {
        d
    }
}

/// The digest GitHub reports for an asset, in lower case, when it is usable.
pub open spec fn reported_digest(d: Seq<char>) -> Option<Seq<char>> {
    if sha256_hex(digest_value(d)) {
        Some(lower_seq(digest_value(d)))
    } else {
        None
    }
}

fn reported_digest_of(digest: &String) -> (r: Option<Vec<char>>)
    ensures
        r matches Some(v) ==> reported_digest(digest@) == Some(v@),
        r is None ==> reported_digest(digest@) is None,
{
    let d = string_chars(digest);
    let prefix = chars_of("sha256:");
    proof {
        reveal_strlit("sha256:");
    }
    let mut value: Vec<char> = Vec::new();
    if starts_with(d.as_slice(), prefix.as_slice()) {
        let mut i: usize = 7;
        while i < d.len()
            invariant
                7 <= i <= d@.len(),
                value@ == d@.subrange(7, i as int),
            decreases d@.len() - i,
        {
            value.push(d[i]);
            i = i + 1;
            assert(value@ =~= d@.subrange(7, i as int));
        }
        assert(value@ =~= digest_value(digest@));
    } else {
        value = d;
    }
    if sha256_hex_chars(value.as_slice()) {
        Some(lower_chars(value.as_slice()))
    } else {
        None
    }
}

/// Where the digest of an artifact comes from: the one GitHub reports, or
/// the `.sha256` sidecar asset at the given index, which the program then
/// downloads and hands to `sidecar_digest`.
#[derive(Debug)]
pub enum DigestSource {
    Reported(String),
    Sidecar(usize),
}

pub open spec fn sidecar_name(name: Seq<char>) -> Seq<char> {
    name + ".sha256"@
}

/// The first asset named `name.sha256`.
pub open spec fn first_named(names: Seq<Seq<char>>, name: Seq<char>) -> Option<int> {
    if exists|i: int| 0 <= i < names.len() && #[trigger] names[i] == name {
        Some(
            choose|i: int|
                0 <= i < names.len() && names[i] == name && (forall|j: int|
                    0 <= j < i ==> #[trigger] names[j] != name),
        )
    } else {
        None
    }
}

pub open spec fn no_checksum_text(tag: Seq<char>, name: Seq<char>) -> Seq<char> {
    "release "@ + tag + " publishes no checksum for "@ + name
}

/// The digest that the artifact at `asset` must have: the one GitHub
/// reports when it is a well-formed SHA-256 digest (older assets have none),
/// else the `.sha256` sidecar published alongside.
pub fn expected_digest(release: &GithubRelease, asset: usize) -> (r: Result<DigestSource, AppError>)
    requires
        asset < release.assets@.len(),
    ensures
        ({
            let a = release.assets@[asset as int];
            let reported = match a.digest {
                Some(d) => reported_digest(d@),
                None => None,
            };
            match reported {
                Some(v) => r matches Ok(DigestSource::Reported(s)) && s@ == v,
                None => match first_named(asset_names(*release), sidecar_name(a.name@)) {
                    Some(j) => r == Ok::<DigestSource, AppError>(DigestSource::Sidecar(j as usize)),
                    None => r matches Err(AppError::Release(t)) && t@ == no_checksum_text(
                        release.tag_name@,
                        a.name@,
                    ),
                },
            }
        }),
{
    let a = &release.assets[asset];
    let ghost reported = match release.assets@[asset as int].digest {
        Some(d) => reported_digest(d@),
        None => None,
    };
    if let Some(d) = &a.digest {
        if let Some(v) = reported_digest_of(d) {
            return Ok(DigestSource::Reported(string_from_chars(v.as_slice())));
        }
    }
    assert(reported is None);
    let mut wanted = string_chars(&a.name);
    push_str(&mut wanted, ".sha256");
    let ghost names = asset_names(*release);
    let ghost target = sidecar_name(a.name@);
    assert(wanted@ == target);
    let mut i: usize = 0;
    while i < release.assets.len()
        invariant
            i <= release.assets@.len(),
            names == asset_names(*release),
            names.len() == release.assets@.len(),
            wanted@ == target,
            asset < release.assets@.len(),
            target == sidecar_name(release.assets@[asset as int].name@),
            reported is None,
            reported == (match release.assets@[asset as int].digest {
                Some(d) => reported_digest(d@),
                None => None,
            }),
            forall|j: int| 0 <= j < i ==> #[trigger] names[j] != target,
        decreases release.assets@.len() - i,
    {
        let candidate = string_chars(&release.assets[i].name);
        assert(names[i as int] == candidate@);
        if chars_eq(candidate.as_slice(), wanted.as_slice()) {
            proof {
                let c = choose|k: int|
                    0 <= k < names.len() && names[k] == target && (forall|j: int|
                        0 <= j < k ==> #[trigger] names[j] != target);
                if c != i as int {
                    if c < i {
                        assert(names[c] != target);
                    } else {
                        assert(names[i as int] != target);
                    }
                }
            }
            assert(first_named(names, target) == Some(i as int));
            return Ok(DigestSource::Sidecar(i));
        }
        i = i + 1;
    }
    let mut m = chars_of("release ");
    push_chars(&mut m, string_chars(&release.tag_name).as_slice());
    push_str(&mut m, " publishes no checksum for ");
    push_chars(&mut m, string_chars(&a.name).as_slice());
    Err(AppError::Release(string_from_chars(m.as_slice())))
}

/// The first word of a checksum listing (`shasum` output or a `.sha256`
/// file), decoded leniently and lowercased.
pub open spec fn listed_digest(bytes: Seq<u8>) -> Seq<char> {
    lower_seq(first_word(utf8_lossy(bytes)))
}

fn listed_digest_of(bytes: &[u8]) -> (r: Vec<char>)
    ensures
        r@ == listed_digest(bytes@),
{
    let text = decode_lossy(bytes);
    let t = string_chars(&text);
    let w = first_word_chars(t.as_slice());
    lower_chars(w.as_slice())
}

/// The digest published in a `.sha256` sidecar file.
pub fn sidecar_digest(contents: &[u8]) -> (r: Result<String, AppError>)
    ensures
        sha256_hex(listed_digest(contents@)) ==> (r matches Ok(s) && s@ == listed_digest(
            contents@,
        )),
        !sha256_hex(listed_digest(contents@)) ==> (r matches Err(AppError::Release(t)) && t@
            == "the published checksum is malformed"@),
{
    let value = listed_digest_of(contents);
    if !sha256_hex_chars(value.as_slice()) {
        return Err(AppError::Release(owned("the published checksum is malformed")));
    }
    Ok(string_from_chars(value.as_slice()))
}

/// Compares the output of `shasum -a 256` with the expected digest.
pub fn check_artifact_digest(shasum_output: &[u8], expected: &str) -> (r: Result<(), AppError>)
    ensures
        listed_digest(shasum_output@) == expected@ ==> r is Ok,
        listed_digest(shasum_output@) != expected@ ==> (r matches Err(AppError::Release(t)) && t@
            == "the downloaded artifact does not match its published checksum"@),
{
    let actual = listed_digest_of(shasum_output);
    let e = chars_of(expected);
    if !chars_eq(actual.as_slice(), e.as_slice()) {
        return Err(
            AppError::Release(owned("the downloaded artifact does not match its published checksum")),
        );
    }
    Ok(())
}

} // verus!

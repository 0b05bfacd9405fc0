//! The runtime's error type.

use vstd::prelude::*;

verus! {

/// Every failure the runtime reports. The program reports failures of the
/// host (I/O, JSON) through `Io` and `Json`, by their message.
#[derive(Debug)]
pub enum AppError {
    RuntimeNotFound,
    Runtime(String),
    InvalidGameId(String),
    InvalidPe(String),
    DxmtNotInstalled,
    CorruptPrefix(String),
    PrefixRuntimeMismatch(String, String),
    SteamNotInstalled,
    SteamInstallationMissing,
    SteamInstallerDownloadFailed,
    SteamGameNotInstalled(u32),
    InvalidVdf(String),
    InvalidCompatibilityProfile(String),
    DxmtPackageMissing(String),
    DxmtRelease(String),
    Release(String),
    InvalidDirectory(String),
    ProcessFailed(String),
    InvalidFile(String),
    MissingParent(String),
    MissingFileName(String),
    HomeNotSet,
    Io(String),
    Json(String),
}

} // verus!

use vstd::prelude::*;

use crate::task::{count_percent, TaskProgress};
use crate::text::copy_str;

verus! {

/// A step of installing an instance, in the order the steps are taken, and
/// how each reports its progress:
/// - `CheckMetadata`: 0 of 1 before the version list is fetched, 1 of 1
///   once the version's metadata is read; then Java is set up (see
///   `java_progress`);
/// - `DownloadClient`: 0 of 1, then 1 of 1;
/// - `DownloadLibraries`: 0 of 1, then `k` of `n` as each of the `n`
///   downloads finishes;
/// - `PrepareNatives`: 0 of `n` native archives, then `k` of `n` as each
///   is unpacked;
/// - `DownloadAssetIndex`: 0 of 1, then 1 of 1;
/// - `DownloadAssets`: like `DownloadLibraries`;
/// - `DownloadLogging`: 0 of 1, then 1 of 1, for a version with a logging
///   configuration;
/// - `Finalize`: 0 of 1, then 1 of 1 once the instance record is written.
#[derive(Clone, Copy, Debug, PartialEq, Eq, Structural)]
pub enum InstallStep {
    CheckMetadata,
    DownloadClient,
    DownloadLibraries,
    PrepareNatives,
    DownloadAssetIndex,
    DownloadAssets,
    DownloadLogging,
    Finalize,
}

/// The description a step reports its progress under.
pub open spec fn step_description(step: InstallStep) -> Seq<char> {
    match step {
        InstallStep::CheckMetadata => "Checking Minecraft metadata"@,
        InstallStep::DownloadClient => "Downloading Minecraft client"@,
        InstallStep::DownloadLibraries => "Downloading Minecraft libraries"@,
        InstallStep::PrepareNatives => "Preparing native libraries"@,
        InstallStep::DownloadAssetIndex => "Downloading asset index"@,
        InstallStep::DownloadAssets => "Downloading Minecraft assets"@,
        InstallStep::DownloadLogging => "Downloading logging configuration"@,
        InstallStep::Finalize => "Finalizing instance"@,
    }
}

impl InstallStep {
    /// The description this step reports its progress under (see
    /// `step_description`).
    pub fn description(self) -> (r: &'static str)
        ensures
            r@ == step_description(self),
    {
        match self {
            InstallStep::CheckMetadata => "Checking Minecraft metadata",
            InstallStep::DownloadClient => "Downloading Minecraft client",
            InstallStep::DownloadLibraries => "Downloading Minecraft libraries",
            InstallStep::PrepareNatives => "Preparing native libraries",
            InstallStep::DownloadAssetIndex => "Downloading asset index",
            InstallStep::DownloadAssets => "Downloading Minecraft assets",
            InstallStep::DownloadLogging => "Downloading logging configuration",
            InstallStep::Finalize => "Finalizing instance",
        }
    }

    /// The progress of this step after `completed` of `total` units.
    pub fn progress(self, completed: usize, total: usize) -> (r: TaskProgress)
        ensures
            r.description@ == step_description(self),
            r.percent as nat == count_percent(completed as nat, total as nat),
    {
        TaskProgress::from_count(copy_str(self.description()), completed, total)
    }

    /// The progress a step reports when it starts with one unit of work, or
    /// with downloads it does not yet count: 0 of 1, that is 0. (The native
    /// archives start at 0 of their number, see `progress`.)
    pub fn started(self) -> (r: TaskProgress)
        ensures
            r.description@ == step_description(self),
            r.percent == 0,
    {
        self.progress(0, 1)
    }

    /// The progress this step reports once it is done with its single unit
    /// of work: 1 of 1, that is 100.
    pub fn finished(self) -> (r: TaskProgress)
        ensures
            r.description@ == step_description(self),
            r.percent == 100,
    {
        self.progress(1, 1)
    }
}

/// The progress reported while Java is set up, under "Downloading Java":
/// 0 at the start, the download percentage (see `java_download_percent`)
/// while the runtime's files arrive, and 100 once it is ready; capped at
/// 100.
pub fn java_progress(percent: u8) -> (r: TaskProgress)
    ensures
        r.description@ == "Downloading Java"@,
        r.percent == if percent > 100 { 100u8 } else { percent },
{
    TaskProgress::new(copy_str("Downloading Java"), percent)
}

} // verus!

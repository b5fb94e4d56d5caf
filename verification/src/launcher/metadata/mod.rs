pub mod models;

pub use models::{
    rules_allow, Argument, ArgumentValue, Arguments, AssetIndex, AssetObject, Availability,
    ClientLogging, Download, Extract, JavaRequirement, JavaRuntime, JavaRuntimeCatalog,
    LatestVersions, Library, LibraryDownloads, Logging, OsRule, Rule, RuleAction, RuntimeDownload,
    RuntimeDownloads, RuntimeFile, RuntimeFileType, RuntimeManifest, RuntimeManifestDownload,
    RuntimeVersion, VersionDownloads, VersionManifest, VersionMetadata, VersionSummary, VersionType,
};

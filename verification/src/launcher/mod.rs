pub mod error;
pub mod install;
pub mod metadata;
pub mod paths;
pub mod platform;

pub use error::{Error, ErrorView};
pub use metadata::{VersionManifest, VersionMetadata};
pub use paths::LauncherPaths;
pub use platform::Platform;

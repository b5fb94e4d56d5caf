use vstd::prelude::*;

use crate::launcher::paths::{join, spec_join};

verus! {

/// The files the window draws from: icons and the like, under `assets`
/// beside the program's manifest.
#[derive(Debug)]
pub struct Assets {
    base: String,
}

impl Assets {
    /// The directory assets are read from.
    pub closed spec fn base_dir(&self) -> Seq<char> {
        self.base@
    }

    /// Assets under `<manifest_dir>/assets`.
    pub fn new(manifest_dir: &str) -> (r: Self)
        ensures
            r.base_dir() == spec_join(manifest_dir@, "assets"@),
    {
        Assets { base: join(manifest_dir, "assets") }
    }

    /// The directory assets are read from.
    pub fn base(&self) -> (r: &str)
        ensures
            r@ == self.base_dir(),
    {
        self.base.as_str()
    }

    /// The file or directory an asset path names.
    pub fn resolve(&self, path: &str) -> (r: String)
        ensures
            r@ == spec_join(self.base_dir(), path@),
    {
        join(self.base.as_str(), path)
    }
}

} // verus!

use vstd::prelude::*;

verus! {

/// What can go wrong while deciding how to install an instance.
#[derive(Debug)]
pub enum Error {
    /// The launcher does not run on a platform that Mojang supports.
    UnsupportedPlatform,
    /// Mojang's metadata lacks an entry (`kind` says which sort) for `key`
    /// on `platform`.
    MissingMetadata { kind: &'static str, key: String, platform: String },
    /// A path or path component from the metadata would leave the directory
    /// it belongs in.
    UnsafePath(String),
    /// A downloaded file does not have the expected size or SHA-1.
    Integrity { path: String, expected: String, actual: String },
    /// No application data directory could be found for this user.
    DataDirectory,
}

/// An `Error` with every string taken by its characters.
pub enum ErrorView {
    UnsupportedPlatform,
    MissingMetadata { kind: Seq<char>, key: Seq<char>, platform: Seq<char> },
    UnsafePath(Seq<char>),
    Integrity { path: Seq<char>, expected: Seq<char>, actual: Seq<char> },
    DataDirectory,
}

impl View for Error {
    type V = ErrorView;

    open spec fn view(&self) -> ErrorView {
        match self {
            Error::UnsupportedPlatform => ErrorView::UnsupportedPlatform,
            Error::MissingMetadata { kind, key, platform } => ErrorView::MissingMetadata {
                kind: kind@,
                key: key@,
                platform: platform@,
            },
            Error::UnsafePath(p) => ErrorView::UnsafePath(p@),
            Error::Integrity { path, expected, actual } => ErrorView::Integrity {
                path: path@,
                expected: expected@,
                actual: actual@,
            },
            Error::DataDirectory => ErrorView::DataDirectory,
        }
    }
}

/// A result with its value and its error taken by their views.
pub open spec fn result_view<T: View>(r: Result<T, Error>) -> Result<T::V, ErrorView> {
    match r {
        Ok(t) => Ok(t@),
        Err(e) => Err(e@),
    }
}

} // verus!

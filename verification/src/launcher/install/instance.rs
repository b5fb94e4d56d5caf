use vstd::prelude::*;

use crate::launcher::error::{result_view, Error, ErrorView};
use crate::launcher::install::download::{
    is_safe_relative, opt_view, relative_path_in, spec_relative_path, DownloadSpec, DownloadView,
    PathStyle,
};
use crate::launcher::install::{component_is_safe, is_safe_component, safe_component};
use crate::launcher::metadata::models::{
    keys_unique, library_wf, lookup, lookup_pair, rules_allow_spec, spec_find, spec_native_classifier, AssetIndex,
    AssetObject, Download, JavaRequirement, Library, VersionManifest, VersionMetadata,
};
use crate::launcher::paths::{
    joined_all, lemma_prefix_through_joins, lemma_join_keeps_base, lemma_join_keeps_first, join, paths_equal, same_path, spec_instances_dir, spec_join, spec_natives_dir,
    spec_versions_dir, LauncherPaths,
};
use crate::launcher::install::java::JavaInstall;
use crate::launcher::platform::{Platform, PlatformView};
use crate::text::{
    char_is_hex_digit, chars_of, is_hex_digit, push_char, push_str, starts_with, str_starts_with, copy_str, copy_strings, extend_chars, first_index_of, index_of_char,
    lemma_first_index_of, lemma_split_pieces_nonempty, pieces_view, replace_char, replace_chars,
    slice_chars, split_chars, split_pieces, string_from_chars, trim_end_char, trim_end_chars,
};

verus! {

/// Where asset objects are downloaded from.
pub const ASSET_OBJECT_BASE: &'static str = "https://resources.download.minecraft.net";

/// Where libraries without a download entry are fetched from by default.
pub const LIBRARY_BASE: &'static str = "https://libraries.minecraft.net";

/// The download of `d` to `path`, checked against its SHA-1 and size.
pub open spec fn download_view_of(d: Download, path: Seq<char>) -> DownloadView {
    DownloadView { url: d.url@, path, sha1: Some(d.sha1@), size: Some(d.size) }
}

/// The download of `download` to `path` (see `download_view_of`).
pub fn download_spec(download: &Download, path: String) -> (r: DownloadSpec)
    ensures
        r@ == download_view_of(*download, path@),
{
    DownloadSpec {
        url: copy_str(download.url.as_str()),
        path,
        sha1: Some(copy_str(download.sha1.as_str())),
        size: Some(download.size),
    }
}

/// The characters of an optional string slice.
pub open spec fn opt_str_view(o: Option<&str>) -> Option<Seq<char>> {
    match o {
        Some(s) => Some(s@),
        None => None,
    }
}

/// The extension a Maven coordinate has when it names none.
pub open spec fn jar_extension() -> Seq<char> {
    seq!['j', 'a', 'r']
}

/// A Maven coordinate split at its first `@` into the coordinate proper and
/// the file extension (`jar` when there is no `@`).
pub open spec fn split_coordinate(s: Seq<char>) -> (Seq<char>, Seq<char>) {
    let k = first_index_of(s, '@');
    if k < s.len() {
        (s.take(k), s.skip(k + 1))
    } else {
        (s, jar_extension())
    }
}

/// The first piece that is not a safe path component, if any.
pub open spec fn first_unsafe(parts: Seq<Seq<char>>) -> Option<Seq<char>>
    decreases parts.len(),
{
    if parts.len() == 0 {
        None
    } else if !is_safe_component(parts[0]) {
        Some(parts[0])
    } else {
        first_unsafe(parts.drop_first())
    }
}

/// The file name of a Maven artifact:
/// `<artifact>-<version>[-<classifier>].<extension>`.
pub open spec fn maven_file(parts: Seq<Seq<char>>, classifier: Option<Seq<char>>, ext: Seq<char>) -> Seq<char> {
    let base = parts[1] + seq!['-'] + parts[2];
    let named = match classifier {
        Some(c) => base + seq!['-'] + c,
        None => base,
    };
    named + seq!['.'] + ext
}

/// The repository path of the Maven artifact `coordinate`
/// (`group:artifact:version[:classifier][@extension]`), with `classifier`
/// in place of the one the coordinate names, if given:
/// `<group with . as />/<artifact>/<version>/<file>`. A coordinate without
/// three or four pieces is refused as a whole; otherwise the first piece, and
/// then the extension, that is not a safe path component is refused.
pub open spec fn spec_maven_path(coordinate: Seq<char>, classifier: Option<Seq<char>>) -> Result<Seq<char>, ErrorView> {
    let (coord, ext) = split_coordinate(coordinate);
    let parts = split_pieces(coord, ':');
    if parts.len() < 3 || parts.len() > 4 {
        Err(ErrorView::UnsafePath(coord))
    } else if first_unsafe(parts) is Some {
        Err(ErrorView::UnsafePath(first_unsafe(parts)->0))
    } else if !is_safe_component(ext) {
        Err(ErrorView::UnsafePath(ext))
    } else {
        let chosen = match classifier {
            Some(c) => Some(c),
            None => if parts.len() == 4 {
                Some(parts[3])
            } else {
                None
            },
        };
        Ok(
            spec_join(
                spec_join(spec_join(replace_char(parts[0], '.', '/'), parts[1]), parts[2]),
                maven_file(parts, chosen, ext),
            ),
        )
    }
}

fn copy_chars(v: &Vec<char>) -> (r: Vec<char>)
    ensures
        r@ == v@,
{
    let r = slice_chars(v, 0, v.len());
    assert(v@.subrange(0, v@.len() as int) =~= v@);
    r
}

/// The repository path of a Maven artifact (see `spec_maven_path`).
pub fn maven_path(coordinate: &str, classifier_override: Option<&str>) -> (r: Result<String, Error>)
    ensures
        result_view(r) == spec_maven_path(coordinate@, opt_str_view(classifier_override)),
{
    let chars = chars_of(coordinate);
    let at = index_of_char(&chars, '@');
    proof {
        lemma_first_index_of(chars@, '@');
    }
    let coord: Vec<char>;
    let ext: Vec<char>;
    if at < chars.len() {
        coord = slice_chars(&chars, 0, at);
        ext = slice_chars(&chars, at + 1, chars.len());
        assert(coord@ =~= chars@.take(at as int));
        assert(ext@ =~= chars@.skip(at + 1));
    } else {
        coord = copy_chars(&chars);
        ext = vec!['j', 'a', 'r'];
        assert(ext@ =~= jar_extension());
    }
    assert((coord@, ext@) == split_coordinate(coordinate@));
    let parts = split_chars(&coord, ':');
    let ghost pv = split_pieces(coord@, ':');
    if parts.len() < 3 || parts.len() > 4 {
        return Err(Error::UnsafePath(string_from_chars(coord.as_slice())));
    }
    let mut i: usize = 0;
    assert(pv.skip(0) =~= pv);
    while i < parts.len()
        invariant
            0 <= i <= parts@.len(),
            pieces_view(parts@) == pv,
            pv == split_pieces(coord@, ':'),
            (coord@, ext@) == split_coordinate(coordinate@),
            3 <= parts@.len() <= 4,
            first_unsafe(pv) == first_unsafe(pv.skip(i as int)),
        decreases parts@.len() - i,
    {
        assert(pv.skip(i as int)[0] == parts@[i as int]@);
        if !component_is_safe(parts[i].as_slice()) {
            assert(pv.len() == parts@.len());
            assert(pv.skip(i as int).len() > 0);
            assert(first_unsafe(pv.skip(i as int)) == Some(parts@[i as int]@));
            return Err(Error::UnsafePath(string_from_chars(parts[i].as_slice())));
        }
        assert(pv.skip(i as int).drop_first() =~= pv.skip(i + 1));
        i = i + 1;
    }
    assert(pv.skip(i as int) =~= Seq::<Seq<char>>::empty());
    if !component_is_safe(ext.as_slice()) {
        return Err(Error::UnsafePath(string_from_chars(ext.as_slice())));
    }
    let classifier: Option<Vec<char>> = match classifier_override {
        Some(c) => Some(chars_of(c)),
        None => if parts.len() == 4 {
            Some(copy_chars(&parts[3]))
        } else {
            None
        },
    };
    let mut file: Vec<char> = copy_chars(&parts[1]);
    file.push('-');
    extend_chars(&mut file, &parts[2], 0, parts[2].len());
    match &classifier {
        Some(c) => {
            file.push('-');
            extend_chars(&mut file, c, 0, c.len());
        },
        None => {},
    }
    file.push('.');
    extend_chars(&mut file, &ext, 0, ext.len());
    let ghost chosen = match &classifier {
        Some(c) => Some(c@),
        None => None::<Seq<char>>,
    };
    assert(parts@[2]@.subrange(0, parts@[2]@.len() as int) =~= parts@[2]@);
    assert(ext@.subrange(0, ext@.len() as int) =~= ext@);
    proof {
        match &classifier {
            Some(c) => {
                assert(c@.subrange(0, c@.len() as int) =~= c@);
            },
            None => {},
        }
    }
    assert(file@ =~= maven_file(pv, chosen, ext@));
    let group = replace_chars(&parts[0], '.', '/');
    let group_text = string_from_chars(group.as_slice());
    let artifact_text = string_from_chars(parts[1].as_slice());
    let version_text = string_from_chars(parts[2].as_slice());
    let file_text = string_from_chars(file.as_slice());
    let a = join(group_text.as_str(), artifact_text.as_str());
    let b = join(a.as_str(), version_text.as_str());
    Ok(join(b.as_str(), file_text.as_str()))
}


/// The download derived from a library's Maven coordinate when its metadata
/// lists none: from the library's repository (or `LIBRARY_BASE`), without
/// trailing `/`, followed by `/` and the Maven path; saved under `root`;
/// with no SHA-1 or size to check.
pub open spec fn spec_derived_library(library: Library, classifier: Option<Seq<char>>, root: Seq<char>) -> Result<DownloadView, ErrorView> {
    match spec_maven_path(library.name@, classifier) {
        Err(e) => Err(e),
        Ok(path) => {
            let base = trim_end_char(
                match library.url {
                    Some(u) => u@,
                    None => LIBRARY_BASE@,
                },
                '/',
            );
            Ok(DownloadView {
                url: base + seq!['/'] + replace_char(path, '\\', '/'),
                path: spec_join(root, path),
                sha1: None,
                size: None,
            })
        },
    }
}

/// The download of a library from its Maven coordinate (see
/// `spec_derived_library`).
pub fn derived_library_spec(library: &Library, classifier: Option<&str>, root: &str) -> (r: Result<DownloadSpec, Error>)
    ensures
        result_view(r) == spec_derived_library(*library, opt_str_view(classifier), root@),
{
    let path = maven_path(library.name.as_str(), classifier)?;
    let base_chars = match &library.url {
        Some(u) => chars_of(u.as_str()),
        None => chars_of(LIBRARY_BASE),
    };
    let base = trim_end_chars(&base_chars, '/');
    let path_chars = chars_of(path.as_str());
    let forward = replace_chars(&path_chars, '\\', '/');
    let mut url_chars = copy_chars(&base);
    url_chars.push('/');
    extend_chars(&mut url_chars, &forward, 0, forward.len());
    assert(forward@.subrange(0, forward@.len() as int) =~= forward@);
    assert(url_chars@ =~= base@ + seq!['/'] + forward@);
    Ok(DownloadSpec {
        url: string_from_chars(url_chars.as_slice()),
        path: join(root, path.as_str()),
        sha1: None,
        size: None,
    })
}

/// Where the file of `download` goes, relative to the library root: the
/// path the metadata gives, if it is a safe relative path, or else the
/// Maven path of the library.
pub open spec fn spec_artifact_path(download: Download, library: Library, classifier: Option<Seq<char>>, style: PathStyle) -> Result<Seq<char>, ErrorView> {
    match download.path {
        Some(p) => spec_relative_path(p@, style),
        None => spec_maven_path(library.name@, classifier),
    }
}

/// Where the file of `download` goes (see `spec_artifact_path`).
pub fn artifact_path(download: &Download, library: &Library, classifier: Option<&str>, style: PathStyle) -> (r: Result<String, Error>)
    ensures
        result_view(r) == spec_artifact_path(*download, *library, opt_str_view(classifier), style),
{
    match &download.path {
        Some(p) => relative_path_in(p.as_str(), style),
        None => maven_path(library.name.as_str(), classifier),
    }
}

/// The download of a library's main artifact, if it has one: the listed
/// artifact when the library has a download section (none when that
/// section lists only classifiers), or else the one derived from its Maven
/// coordinate.
pub open spec fn spec_main_artifact(library: Library, root: Seq<char>, style: PathStyle) -> Result<Option<DownloadView>, ErrorView> {
    match library.downloads {
        Some(d) => match d.artifact {
            Some(a) => match spec_artifact_path(a, library, None, style) {
                Ok(p) => Ok(Some(download_view_of(a, spec_join(root, p)))),
                Err(e) => Err(e),
            },
            None => Ok(None),
        },
        None => match spec_derived_library(library, None, root) {
            Ok(s) => Ok(Some(s)),
            Err(e) => Err(e),
        },
    }
}

/// A result holding an optional download, taken by views.
pub open spec fn opt_download_result_view(r: Result<Option<DownloadSpec>, Error>) -> Result<Option<DownloadView>, ErrorView> {
    match r {
        Ok(Some(d)) => Ok(Some(d@)),
        Ok(None) => Ok(None),
        Err(e) => Err(e@),
    }
}

/// The download of a library's main artifact, with paths read in `style`
/// (see `spec_main_artifact`).
pub fn main_artifact_spec_in(library: &Library, root: &str, style: PathStyle) -> (r: Result<Option<DownloadSpec>, Error>)
    ensures
        opt_download_result_view(r) == spec_main_artifact(*library, root@, style),
{
    match &library.downloads {
        Some(downloads) => match &downloads.artifact {
            Some(artifact) => {
                let path = artifact_path(artifact, library, None, style)?;
                Ok(Some(download_spec(artifact, join(root, path.as_str()))))
            },
            None => Ok(None),
        },
        None => {
            let derived = derived_library_spec(library, None, root)?;
            Ok(Some(derived))
        },
    }
}

/// The download of a library's main artifact, with paths read the way the
/// system this program runs on reads them (see `main_artifact_spec_in`
/// and `PathStyle::host`): the outcome for Unix or for Windows, whichever
/// the system is.
pub fn main_artifact_spec(library: &Library, root: &str) -> (r: Result<Option<DownloadSpec>, Error>)
    ensures
        opt_download_result_view(r) == spec_main_artifact(*library, root@, PathStyle::Unix)
            || opt_download_result_view(r) == spec_main_artifact(*library, root@, PathStyle::Windows),
{
    main_artifact_spec_in(library, root, PathStyle::host())
}

/// Some download in `ds` goes to the same path as `path` in `style`.
pub open spec fn has_path(ds: Seq<DownloadView>, path: Seq<char>, style: PathStyle) -> bool {
    exists|j: int| 0 <= j < ds.len() && same_path(#[trigger] ds[j].path, path, style)
}

/// `ds` with `d` added, unless a download to the same path is already
/// there.
pub open spec fn push_unique_spec(ds: Seq<DownloadView>, d: DownloadView, style: PathStyle) -> Seq<DownloadView> {
    if has_path(ds, d.path, style) {
        ds
    } else {
        ds.push(d)
    }
}

/// Adds `spec` to `downloads` unless one of them already goes to the same
/// path (see `push_unique_spec`).
pub fn push_unique(downloads: &mut Vec<DownloadSpec>, spec: DownloadSpec, style: PathStyle)
    ensures
        final(downloads).deep_view() == push_unique_spec(old(downloads).deep_view(), spec@, style),
{
    let ghost ds = downloads.deep_view();
    let mut i: usize = 0;
    while i < downloads.len()
        invariant
            0 <= i <= downloads@.len(),
            ds == downloads.deep_view(),
            forall|j: int| 0 <= j < i ==> !same_path(#[trigger] ds[j].path, spec@.path, style),
        decreases downloads@.len() - i,
    {
        if paths_equal(downloads[i].path.as_str(), spec.path.as_str(), style) {
            assert(same_path(ds[i as int].path, spec@.path, style));
            return;
        }
        i = i + 1;
    }
    downloads.push(spec);
    assert(downloads.deep_view() =~= ds.push(spec@));
}

/// Nothing in `ds` goes to the same path as anything else in it.
pub open spec fn distinct_paths(ds: Seq<DownloadView>, style: PathStyle) -> bool {
    forall|i: int, j: int|
        0 <= i < ds.len() && 0 <= j < ds.len() && i != j ==> !same_path(
            #[trigger] ds[i].path,
            #[trigger] ds[j].path, style
        )
}

/// Adding a download with `push_unique_spec` keeps all paths distinct.
pub proof fn lemma_push_unique_keeps_distinct(ds: Seq<DownloadView>, d: DownloadView, style: PathStyle)
    requires
        distinct_paths(ds, style),
    ensures
        distinct_paths(push_unique_spec(ds, d, style), style),
{
    if !has_path(ds, d.path, style) {
        let r = ds.push(d);
        assert forall|i: int, j: int|
            0 <= i < r.len() && 0 <= j < r.len() && i != j implies !same_path(
            #[trigger] r[i].path,
            #[trigger] r[j].path, style
        ) by {
            if i == ds.len() {
                assert(!same_path(ds[j].path, d.path, style));
            } else if j == ds.len() {
                assert(!same_path(ds[i].path, d.path, style));
            }
        }
    }
}


/// The download a library lists under `classifier`, if any.
pub open spec fn listed_native(library: Library, classifier: Seq<char>) -> Option<Download> {
    match library.downloads {
        Some(d) => lookup(d.classifiers@, classifier),
        None => None,
    }
}

/// The download of a library's native archive for `classifier`: the
/// library's download listed under that classifier, if any, else the one
/// derived from its Maven coordinate.
pub open spec fn spec_native_archive(library: Library, classifier: Seq<char>, root: Seq<char>, style: PathStyle) -> Result<DownloadView, ErrorView> {
    match listed_native(library, classifier) {
        Some(dl) => match spec_artifact_path(dl, library, Some(classifier), style) {
            Ok(p) => Ok(download_view_of(dl, spec_join(root, p))),
            Err(e) => Err(e),
        },
        None => spec_derived_library(library, Some(classifier), root),
    }
}

/// The download of a library's native archive (see `spec_native_archive`).
pub fn native_archive_spec(library: &Library, classifier: &str, root: &str, style: PathStyle) -> (r: Result<DownloadSpec, Error>)
    requires
        library_wf(*library),
    ensures
        result_view(r) == spec_native_archive(*library, classifier@, root@, style),
{
    let listed = match &library.downloads {
        Some(downloads) => lookup_pair(&downloads.classifiers, classifier),
        None => None,
    };
    match listed {
        Some(download) => {
            let path = artifact_path(download, library, Some(classifier), style)?;
            Ok(download_spec(download, join(root, path.as_str())))
        },
        None => derived_library_spec(library, Some(classifier), root),
    }
}

/// A native archive to unpack, and the entry prefixes to leave out.
#[derive(Debug)]
pub struct NativeArchive {
    pub archive: String,
    pub exclusions: Vec<String>,
}

/// What installing the libraries of a version takes: the files to download
/// (no two to the same path) and the native archives to unpack, in order.
#[derive(Debug)]
pub struct LibraryPlan {
    pub downloads: Vec<DownloadSpec>,
    pub native_archives: Vec<NativeArchive>,
}

/// A `LibraryPlan` taken by views.
pub struct LibraryPlanView {
    pub downloads: Seq<DownloadView>,
    pub native_archives: Seq<(Seq<char>, Seq<Seq<char>>)>,
}

/// The native archives of a plan, taken by views.
pub open spec fn natives_view(v: Seq<NativeArchive>) -> Seq<(Seq<char>, Seq<Seq<char>>)> {
    v.map_values(|n: NativeArchive| (n.archive@, n.exclusions.deep_view()))
}

impl View for LibraryPlan {
    type V = LibraryPlanView;

    open spec fn view(&self) -> LibraryPlanView {
        LibraryPlanView {
            downloads: self.downloads.deep_view(),
            native_archives: natives_view(self.native_archives@),
        }
    }
}

/// The entry prefixes that a library's native archive is unpacked without.
pub open spec fn exclusions_of(library: Library) -> Seq<Seq<char>> {
    match library.extract {
        Some(e) => e.exclude.deep_view(),
        None => Seq::empty(),
    }
}

/// The plan after one more library: nothing changes when the library's
/// rules do not allow it on `p`; otherwise its main artifact is added (if
/// it has one), then its native archive for `p` (if it has one) is added
/// and noted for unpacking. Adding skips a download whose path is already
/// planned.
pub open spec fn plan_library(plan: LibraryPlanView, library: Library, p: PlatformView, root: Seq<char>, style: PathStyle) -> Result<LibraryPlanView, ErrorView> {
    if !rules_allow_spec(library.rules@, p) {
        Ok(plan)
    } else {
        match spec_main_artifact(library, root, style) {
            Err(e) => Err(e),
            Ok(main) => {
                let downloads = match main {
                    Some(d) => push_unique_spec(plan.downloads, d, style),
                    None => plan.downloads,
                };
                match spec_native_classifier(library, p) {
                    None => Ok(LibraryPlanView { downloads, native_archives: plan.native_archives }),
                    Some(classifier) => match spec_native_archive(library, classifier, root, style) {
                        Err(e) => Err(e),
                        Ok(a) => Ok(
                            LibraryPlanView {
                                downloads: push_unique_spec(downloads, a, style),
                                native_archives: plan.native_archives.push(
                                    (a.path, exclusions_of(library)),
                                ),
                            },
                        ),
                    },
                }
            },
        }
    }
}

/// The plan for `libraries`, taken in order, or the first error.
pub open spec fn spec_plan_libraries(libraries: Seq<Library>, p: PlatformView, root: Seq<char>, style: PathStyle) -> Result<LibraryPlanView, ErrorView>
    decreases libraries.len(),
{
    if libraries.len() == 0 {
        Ok(LibraryPlanView { downloads: Seq::empty(), native_archives: Seq::empty() })
    } else {
        match spec_plan_libraries(libraries.drop_last(), p, root, style) {
            Err(e) => Err(e),
            Ok(plan) => plan_library(plan, libraries.last(), p, root, style),
        }
    }
}

/// What to download and unpack for `libraries` on `platform`, with
/// libraries under `root` (see `spec_plan_libraries`).
pub fn plan_libraries(libraries: &[Library], platform: Platform, root: &str, style: PathStyle) -> (r: Result<LibraryPlan, Error>)
    requires
        forall|i: int| 0 <= i < libraries@.len() ==> library_wf(#[trigger] libraries@[i]),
    ensures
        result_view(r) == spec_plan_libraries(libraries@, platform@, root@, style),
{
    let mut downloads: Vec<DownloadSpec> = Vec::new();
    let mut native_archives: Vec<NativeArchive> = Vec::new();
    let mut i: usize = 0;
    assert(libraries@.take(0) =~= Seq::<Library>::empty());
    assert(downloads.deep_view() =~= Seq::<DownloadView>::empty());
    assert(natives_view(native_archives@) =~= Seq::<(Seq<char>, Seq<Seq<char>>)>::empty());
    while i < libraries.len()
        invariant
            0 <= i <= libraries@.len(),
            forall|j: int| 0 <= j < libraries@.len() ==> library_wf(#[trigger] libraries@[j]),
            spec_plan_libraries(libraries@.take(i as int), platform@, root@, style) == Ok::<
                LibraryPlanView,
                ErrorView,
            >(LibraryPlanView { downloads: downloads.deep_view(), native_archives: natives_view(native_archives@) }),
        decreases libraries@.len() - i,
    {
        let library = &libraries[i];
        assert(library_wf(libraries@[i as int]));
        assert(libraries@.take(i + 1).drop_last() =~= libraries@.take(i as int));
        assert(libraries@.take(i + 1).last() == libraries@[i as int]);
        let ghost before = LibraryPlanView {
            downloads: downloads.deep_view(),
            native_archives: natives_view(native_archives@),
        };
        if library.is_allowed(platform) {
            let main = match main_artifact_spec_in(library, root, style) {
                Ok(m) => m,
                Err(e) => {
                    assert(spec_plan_libraries(libraries@.take(i + 1), platform@, root@, style) == Err::<
                        LibraryPlanView,
                        ErrorView,
                    >(e@));
                    proof {
                        lemma_plan_error_persists(libraries@, i + 1, platform@, root@, style);
                    }
                    assert(libraries@.take(libraries@.len() as int) =~= libraries@);
                    return Err(e);
                },
            };
            match main {
                Some(artifact) => push_unique(&mut downloads, artifact, style),
                None => {},
            }
            match library.native_classifier(platform) {
                Some(classifier) => {
                    let archive = match native_archive_spec(library, classifier.as_str(), root, style) {
                        Ok(a) => a,
                        Err(e) => {
                            assert(spec_plan_libraries(libraries@.take(i + 1), platform@, root@, style)
                                == Err::<LibraryPlanView, ErrorView>(e@));
                            proof {
                                lemma_plan_error_persists(libraries@, i + 1, platform@, root@, style);
                            }
                            assert(libraries@.take(libraries@.len() as int) =~= libraries@);
                            return Err(e);
                        },
                    };
                    let exclusions = match &library.extract {
                        Some(extract) => copy_strings(&extract.exclude),
                        None => Vec::new(),
                    };
                    assert(exclusions.deep_view() =~= exclusions_of(*library));
                    let ghost natives_before = natives_view(native_archives@);
                    native_archives.push(
                        NativeArchive { archive: copy_str(archive.path.as_str()), exclusions },
                    );
                    assert(natives_view(native_archives@) =~= natives_before.push(
                        (archive@.path, exclusions_of(*library)),
                    ));
                    push_unique(&mut downloads, archive, style);
                },
                None => {},
            }
        }
        i = i + 1;
    }
    assert(libraries@.take(libraries@.len() as int) =~= libraries@);
    Ok(LibraryPlan { downloads, native_archives })
}

/// Once planning fails on some libraries, it fails the same way whatever
/// libraries follow.
pub proof fn lemma_plan_error_persists(libraries: Seq<Library>, k: int, p: PlatformView, root: Seq<char>, style: PathStyle)
    requires
        0 <= k <= libraries.len(),
        spec_plan_libraries(libraries.take(k), p, root, style) is Err,
    ensures
        spec_plan_libraries(libraries, p, root, style) == spec_plan_libraries(libraries.take(k), p, root, style),
    decreases libraries.len() - k,
{
    if k < libraries.len() {
        assert(libraries.take(k + 1).drop_last() =~= libraries.take(k));
        lemma_plan_error_persists(libraries, k + 1, p, root, style);
    } else {
        assert(libraries.take(k) =~= libraries);
    }
}

/// A successful library plan never downloads two files to the same path.
pub proof fn lemma_plan_paths_distinct(libraries: Seq<Library>, p: PlatformView, root: Seq<char>, style: PathStyle)
    requires
        spec_plan_libraries(libraries, p, root, style) is Ok,
    ensures
        distinct_paths(spec_plan_libraries(libraries, p, root, style)->Ok_0.downloads, style),
    decreases libraries.len(),
{
    if libraries.len() > 0 {
        lemma_plan_paths_distinct(libraries.drop_last(), p, root, style);
        let plan = spec_plan_libraries(libraries.drop_last(), p, root, style)->Ok_0;
        let library = libraries.last();
        if rules_allow_spec(library.rules@, p) {
            let main = spec_main_artifact(library, root, style)->Ok_0;
            let downloads = match main {
                Some(d) => push_unique_spec(plan.downloads, d, style),
                None => plan.downloads,
            };
            match main {
                Some(d) => lemma_push_unique_keeps_distinct(plan.downloads, d, style),
                None => {},
            }
            match spec_native_classifier(library, p) {
                Some(classifier) => {
                    let a = spec_native_archive(library, classifier, root, style)->Ok_0;
                    lemma_push_unique_keeps_distinct(downloads, a, style);
                },
                None => {},
            }
        }
    } else {
        let e = Seq::<DownloadView>::empty();
        assert(distinct_paths(e, style));
    }
}


/// The id of a version's asset index: the one its index download names,
/// else the version's `assets` field.
pub open spec fn spec_asset_index_id(version: VersionMetadata) -> Seq<char> {
    match version.asset_index.id {
        Some(i) => i@,
        None => version.assets@,
    }
}

/// The id of a version's asset index (see `spec_asset_index_id`).
pub fn asset_index_id(version: &VersionMetadata) -> (r: &str)
    ensures
        r@ == spec_asset_index_id(*version),
{
    match &version.asset_index.id {
        Some(id) => id.as_str(),
        None => version.assets.as_str(),
    }
}

/// `.json`
pub open spec fn json_suffix() -> Seq<char> {
    seq!['.', 'j', 's', 'o', 'n']
}

/// `.jar`
pub open spec fn jar_suffix() -> Seq<char> {
    seq!['.', 'j', 'a', 'r']
}

fn with_json_suffix(name: &str) -> (r: String)
    ensures
        r@ == name@ + json_suffix(),
{
    let mut r = copy_str(name);
    push_char(&mut r, '.');
    push_char(&mut r, 'j');
    push_char(&mut r, 's');
    push_char(&mut r, 'o');
    push_char(&mut r, 'n');
    assert(r@ =~= name@ + json_suffix());
    r
}

fn with_jar_suffix(name: &str) -> (r: String)
    ensures
        r@ == name@ + jar_suffix(),
{
    let mut r = copy_str(name);
    push_char(&mut r, '.');
    push_char(&mut r, 'j');
    push_char(&mut r, 'a');
    push_char(&mut r, 'r');
    assert(r@ =~= name@ + jar_suffix());
    r
}

/// The download of a version's asset index to
/// `<assets>/indexes/<index id>.json`, once the index id is a safe path
/// component.
pub open spec fn spec_asset_index_download(version: VersionMetadata, assets: Seq<char>) -> Result<DownloadView, ErrorView> {
    let id = spec_asset_index_id(version);
    if !is_safe_component(id) {
        Err(ErrorView::UnsafePath(id))
    } else {
        Ok(download_view_of(version.asset_index, spec_join(spec_join(assets, "indexes"@), id + json_suffix())))
    }
}

/// The download of a version's asset index (see
/// `spec_asset_index_download`).
pub fn asset_index_download(version: &VersionMetadata, assets: &str) -> (r: Result<DownloadSpec, Error>)
    ensures
        result_view(r) == spec_asset_index_download(*version, assets@),
{
    let id = safe_component(asset_index_id(version))?;
    let dir = join(assets, "indexes");
    let file = with_json_suffix(id);
    Ok(download_spec(&version.asset_index, join(dir.as_str(), file.as_str())))
}

/// An asset hash that can name a file: at least two characters, all of
/// them hexadecimal digits.
pub open spec fn is_valid_asset_hash(h: Seq<char>) -> bool {
    h.len() >= 2 && forall|i: int| 0 <= i < h.len() ==> is_hex_digit(#[trigger] h[i])
}

fn asset_hash_is_valid(h: &str) -> (r: bool)
    ensures
        r == is_valid_asset_hash(h@),
{
    let v = chars_of(h);
    if v.len() < 2 {
        return false;
    }
    let mut i: usize = 0;
    while i < v.len()
        invariant
            0 <= i <= v@.len(),
            v@ == h@,
            forall|j: int| 0 <= j < i ==> is_hex_digit(#[trigger] v@[j]),
        decreases v@.len() - i,
    {
        if !char_is_hex_digit(v[i]) {
            return false;
        }
        i = i + 1;
    }
    true
}

/// `h` is at least two bytes long in UTF-8 and its first two bytes end on a
/// character boundary, so that its two-byte prefix can be taken: two ASCII
/// characters, or one character of two bytes (U+0080 to U+07FF).
pub open spec fn splits_at_two_bytes(h: Seq<char>) -> bool {
    ||| (h.len() >= 2 && (h[0] as u32) < 0x80 && (h[1] as u32) < 0x80)
    ||| (h.len() >= 1 && 0x80 <= (h[0] as u32) && (h[0] as u32) < 0x800)
}

/// The characters in the first two bytes of `h`'s UTF-8 form.
pub open spec fn hash_prefix(h: Seq<char>) -> Seq<char> {
    if h.len() >= 1 && 0x80 <= (h[0] as u32) && (h[0] as u32) < 0x800 {
        h.take(1)
    } else {
        h.take(2)
    }
}

/// A valid hash is ASCII, so its prefix is its first two characters.
proof fn lemma_valid_hash_prefix(h: Seq<char>)
    requires
        is_valid_asset_hash(h),
    ensures
        splits_at_two_bytes(h),
        hash_prefix(h) == h.take(2),
{
    assert(is_hex_digit(h[0]));
    assert(is_hex_digit(h[1]));
}

fn hash_prefix_chars(h: &Vec<char>) -> (r: Vec<char>)
    requires
        splits_at_two_bytes(h@),
    ensures
        r@ == hash_prefix(h@),
{
    let first = h[0] as u32;
    if 0x80 <= first && first < 0x800 {
        slice_chars(h, 0, 1)
    } else {
        slice_chars(h, 0, 2)
    }
}

/// `<assets>/objects/<prefix of hash>/<hash>`: where an asset object is
/// stored (see `hash_prefix`).
pub open spec fn asset_object_path(assets: Seq<char>, hash: Seq<char>) -> Seq<char> {
    spec_join(spec_join(spec_join(assets, "objects"@), hash_prefix(hash)), hash)
}

fn asset_object_file(hash: &str, assets: &str) -> (r: String)
    requires
        splits_at_two_bytes(hash@),
    ensures
        r@ == asset_object_path(assets@, hash@),
{
    let h = chars_of(hash);
    let prefix_chars = hash_prefix_chars(&h);
    let prefix = string_from_chars(prefix_chars.as_slice());
    let objects_dir = join(assets, "objects");
    let prefix_dir = join(objects_dir.as_str(), prefix.as_str());
    join(prefix_dir.as_str(), hash)
}

/// The download of an asset object: from
/// `ASSET_OBJECT_BASE/<prefix>/<hash>` to its object path, checked against
/// its hash and size.
pub open spec fn asset_download_view(object: AssetObject, assets: Seq<char>) -> DownloadView {
    let h = object.hash@;
    DownloadView {
        url: ASSET_OBJECT_BASE@ + seq!['/'] + hash_prefix(h) + seq!['/'] + h,
        path: asset_object_path(assets, h),
        sha1: Some(h),
        size: Some(object.size),
    }
}

/// The downloads of `objects`, in order, or `UnsafePath(hash)` for the
/// first object whose hash is not valid.
pub open spec fn spec_asset_downloads(objects: Seq<(String, AssetObject)>, assets: Seq<char>) -> Result<Seq<DownloadView>, ErrorView>
    decreases objects.len(),
{
    if objects.len() == 0 {
        Ok(Seq::empty())
    } else {
        match spec_asset_downloads(objects.drop_last(), assets) {
            Err(e) => Err(e),
            Ok(ds) => {
                let object = objects.last().1;
                if !is_valid_asset_hash(object.hash@) {
                    Err(ErrorView::UnsafePath(object.hash@))
                } else {
                    Ok(ds.push(asset_download_view(object, assets)))
                }
            },
        }
    }
}

/// Once listing asset downloads fails on some objects, it fails the same
/// way whatever objects follow.
pub proof fn lemma_asset_error_persists(objects: Seq<(String, AssetObject)>, k: int, assets: Seq<char>)
    requires
        0 <= k <= objects.len(),
        spec_asset_downloads(objects.take(k), assets) is Err,
    ensures
        spec_asset_downloads(objects, assets) == spec_asset_downloads(objects.take(k), assets),
    decreases objects.len() - k,
{
    if k < objects.len() {
        assert(objects.take(k + 1).drop_last() =~= objects.take(k));
        lemma_asset_error_persists(objects, k + 1, assets);
    } else {
        assert(objects.take(k) =~= objects);
    }
}

/// When the asset downloads can be listed, every hash is valid.
pub proof fn lemma_asset_downloads_valid_hashes(objects: Seq<(String, AssetObject)>, assets: Seq<char>)
    requires
        spec_asset_downloads(objects, assets) is Ok,
    ensures
        forall|i: int| 0 <= i < objects.len() ==> is_valid_asset_hash(#[trigger] objects[i].1.hash@),
    decreases objects.len(),
{
    if objects.len() > 0 {
        lemma_asset_downloads_valid_hashes(objects.drop_last(), assets);
        assert forall|i: int| 0 <= i < objects.len() implies is_valid_asset_hash(
            #[trigger] objects[i].1.hash@,
        ) by {
            if i < objects.len() - 1 {
                assert(objects.drop_last()[i] == objects[i]);
            }
        }
    }
}

fn asset_download(object: &AssetObject, assets: &str) -> (r: DownloadSpec)
    requires
        is_valid_asset_hash(object.hash@),
    ensures
        r@ == asset_download_view(*object, assets@),
{
    proof {
        lemma_valid_hash_prefix(object.hash@);
    }
    let h = chars_of(object.hash.as_str());
    let prefix_chars = hash_prefix_chars(&h);
    let prefix = string_from_chars(prefix_chars.as_slice());
    let mut url = copy_str(ASSET_OBJECT_BASE);
    push_char(&mut url, '/');
    push_str(&mut url, prefix.as_str());
    push_char(&mut url, '/');
    push_str(&mut url, object.hash.as_str());
    assert(url@ =~= ASSET_OBJECT_BASE@ + seq!['/'] + hash_prefix(object.hash@) + seq!['/']
        + object.hash@);
    let path = asset_object_file(object.hash.as_str(), assets);
    DownloadSpec { url, path, sha1: Some(copy_str(object.hash.as_str())), size: Some(object.size) }
}

/// The downloads of the asset objects (see `spec_asset_downloads`).
pub fn plan_asset_downloads(objects: &Vec<(String, AssetObject)>, assets: &str) -> (r: Result<Vec<DownloadSpec>, Error>)
    requires
        keys_unique(objects@),
    ensures
        match r {
            Ok(v) => spec_asset_downloads(objects@, assets@) == Ok::<Seq<DownloadView>, ErrorView>(v.deep_view()),
            Err(e) => spec_asset_downloads(objects@, assets@) == Err::<Seq<DownloadView>, ErrorView>(e@),
        },
        r is Ok ==> forall|i: int| 0 <= i < objects@.len() ==> is_valid_asset_hash(#[trigger] objects@[i].1.hash@),
{
    let mut downloads: Vec<DownloadSpec> = Vec::new();
    let mut i: usize = 0;
    assert(downloads.deep_view() =~= Seq::<DownloadView>::empty());
    while i < objects.len()
        invariant
            0 <= i <= objects@.len(),
            spec_asset_downloads(objects@.take(i as int), assets@) == Ok::<Seq<DownloadView>, ErrorView>(downloads.deep_view()),
        decreases objects@.len() - i,
    {
        assert(objects@.take(i + 1).drop_last() =~= objects@.take(i as int));
        assert(objects@.take(i + 1).last() == objects@[i as int]);
        let object = &objects[i].1;
        if !asset_hash_is_valid(object.hash.as_str()) {
            proof {
                lemma_asset_error_persists(objects@, i + 1, assets@);
            }
            return Err(Error::UnsafePath(copy_str(object.hash.as_str())));
        }
        let ghost before = downloads.deep_view();
        downloads.push(asset_download(object, assets));
        assert(downloads.deep_view() =~= before.push(asset_download_view(*object, assets@)));
        i = i + 1;
    }
    assert(objects@.take(objects@.len() as int) =~= objects@);
    proof {
        lemma_asset_downloads_valid_hashes(objects@, assets@);
    }
    Ok(downloads)
}

/// A hard link (or copy) from an asset object to the name it has under a
/// legacy asset directory.
#[derive(Debug)]
pub struct AssetLink {
    pub source: String,
    pub target: String,
}

/// The links that lay out assets under their names, in order, up to the
/// first name that is not a safe relative path, and the error for that
/// name, if there is one.
#[derive(Debug)]
pub struct MaterializationPlan {
    pub links: Vec<AssetLink>,
    pub error: Option<Error>,
}

/// The links and error of laying out `objects` under `destination` (see
/// `MaterializationPlan`); each object is linked from its object path to
/// `destination` joined with its name.
pub open spec fn spec_materialization(objects: Seq<(String, AssetObject)>, assets: Seq<char>, destination: Seq<char>, style: PathStyle) -> (Seq<(Seq<char>, Seq<char>)>, Option<ErrorView>)
    decreases objects.len(),
{
    if objects.len() == 0 {
        (Seq::empty(), None)
    } else {
        let (links, error) = spec_materialization(objects.drop_last(), assets, destination, style);
        if error is Some {
            (links, error)
        } else {
            let (name, object) = objects.last();
            if !is_safe_relative(name@, style) {
                (links, Some(ErrorView::UnsafePath(name@)))
            } else {
                (
                    links.push((asset_object_path(assets, object.hash@), spec_join(destination, name@))),
                    None,
                )
            }
        }
    }
}

/// The links of a materialization plan, taken by views.
pub open spec fn links_view(v: Seq<AssetLink>) -> Seq<(Seq<char>, Seq<char>)> {
    v.map_values(|l: AssetLink| (l.source@, l.target@))
}

/// An optional error, taken by its view.
pub open spec fn opt_error_view(e: Option<Error>) -> Option<ErrorView> {
    match e {
        Some(x) => Some(x@),
        None => None,
    }
}

/// Once laying out assets fails on some objects, the links and the error
/// stay the same whatever objects follow.
pub proof fn lemma_materialization_error_persists(objects: Seq<(String, AssetObject)>, k: int, assets: Seq<char>, destination: Seq<char>, style: PathStyle)
    requires
        0 <= k <= objects.len(),
        spec_materialization(objects.take(k), assets, destination, style).1 is Some,
    ensures
        spec_materialization(objects, assets, destination, style) == spec_materialization(objects.take(k), assets, destination, style),
    decreases objects.len() - k,
{
    if k < objects.len() {
        assert(objects.take(k + 1).drop_last() =~= objects.take(k));
        lemma_materialization_error_persists(objects, k + 1, assets, destination, style);
    } else {
        assert(objects.take(k) =~= objects);
    }
}

/// How to lay out the asset `objects` under `destination` (see
/// `spec_materialization`). Each hash must have a two-byte prefix (see
/// `splits_at_two_bytes`), as valid hashes do once their downloads could
/// be listed.
pub fn plan_materialization(objects: &Vec<(String, AssetObject)>, assets: &str, destination: &str, style: PathStyle) -> (r: MaterializationPlan)
    requires
        keys_unique(objects@),
        forall|i: int| 0 <= i < objects@.len() ==> splits_at_two_bytes(#[trigger] objects@[i].1.hash@),
    ensures
        (links_view(r.links@), opt_error_view(r.error)) == spec_materialization(objects@, assets@, destination@, style),
{
    let mut links: Vec<AssetLink> = Vec::new();
    let mut i: usize = 0;
    assert(links_view(links@) =~= Seq::<(Seq<char>, Seq<char>)>::empty());
    while i < objects.len()
        invariant
            0 <= i <= objects@.len(),
            forall|j: int| 0 <= j < objects@.len() ==> splits_at_two_bytes(#[trigger] objects@[j].1.hash@),
            spec_materialization(objects@.take(i as int), assets@, destination@, style) == (links_view(links@), None::<ErrorView>),
        decreases objects@.len() - i,
    {
        assert(objects@.take(i + 1).drop_last() =~= objects@.take(i as int));
        assert(objects@.take(i + 1).last() == objects@[i as int]);
        let name = &objects[i].0;
        let object = &objects[i].1;
        match relative_path_in(name.as_str(), style) {
            Err(e) => {
                proof {
                    lemma_materialization_error_persists(objects@, i + 1, assets@, destination@, style);
                }
                return MaterializationPlan { links, error: Some(e) };
            },
            Ok(relative) => {
                let source = asset_object_file(object.hash.as_str(), assets);
                let ghost before = links_view(links@);
                links.push(AssetLink { source, target: join(destination, relative.as_str()) });
                assert(links_view(links@) =~= before.push(
                    (asset_object_path(assets@, object.hash@), spec_join(destination@, name@)),
                ));
            },
        }
        i = i + 1;
    }
    assert(objects@.take(objects@.len() as int) =~= objects@);
    MaterializationPlan { links, error: None }
}

/// The directories that the assets of an index are laid out under by name:
/// `<assets>/virtual/<index id>` for a virtual index, then
/// `<game directory>/resources` for an index mapped to resources.
pub open spec fn spec_materialization_destinations(index: AssetIndex, assets: Seq<char>, index_id: Seq<char>, game_directory: Seq<char>) -> Seq<Seq<char>> {
    let first: Seq<Seq<char>> = if index.virtual_ {
        seq![spec_join(spec_join(assets, "virtual"@), index_id)]
    } else {
        Seq::empty()
    };
    if index.map_to_resources {
        first.push(spec_join(game_directory, "resources"@))
    } else {
        first
    }
}

/// The directories assets are laid out under (see
/// `spec_materialization_destinations`).
pub fn materialization_destinations(index: &AssetIndex, assets: &str, index_id: &str, game_directory: &str) -> (r: Vec<String>)
    ensures
        r.deep_view() == spec_materialization_destinations(*index, assets@, index_id@, game_directory@),
{
    let mut r: Vec<String> = Vec::new();
    if index.virtual_ {
        let dir = join(assets, "virtual");
        r.push(join(dir.as_str(), index_id));
    }
    if index.map_to_resources {
        r.push(join(game_directory, "resources"));
    }
    assert(r.deep_view() =~= spec_materialization_destinations(*index, assets@, index_id@, game_directory@));
    r
}

/// The download of a version's logging configuration, if it has one: to
/// `<assets>/log_configs/<id>`, where the id is the file's own or
/// `client-log-config.xml`, once the id is a safe path component.
pub open spec fn spec_logging_download(version: VersionMetadata, assets: Seq<char>) -> Result<Option<DownloadView>, ErrorView> {
    match version.logging {
        None => Ok(None),
        Some(logging) => {
            let id = match logging.client.file.id {
                Some(i) => i@,
                None => "client-log-config.xml"@,
            };
            if !is_safe_component(id) {
                Err(ErrorView::UnsafePath(id))
            } else {
                Ok(Some(download_view_of(logging.client.file, spec_join(spec_join(assets, "log_configs"@), id))))
            }
        },
    }
}

/// The download of a version's logging configuration (see
/// `spec_logging_download`).
pub fn logging_download(version: &VersionMetadata, assets: &str) -> (r: Result<Option<DownloadSpec>, Error>)
    ensures
        opt_download_result_view(r) == spec_logging_download(*version, assets@),
{
    match &version.logging {
        None => Ok(None),
        Some(logging) => {
            let id = match &logging.client.file.id {
                Some(i) => i.as_str(),
                None => "client-log-config.xml",
            };
            let id = safe_component(id)?;
            let dir = join(assets, "log_configs");
            Ok(Some(download_spec(&logging.client.file, join(dir.as_str(), id))))
        },
    }
}

/// Where the files of an entry of a native archive go: nowhere for a
/// directory or an entry whose name starts with one of `exclusions`;
/// otherwise `destination` joined with the entry's name.
pub open spec fn spec_native_entry_target(destination: Seq<char>, name: Seq<char>, is_dir: bool, exclusions: Seq<Seq<char>>) -> Option<Seq<char>> {
    if is_dir || exists|i: int| 0 <= i < exclusions.len() && starts_with(name, #[trigger] exclusions[i]) {
        None
    } else {
        Some(spec_join(destination, name))
    }
}

/// Where an entry of a native archive is unpacked to, if anywhere (see
/// `spec_native_entry_target`).
pub fn native_entry_target(destination: &str, name: &str, is_dir: bool, exclusions: &Vec<String>) -> (r: Option<String>)
    ensures
        match r {
            Some(t) => spec_native_entry_target(destination@, name@, is_dir, exclusions.deep_view()) == Some(t@),
            None => spec_native_entry_target(destination@, name@, is_dir, exclusions.deep_view()) is None,
        },
{
    if is_dir {
        return None;
    }
    let mut i: usize = 0;
    while i < exclusions.len()
        invariant
            0 <= i <= exclusions@.len(),
            forall|j: int| 0 <= j < i ==> !starts_with(name@, #[trigger] exclusions.deep_view()[j]),
        decreases exclusions@.len() - i,
    {
        if str_starts_with(name, exclusions[i].as_str()) {
            assert(starts_with(name@, exclusions.deep_view()[i as int]));
            return None;
        }
        i = i + 1;
    }
    Some(join(destination, name))
}


/// The download of a version's metadata file, and the directory it goes in.
#[derive(Debug)]
pub struct VersionJsonPlan {
    pub version_dir: String,
    pub download: DownloadSpec,
}

/// The version directory and the metadata download for installing an
/// instance called `name` of `version_id`: both must be safe path
/// components (the name is checked first); the version must be in the
/// manifest (else `MissingMetadata` of kind "Minecraft version" for the id
/// on the platform's runtime key). The metadata goes to
/// `<versions>/<id>/<id>.json`, checked against the listed SHA-1.
pub open spec fn spec_version_json_plan(
    data: Seq<char>,
    runtime_key: Seq<char>,
    name: Seq<char>,
    version_id: Seq<char>,
    versions: Seq<crate::launcher::metadata::models::VersionSummary>,
) -> Result<(Seq<char>, DownloadView), ErrorView> {
    if !is_safe_component(name) {
        Err(ErrorView::UnsafePath(name))
    } else if !is_safe_component(version_id) {
        Err(ErrorView::UnsafePath(version_id))
    } else {
        match spec_find(versions, version_id) {
            None => Err(ErrorView::MissingMetadata { kind: "Minecraft version"@, key: version_id, platform: runtime_key }),
            Some(summary) => {
                let dir = spec_join(spec_versions_dir(data), version_id);
                Ok((dir, DownloadView {
                    url: summary.url@,
                    path: spec_join(dir, version_id + json_suffix()),
                    sha1: Some(summary.sha1@),
                    size: None,
                }))
            },
        }
    }
}

/// Where a version's metadata goes and where it comes from (see
/// `spec_version_json_plan`).
pub fn plan_version_json(paths: &LauncherPaths, platform: Platform, name: &str, version_id: &str, manifest: &VersionManifest) -> (r: Result<VersionJsonPlan, Error>)
    ensures
        match r {
            Ok(p) => spec_version_json_plan(paths.data_root(), platform@.runtime_key, name@, version_id@, manifest.versions@)
                == Ok::<(Seq<char>, DownloadView), ErrorView>((p.version_dir@, p.download@)),
            Err(e) => spec_version_json_plan(paths.data_root(), platform@.runtime_key, name@, version_id@, manifest.versions@)
                == Err::<(Seq<char>, DownloadView), ErrorView>(e@),
        },
{
    safe_component(name)?;
    safe_component(version_id)?;
    let summary = match manifest.find(version_id) {
        Some(s) => s,
        None => {
            return Err(Error::MissingMetadata {
                kind: "Minecraft version",
                key: copy_str(version_id),
                platform: copy_str(platform.runtime_key()),
            });
        },
    };
    let versions = paths.versions();
    let version_dir = join(versions.as_str(), version_id);
    let file = with_json_suffix(version_id);
    let path = join(version_dir.as_str(), file.as_str());
    Ok(VersionJsonPlan {
        version_dir,
        download: DownloadSpec {
            url: copy_str(summary.url.as_str()),
            path,
            sha1: Some(copy_str(summary.sha1.as_str())),
            size: None,
        },
    })
}

/// Where the files of a new instance go.
#[derive(Debug)]
pub struct InstanceLayout {
    pub id: String,
    pub root: String,
    pub game_directory: String,
    pub natives_directory: String,
    pub client_jar: String,
    pub client_download: DownloadSpec,
}

/// The layout of instance `id` of `version`: its root and game directory
/// `<instances>/<id>`, its natives directory `<cache>/natives/<id>/<version
/// id>`, and its client jar `<versions>/<version id>/<version id>.jar`,
/// downloaded from the version's client download.
pub open spec fn spec_instance_layout(
    data: Seq<char>,
    cache: Seq<char>,
    version_id: Seq<char>,
    id: Seq<char>,
    version: VersionMetadata,
) -> (Seq<char>, Seq<char>, Seq<char>, Seq<char>, DownloadView) {
    let root = spec_join(spec_instances_dir(data), id);
    let jar = spec_join(spec_join(spec_versions_dir(data), version_id), version_id + jar_suffix());
    (root, root, spec_natives_dir(cache, id, version_id), jar, download_view_of(version.downloads.client, jar))
}

/// The paths of an instance layout, taken by views.
pub open spec fn layout_view(l: InstanceLayout) -> (Seq<char>, Seq<char>, Seq<char>, Seq<char>, DownloadView) {
    (l.root@, l.game_directory@, l.natives_directory@, l.client_jar@, l.client_download@)
}

/// The layout of instance `id` (see `spec_instance_layout`).
pub fn instance_layout(paths: &LauncherPaths, version_id: &str, id: String, version: &VersionMetadata) -> (r: InstanceLayout)
    ensures
        r.id@ == id@,
        layout_view(r) == spec_instance_layout(paths.data_root(), paths.cache_root(), version_id@, id@, *version),
{
    let instances = paths.instances();
    let root = join(instances.as_str(), id.as_str());
    let game_directory = copy_str(root.as_str());
    let natives_directory = paths.natives(id.as_str(), version_id);
    let versions = paths.versions();
    let version_dir = join(versions.as_str(), version_id);
    let file = with_jar_suffix(version_id);
    let client_jar = join(version_dir.as_str(), file.as_str());
    let client_download = download_spec(&version.downloads.client, copy_str(client_jar.as_str()));
    InstanceLayout { id, root, game_directory, natives_directory, client_jar, client_download }
}

/// An installed instance.
#[derive(Clone, Debug)]
pub struct InstanceInstall {
    pub name: String,
    pub root: String,
    pub game_directory: String,
    pub version: VersionMetadata,
    pub java: JavaInstall,
    pub client_jar: String,
    pub natives_directory: String,
}


/// The group of a Maven coordinate (its first `:`-separated piece).
pub open spec fn maven_group(coordinate: Seq<char>) -> Seq<char> {
    split_pieces(split_coordinate(coordinate).0, ':')[0]
}

/// When no piece is unsafe, every piece is a safe path component.
pub proof fn lemma_first_unsafe_none(parts: Seq<Seq<char>>)
    requires
        first_unsafe(parts) is None,
    ensures
        forall|i: int| 0 <= i < parts.len() ==> is_safe_component(#[trigger] parts[i]),
    decreases parts.len(),
{
    if parts.len() > 0 {
        lemma_first_unsafe_none(parts.drop_first());
        assert forall|i: int| 0 <= i < parts.len() implies is_safe_component(#[trigger] parts[i]) by {
            if i > 0 {
                assert(parts.drop_first()[i - 1] == parts[i]);
            }
        }
    }
}

/// A Maven path is relative, so joined to a root it stays under the root,
/// as long as the group does not start with `.` (a group such as `.x`
/// becomes `/x`, an absolute path that replaces the root when joined).
pub proof fn lemma_maven_path_stays_under_root(coordinate: Seq<char>, classifier: Option<Seq<char>>, root: Seq<char>)
    requires
        spec_maven_path(coordinate, classifier) is Ok,
        maven_group(coordinate)[0] != '.',
    ensures
        !(spec_maven_path(coordinate, classifier)->Ok_0.len() > 0 && spec_maven_path(coordinate, classifier)->Ok_0[0] == '/'),
        starts_with(spec_join(root, spec_maven_path(coordinate, classifier)->Ok_0), root),
{
    let (coord, ext) = split_coordinate(coordinate);
    let parts = split_pieces(coord, ':');
    lemma_first_unsafe_none(parts);
    assert(is_safe_component(parts[0]));
    assert(is_safe_component(parts[1]));
    assert(is_safe_component(parts[2]));
    let group = replace_char(parts[0], '.', '/');
    assert(group.len() > 0);
    assert(group[0] == parts[0][0]);
    assert(parts[1][0] != '/');
    assert(parts[2][0] != '/');
    lemma_join_keeps_first(group, parts[1]);
    let a = spec_join(group, parts[1]);
    lemma_join_keeps_first(a, parts[2]);
    let b = spec_join(a, parts[2]);
    let chosen = match classifier {
        Some(c) => Some(c),
        None => if parts.len() == 4 {
            Some(parts[3])
        } else {
            None
        },
    };
    let file = maven_file(parts, chosen, ext);
    assert(file[0] == parts[1][0]);
    lemma_join_keeps_first(b, file);
    let path = spec_join(b, file);
    assert(path == spec_maven_path(coordinate, classifier)->Ok_0);
    lemma_join_keeps_base(root, path);
}


/// Planning `library` takes its main artifact's path from its Maven
/// coordinate: it has no download section, or its listed artifact names
/// no path.
pub open spec fn main_from_coordinate(library: Library) -> bool {
    match library.downloads {
        None => true,
        Some(d) => match d.artifact {
            Some(a) => a.path is None,
            None => false,
        },
    }
}

/// Planning `library` on `p` takes its native archive's path from its
/// Maven coordinate: it has a native classifier there, and no download
/// listed under it or one that names no path.
pub open spec fn native_from_coordinate(library: Library, p: PlatformView) -> bool {
    match spec_native_classifier(library, p) {
        None => false,
        Some(c) => match listed_native(library, c) {
            None => true,
            Some(dl) => dl.path is None,
        },
    }
}

/// Planning `library` on `p` takes some path from its Maven coordinate.
pub open spec fn plans_maven_path(library: Library, p: PlatformView) -> bool {
    rules_allow_spec(library.rules@, p) && (main_from_coordinate(library) || native_from_coordinate(
        library,
        p,
    ))
}

/// Every download in `ds` goes under `root`.
pub open spec fn all_under(ds: Seq<DownloadView>, root: Seq<char>) -> bool {
    forall|j: int| 0 <= j < ds.len() ==> starts_with(#[trigger] ds[j].path, root)
}

proof fn lemma_push_unique_under(ds: Seq<DownloadView>, d: DownloadView, root: Seq<char>, style: PathStyle)
    requires
        all_under(ds, root),
        starts_with(d.path, root),
    ensures
        all_under(push_unique_spec(ds, d, style), root),
{
    if !has_path(ds, d.path, style) {
        let r = ds.push(d);
        assert forall|j: int| 0 <= j < r.len() implies starts_with(#[trigger] r[j].path, root) by {
            if j < ds.len() {
                assert(r[j] == ds[j]);
            }
        }
    }
}

proof fn lemma_artifact_under(download: Download, library: Library, classifier: Option<Seq<char>>, root: Seq<char>, style: PathStyle)
    requires
        spec_artifact_path(download, library, classifier, style) is Ok,
        download.path is None ==> maven_group(library.name@)[0] != '.',
    ensures
        starts_with(spec_join(root, spec_artifact_path(download, library, classifier, style)->Ok_0), root),
{
    match download.path {
        Some(p) => {
            assert(is_safe_relative(p@, style));
            lemma_join_keeps_base(root, p@);
        },
        None => {
            lemma_maven_path_stays_under_root(library.name@, classifier, root);
        },
    }
}

proof fn lemma_main_artifact_under(library: Library, root: Seq<char>, style: PathStyle)
    requires
        spec_main_artifact(library, root, style) is Ok,
        main_from_coordinate(library) ==> maven_group(library.name@)[0] != '.',
    ensures
        spec_main_artifact(library, root, style)->Ok_0 matches Some(d) ==> starts_with(d.path, root),
{
    match library.downloads {
        Some(d) => match d.artifact {
            Some(a) => lemma_artifact_under(a, library, None, root, style),
            None => {},
        },
        None => lemma_maven_path_stays_under_root(library.name@, None, root),
    }
}

proof fn lemma_native_archive_under(library: Library, classifier: Seq<char>, root: Seq<char>, style: PathStyle)
    requires
        spec_native_archive(library, classifier, root, style) is Ok,
        (match listed_native(library, classifier) {
            None => true,
            Some(dl) => dl.path is None,
        }) ==> maven_group(library.name@)[0] != '.',
    ensures
        starts_with(spec_native_archive(library, classifier, root, style)->Ok_0.path, root),
{
    match listed_native(library, classifier) {
        Some(dl) => lemma_artifact_under(dl, library, Some(classifier), root, style),
        None => lemma_maven_path_stays_under_root(library.name@, Some(classifier), root),
    }
}

/// Every file a successful library plan downloads, and every native
/// archive it unpacks, lies under the library root, as long as no library
/// whose paths come from its Maven coordinate has a group that starts with
/// `.` (such a group turns into an absolute path).
pub proof fn lemma_plan_stays_under_root(libraries: Seq<Library>, p: PlatformView, root: Seq<char>, style: PathStyle)
    requires
        spec_plan_libraries(libraries, p, root, style) is Ok,
        forall|i: int|
            0 <= i < libraries.len() && plans_maven_path(#[trigger] libraries[i], p) ==> maven_group(
                libraries[i].name@,
            )[0] != '.',
    ensures
        all_under(spec_plan_libraries(libraries, p, root, style)->Ok_0.downloads, root),
        forall|j: int|
            0 <= j < spec_plan_libraries(libraries, p, root, style)->Ok_0.native_archives.len() ==> starts_with(
                (#[trigger] spec_plan_libraries(libraries, p, root, style)->Ok_0.native_archives[j]).0,
                root,
            ),
    decreases libraries.len(),
{
    if libraries.len() == 0 {
        assert(all_under(Seq::<DownloadView>::empty(), root));
    } else {
        let rest = libraries.drop_last();
        assert forall|i: int|
            0 <= i < rest.len() && plans_maven_path(#[trigger] rest[i], p) implies maven_group(
                rest[i].name@,
            )[0] != '.' by {
            assert(rest[i] == libraries[i]);
        }
        lemma_plan_stays_under_root(rest, p, root, style);
        let plan = spec_plan_libraries(rest, p, root, style)->Ok_0;
        let library = libraries.last();
        assert(library == libraries[libraries.len() - 1]);
        if rules_allow_spec(library.rules@, p) {
            lemma_main_artifact_under(library, root, style);
            let main = spec_main_artifact(library, root, style)->Ok_0;
            let downloads = match main {
                Some(d) => push_unique_spec(plan.downloads, d, style),
                None => plan.downloads,
            };
            match main {
                Some(d) => lemma_push_unique_under(plan.downloads, d, root, style),
                None => {},
            }
            match spec_native_classifier(library, p) {
                Some(classifier) => {
                    lemma_native_archive_under(library, classifier, root, style);
                    let a = spec_native_archive(library, classifier, root, style)->Ok_0;
                    lemma_push_unique_under(downloads, a, root, style);
                    let natives = plan.native_archives.push((a.path, exclusions_of(library)));
                    assert forall|j: int| 0 <= j < natives.len() implies starts_with(
                        (#[trigger] natives[j]).0,
                        root,
                    ) by {
                        if j < plan.native_archives.len() {
                            assert(natives[j] == plan.native_archives[j]);
                        }
                    }
                },
                None => {},
            }
        }
    }
}

/// The object path of a valid hash lies under the asset root.
proof fn lemma_asset_object_under(assets: Seq<char>, h: Seq<char>)
    requires
        is_valid_asset_hash(h),
    ensures
        starts_with(asset_object_path(assets, h), assets),
{
    reveal_strlit("objects");
    reveal_with_fuel(joined_all, 4);
    lemma_valid_hash_prefix(h);
    let parts = seq!["objects"@, h.take(2), h];
    assert(is_hex_digit(h[0]));
    assert(h.take(2)[0] == h[0]);
    assert forall|i: int| 0 <= i < parts.len() implies !((#[trigger] parts[i]).len() > 0
        && parts[i][0] == '/') by {
        if i == 0 {
            assert(parts[0] == "objects"@);
        } else if i == 1 {
            assert(parts[1] == h.take(2));
        } else {
            assert(parts[2] == h);
        }
    }
    lemma_prefix_through_joins(assets, parts);
    assert(parts.drop_last() =~= seq!["objects"@, h.take(2)]);
    assert(parts.drop_last().drop_last() =~= seq!["objects"@]);
    assert(parts.drop_last().drop_last().drop_last() =~= Seq::<Seq<char>>::empty());
    assert(joined_all(assets, parts) == asset_object_path(assets, h));
}

/// Every asset object is downloaded to a file under the asset root.
pub proof fn lemma_asset_downloads_stay_under(objects: Seq<(String, AssetObject)>, assets: Seq<char>)
    requires
        spec_asset_downloads(objects, assets) is Ok,
    ensures
        all_under(spec_asset_downloads(objects, assets)->Ok_0, assets),
    decreases objects.len(),
{
    if objects.len() == 0 {
        assert(all_under(Seq::<DownloadView>::empty(), assets));
    } else {
        lemma_asset_downloads_stay_under(objects.drop_last(), assets);
        let ds = spec_asset_downloads(objects.drop_last(), assets)->Ok_0;
        let object = objects.last().1;
        lemma_asset_object_under(assets, object.hash@);
        let r = ds.push(asset_download_view(object, assets));
        assert forall|j: int| 0 <= j < r.len() implies starts_with(#[trigger] r[j].path, assets) by {
            if j < ds.len() {
                assert(r[j] == ds[j]);
            }
        }
    }
}

/// Laying out assets by name links every name to a place under the
/// destination; when every hash is valid, each link comes from a file
/// under the asset root.
pub proof fn lemma_materialization_stays_under(objects: Seq<(String, AssetObject)>, assets: Seq<char>, destination: Seq<char>, style: PathStyle)
    ensures
        forall|j: int|
            0 <= j < spec_materialization(objects, assets, destination, style).0.len() ==> starts_with(
                (#[trigger] spec_materialization(objects, assets, destination, style).0[j]).1,
                destination,
            ),
        (forall|i: int| 0 <= i < objects.len() ==> is_valid_asset_hash(#[trigger] objects[i].1.hash@))
            ==> forall|j: int|
            0 <= j < spec_materialization(objects, assets, destination, style).0.len() ==> starts_with(
                (#[trigger] spec_materialization(objects, assets, destination, style).0[j]).0,
                assets,
            ),
    decreases objects.len(),
{
    if objects.len() > 0 {
        let rest = objects.drop_last();
        lemma_materialization_stays_under(rest, assets, destination, style);
        let (links, error) = spec_materialization(rest, assets, destination, style);
        let (name, object) = objects.last();
        if error is None && is_safe_relative(name@, style) {
            lemma_join_keeps_base(destination, name@);
            let r = links.push((asset_object_path(assets, object.hash@), spec_join(destination, name@)));
            assert forall|j: int| 0 <= j < r.len() implies starts_with((#[trigger] r[j]).1, destination) by {
                if j < links.len() {
                    assert(r[j] == links[j]);
                }
            }
            if forall|i: int| 0 <= i < objects.len() ==> is_valid_asset_hash(#[trigger] objects[i].1.hash@) {
                assert forall|i: int| 0 <= i < rest.len() implies is_valid_asset_hash(#[trigger] rest[i].1.hash@) by {
                    assert(rest[i] == objects[i]);
                }
                assert(objects.last() == objects[objects.len() - 1]);
                lemma_asset_object_under(assets, object.hash@);
                assert forall|j: int| 0 <= j < r.len() implies starts_with((#[trigger] r[j]).0, assets) by {
                    if j < links.len() {
                        assert(r[j] == links[j]);
                    }
                }
            }
        } else if forall|i: int| 0 <= i < objects.len() ==> is_valid_asset_hash(#[trigger] objects[i].1.hash@) {
            assert forall|i: int| 0 <= i < rest.len() implies is_valid_asset_hash(#[trigger] rest[i].1.hash@) by {
                assert(rest[i] == objects[i]);
            }
        }
    }
}

/// Each flag of an asset index controls its own directory: a virtual index
/// lays its assets out under `<assets>/virtual/<index id>`, which comes
/// first, and an index mapped to resources under `<game directory>/resources`,
/// which comes last; there is one directory per flag that is set.
pub proof fn lemma_materialization_destinations_follow_flags(index: AssetIndex, assets: Seq<char>, index_id: Seq<char>, game_directory: Seq<char>)
    ensures
        ({
            let r = spec_materialization_destinations(index, assets, index_id, game_directory);
            &&& r.len() == (if index.virtual_ { 1int } else { 0int }) + (if index.map_to_resources { 1int } else { 0int })
            &&& index.virtual_ ==> r[0] == spec_join(spec_join(assets, "virtual"@), index_id)
            &&& index.map_to_resources ==> r[r.len() - 1] == spec_join(game_directory, "resources"@)
        }),
{
}

/// The logging configuration of a version goes to `<assets>/log_configs`
/// under the file's own id when the file names one, and under
/// `client-log-config.xml` only when it names none; it is fetched from the
/// file's URL and checked against its SHA-1 and size. An id that is not a
/// safe path component is refused, and a version without logging has
/// nothing to fetch.
pub proof fn lemma_logging_download_uses_the_file_id(version: VersionMetadata, assets: Seq<char>)
    ensures
        version.logging is None ==> spec_logging_download(version, assets) == Ok::<Option<DownloadView>, ErrorView>(None),
        version.logging matches Some(l) ==> {
            let name = match l.client.file.id {
                Some(i) => i@,
                None => "client-log-config.xml"@,
            };
            &&& (is_safe_component(name) ==> (spec_logging_download(version, assets) matches Ok(Some(d))
                && d.path == spec_join(spec_join(assets, "log_configs"@), name)
                && d.url == l.client.file.url@ && d.sha1 == Some(l.client.file.sha1@)
                && d.size == Some(l.client.file.size)))
            &&& (!is_safe_component(name) ==> spec_logging_download(version, assets)
                == Err::<Option<DownloadView>, ErrorView>(ErrorView::UnsafePath(name)))
        },
{
}

/// Two versions whose logging files name different ids download them to
/// different places.
pub proof fn lemma_logging_ids_give_distinct_files(a: VersionMetadata, b: VersionMetadata, assets: Seq<char>)
    requires
        a.logging matches Some(l) && l.client.file.id is Some,
        b.logging matches Some(m) && m.client.file.id is Some,
        a.logging->0.client.file.id->0@ != b.logging->0.client.file.id->0@,
        spec_logging_download(a, assets) matches Ok(Some(_)),
        spec_logging_download(b, assets) matches Ok(Some(_)),
    ensures
        spec_logging_download(a, assets)->Ok_0->0.path != spec_logging_download(b, assets)->Ok_0->0.path,
{
    let ia = a.logging->0.client.file.id->0@;
    let ib = b.logging->0.client.file.id->0@;
    let dir = spec_join(assets, "log_configs"@);
    let pa = spec_join(dir, ia);
    let pb = spec_join(dir, ib);
    assert(ia[0] != '/' && ib[0] != '/');
    if pa == pb {
        if dir.len() == 0 || dir.last() == '/' {
            assert(pa.skip(dir.len() as int) =~= ia);
            assert(pb.skip(dir.len() as int) =~= ib);
        } else {
            assert(pa.skip(dir.len() as int + 1) =~= ia);
            assert(pb.skip(dir.len() as int + 1) =~= ib);
        }
    }
}

/// The group of a Maven path is the coordinate's group with every `.`
/// turned into `/` and every other character kept: the path begins with it,
/// character by character, and the rest of the path is the artifact, the
/// version and the file `<artifact>-<version>[-<classifier>].<extension>`
/// (the classifier given, else the coordinate's fourth piece, if any), each
/// after a `/`.
pub proof fn lemma_maven_path_layout(coordinate: Seq<char>, classifier: Option<Seq<char>>)
    requires
        spec_maven_path(coordinate, classifier) is Ok,
    ensures
        ({
            let p = spec_maven_path(coordinate, classifier)->Ok_0;
            let (coord, ext) = split_coordinate(coordinate);
            let parts = split_pieces(coord, ':');
            let g = parts[0];
            let chosen = match classifier {
                Some(c) => Some(c),
                None => if parts.len() == 4 { Some(parts[3]) } else { None },
            };
            let file = parts[1] + seq!['-'] + parts[2] + match chosen {
                Some(c) => seq!['-'] + c,
                None => Seq::<char>::empty(),
            } + seq!['.'] + ext;
            let tail = parts[1] + seq!['/'] + parts[2] + seq!['/'] + file;
            &&& p.len() >= g.len()
            &&& forall|k: int| 0 <= k < g.len() ==> #[trigger] p[k] == (if g[k] == '.' { '/' } else { g[k] })
            &&& forall|k: int| 0 <= k < g.len() ==> #[trigger] p[k] != '.'
            &&& (g.last() == '.' ==> p == p.take(g.len() as int) + tail)
            &&& (g.last() != '.' ==> p == p.take(g.len() as int) + seq!['/'] + tail)
        }),
{
    let (coord, ext) = split_coordinate(coordinate);
    let parts = split_pieces(coord, ':');
    lemma_first_unsafe_none(parts);
    assert(is_safe_component(parts[0]));
    assert(is_safe_component(parts[1]));
    assert(is_safe_component(parts[2]));
    let g = parts[0];
    let group = replace_char(g, '.', '/');
    assert(group.len() == g.len());
    assert(parts[1][0] != '/');
    assert(parts[2][0] != '/');
    let chosen = match classifier {
        Some(c) => Some(c),
        None => if parts.len() == 4 { Some(parts[3]) } else { None },
    };
    let file = maven_file(parts, chosen, ext);
    assert(file =~= parts[1] + seq!['-'] + parts[2] + match chosen {
        Some(c) => seq!['-'] + c,
        None => Seq::<char>::empty(),
    } + seq!['.'] + ext);
    assert(file[0] == parts[1][0]);
    let a = spec_join(group, parts[1]);
    let b = spec_join(a, parts[2]);
    let p = spec_join(b, file);
    assert(p == spec_maven_path(coordinate, classifier)->Ok_0);
    assert(group.last() == (if g.last() == '.' { '/' } else { g.last() }));
    assert(g.last() != '/');
    assert(a.last() == parts[1].last());
    assert(parts[1].last() != '/');
    assert(b.last() == parts[2].last());
    assert(parts[2].last() != '/');
    if g.last() == '.' {
        assert(a =~= group + parts[1]);
        assert(p =~= group + (parts[1] + seq!['/'] + parts[2] + seq!['/'] + file));
    } else {
        assert(a =~= group + seq!['/'] + parts[1]);
        assert(p =~= group + seq!['/'] + (parts[1] + seq!['/'] + parts[2] + seq!['/'] + file));
    }
    assert(p.take(g.len() as int) =~= group);
}

/// Every asset object is downloaded, in order and one download per object,
/// exactly when every hash is valid: from
/// `ASSET_OBJECT_BASE/<first two characters of the hash>/<hash>` to
/// `<assets>/objects/<first two characters>/<hash>`, checked against the
/// hash itself and the object's size. Otherwise the first invalid hash is
/// refused.
pub proof fn lemma_asset_downloads_by_hash(objects: Seq<(String, AssetObject)>, assets: Seq<char>)
    ensures
        (spec_asset_downloads(objects, assets) is Ok <==> forall|i: int|
            0 <= i < objects.len() ==> is_valid_asset_hash(#[trigger] objects[i].1.hash@)),
        spec_asset_downloads(objects, assets) matches Ok(ds) ==> {
            &&& ds.len() == objects.len()
            &&& forall|j: int| 0 <= j < ds.len() ==> {
                let h = objects[j].1.hash@;
                &&& (#[trigger] ds[j]).url == ASSET_OBJECT_BASE@ + seq!['/'] + h.take(2) + seq!['/'] + h
                &&& ds[j].path == spec_join(spec_join(spec_join(assets, "objects"@), h.take(2)), h)
                &&& ds[j].sha1 == Some(h)
                &&& ds[j].size == Some(objects[j].1.size)
            }
        },
        spec_asset_downloads(objects, assets) matches Err(e) ==> exists|k: int|
            0 <= k < objects.len() && !is_valid_asset_hash(#[trigger] objects[k].1.hash@)
                && e == ErrorView::UnsafePath(objects[k].1.hash@) && forall|i: int|
                0 <= i < k ==> is_valid_asset_hash(#[trigger] objects[i].1.hash@),
    decreases objects.len(),
{
    if objects.len() > 0 {
        let rest = objects.drop_last();
        let n = objects.len() - 1;
        lemma_asset_downloads_by_hash(rest, assets);
        assert forall|j: int| 0 <= j < rest.len() implies rest[j] == objects[j] by {}
        assert(objects.last() == objects[n]);
        match spec_asset_downloads(rest, assets) {
            Err(e) => {
                let k = choose|k: int|
                    0 <= k < rest.len() && !is_valid_asset_hash(#[trigger] rest[k].1.hash@)
                        && e == ErrorView::UnsafePath(rest[k].1.hash@) && forall|i: int|
                        0 <= i < k ==> is_valid_asset_hash(#[trigger] rest[i].1.hash@);
                assert(objects[k] == rest[k]);
                assert forall|i: int| 0 <= i < k implies is_valid_asset_hash(#[trigger] objects[i].1.hash@) by {
                    assert(objects[i] == rest[i]);
                }
            },
            Ok(ds) => {
                assert forall|i: int| 0 <= i < n implies is_valid_asset_hash(#[trigger] objects[i].1.hash@) by {
                    assert(objects[i] == rest[i]);
                }
                if is_valid_asset_hash(objects[n].1.hash@) {
                    lemma_valid_hash_prefix(objects[n].1.hash@);
                    let r = ds.push(asset_download_view(objects[n].1, assets));
                    assert forall|j: int| 0 <= j < r.len() implies {
                        let h = objects[j].1.hash@;
                        &&& (#[trigger] r[j]).url == ASSET_OBJECT_BASE@ + seq!['/'] + h.take(2) + seq!['/'] + h
                        &&& r[j].path == spec_join(spec_join(spec_join(assets, "objects"@), h.take(2)), h)
                        &&& r[j].sha1 == Some(h)
                        &&& r[j].size == Some(objects[j].1.size)
                    } by {
                        if j < n {
                            assert(r[j] == ds[j]);
                        }
                    }
                }
            },
        }
    }
}

/// A version's asset index is fetched from the index download's URL,
/// checked against its SHA-1 and size, to `<assets>/indexes/<id>.json`,
/// where the id is the one the index download names, else the version's
/// `assets` field; an id that is not a safe path component is refused.
pub proof fn lemma_asset_index_download_layout(version: VersionMetadata, assets: Seq<char>)
    ensures
        ({
            let id = match version.asset_index.id {
                Some(i) => i@,
                None => version.assets@,
            };
            &&& (is_safe_component(id) ==> (spec_asset_index_download(version, assets) matches Ok(d)
                && d.path == spec_join(spec_join(assets, "indexes"@), id + seq!['.', 'j', 's', 'o', 'n'])
                && d.url == version.asset_index.url@ && d.sha1 == Some(version.asset_index.sha1@)
                && d.size == Some(version.asset_index.size)))
            &&& (!is_safe_component(id) ==> spec_asset_index_download(version, assets)
                == Err::<DownloadView, ErrorView>(ErrorView::UnsafePath(id)))
        }),
{
}

/// Installing `version_id` as an instance called `name` first refuses a
/// name, then a version id, that is not a safe path component; then a
/// version the manifest does not list (`MissingMetadata` of kind
/// "Minecraft version" for that id on the platform's runtime key).
/// Otherwise the version's metadata is fetched from the first listed
/// entry's URL, checked against its SHA-1, into
/// `<data>/minecraft/versions/<id>/<id>.json`.
pub proof fn lemma_version_json_plan_layout(
    data: Seq<char>,
    runtime_key: Seq<char>,
    name: Seq<char>,
    version_id: Seq<char>,
    versions: Seq<crate::launcher::metadata::models::VersionSummary>,
)
    ensures
        !is_safe_component(name) ==> spec_version_json_plan(data, runtime_key, name, version_id, versions)
            == Err::<(Seq<char>, DownloadView), ErrorView>(ErrorView::UnsafePath(name)),
        is_safe_component(name) && !is_safe_component(version_id) ==> spec_version_json_plan(
            data,
            runtime_key,
            name,
            version_id,
            versions,
        ) == Err::<(Seq<char>, DownloadView), ErrorView>(ErrorView::UnsafePath(version_id)),
        is_safe_component(name) && is_safe_component(version_id) && (forall|i: int|
            0 <= i < versions.len() ==> (#[trigger] versions[i]).id@ != version_id) ==> spec_version_json_plan(
            data,
            runtime_key,
            name,
            version_id,
            versions,
        ) == Err::<(Seq<char>, DownloadView), ErrorView>(
            ErrorView::MissingMetadata { kind: "Minecraft version"@, key: version_id, platform: runtime_key },
        ),
        forall|k: int|
            #![trigger versions[k]]
            is_safe_component(name) && is_safe_component(version_id) && 0 <= k < versions.len()
                && versions[k].id@ == version_id && (forall|i: int|
                0 <= i < k ==> (#[trigger] versions[i]).id@ != version_id) ==> {
                let dir = spec_join(spec_join(spec_join(data, "minecraft"@), "versions"@), version_id);
                spec_version_json_plan(data, runtime_key, name, version_id, versions) == Ok::<
                    (Seq<char>, DownloadView),
                    ErrorView,
                >(
                    (
                        dir,
                        DownloadView {
                            url: versions[k].url@,
                            path: spec_join(dir, version_id + seq!['.', 'j', 's', 'o', 'n']),
                            sha1: Some(versions[k].sha1@),
                            size: None,
                        },
                    ),
                )
            },
{
    if forall|i: int| 0 <= i < versions.len() ==> (#[trigger] versions[i]).id@ != version_id {
        lemma_find_none(versions, version_id);
    }
    assert forall|k: int|
        #![trigger versions[k]]
        is_safe_component(name) && is_safe_component(version_id) && 0 <= k < versions.len()
            && versions[k].id@ == version_id && (forall|i: int|
            0 <= i < k ==> (#[trigger] versions[i]).id@ != version_id) implies {
            let dir = spec_join(spec_join(spec_join(data, "minecraft"@), "versions"@), version_id);
            spec_version_json_plan(data, runtime_key, name, version_id, versions) == Ok::<
                (Seq<char>, DownloadView),
                ErrorView,
            >(
                (
                    dir,
                    DownloadView {
                        url: versions[k].url@,
                        path: spec_join(dir, version_id + seq!['.', 'j', 's', 'o', 'n']),
                        sha1: Some(versions[k].sha1@),
                        size: None,
                    },
                ),
            )
        } by {
        lemma_find_first(versions, version_id, k);
    }
}

/// `spec_find` finds nothing when no entry is listed under `id`.
pub proof fn lemma_find_none(versions: Seq<crate::launcher::metadata::models::VersionSummary>, id: Seq<char>)
    requires
        forall|i: int| 0 <= i < versions.len() ==> (#[trigger] versions[i]).id@ != id,
    ensures
        spec_find(versions, id) is None,
    decreases versions.len(),
{
    if versions.len() > 0 {
        let rest = versions.drop_first();
        assert(versions[0].id@ != id);
        assert forall|i: int| 0 <= i < rest.len() implies (#[trigger] rest[i]).id@ != id by {
            assert(rest[i] == versions[i + 1]);
        }
        lemma_find_none(rest, id);
    }
}

/// `spec_find` gives the first entry listed under `id`.
pub proof fn lemma_find_first(versions: Seq<crate::launcher::metadata::models::VersionSummary>, id: Seq<char>, k: int)
    requires
        0 <= k < versions.len(),
        versions[k].id@ == id,
        forall|i: int| 0 <= i < k ==> (#[trigger] versions[i]).id@ != id,
    ensures
        spec_find(versions, id) == Some(versions[k]),
    decreases k,
{
    if k > 0 {
        let rest = versions.drop_first();
        assert(versions[0].id@ != id);
        assert(rest[k - 1] == versions[k]);
        assert forall|i: int| 0 <= i < k - 1 implies (#[trigger] rest[i]).id@ != id by {
            assert(rest[i] == versions[i + 1]);
        }
        lemma_find_first(rest, id, k - 1);
    }
}

/// Instance `id` of `version_id` lives in `<data>/instances/<id>`, which
/// is also its game directory; its native libraries go to
/// `<cache>/natives/<id>/<version id>`, and its client jar to
/// `<data>/minecraft/versions/<version id>/<version id>.jar`, fetched from
/// the version's client download and checked against its SHA-1 and size.
pub proof fn lemma_instance_layout_places(data: Seq<char>, cache: Seq<char>, version_id: Seq<char>, id: Seq<char>, version: VersionMetadata)
    ensures
        ({
            let (root, game, natives, jar, client) = spec_instance_layout(data, cache, version_id, id, version);
            &&& root == spec_join(spec_join(data, "instances"@), id)
            &&& game == root
            &&& natives == spec_join(spec_join(spec_join(cache, "natives"@), id), version_id)
            &&& jar == spec_join(
                spec_join(spec_join(spec_join(data, "minecraft"@), "versions"@), version_id),
                version_id + seq!['.', 'j', 'a', 'r'],
            )
            &&& client.path == jar && client.url == version.downloads.client.url@
            &&& client.sha1 == Some(version.downloads.client.sha1@)
            &&& client.size == Some(version.downloads.client.size)
        }),
{
}

/// A library that the rules do not allow on the platform changes nothing
/// in the plan, wherever it stands.
pub proof fn lemma_disallowed_library_changes_nothing(libraries: Seq<Library>, library: Library, p: PlatformView, root: Seq<char>, style: PathStyle)
    requires
        !rules_allow_spec(library.rules@, p),
    ensures
        spec_plan_libraries(libraries.push(library), p, root, style) == spec_plan_libraries(libraries, p, root, style),
{
    assert(libraries.push(library).drop_last() =~= libraries);
    assert(libraries.push(library).last() == library);
}

/// A library downloaded from its Maven coordinate comes from its own
/// repository, or `LIBRARY_BASE` when it names none, with trailing `/`
/// removed, followed by `/` and its Maven path; it goes to that Maven path
/// under the root, and has no SHA-1 or size to check.
pub proof fn lemma_derived_library_layout(library: Library, classifier: Option<Seq<char>>, root: Seq<char>)
    ensures
        spec_maven_path(library.name@, classifier) matches Err(e) ==> spec_derived_library(library, classifier, root)
            == Err::<DownloadView, ErrorView>(e),
        spec_maven_path(library.name@, classifier) matches Ok(path) ==> (spec_derived_library(library, classifier, root)
            matches Ok(d) && d.path == spec_join(root, path) && d.sha1 is None && d.size is None
            && d.url == trim_end_char(
                match library.url {
                    Some(u) => u@,
                    None => LIBRARY_BASE@,
                },
                '/',
            ) + seq!['/'] + replace_char(path, '\\', '/')),
{
}

/// Adding a download without repeats keeps every download planned so far,
/// in place, adds at most one, and leaves a download to its path planned.
pub proof fn lemma_push_unique_keeps_and_covers(ds: Seq<DownloadView>, d: DownloadView, style: PathStyle)
    ensures
        push_unique_spec(ds, d, style).len() <= ds.len() + 1,
        push_unique_spec(ds, d, style).take(ds.len() as int) == ds,
        has_path(push_unique_spec(ds, d, style), d.path, style),
{
    let r = push_unique_spec(ds, d, style);
    if !has_path(ds, d.path, style) {
        assert(r.take(ds.len() as int) =~= ds);
        assert(r[ds.len() as int] == d);
        assert(same_path(r[ds.len() as int].path, d.path, style));
    } else {
        assert(r.take(ds.len() as int) =~= ds);
    }
}

/// Planning a library that the rules allow keeps the plan so far and adds
/// to it: a download to the path of its main artifact, if it has one, and,
/// when it has a native classifier on the platform, a download to the path
/// of that native archive, which is also noted, last, for unpacking with
/// the library's exclusions.
pub proof fn lemma_allowed_library_is_planned(libraries: Seq<Library>, library: Library, p: PlatformView, root: Seq<char>, style: PathStyle)
    requires
        rules_allow_spec(library.rules@, p),
        spec_plan_libraries(libraries.push(library), p, root, style) is Ok,
    ensures
        ({
            let before = spec_plan_libraries(libraries, p, root, style)->Ok_0;
            let after = spec_plan_libraries(libraries.push(library), p, root, style)->Ok_0;
            &&& spec_plan_libraries(libraries, p, root, style) is Ok
            &&& before.downloads.len() <= after.downloads.len()
            &&& after.downloads.take(before.downloads.len() as int) == before.downloads
            &&& (spec_main_artifact(library, root, style) matches Ok(Some(d)) ==> has_path(after.downloads, d.path, style))
            &&& (spec_native_classifier(library, p) is None ==> after.native_archives == before.native_archives)
            &&& (spec_native_classifier(library, p) matches Some(c) ==> {
                let a = spec_native_archive(library, c, root, style)->Ok_0;
                &&& spec_native_archive(library, c, root, style) is Ok
                &&& has_path(after.downloads, a.path, style)
                &&& after.native_archives == before.native_archives.push((a.path, exclusions_of(library)))
            })
        }),
{
    let all = libraries.push(library);
    assert(all.drop_last() =~= libraries);
    assert(all.last() == library);
    let before = spec_plan_libraries(libraries, p, root, style)->Ok_0;
    let main = spec_main_artifact(library, root, style)->Ok_0;
    let downloads = match main {
        Some(d) => push_unique_spec(before.downloads, d, style),
        None => before.downloads,
    };
    match main {
        Some(d) => lemma_push_unique_keeps_and_covers(before.downloads, d, style),
        None => {},
    }
    match spec_native_classifier(library, p) {
        Some(c) => {
            let a = spec_native_archive(library, c, root, style)->Ok_0;
            lemma_push_unique_keeps_and_covers(downloads, a, style);
            let after = push_unique_spec(downloads, a, style);
            match main {
                Some(d) => {
                    let k = choose|j: int| 0 <= j < downloads.len() && same_path(#[trigger] downloads[j].path, d.path, style);
                    assert(after.take(downloads.len() as int)[k] == downloads[k]);
                    assert(after[k] == downloads[k]);
                    assert(has_path(after, d.path, style));
                },
                None => {},
            }
            assert(after.take(before.downloads.len() as int) =~= downloads.take(before.downloads.len() as int));
        },
        None => {},
    }
}

/// Laying out assets by name links the objects in order, one link per
/// object, up to the first name that is not a safe relative path: each
/// link comes from the object's file `<assets>/objects/<prefix>/<hash>` and
/// goes to its name under the destination. Without an unsafe name every
/// object is linked; otherwise the error names the first unsafe name, the
/// one right after the last link.
pub proof fn lemma_materialization_links_by_name(objects: Seq<(String, AssetObject)>, assets: Seq<char>, destination: Seq<char>, style: PathStyle)
    ensures
        ({
            let (links, error) = spec_materialization(objects, assets, destination, style);
            &&& links.len() <= objects.len()
            &&& forall|j: int|
                0 <= j < links.len() ==> #[trigger] links[j] == (
                    spec_join(
                        spec_join(spec_join(assets, "objects"@), hash_prefix(objects[j].1.hash@)),
                        objects[j].1.hash@,
                    ),
                    spec_join(destination, objects[j].0@),
                ) && is_safe_relative(objects[j].0@, style)
            &&& (error is None <==> links.len() == objects.len())
            &&& (error is Some ==> error == Some(ErrorView::UnsafePath(objects[links.len() as int].0@))
                && !is_safe_relative(objects[links.len() as int].0@, style))
        }),
    decreases objects.len(),
{
    if objects.len() > 0 {
        let rest = objects.drop_last();
        lemma_materialization_links_by_name(rest, assets, destination, style);
        assert forall|j: int| 0 <= j < rest.len() implies rest[j] == objects[j] by {}
        assert(objects.last() == objects[objects.len() - 1]);
    }
}

/// A library's main artifact: none when its download section lists only
/// classifiers; when it lists an artifact, that artifact, fetched from its
/// URL and checked against its SHA-1 and size, to its listed path under the
/// root (a listed path that is not a safe relative path is refused), or to
/// its Maven path when it lists none; and for a library without a download
/// section, the download derived from its coordinate.
pub proof fn lemma_main_artifact_choice(library: Library, root: Seq<char>, style: PathStyle)
    ensures
        library.downloads is Some && library.downloads->0.artifact is None ==> spec_main_artifact(library, root, style)
            == Ok::<Option<DownloadView>, ErrorView>(None),
        library.downloads is Some && library.downloads->0.artifact is Some && library.downloads->0.artifact->0.path is Some
            ==> ({
            let a = library.downloads->0.artifact->0;
            let listed = a.path->0@;
            &&& is_safe_relative(listed, style) ==> spec_main_artifact(library, root, style) == Ok::<
                Option<DownloadView>,
                ErrorView,
            >(Some(DownloadView { url: a.url@, path: spec_join(root, listed), sha1: Some(a.sha1@), size: Some(a.size) }))
            &&& !is_safe_relative(listed, style) ==> spec_main_artifact(library, root, style) == Err::<
                Option<DownloadView>,
                ErrorView,
            >(ErrorView::UnsafePath(listed))
        }),
        library.downloads is Some && library.downloads->0.artifact is Some && library.downloads->0.artifact->0.path is None
            ==> ({
            let a = library.downloads->0.artifact->0;
            &&& spec_maven_path(library.name@, None) matches Ok(m) ==> spec_main_artifact(library, root, style) == Ok::<
                Option<DownloadView>,
                ErrorView,
            >(Some(DownloadView { url: a.url@, path: spec_join(root, m), sha1: Some(a.sha1@), size: Some(a.size) }))
            &&& spec_maven_path(library.name@, None) matches Err(e) ==> spec_main_artifact(library, root, style) == Err::<
                Option<DownloadView>,
                ErrorView,
            >(e)
        }),
        library.downloads is None ==> (spec_derived_library(library, None, root) matches Ok(d) ==> spec_main_artifact(library, root, style)
            == Ok::<Option<DownloadView>, ErrorView>(Some(d))) && (spec_derived_library(library, None, root) matches Err(e)
            ==> spec_main_artifact(library, root, style) == Err::<Option<DownloadView>, ErrorView>(e)),
{
}

} // verus!

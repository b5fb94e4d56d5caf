use vstd::prelude::*;

use crate::launcher::error::{Error, ErrorView};
use crate::launcher::install::download::{is_safe_relative, relative_path_in, DownloadSpec, DownloadView, PathStyle};
use crate::launcher::install::{is_safe_component, safe_component};
use crate::launcher::metadata::models::{
    catalog_wf, lookup, lookup_pair, manifest_wf, spec_java_requirement, JavaRequirement, JavaRuntime, JavaRuntimeCatalog,
    RuntimeFile, RuntimeFileType, RuntimeManifest, VersionMetadata,
};
use crate::launcher::install::instance::all_under;
use crate::launcher::paths::{join, lemma_join_keeps_base, spec_join, spec_runtime_dir, LauncherPaths};
use crate::launcher::platform::Platform;
use crate::task::{count_percent, TaskProgress};
use crate::text::{
    copy_str, lemma_lex_less_irreflexive, lemma_lex_less_total, lemma_lex_less_transitive,
    lex_less, push_char, starts_with, str_eq, str_lex_less,
};

verus! {

/// An installed Java runtime.
#[derive(Clone, Debug)]
pub struct JavaInstall {
    pub component: String,
    pub major_version: u32,
    pub runtime_version: String,
    pub root: String,
    pub executable: String,
}

/// The Java requirement of `version`, once its component is a safe path
/// component.
pub open spec fn spec_checked_requirement(version: VersionMetadata) -> Result<(Seq<char>, u32), ErrorView> {
    let (component, major) = spec_java_requirement(version);
    if !is_safe_component(component) {
        Err(ErrorView::UnsafePath(component))
    } else {
        Ok((component, major))
    }
}

/// The Java requirement of `version`, checked (see
/// `spec_checked_requirement`).
pub fn checked_java_requirement(version: &VersionMetadata) -> (r: Result<JavaRequirement, Error>)
    ensures
        match r {
            Ok(j) => spec_checked_requirement(*version) == Ok::<(Seq<char>, u32), ErrorView>((j.component@, j.major_version)),
            Err(e) => spec_checked_requirement(*version) == Err::<(Seq<char>, u32), ErrorView>(e@),
        },
{
    let requirement = version.java_requirement();
    safe_component(requirement.component.as_str())?;
    Ok(requirement)
}

/// The runtimes the catalog lists for platform `key` and `component`.
pub open spec fn spec_runtimes(catalog: Seq<(String, Vec<(String, Vec<JavaRuntime>)>)>, key: Seq<char>, component: Seq<char>) -> Option<Seq<JavaRuntime>> {
    match lookup(catalog, key) {
        None => None,
        Some(components) => match lookup(components@, component) {
            None => None,
            Some(runtimes) => Some(runtimes@),
        },
    }
}

/// Index of the runtime with the latest release date among those fully
/// rolled out (progress 100), the last one among equal dates; none when no
/// runtime is fully rolled out.
pub open spec fn latest_available(runtimes: Seq<JavaRuntime>) -> Option<int>
    decreases runtimes.len(),
{
    if runtimes.len() == 0 {
        None
    } else {
        let previous = latest_available(runtimes.drop_last());
        let last = runtimes.last();
        if last.availability.progress != 100 {
            previous
        } else {
            match previous {
                None => Some(runtimes.len() - 1),
                Some(k) => if lex_less(last.version.released@, runtimes[k].version.released@) {
                    previous
                } else {
                    Some(runtimes.len() - 1)
                },
            }
        }
    }
}

/// The selected runtime is fully rolled out, no fully rolled-out runtime
/// has a later release date, and none after it has the same date.
pub proof fn lemma_latest_available(runtimes: Seq<JavaRuntime>)
    ensures
        match latest_available(runtimes) {
            None => forall|j: int| 0 <= j < runtimes.len() ==> (#[trigger] runtimes[j]).availability.progress != 100,
            Some(k) => {
                &&& 0 <= k < runtimes.len()
                &&& runtimes[k].availability.progress == 100
                &&& forall|j: int|
                    0 <= j < runtimes.len() && (#[trigger] runtimes[j]).availability.progress == 100
                        ==> !lex_less(runtimes[k].version.released@, runtimes[j].version.released@)
                &&& forall|j: int|
                    k < j < runtimes.len() && (#[trigger] runtimes[j]).availability.progress == 100
                        ==> lex_less(runtimes[j].version.released@, runtimes[k].version.released@)
            },
        },
    decreases runtimes.len(),
{
    if runtimes.len() > 0 {
        let rest = runtimes.drop_last();
        lemma_latest_available(rest);
        let n = runtimes.len() - 1;
        assert forall|j: int| 0 <= j < n implies #[trigger] runtimes[j] == rest[j] by {}
        let last = runtimes.last();
        assert(last == runtimes[n]);
        let newest = last.version.released@;
        if last.availability.progress == 100 {
            match latest_available(rest) {
                None => {
                    assert forall|j: int|
                        0 <= j < runtimes.len() && (#[trigger] runtimes[j]).availability.progress == 100
                        implies !lex_less(newest, runtimes[j].version.released@) by {
                        if j < n {
                            assert(rest[j].availability.progress != 100);
                        } else {
                            lemma_lex_less_irreflexive(newest);
                        }
                    }
                },
                Some(k) => {
                    let best = runtimes[k].version.released@;
                    assert(runtimes[k] == rest[k]);
                    if !lex_less(newest, best) {
                        assert forall|j: int|
                            0 <= j < runtimes.len() && (#[trigger] runtimes[j]).availability.progress
                                == 100 implies !lex_less(newest, runtimes[j].version.released@) by {
                            let other = runtimes[j].version.released@;
                            if j < n {
                                assert(rest[j] == runtimes[j]);
                                assert(!lex_less(best, other));
                                lemma_lex_less_total(best, newest);
                                if lex_less(newest, other) {
                                    if best == newest {
                                        assert(lex_less(best, other));
                                    } else {
                                        assert(lex_less(best, newest));
                                        lemma_lex_less_transitive(best, newest, other);
                                    }
                                }
                            } else {
                                lemma_lex_less_irreflexive(newest);
                            }
                        }
                        assert(latest_available(runtimes) == Some(n));
                    } else {
                        assert(latest_available(runtimes) == Some(k));
                        assert forall|j: int|
                            0 <= j < runtimes.len() && (#[trigger] runtimes[j]).availability.progress
                                == 100 implies !lex_less(best, runtimes[j].version.released@) by {
                            if j < n {
                                assert(rest[j] == runtimes[j]);
                            } else {
                                if lex_less(best, newest) {
                                    lemma_lex_less_transitive(best, newest, best);
                                    lemma_lex_less_irreflexive(best);
                                }
                            }
                        }
                        assert forall|j: int|
                            k < j < runtimes.len() && (#[trigger] runtimes[j]).availability.progress
                                == 100 implies lex_less(runtimes[j].version.released@, best) by {
                            if j < n {
                                assert(rest[j] == runtimes[j]);
                            }
                        }
                    }
                },
            }
        } else {
            match latest_available(rest) {
                Some(k) => {
                    assert(runtimes[k] == rest[k]);
                    assert(latest_available(runtimes) == Some(k));
                    let best = runtimes[k].version.released@;
                    assert forall|j: int|
                        0 <= j < runtimes.len() && (#[trigger] runtimes[j]).availability.progress
                            == 100 implies !lex_less(best, runtimes[j].version.released@) by {
                        assert(j < n);
                        assert(rest[j] == runtimes[j]);
                    }
                    assert forall|j: int|
                        k < j < runtimes.len() && (#[trigger] runtimes[j]).availability.progress
                            == 100 implies lex_less(runtimes[j].version.released@, best) by {
                        assert(j < n);
                        assert(rest[j] == runtimes[j]);
                    }
                },
                None => {
                    assert forall|j: int| 0 <= j < runtimes.len() implies (#[trigger] runtimes[j]).availability.progress != 100 by {
                        if j < n {
                            assert(rest[j] == runtimes[j]);
                        }
                    }
                },
            }
        }
    }
}

/// The runtime to install for `component` on platform `key`: the latest
/// fully rolled-out one (see `latest_available`), once its name is a safe
/// path component. `MissingMetadata` of kind "Java component" when the
/// catalog lists nothing for the platform and component, of kind
/// "available Java runtime" when nothing listed is fully rolled out.
pub open spec fn spec_select_runtime(catalog: Seq<(String, Vec<(String, Vec<JavaRuntime>)>)>, key: Seq<char>, component: Seq<char>) -> Result<JavaRuntime, ErrorView> {
    match spec_runtimes(catalog, key, component) {
        None => Err(ErrorView::MissingMetadata { kind: "Java component"@, key: component, platform: key }),
        Some(runtimes) => match latest_available(runtimes) {
            None => Err(ErrorView::MissingMetadata { kind: "available Java runtime"@, key: component, platform: key }),
            Some(k) => if !is_safe_component(runtimes[k].version.name@) {
                Err(ErrorView::UnsafePath(runtimes[k].version.name@))
            } else {
                Ok(runtimes[k])
            },
        },
    }
}

/// The runtime to install for `requirement` on `platform` (see
/// `spec_select_runtime`).
pub fn select_java_runtime<'a>(catalog: &'a JavaRuntimeCatalog, requirement: &JavaRequirement, platform: Platform) -> (r: Result<&'a JavaRuntime, Error>)
    requires
        catalog_wf(catalog@),
    ensures
        match r {
            Ok(rt) => spec_select_runtime(catalog@, platform@.runtime_key, requirement.component@) == Ok::<JavaRuntime, ErrorView>(*rt),
            Err(e) => spec_select_runtime(catalog@, platform@.runtime_key, requirement.component@) == Err::<JavaRuntime, ErrorView>(e@),
        },
{
    let components = match lookup_pair(catalog, platform.runtime_key()) {
        Some(c) => c,
        None => {
            return Err(Error::MissingMetadata {
                kind: "Java component",
                key: copy_str(requirement.component.as_str()),
                platform: copy_str(platform.runtime_key()),
            });
        },
    };
    let runtimes = match lookup_pair(components, requirement.component.as_str()) {
        Some(r) => r,
        None => {
            return Err(Error::MissingMetadata {
                kind: "Java component",
                key: copy_str(requirement.component.as_str()),
                platform: copy_str(platform.runtime_key()),
            });
        },
    };
    let mut best: Option<usize> = None;
    let mut i: usize = 0;
    while i < runtimes.len()
        invariant
            0 <= i <= runtimes@.len(),
            latest_available(runtimes@.take(i as int)) == match best {
                Some(b) => Some(b as int),
                None => None::<int>,
            },
            best matches Some(b) ==> b < i,
        decreases runtimes@.len() - i,
    {
        assert(runtimes@.take(i + 1).drop_last() =~= runtimes@.take(i as int));
        assert(runtimes@.take(i + 1).last() == runtimes@[i as int]);
        if runtimes[i].availability.progress == 100 {
            match best {
                None => {
                    best = Some(i);
                },
                Some(b) => {
                    assert(runtimes@.take(i + 1)[b as int] == runtimes@[b as int]);
                    if !str_lex_less(
                        runtimes[i].version.released.as_str(),
                        runtimes[b].version.released.as_str(),
                    ) {
                        best = Some(i);
                    }
                },
            }
        }
        i = i + 1;
    }
    assert(runtimes@.take(runtimes@.len() as int) =~= runtimes@);
    match best {
        None => Err(Error::MissingMetadata {
            kind: "available Java runtime",
            key: copy_str(requirement.component.as_str()),
            platform: copy_str(platform.runtime_key()),
        }),
        Some(b) => {
            safe_component(runtimes[b].version.name.as_str())?;
            Ok(&runtimes[b])
        },
    }
}

/// Where a Java runtime goes and where its file list comes from.
#[derive(Debug)]
pub struct JavaRuntimeLayout {
    pub root: String,
    pub marker: String,
    pub manifest_download: DownloadSpec,
}

/// The layout of `runtime` for `component` on platform `key`: its root
/// `<data>/runtimes/<component>/<key>/<name>`, the marker file
/// `<root>/.manifest-sha1` that records which file list it was installed
/// from, and the download of that list to
/// `<cache>/metadata/runtime-manifests/<sha1>.json`.
pub open spec fn spec_runtime_layout(data: Seq<char>, cache: Seq<char>, component: Seq<char>, key: Seq<char>, runtime: JavaRuntime) -> (Seq<char>, Seq<char>, DownloadView) {
    let root = spec_runtime_dir(data, component, key, runtime.version.name@);
    (
        root,
        spec_join(root, ".manifest-sha1"@),
        DownloadView {
            url: runtime.manifest.url@,
            path: spec_join(spec_join(cache, "metadata/runtime-manifests"@), runtime.manifest.sha1@ + seq!['.', 'j', 's', 'o', 'n']),
            sha1: Some(runtime.manifest.sha1@),
            size: Some(runtime.manifest.size),
        },
    )
}

/// The layout of a runtime (see `spec_runtime_layout`).
pub fn java_runtime_layout(paths: &LauncherPaths, requirement: &JavaRequirement, platform: Platform, runtime: &JavaRuntime) -> (r: JavaRuntimeLayout)
    ensures
        (r.root@, r.marker@, r.manifest_download@) == spec_runtime_layout(
            paths.data_root(),
            paths.cache_root(),
            requirement.component@,
            platform@.runtime_key,
            *runtime,
        ),
{
    let root = paths.runtime(requirement.component.as_str(), platform.runtime_key(), runtime.version.name.as_str());
    let marker = join(root.as_str(), ".manifest-sha1");
    let dir = join(paths.cache(), "metadata/runtime-manifests");
    let mut file = copy_str(runtime.manifest.sha1.as_str());
    push_char(&mut file, '.');
    push_char(&mut file, 'j');
    push_char(&mut file, 's');
    push_char(&mut file, 'o');
    push_char(&mut file, 'n');
    assert(file@ =~= runtime.manifest.sha1@ + seq!['.', 'j', 's', 'o', 'n']);
    JavaRuntimeLayout {
        root,
        marker,
        manifest_download: DownloadSpec {
            url: copy_str(runtime.manifest.url.as_str()),
            path: join(dir.as_str(), file.as_str()),
            sha1: Some(copy_str(runtime.manifest.sha1.as_str())),
            size: Some(runtime.manifest.size),
        },
    }
}

/// The runtime `runtime` for `requirement`, installed at `root`, with the
/// Java executable found there; when none was found, `MissingMetadata` of
/// kind "Java executable" for the component on the platform's runtime key.
pub fn java_install_result(
    requirement: &JavaRequirement,
    runtime: &JavaRuntime,
    platform: Platform,
    root: &str,
    executable: Option<String>,
) -> (r: Result<JavaInstall, Error>)
    ensures
        match executable {
            Some(e) => r matches Ok(j) && j.component@ == requirement.component@ && j.major_version
                == requirement.major_version && j.runtime_version@ == runtime.version.name@
                && j.root@ == root@ && j.executable@ == e@,
            None => r matches Err(err) && err@ == ErrorView::MissingMetadata {
                kind: "Java executable"@,
                key: requirement.component@,
                platform: platform@.runtime_key,
            },
        },
{
    match executable {
        Some(executable) => Ok(JavaInstall {
            component: copy_str(requirement.component.as_str()),
            major_version: requirement.major_version,
            runtime_version: copy_str(runtime.version.name.as_str()),
            root: copy_str(root),
            executable,
        }),
        None => Err(Error::MissingMetadata {
            kind: "Java executable",
            key: copy_str(requirement.component.as_str()),
            platform: copy_str(platform.runtime_key()),
        }),
    }
}

/// Whether a runtime on disk is the one `runtime` describes, going by what
/// its marker file holds (`None` when it could not be read): exactly the
/// SHA-1 of the runtime's file list.
pub fn runtime_is_current(recorded: Option<&str>, runtime: &JavaRuntime) -> (r: bool)
    ensures
        r == (recorded matches Some(s) && s@ == runtime.manifest.sha1@),
{
    match recorded {
        Some(s) => str_eq(s, runtime.manifest.sha1.as_str()),
        None => false,
    }
}


/// The directories of a runtime to create, in order, up to the first
/// directory entry whose name is not a safe relative path, and the error
/// for that name, if there is one.
#[derive(Debug)]
pub struct RuntimeDirectoryPlan {
    pub directories: Vec<String>,
    pub error: Option<Error>,
}

/// The directories and error of `spec_runtime_directories` over the
/// directory entries of `files`: each is created at `root` joined with its
/// name.
pub open spec fn spec_runtime_directories(files: Seq<(String, RuntimeFile)>, root: Seq<char>, style: PathStyle) -> (Seq<Seq<char>>, Option<ErrorView>)
    decreases files.len(),
{
    if files.len() == 0 {
        (Seq::empty(), None)
    } else {
        let (dirs, error) = spec_runtime_directories(files.drop_last(), root, style);
        let (name, file) = files.last();
        if error is Some || file.kind != RuntimeFileType::Directory {
            (dirs, error)
        } else if !is_safe_relative(name@, style) {
            (dirs, Some(ErrorView::UnsafePath(name@)))
        } else {
            (dirs.push(spec_join(root, name@)), None)
        }
    }
}

/// An optional error, taken by its view.
pub open spec fn error_opt_view(e: Option<Error>) -> Option<ErrorView> {
    match e {
        Some(x) => Some(x@),
        None => None,
    }
}

/// Once an error is found among some files, it and the directories before
/// it stay the same whatever files follow.
pub proof fn lemma_directories_error_persists(files: Seq<(String, RuntimeFile)>, k: int, root: Seq<char>, style: PathStyle)
    requires
        0 <= k <= files.len(),
        spec_runtime_directories(files.take(k), root, style).1 is Some,
    ensures
        spec_runtime_directories(files, root, style) == spec_runtime_directories(files.take(k), root, style),
    decreases files.len() - k,
{
    if k < files.len() {
        assert(files.take(k + 1).drop_last() =~= files.take(k));
        lemma_directories_error_persists(files, k + 1, root, style);
    } else {
        assert(files.take(k) =~= files);
    }
}

/// The directories of a runtime to create (see
/// `spec_runtime_directories`).
pub fn runtime_directories(root: &str, manifest: &RuntimeManifest, style: PathStyle) -> (r: RuntimeDirectoryPlan)
    requires
        manifest_wf(*manifest),
    ensures
        (r.directories.deep_view(), error_opt_view(r.error)) == spec_runtime_directories(manifest.files@, root@, style),
{
    let files = &manifest.files;
    let mut directories: Vec<String> = Vec::new();
    let mut i: usize = 0;
    assert(directories.deep_view() =~= Seq::<Seq<char>>::empty());
    while i < files.len()
        invariant
            0 <= i <= files@.len(),
            files@ == manifest.files@,
            spec_runtime_directories(files@.take(i as int), root@, style) == (directories.deep_view(), None::<ErrorView>),
        decreases files@.len() - i,
    {
        assert(files@.take(i + 1).drop_last() =~= files@.take(i as int));
        assert(files@.take(i + 1).last() == files@[i as int]);
        if files[i].1.kind == RuntimeFileType::Directory {
            match relative_path_in(files[i].0.as_str(), style) {
                Err(e) => {
                    assert(e@ == ErrorView::UnsafePath(files@[i as int].0@));
                    assert(spec_runtime_directories(files@.take(i + 1), root@, style) == (directories.deep_view(), Some(e@)));
                    proof {
                        lemma_directories_error_persists(files@, i + 1, root@, style);
                    }
                    return RuntimeDirectoryPlan { directories, error: Some(e) };
                },
                Ok(path) => {
                    let ghost before = directories.deep_view();
                    directories.push(join(root, path.as_str()));
                    assert(directories.deep_view() =~= before.push(spec_join(root@, files@[i as int].0@)));
                },
            }
        }
        i = i + 1;
    }
    assert(files@.take(files@.len() as int) =~= files@);
    RuntimeDirectoryPlan { directories, error: None }
}

/// The downloads of a runtime's files, in order: every entry with a raw
/// download goes to `root` joined with its name, checked against the raw
/// SHA-1 and size; the first such name that is not a safe relative path is
/// refused.
pub open spec fn spec_runtime_downloads(files: Seq<(String, RuntimeFile)>, root: Seq<char>, style: PathStyle) -> Result<Seq<DownloadView>, ErrorView>
    decreases files.len(),
{
    if files.len() == 0 {
        Ok(Seq::empty())
    } else {
        match spec_runtime_downloads(files.drop_last(), root, style) {
            Err(e) => Err(e),
            Ok(ds) => {
                let (name, file) = files.last();
                match file.downloads.raw {
                    None => Ok(ds),
                    Some(raw) => if !is_safe_relative(name@, style) {
                        Err(ErrorView::UnsafePath(name@))
                    } else {
                        Ok(ds.push(DownloadView {
                            url: raw.url@,
                            path: spec_join(root, name@),
                            sha1: Some(raw.sha1@),
                            size: Some(raw.size),
                        }))
                    },
                }
            },
        }
    }
}

/// Once listing runtime downloads fails on some files, it fails the same
/// way whatever files follow.
pub proof fn lemma_runtime_downloads_error_persists(files: Seq<(String, RuntimeFile)>, k: int, root: Seq<char>, style: PathStyle)
    requires
        0 <= k <= files.len(),
        spec_runtime_downloads(files.take(k), root, style) is Err,
    ensures
        spec_runtime_downloads(files, root, style) == spec_runtime_downloads(files.take(k), root, style),
    decreases files.len() - k,
{
    if k < files.len() {
        assert(files.take(k + 1).drop_last() =~= files.take(k));
        lemma_runtime_downloads_error_persists(files, k + 1, root, style);
    } else {
        assert(files.take(k) =~= files);
    }
}

/// The downloads of a runtime's files (see `spec_runtime_downloads`).
pub fn runtime_downloads(root: &str, manifest: &RuntimeManifest, style: PathStyle) -> (r: Result<Vec<DownloadSpec>, Error>)
    requires
        manifest_wf(*manifest),
    ensures
        match r {
            Ok(v) => spec_runtime_downloads(manifest.files@, root@, style) == Ok::<Seq<DownloadView>, ErrorView>(v.deep_view()),
            Err(e) => spec_runtime_downloads(manifest.files@, root@, style) == Err::<Seq<DownloadView>, ErrorView>(e@),
        },
{
    let files = &manifest.files;
    let mut downloads: Vec<DownloadSpec> = Vec::new();
    let mut i: usize = 0;
    assert(downloads.deep_view() =~= Seq::<DownloadView>::empty());
    while i < files.len()
        invariant
            0 <= i <= files@.len(),
            files@ == manifest.files@,
            spec_runtime_downloads(files@.take(i as int), root@, style) == Ok::<Seq<DownloadView>, ErrorView>(downloads.deep_view()),
        decreases files@.len() - i,
    {
        assert(files@.take(i + 1).drop_last() =~= files@.take(i as int));
        assert(files@.take(i + 1).last() == files@[i as int]);
        match &files[i].1.downloads.raw {
            None => {},
            Some(raw) => {
                match relative_path_in(files[i].0.as_str(), style) {
                    Err(e) => {
                        proof {
                            lemma_runtime_downloads_error_persists(files@, i + 1, root@, style);
                        }
                        return Err(e);
                    },
                    Ok(path) => {
                        let ghost before = downloads.deep_view();
                        downloads.push(DownloadSpec {
                            url: copy_str(raw.url.as_str()),
                            path: join(root, path.as_str()),
                            sha1: Some(copy_str(raw.sha1.as_str())),
                            size: Some(raw.size),
                        });
                        assert(downloads.deep_view() =~= before.push(DownloadView {
                            url: raw.url@,
                            path: spec_join(root@, files@[i as int].0@),
                            sha1: Some(raw.sha1@),
                            size: Some(raw.size),
                        }));
                    },
                }
            },
        }
        i = i + 1;
    }
    assert(files@.take(files@.len() as int) =~= files@);
    Ok(downloads)
}

/// What to do with one file of a runtime once everything is downloaded:
/// make it executable (if it is a file there), or link it (if nothing is
/// there yet).
#[derive(Debug)]
pub struct RuntimeFileAction {
    pub name: String,
    pub path: String,
    pub executable: bool,
    pub link: bool,
}

/// The actions for a runtime's files, in order, up to the first name that
/// is not a safe relative path, and the error for that name, if any.
#[derive(Debug)]
pub struct RuntimeFinishPlan {
    pub actions: Vec<RuntimeFileAction>,
    pub error: Option<Error>,
}

/// The actions and error of `RuntimeFinishPlan`: each action holds the
/// entry's name, its path `root` joined with the name, whether it is to be
/// executable, and whether it is a link.
pub open spec fn spec_runtime_actions(files: Seq<(String, RuntimeFile)>, root: Seq<char>, style: PathStyle) -> (Seq<(Seq<char>, Seq<char>, bool, bool)>, Option<ErrorView>)
    decreases files.len(),
{
    if files.len() == 0 {
        (Seq::empty(), None)
    } else {
        let (actions, error) = spec_runtime_actions(files.drop_last(), root, style);
        let (name, file) = files.last();
        if error is Some {
            (actions, error)
        } else if !is_safe_relative(name@, style) {
            (actions, Some(ErrorView::UnsafePath(name@)))
        } else {
            (
                actions.push(
                    (name@, spec_join(root, name@), file.executable, file.kind == RuntimeFileType::Link),
                ),
                None,
            )
        }
    }
}

/// The actions of a finishing plan, taken by views.
pub open spec fn actions_view(v: Seq<RuntimeFileAction>) -> Seq<(Seq<char>, Seq<char>, bool, bool)> {
    v.map_values(|a: RuntimeFileAction| (a.name@, a.path@, a.executable, a.link))
}

/// Once an error is found among some files, it and the actions before it
/// stay the same whatever files follow.
pub proof fn lemma_actions_error_persists(files: Seq<(String, RuntimeFile)>, k: int, root: Seq<char>, style: PathStyle)
    requires
        0 <= k <= files.len(),
        spec_runtime_actions(files.take(k), root, style).1 is Some,
    ensures
        spec_runtime_actions(files, root, style) == spec_runtime_actions(files.take(k), root, style),
    decreases files.len() - k,
{
    if k < files.len() {
        assert(files.take(k + 1).drop_last() =~= files.take(k));
        lemma_actions_error_persists(files, k + 1, root, style);
    } else {
        assert(files.take(k) =~= files);
    }
}

/// The actions that finish a runtime (see `spec_runtime_actions`).
pub fn runtime_file_actions(root: &str, manifest: &RuntimeManifest, style: PathStyle) -> (r: RuntimeFinishPlan)
    requires
        manifest_wf(*manifest),
    ensures
        (actions_view(r.actions@), error_opt_view(r.error)) == spec_runtime_actions(manifest.files@, root@, style),
{
    let files = &manifest.files;
    let mut actions: Vec<RuntimeFileAction> = Vec::new();
    let mut i: usize = 0;
    assert(actions_view(actions@) =~= Seq::<(Seq<char>, Seq<char>, bool, bool)>::empty());
    while i < files.len()
        invariant
            0 <= i <= files@.len(),
            files@ == manifest.files@,
            spec_runtime_actions(files@.take(i as int), root@, style) == (actions_view(actions@), None::<ErrorView>),
        decreases files@.len() - i,
    {
        assert(files@.take(i + 1).drop_last() =~= files@.take(i as int));
        assert(files@.take(i + 1).last() == files@[i as int]);
        match relative_path_in(files[i].0.as_str(), style) {
            Err(e) => {
                proof {
                    lemma_actions_error_persists(files@, i + 1, root@, style);
                }
                return RuntimeFinishPlan { actions, error: Some(e) };
            },
            Ok(path) => {
                let ghost before = actions_view(actions@);
                let file = &files[i].1;
                actions.push(RuntimeFileAction {
                    name: copy_str(files[i].0.as_str()),
                    path: join(root, path.as_str()),
                    executable: file.executable,
                    link: file.kind == RuntimeFileType::Link,
                });
                assert(actions_view(actions@) =~= before.push(
                    (files@[i as int].0@, spec_join(root@, files@[i as int].0@), file.executable, file.kind == RuntimeFileType::Link),
                ));
            },
        }
        i = i + 1;
    }
    assert(files@.take(files@.len() as int) =~= files@);
    RuntimeFinishPlan { actions, error: None }
}

/// Every directory created for a runtime, every file downloaded into it
/// and every file finished in it lies under the runtime's root.
pub proof fn lemma_runtime_files_stay_under(files: Seq<(String, RuntimeFile)>, root: Seq<char>, style: PathStyle)
    ensures
        forall|j: int|
            0 <= j < spec_runtime_directories(files, root, style).0.len() ==> starts_with(
                #[trigger] spec_runtime_directories(files, root, style).0[j],
                root,
            ),
        spec_runtime_downloads(files, root, style) is Ok ==> all_under(spec_runtime_downloads(files, root, style)->Ok_0, root),
        forall|j: int|
            0 <= j < spec_runtime_actions(files, root, style).0.len() ==> starts_with(
                (#[trigger] spec_runtime_actions(files, root, style).0[j]).1,
                root,
            ),
    decreases files.len(),
{
    if files.len() == 0 {
        assert(all_under(Seq::<DownloadView>::empty(), root));
    } else {
        let rest = files.drop_last();
        lemma_runtime_files_stay_under(rest, root, style);
        let (name, file) = files.last();
        if is_safe_relative(name@, style) {
            lemma_join_keeps_base(root, name@);
        }
        let (dirs, dir_error) = spec_runtime_directories(rest, root, style);
        if dir_error is None && file.kind == RuntimeFileType::Directory && is_safe_relative(name@, style) {
            let r = dirs.push(spec_join(root, name@));
            assert forall|j: int| 0 <= j < r.len() implies starts_with(#[trigger] r[j], root) by {
                if j < dirs.len() {
                    assert(r[j] == dirs[j]);
                }
            }
        }
        if spec_runtime_downloads(files, root, style) is Ok {
            let ds = spec_runtime_downloads(rest, root, style)->Ok_0;
            match file.downloads.raw {
                None => {},
                Some(raw) => {
                    let r = ds.push(DownloadView {
                        url: raw.url@,
                        path: spec_join(root, name@),
                        sha1: Some(raw.sha1@),
                        size: Some(raw.size),
                    });
                    assert forall|j: int| 0 <= j < r.len() implies starts_with(#[trigger] r[j].path, root) by {
                        if j < ds.len() {
                            assert(r[j] == ds[j]);
                        }
                    }
                },
            }
        }
        let (actions, action_error) = spec_runtime_actions(rest, root, style);
        if action_error is None && is_safe_relative(name@, style) {
            let r = actions.push(
                (name@, spec_join(root, name@), file.executable, file.kind == RuntimeFileType::Link),
            );
            assert forall|j: int| 0 <= j < r.len() implies starts_with((#[trigger] r[j]).1, root) by {
                if j < actions.len() {
                    assert(r[j] == actions[j]);
                }
            }
        }
    }
}

/// The finishing plan of a runtime takes its files in order, one action
/// per file, up to the first name that is not a safe relative path: each
/// action holds the file's name, its path under the root, the file's own
/// `executable` flag and whether the file is a link. Without an unsafe name
/// every file gets its action; otherwise the error names the first unsafe
/// name, the one right after the last action.
pub proof fn lemma_runtime_actions_follow_files(files: Seq<(String, RuntimeFile)>, root: Seq<char>, style: PathStyle)
    ensures
        ({
            let (actions, error) = spec_runtime_actions(files, root, style);
            &&& actions.len() <= files.len()
            &&& forall|j: int|
                0 <= j < actions.len() ==> #[trigger] actions[j] == (
                    files[j].0@,
                    spec_join(root, files[j].0@),
                    files[j].1.executable,
                    files[j].1.kind == RuntimeFileType::Link,
                ) && is_safe_relative(files[j].0@, style)
            &&& (error is None <==> actions.len() == files.len())
            &&& (error is Some ==> error == Some(ErrorView::UnsafePath(files[actions.len() as int].0@))
                && !is_safe_relative(files[actions.len() as int].0@, style))
        }),
    decreases files.len(),
{
    if files.len() > 0 {
        let rest = files.drop_last();
        lemma_runtime_actions_follow_files(rest, root, style);
        assert forall|j: int| 0 <= j < rest.len() implies rest[j] == files[j] by {}
        assert(files.last() == files[files.len() - 1]);
    }
}

/// The paths of the directory entries among `files`, in order, each under
/// `root`.
pub open spec fn directory_paths(files: Seq<(String, RuntimeFile)>, root: Seq<char>) -> Seq<Seq<char>> {
    files.filter_map(
        |f: (String, RuntimeFile)|
            if f.1.kind == RuntimeFileType::Directory {
                Some(spec_join(root, f.0@))
            } else {
                None
            },
    )
}

/// Every directory entry before index `k` has a safe relative name.
pub open spec fn directories_safe_before(files: Seq<(String, RuntimeFile)>, k: int, style: PathStyle) -> bool {
    forall|i: int|
        0 <= i < k && (#[trigger] files[i]).1.kind == RuntimeFileType::Directory ==> is_safe_relative(files[i].0@, style)
}

/// The directories to create for a runtime are its root joined with the
/// name of each directory entry, in order, and nothing else, when every
/// directory entry has a safe relative name. Otherwise the error names the
/// first directory entry whose name is unsafe, and the directories are
/// those of the entries before it; other kinds of entries never count.
pub proof fn lemma_runtime_directories_follow_files(files: Seq<(String, RuntimeFile)>, root: Seq<char>, style: PathStyle)
    ensures
        ({
            let (dirs, error) = spec_runtime_directories(files, root, style);
            &&& (error is None <==> directories_safe_before(files, files.len() as int, style))
            &&& (error is None ==> dirs == directory_paths(files, root))
            &&& (error is Some ==> exists|k: int|
                0 <= k < files.len() && #[trigger] files[k].1.kind == RuntimeFileType::Directory
                    && !is_safe_relative(files[k].0@, style) && directories_safe_before(files, k, style)
                    && error == Some(ErrorView::UnsafePath(files[k].0@))
                    && dirs == directory_paths(files.take(k), root))
        }),
    decreases files.len(),
{
    if files.len() > 0 {
        let rest = files.drop_last();
        let n = files.len() - 1;
        lemma_runtime_directories_follow_files(rest, root, style);
        assert forall|j: int| 0 <= j < rest.len() implies rest[j] == files[j] by {}
        assert(files.last() == files[n]);
        assert(files.take(n) =~= rest);
        let (dirs, error) = spec_runtime_directories(rest, root, style);
        if error is Some {
            let k = choose|k: int|
                0 <= k < rest.len() && #[trigger] rest[k].1.kind == RuntimeFileType::Directory
                    && !is_safe_relative(rest[k].0@, style) && directories_safe_before(rest, k, style)
                    && error == Some(ErrorView::UnsafePath(rest[k].0@))
                    && dirs == directory_paths(rest.take(k), root);
            assert(files.take(k) =~= rest.take(k));
            assert(files[k] == rest[k]);
            assert(directories_safe_before(files, k, style));
            assert(!directories_safe_before(files, files.len() as int, style));
        } else {
            assert(directories_safe_before(files, n, style));
            if files[n].1.kind == RuntimeFileType::Directory && !is_safe_relative(files[n].0@, style) {
                assert(files[n] == files.last());
                assert(!directories_safe_before(files, files.len() as int, style));
            } else {
                assert(directories_safe_before(files, files.len() as int, style)) by {
                    assert forall|i: int|
                        0 <= i < files.len() && (#[trigger] files[i]).1.kind == RuntimeFileType::Directory
                        implies is_safe_relative(files[i].0@, style) by {
                        if i < n {
                            assert(files[i] == rest[i]);
                        }
                    }
                }
            }
        }
    }
}

/// The download of a runtime file that has a raw download: from its URL to
/// its name under `root`, checked against its SHA-1 and size.
pub open spec fn raw_download_of(f: (String, RuntimeFile), root: Seq<char>) -> Option<DownloadView> {
    match f.1.downloads.raw {
        Some(raw) => Some(
            DownloadView { url: raw.url@, path: spec_join(root, f.0@), sha1: Some(raw.sha1@), size: Some(raw.size) },
        ),
        None => None,
    }
}

/// Every entry with a raw download before index `k` has a safe relative
/// name.
pub open spec fn downloads_safe_before(files: Seq<(String, RuntimeFile)>, k: int, style: PathStyle) -> bool {
    forall|i: int|
        0 <= i < k && (#[trigger] files[i]).1.downloads.raw is Some ==> is_safe_relative(files[i].0@, style)
}

/// The downloads of a runtime are, in order, one per entry with a raw
/// download, from that download's URL to the entry's name under the root,
/// checked against its SHA-1 and size, when every such entry has a safe
/// relative name; otherwise the error names the first such entry whose
/// name is unsafe. Entries without a raw download never count.
pub proof fn lemma_runtime_downloads_follow_files(files: Seq<(String, RuntimeFile)>, root: Seq<char>, style: PathStyle)
    ensures
        (spec_runtime_downloads(files, root, style) is Ok <==> downloads_safe_before(files, files.len() as int, style)),
        spec_runtime_downloads(files, root, style) is Ok ==> spec_runtime_downloads(files, root, style)->Ok_0
            == files.filter_map(|f: (String, RuntimeFile)| raw_download_of(f, root)),
        spec_runtime_downloads(files, root, style) matches Err(e) ==> exists|k: int|
            0 <= k < files.len() && (#[trigger] files[k]).1.downloads.raw is Some
                && !is_safe_relative(files[k].0@, style) && downloads_safe_before(files, k, style)
                && e == ErrorView::UnsafePath(files[k].0@),
    decreases files.len(),
{
    if files.len() > 0 {
        let rest = files.drop_last();
        let n = files.len() - 1;
        lemma_runtime_downloads_follow_files(rest, root, style);
        assert forall|j: int| 0 <= j < rest.len() implies rest[j] == files[j] by {}
        assert(files.last() == files[n]);
        match spec_runtime_downloads(rest, root, style) {
            Err(e) => {
                let k = choose|k: int|
                    0 <= k < rest.len() && (#[trigger] rest[k]).1.downloads.raw is Some
                        && !is_safe_relative(rest[k].0@, style) && downloads_safe_before(rest, k, style)
                        && e == ErrorView::UnsafePath(rest[k].0@);
                assert(files[k] == rest[k]);
                assert(downloads_safe_before(files, k, style));
                assert(!downloads_safe_before(files, files.len() as int, style));
            },
            Ok(ds) => {
                assert(downloads_safe_before(files, n, style));
                if files[n].1.downloads.raw is Some && !is_safe_relative(files[n].0@, style) {
                    assert(!downloads_safe_before(files, files.len() as int, style));
                } else {
                    assert(downloads_safe_before(files, files.len() as int, style)) by {
                        assert forall|i: int|
                            0 <= i < files.len() && (#[trigger] files[i]).1.downloads.raw is Some
                            implies is_safe_relative(files[i].0@, style) by {
                            if i < n {
                                assert(files[i] == rest[i]);
                            }
                        }
                    }
                    match files[n].1.downloads.raw {
                        Some(raw) => {
                            assert(ds.push(raw_download_of(files[n], root)->0) =~= ds + seq![raw_download_of(files[n], root)->0]);
                        },
                        None => {},
                    }
                }
            },
        }
    }
}

/// Where a link entry of a runtime points: its target, or
/// `UnsafePath(name)` when it has none.
pub fn runtime_link_target(name: &str, file: &RuntimeFile) -> (r: Result<String, Error>)
    ensures
        match file.target {
            Some(t) => r matches Ok(s) && s@ == t@,
            None => r matches Err(e) && e@ == ErrorView::UnsafePath(name@),
        },
{
    match &file.target {
        Some(target) => Ok(copy_str(target.as_str())),
        None => Err(Error::UnsafePath(copy_str(name))),
    }
}

/// The places a runtime's Java executable may be, in the order they are
/// tried: on Windows `bin/javaw.exe` then `bin/java.exe`; on macOS
/// `jre.bundle/Contents/Home/bin/java` then `bin/java`; elsewhere
/// `bin/java` then `jre/bin/java`; each under `root`.
pub open spec fn spec_executable_candidates(root: Seq<char>, os: Seq<char>) -> Seq<Seq<char>> {
    if os == "windows"@ {
        seq![spec_join(root, "bin/javaw.exe"@), spec_join(root, "bin/java.exe"@)]
    } else if os == "osx"@ {
        seq![spec_join(root, "jre.bundle/Contents/Home/bin/java"@), spec_join(root, "bin/java"@)]
    } else {
        seq![spec_join(root, "bin/java"@), spec_join(root, "jre/bin/java"@)]
    }
}

/// Where to look for the Java executable of a runtime (see
/// `spec_executable_candidates`).
pub fn java_executable_candidates(root: &str, platform: Platform) -> (r: Vec<String>)
    ensures
        r.deep_view() == spec_executable_candidates(root@, platform@.rule_os),
{
    let mut r: Vec<String> = Vec::new();
    if str_eq(platform.rule_os(), "windows") {
        r.push(join(root, "bin/javaw.exe"));
        r.push(join(root, "bin/java.exe"));
    } else if str_eq(platform.rule_os(), "osx") {
        r.push(join(root, "jre.bundle/Contents/Home/bin/java"));
        r.push(join(root, "bin/java"));
    } else {
        r.push(join(root, "bin/java"));
        r.push(join(root, "jre/bin/java"));
    }
    assert(r.deep_view() =~= spec_executable_candidates(root@, platform@.rule_os));
    r
}

/// The Java download percentage after `completed` of `total` files: the
/// count percentage scaled to 95 (the rest is for finishing).
pub open spec fn spec_java_download_percent(completed: nat, total: nat) -> nat {
    count_percent(completed, total) * 95 / 100
}

/// The Java download percentage (see `spec_java_download_percent`).
pub fn java_download_percent(completed: usize, total: usize) -> (r: u8)
    ensures
        r as nat == spec_java_download_percent(completed as nat, total as nat),
        r <= 95,
{
    let downloaded = TaskProgress::from_count(String::new(), completed, total).percent;
    let scaled: u16 = (downloaded as u16) * 95 / 100;
    scaled as u8
}

/// A runtime goes to `<data>/runtimes/<component>/<platform key>/<runtime
/// name>`; the marker recording which file list it came from is the file
/// `.manifest-sha1` in that directory; the file list is fetched from the
/// runtime's manifest URL, checked against its SHA-1 and size, into
/// `<cache>/metadata/runtime-manifests/<sha1>.json`.
pub proof fn lemma_runtime_layout_places(data: Seq<char>, cache: Seq<char>, component: Seq<char>, key: Seq<char>, runtime: JavaRuntime)
    ensures
        ({
            let (root, marker, manifest) = spec_runtime_layout(data, cache, component, key, runtime);
            &&& root == spec_join(spec_join(spec_join(spec_join(data, "runtimes"@), component), key), runtime.version.name@)
            &&& marker == spec_join(root, ".manifest-sha1"@)
            &&& manifest.url == runtime.manifest.url@
            &&& manifest.path == spec_join(
                spec_join(cache, "metadata/runtime-manifests"@),
                runtime.manifest.sha1@ + seq!['.', 'j', 's', 'o', 'n'],
            )
            &&& manifest.sha1 == Some(runtime.manifest.sha1@)
            &&& manifest.size == Some(runtime.manifest.size)
        }),
{
}

/// A version asks for the Java component it names, or `jre-legacy` (Java
/// 8) when it names none; a component that is not a safe path component
/// is refused.
pub proof fn lemma_checked_requirement(version: VersionMetadata)
    ensures
        version.java_version matches Some(j) ==> (is_safe_component(j.component@) ==> spec_checked_requirement(version)
            == Ok::<(Seq<char>, u32), ErrorView>((j.component@, j.major_version))) && (!is_safe_component(
            j.component@,
        ) ==> spec_checked_requirement(version) == Err::<(Seq<char>, u32), ErrorView>(
            ErrorView::UnsafePath(j.component@),
        )),
        version.java_version is None ==> spec_checked_requirement(version) == Ok::<(Seq<char>, u32), ErrorView>(
            ("jre-legacy"@, 8u32),
        ),
{
    reveal_strlit("jre-legacy");
    if version.java_version is None {
        assert(is_safe_component("jre-legacy"@));
    }
}

/// The runtime selected for a component on a platform is one the catalog
/// lists under that platform and component, it is fully rolled out, no
/// listed runtime that is fully rolled out has a later release date, and
/// its name is a safe path component. When the catalog lists nothing
/// there, or nothing fully rolled out, the error is `MissingMetadata` for
/// the component on the platform.
pub proof fn lemma_selected_runtime(catalog: Seq<(String, Vec<(String, Vec<JavaRuntime>)>)>, key: Seq<char>, component: Seq<char>)
    ensures
        spec_runtimes(catalog, key, component) is None ==> spec_select_runtime(catalog, key, component) == Err::<
            JavaRuntime,
            ErrorView,
        >(ErrorView::MissingMetadata { kind: "Java component"@, key: component, platform: key }),
        spec_runtimes(catalog, key, component) matches Some(runtimes) ==> {
            &&& (forall|j: int| 0 <= j < runtimes.len() ==> (#[trigger] runtimes[j]).availability.progress != 100)
                ==> spec_select_runtime(catalog, key, component) == Err::<JavaRuntime, ErrorView>(
                ErrorView::MissingMetadata { kind: "available Java runtime"@, key: component, platform: key },
            )
            &&& spec_select_runtime(catalog, key, component) matches Ok(rt) ==> {
                &&& exists|k: int| 0 <= k < runtimes.len() && runtimes[k] == rt
                &&& rt.availability.progress == 100
                &&& is_safe_component(rt.version.name@)
                &&& forall|j: int|
                    0 <= j < runtimes.len() && (#[trigger] runtimes[j]).availability.progress == 100 ==> !lex_less(
                        rt.version.released@,
                        runtimes[j].version.released@,
                    )
            }
        },
{
    if let Some(runtimes) = spec_runtimes(catalog, key, component) {
        lemma_latest_available(runtimes);
        if let Some(k) = latest_available(runtimes) {
            assert(runtimes[k] == runtimes[k]);
        }
    }
}

/// The Java download percentage is the count percentage scaled to 95: it
/// is 0 before anything is done (with something to do), 95 once
/// everything is, never more than 95, and it never goes down as files
/// complete.
pub proof fn lemma_java_download_percent(completed: nat, total: nat)
    ensures
        spec_java_download_percent(completed, total) <= 95,
        total > 0 ==> spec_java_download_percent(0, total) == 0,
        total * 100 <= usize::MAX ==> spec_java_download_percent(total, total) == 95,
        forall|c: nat| c <= completed ==> #[trigger] spec_java_download_percent(c, total) <= spec_java_download_percent(completed, total),
{
    crate::task::lemma_percent_at_most_100(completed, total);
    assert(count_percent(completed, total) * 95 / 100 <= 95) by (nonlinear_arith)
        requires
            count_percent(completed, total) <= 100,
    ;
    if total > 0 {
        crate::task::lemma_percent_nothing_done(total);
    }
    if total > 0 && total * 100 <= usize::MAX {
        crate::task::lemma_percent_complete(total);
    }
    assert forall|c: nat| c <= completed implies #[trigger] spec_java_download_percent(c, total) <= spec_java_download_percent(completed, total) by {
        crate::task::lemma_percent_monotone(c, completed, total);
        let a = count_percent(c, total);
        let b = count_percent(completed, total);
        assert(a * 95 / 100 <= b * 95 / 100) by (nonlinear_arith)
            requires
                a <= b,
        ;
    }
}

} // verus!

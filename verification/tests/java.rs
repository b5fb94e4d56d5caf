use mc_client::launcher::install::java::{
    checked_java_requirement, java_download_percent, java_executable_candidates,
    java_install_result, java_runtime_layout, runtime_directories, runtime_downloads, runtime_file_actions,
    runtime_is_current, runtime_link_target, select_java_runtime,
};
use mc_client::launcher::metadata::{
    Download, VersionDownloads, VersionMetadata, VersionType, Availability, JavaRequirement, JavaRuntime, JavaRuntimeCatalog, RuntimeDownload,
    RuntimeDownloads, RuntimeFile, RuntimeFileType, RuntimeManifest, RuntimeManifestDownload,
    RuntimeVersion,
};
use mc_client::launcher::install::download::PathStyle;
use mc_client::launcher::{Error, LauncherPaths, Platform};

fn runtime(name: &str, released: &str, progress: u8) -> JavaRuntime {
    JavaRuntime {
        availability: Availability { group: 1, progress },
        manifest: RuntimeManifestDownload {
            sha1: format!("sha-{name}"),
            size: 10,
            url: format!("https://example.test/{name}.json"),
        },
        version: RuntimeVersion { name: name.to_string(), released: released.to_string() },
    }
}

fn catalog(runtimes: Vec<JavaRuntime>) -> JavaRuntimeCatalog {
    vec![("linux".to_string(), vec![("java-runtime-gamma".to_string(), runtimes)])]
}

fn requirement(component: &str) -> JavaRequirement {
    JavaRequirement { component: component.to_string(), major_version: 17 }
}

fn linux() -> Platform {
    Platform::for_target("linux", "x86_64").unwrap()
}

#[test]
fn newest_fully_available_runtime_is_chosen() {
    let cat = catalog(vec![
        runtime("17.0.1", "2022-01-01", 100),
        runtime("17.0.9", "2024-01-01", 50),
        runtime("17.0.8", "2023-06-01", 100),
        runtime("17.0.8b", "2023-06-01", 100),
        runtime("17.0.2", "2022-06-01", 100),
    ]);
    let chosen = select_java_runtime(&cat, &requirement("java-runtime-gamma"), linux()).unwrap();
    assert_eq!(chosen.version.name, "17.0.8b");
}

#[test]
fn missing_runtimes_are_reported() {
    let cat = catalog(vec![runtime("17", "2022", 10)]);
    match select_java_runtime(&cat, &requirement("java-runtime-gamma"), linux()) {
        Err(Error::MissingMetadata { kind, key, platform }) => {
            assert_eq!(kind, "available Java runtime");
            assert_eq!(key, "java-runtime-gamma");
            assert_eq!(platform, "linux");
        }
        other => panic!("unexpected {:?}", other),
    }
    match select_java_runtime(&cat, &requirement("jre-legacy"), linux()) {
        Err(Error::MissingMetadata { kind, .. }) => assert_eq!(kind, "Java component"),
        other => panic!("unexpected {:?}", other),
    }
    let mac = Platform::for_target("macos", "x86_64").unwrap();
    assert!(matches!(select_java_runtime(&cat, &requirement("java-runtime-gamma"), mac), Err(Error::MissingMetadata { .. })));
    let bad = catalog(vec![runtime("../x", "2022", 100)]);
    assert!(matches!(select_java_runtime(&bad, &requirement("java-runtime-gamma"), linux()), Err(Error::UnsafePath(p)) if p == "../x"));
}

#[test]
fn installed_runtime_is_current_only_for_the_same_file_list() {
    let rt = runtime("17.0.8", "2023", 100);
    assert!(runtime_is_current(Some("sha-17.0.8"), &rt));
    assert!(!runtime_is_current(Some("SHA-17.0.8"), &rt));
    assert!(!runtime_is_current(Some("sha-17.0.8\n"), &rt));
    assert!(!runtime_is_current(None, &rt));
}

#[test]
fn installed_runtime_needs_an_executable() {
    let rt = runtime("17.0.8", "2023", 100);
    let root = "data/runtimes/java-runtime-gamma/linux/17.0.8";
    let java = java_install_result(
        &requirement("java-runtime-gamma"),
        &rt,
        linux(),
        root,
        Some(format!("{root}/bin/java")),
    )
    .unwrap();
    assert_eq!(java.component, "java-runtime-gamma");
    assert_eq!(java.major_version, 17);
    assert_eq!(java.runtime_version, "17.0.8");
    assert_eq!(java.root, root);
    assert_eq!(java.executable, format!("{root}/bin/java"));
    match java_install_result(&requirement("java-runtime-gamma"), &rt, linux(), root, None) {
        Err(Error::MissingMetadata { kind, key, platform }) => {
            assert_eq!(kind, "Java executable");
            assert_eq!(key, "java-runtime-gamma");
            assert_eq!(platform, "linux");
        }
        other => panic!("unexpected {:?}", other),
    }
}

#[test]
fn runtime_layout_paths() {
    let paths = LauncherPaths::from_roots("data".to_string(), "cache".to_string());
    let rt = runtime("17.0.8", "2023", 100);
    let layout = java_runtime_layout(&paths, &requirement("java-runtime-gamma"), linux(), &rt);
    assert_eq!(layout.root, "data/runtimes/java-runtime-gamma/linux/17.0.8");
    assert_eq!(layout.marker, "data/runtimes/java-runtime-gamma/linux/17.0.8/.manifest-sha1");
    assert_eq!(layout.manifest_download.path, "cache/metadata/runtime-manifests/sha-17.0.8.json");
    assert_eq!(layout.manifest_download.sha1.as_deref(), Some("sha-17.0.8"));
    assert_eq!(layout.manifest_download.size, Some(10));
}

fn file(kind: RuntimeFileType, raw: bool, executable: bool, target: Option<&str>) -> RuntimeFile {
    RuntimeFile {
        kind,
        downloads: RuntimeDownloads {
            raw: if raw {
                Some(RuntimeDownload { sha1: "aa".to_string(), size: 3, url: "https://x.test/f".to_string() })
            } else {
                None
            },
            lzma: None,
        },
        executable,
        target: target.map(|t| t.to_string()),
    }
}

#[test]
fn runtime_files_are_planned_in_order() {
    let manifest = RuntimeManifest {
        files: vec![
            ("bin".to_string(), file(RuntimeFileType::Directory, false, false, None)),
            ("bin/java".to_string(), file(RuntimeFileType::File, true, true, None)),
            ("lib/link".to_string(), file(RuntimeFileType::Link, false, false, Some("../bin/java"))),
        ],
    };
    let dirs = runtime_directories("rt", &manifest, PathStyle::Unix);
    assert_eq!(dirs.directories, vec!["rt/bin".to_string()]);
    assert!(dirs.error.is_none());
    let downloads = runtime_downloads("rt", &manifest, PathStyle::Unix).unwrap();
    assert_eq!(downloads.len(), 1);
    assert_eq!(downloads[0].path, "rt/bin/java");
    let finish = runtime_file_actions("rt", &manifest, PathStyle::Unix);
    assert!(finish.error.is_none());
    assert_eq!(finish.actions.len(), 3);
    assert!(finish.actions[1].executable);
    assert!(finish.actions[2].link);
    assert_eq!(runtime_link_target("lib/link", &manifest.files[2].1).unwrap(), "../bin/java");
    assert!(matches!(runtime_link_target("x", &manifest.files[0].1), Err(Error::UnsafePath(p)) if p == "x"));
}

#[test]
fn unsafe_runtime_names_stop_each_stage() {
    let manifest = RuntimeManifest {
        files: vec![
            ("a".to_string(), file(RuntimeFileType::Directory, false, false, None)),
            ("b/../c".to_string(), file(RuntimeFileType::Directory, false, false, None)),
            ("d".to_string(), file(RuntimeFileType::Directory, false, false, None)),
        ],
    };
    let dirs = runtime_directories("rt", &manifest, PathStyle::Unix);
    assert_eq!(dirs.directories, vec!["rt/a".to_string()]);
    assert!(matches!(dirs.error, Some(Error::UnsafePath(p)) if p == "b/../c"));
    assert!(runtime_downloads("rt", &manifest, PathStyle::Unix).unwrap().is_empty());
    let finish = runtime_file_actions("rt", &manifest, PathStyle::Unix);
    assert_eq!(finish.actions.len(), 1);
    assert!(finish.error.is_some());

    let bad_download = RuntimeManifest {
        files: vec![("/abs".to_string(), file(RuntimeFileType::File, true, false, None))],
    };
    assert!(matches!(runtime_downloads("rt", &bad_download, PathStyle::Unix), Err(Error::UnsafePath(p)) if p == "/abs"));
}

#[test]
fn executable_candidates_depend_on_the_operating_system() {
    let win = Platform::for_target("windows", "x86_64").unwrap();
    assert_eq!(java_executable_candidates("rt", win), vec!["rt/bin/javaw.exe".to_string(), "rt/bin/java.exe".to_string()]);
    let mac = Platform::for_target("macos", "aarch64").unwrap();
    assert_eq!(java_executable_candidates("rt", mac)[0], "rt/jre.bundle/Contents/Home/bin/java");
    assert_eq!(java_executable_candidates("rt", linux()), vec!["rt/bin/java".to_string(), "rt/jre/bin/java".to_string()]);
}

#[test]
fn java_progress_is_scaled_to_95() {
    assert_eq!(java_download_percent(0, 0), 95);
    assert_eq!(java_download_percent(1, 2), 47);
    assert_eq!(java_download_percent(0, 5), 0);
}

#[test]
fn java_component_must_be_safe() {
    let d = Download { id: None, sha1: "a".into(), size: 1, total_size: None, url: "u".into(), path: None };
    let mut version = VersionMetadata {
        id: "1".into(),
        kind: VersionType::Release,
        main_class: "M".into(),
        assets: "1".into(),
        asset_index: d.clone_fields(),
        downloads: VersionDownloads { client: d, client_mappings: None, server: None, server_mappings: None },
        libraries: Vec::new(),
        arguments: None,
        minecraft_arguments: None,
        java_version: None,
        logging: None,
    };
    assert_eq!(checked_java_requirement(&version).unwrap().component, "jre-legacy");
    version.java_version = Some(requirement("a/b"));
    assert!(matches!(checked_java_requirement(&version), Err(Error::UnsafePath(p)) if p == "a/b"));
}

trait CloneFields {
    fn clone_fields(&self) -> Self;
}

impl CloneFields for mc_client::launcher::metadata::Download {
    fn clone_fields(&self) -> Self {
        mc_client::launcher::metadata::Download {
            id: self.id.clone(),
            sha1: self.sha1.clone(),
            size: self.size,
            total_size: self.total_size,
            url: self.url.clone(),
            path: self.path.clone(),
        }
    }
}

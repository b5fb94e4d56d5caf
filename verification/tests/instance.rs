use mc_client::launcher::install::instance::{
    asset_index_download, derived_library_spec, instance_layout, logging_download,
    main_artifact_spec, main_artifact_spec_in, materialization_destinations, maven_path, native_entry_target,
    plan_asset_downloads, plan_libraries, plan_materialization,
    plan_version_json, push_unique,
};
use mc_client::launcher::install::download::{DownloadSpec, PathStyle};
use mc_client::launcher::metadata::{
    AssetIndex, AssetObject, ClientLogging, Download, Extract, LatestVersions, Library,
    LibraryDownloads, Logging, OsRule, Rule, RuleAction, VersionDownloads, VersionManifest,
    VersionMetadata, VersionSummary, VersionType,
};
use mc_client::launcher::{Error, LauncherPaths, Platform};

fn download(path: Option<&str>, url: &str, sha1: &str, size: u64) -> Download {
    Download {
        id: None,
        sha1: sha1.to_string(),
        size,
        total_size: None,
        url: url.to_string(),
        path: path.map(|p| p.to_string()),
    }
}

fn library(name: &str) -> Library {
    Library {
        name: name.to_string(),
        url: None,
        downloads: None,
        natives: Vec::new(),
        rules: Vec::new(),
        extract: None,
    }
}

fn linux() -> Platform {
    Platform::for_target("linux", "x86_64").unwrap()
}

fn windows() -> Platform {
    Platform::for_target("windows", "x86_64").unwrap()
}

#[test]
fn converts_maven_coordinates_to_paths() {
    assert_eq!(
        maven_path("org.lwjgl:lwjgl:3.3.3", None).unwrap(),
        "org/lwjgl/lwjgl/3.3.3/lwjgl-3.3.3.jar"
    );
    assert_eq!(
        maven_path("org.lwjgl:lwjgl:3.3.3", Some("natives-windows")).unwrap(),
        "org/lwjgl/lwjgl/3.3.3/lwjgl-3.3.3-natives-windows.jar"
    );
}

#[test]
fn maven_coordinates_with_classifier_and_extension() {
    assert_eq!(
        maven_path("com.example:thing:1.0:natives-linux@zip", None).unwrap(),
        "com/example/thing/1.0/thing-1.0-natives-linux.zip"
    );
    assert_eq!(
        maven_path("com.example:thing:1.0:natives-linux", Some("other")).unwrap(),
        "com/example/thing/1.0/thing-1.0-other.jar"
    );
}

#[test]
fn bad_maven_coordinates_are_refused() {
    assert!(matches!(maven_path("a:b", None), Err(Error::UnsafePath(p)) if p == "a:b"));
    assert!(matches!(maven_path("a:b:c:d:e@zip", None), Err(Error::UnsafePath(p)) if p == "a:b:c:d:e"));
    assert!(matches!(maven_path("a:..:c", None), Err(Error::UnsafePath(p)) if p == ".."));
    assert!(matches!(maven_path("a:b/x:c", None), Err(Error::UnsafePath(p)) if p == "b/x"));
    assert!(matches!(maven_path("a:b:c@", None), Err(Error::UnsafePath(p)) if p.is_empty()));
}

#[test]
fn does_not_invent_an_artifact_for_classifier_only_library_metadata() {
    let mut lib = library("net.java.jinput:jinput-platform:2.0.5");
    lib.downloads = Some(LibraryDownloads {
        artifact: None,
        classifiers: vec![(
            "natives-windows".to_string(),
            download(
                Some("net/java/jinput/jinput-platform/2.0.5/jinput-platform-2.0.5-natives-windows.jar"),
                "https://example.test/native.jar",
                "abc",
                1,
            ),
        )],
    });

    assert!(main_artifact_spec(&lib, "libraries").unwrap().is_none());
}

#[test]
fn main_artifact_comes_from_the_listed_download_or_the_coordinate() {
    let mut listed = library("a.b:c:1");
    listed.downloads = Some(LibraryDownloads {
        artifact: Some(download(Some("a/b/c/1/c-1.jar"), "https://x.test/c.jar", "ff", 5)),
        classifiers: Vec::new(),
    });
    let spec = main_artifact_spec(&listed, "libs").unwrap().unwrap();
    assert_eq!(spec.path, "libs/a/b/c/1/c-1.jar");
    assert_eq!(spec.url, "https://x.test/c.jar");
    assert_eq!(spec.sha1.as_deref(), Some("ff"));
    assert_eq!(spec.size, Some(5));

    let derived = main_artifact_spec(&library("a.b:c:1"), "libs").unwrap().unwrap();
    assert_eq!(derived.path, "libs/a/b/c/1/c-1.jar");
    assert_eq!(derived.url, "https://libraries.minecraft.net/a/b/c/1/c-1.jar");
    assert!(derived.sha1.is_none());
    assert!(derived.size.is_none());
}

#[test]
fn derived_downloads_use_the_library_repository_without_trailing_slashes() {
    let mut lib = library("a:b:1");
    lib.url = Some("https://maven.example.test//".to_string());
    let spec = derived_library_spec(&lib, Some("natives"), "root/").unwrap();
    assert_eq!(spec.url, "https://maven.example.test/a/b/1/b-1-natives.jar");
    assert_eq!(spec.path, "root/a/b/1/b-1-natives.jar");
}

#[test]
fn unsafe_listed_paths_are_refused() {
    let mut lib = library("a:b:1");
    lib.downloads = Some(LibraryDownloads {
        artifact: Some(download(Some("../escape.jar"), "https://x.test", "00", 1)),
        classifiers: Vec::new(),
    });
    assert!(matches!(main_artifact_spec(&lib, "libs"), Err(Error::UnsafePath(p)) if p == "../escape.jar"));
}

#[test]
fn push_unique_skips_a_path_already_planned() {
    let mut downloads = Vec::new();
    let spec = |path: &str| DownloadSpec { url: "u".to_string(), path: path.to_string(), sha1: None, size: None };
    push_unique(&mut downloads, spec("a/b"), PathStyle::Unix);
    push_unique(&mut downloads, spec("a/c"), PathStyle::Unix);
    push_unique(&mut downloads, spec("a//b"), PathStyle::Unix);
    push_unique(&mut downloads, spec("a/./c/"), PathStyle::Unix);
    assert_eq!(downloads.len(), 2);
    let mut on_windows = Vec::new();
    push_unique(&mut on_windows, spec("a/b"), PathStyle::Windows);
    push_unique(&mut on_windows, spec("a\\b"), PathStyle::Windows);
    assert_eq!(on_windows.len(), 1);
    let mut on_unix = Vec::new();
    push_unique(&mut on_unix, spec("a/b"), PathStyle::Unix);
    push_unique(&mut on_unix, spec("a\\b"), PathStyle::Unix);
    assert_eq!(on_unix.len(), 2);
}

#[test]
fn listed_library_paths_are_read_as_the_system_reads_them() {
    let mut lib = library("a.b:c:1");
    lib.downloads = Some(LibraryDownloads {
        artifact: Some(download(Some("..\\outside.jar"), "https://example.test/c.jar", "abc", 1)),
        classifiers: Vec::new(),
    });
    assert!(matches!(main_artifact_spec_in(&lib, "libs", PathStyle::Windows), Err(Error::UnsafePath(p)) if p == "..\\outside.jar"));
    let unix = main_artifact_spec_in(&lib, "libs", PathStyle::Unix).unwrap().unwrap();
    assert_eq!(unix.path, "libs/..\\outside.jar");
    let objects = vec![("..\\evil".to_string(), object("ab01", 1))];
    let plan = plan_materialization(&objects, "assets", "virtual", PathStyle::Windows);
    assert!(plan.links.is_empty());
    assert!(matches!(plan.error, Some(Error::UnsafePath(p)) if p == "..\\evil"));
}

fn windows_only_rule() -> Rule {
    Rule {
        action: RuleAction::Allow,
        os: Some(OsRule { name: Some("windows".to_string()), arch: None, version: None }),
        features: Vec::new(),
    }
}

#[test]
fn library_plan_follows_rules_natives_and_deduplication() {
    let plain = library("org.example:core:1.0");
    let duplicate = library("org.example:core:1.0");
    let mut windows_only = library("org.example:win:1.0");
    windows_only.rules = vec![windows_only_rule()];
    let mut native = library("org.lwjgl:lwjgl:3.3.3");
    native.natives = vec![
        ("linux".to_string(), "natives-linux".to_string()),
        ("windows".to_string(), "natives-windows-${arch}".to_string()),
    ];
    native.extract = Some(Extract { exclude: vec!["META-INF/".to_string()] });
    let libs = vec![plain, duplicate, windows_only, native];

    let plan = plan_libraries(&libs, linux(), "libs", PathStyle::Unix).unwrap();
    let paths: Vec<&str> = plan.downloads.iter().map(|d| d.path.as_str()).collect();
    assert_eq!(
        paths,
        vec![
            "libs/org/example/core/1.0/core-1.0.jar",
            "libs/org/lwjgl/lwjgl/3.3.3/lwjgl-3.3.3.jar",
            "libs/org/lwjgl/lwjgl/3.3.3/lwjgl-3.3.3-natives-linux.jar",
        ]
    );
    assert_eq!(plan.native_archives.len(), 1);
    assert_eq!(plan.native_archives[0].archive, "libs/org/lwjgl/lwjgl/3.3.3/lwjgl-3.3.3-natives-linux.jar");
    assert_eq!(plan.native_archives[0].exclusions, vec!["META-INF/".to_string()]);

    let plan = plan_libraries(&libs, windows(), "libs", PathStyle::Unix).unwrap();
    assert_eq!(plan.downloads.len(), 4);
    assert_eq!(
        plan.native_archives[0].archive,
        "libs/org/lwjgl/lwjgl/3.3.3/lwjgl-3.3.3-natives-windows-64.jar"
    );
}

#[test]
fn library_plan_stops_at_the_first_bad_library() {
    let libs = vec![library("good:one:1"), library("bad"), library("also:bad")];
    assert!(matches!(plan_libraries(&libs, linux(), "libs", PathStyle::Unix), Err(Error::UnsafePath(p)) if p == "bad"));
}

fn version(asset_index_id: Option<&str>, logging: Option<Logging>) -> VersionMetadata {
    let mut index = download(None, "https://example.test/assets", "abc", 1);
    index.id = asset_index_id.map(|s| s.to_string());
    VersionMetadata {
        id: "1.0".to_string(),
        kind: VersionType::Release,
        main_class: "net.minecraft.client.main.Main".to_string(),
        assets: "legacy".to_string(),
        asset_index: index,
        downloads: VersionDownloads {
            client: download(None, "https://example.test/client", "def", 7),
            client_mappings: None,
            server: None,
            server_mappings: None,
        },
        libraries: Vec::new(),
        arguments: None,
        minecraft_arguments: None,
        java_version: None,
        logging,
    }
}

#[test]
fn asset_index_goes_under_indexes() {
    let spec = asset_index_download(&version(Some("17"), None), "assets").unwrap();
    assert_eq!(spec.path, "assets/indexes/17.json");
    let spec = asset_index_download(&version(None, None), "assets").unwrap();
    assert_eq!(spec.path, "assets/indexes/legacy.json");
    assert!(matches!(asset_index_download(&version(Some("../x"), None), "assets"), Err(Error::UnsafePath(p)) if p == "../x"));
}

fn object(hash: &str, size: u64) -> AssetObject {
    AssetObject { hash: hash.to_string(), size }
}

#[test]
fn asset_downloads_are_stored_by_hash() {
    let objects = vec![("minecraft/sounds/a.ogg".to_string(), object("bd0123", 10))];
    let downloads = plan_asset_downloads(&objects, "assets").unwrap();
    assert_eq!(downloads[0].url, "https://resources.download.minecraft.net/bd/bd0123");
    assert_eq!(downloads[0].path, "assets/objects/bd/bd0123");
    assert_eq!(downloads[0].sha1.as_deref(), Some("bd0123"));
    assert_eq!(downloads[0].size, Some(10));

    let bad = vec![("x".to_string(), object("b", 1))];
    assert!(matches!(plan_asset_downloads(&bad, "assets"), Err(Error::UnsafePath(p)) if p == "b"));
    let bad = vec![("x".to_string(), object("zz", 1))];
    assert!(matches!(plan_asset_downloads(&bad, "assets"), Err(Error::UnsafePath(p)) if p == "zz"));
}

#[test]
fn assets_are_linked_by_name_until_an_unsafe_name() {
    let objects = vec![
        ("a/b.png".to_string(), object("ab01", 1)),
        ("../evil".to_string(), object("cd02", 1)),
        ("c.png".to_string(), object("ef03", 1)),
    ];
    let plan = plan_materialization(&objects, "assets", "game/resources", PathStyle::Unix);
    assert_eq!(plan.links.len(), 1);
    assert_eq!(plan.links[0].source, "assets/objects/ab/ab01");
    assert_eq!(plan.links[0].target, "game/resources/a/b.png");
    assert!(matches!(plan.error, Some(Error::UnsafePath(p)) if p == "../evil"));

    let index = AssetIndex { objects: Vec::new(), virtual_: true, map_to_resources: true };
    assert_eq!(
        materialization_destinations(&index, "assets", "legacy", "game"),
        vec!["assets/virtual/legacy".to_string(), "game/resources".to_string()]
    );
}

#[test]
fn asset_links_take_the_first_two_bytes_of_the_hash() {
    let objects = vec![
        ("x.ogg".to_string(), object("zz12", 1)),
        ("y.ogg".to_string(), object("\u{e9}1", 1)),
    ];
    let plan = plan_materialization(&objects, "assets", "virtual", PathStyle::Unix);
    assert!(plan.error.is_none());
    assert_eq!(plan.links[0].source, "assets/objects/zz/zz12");
    assert_eq!(plan.links[1].source, "assets/objects/\u{e9}/\u{e9}1");
    assert_eq!(plan.links[1].target, "virtual/y.ogg");
}

#[test]
fn logging_configuration_goes_under_log_configs() {
    assert!(logging_download(&version(None, None), "assets").unwrap().is_none());
    let logging = Logging {
        client: ClientLogging {
            argument: "-Dlog4j.configurationFile=${path}".to_string(),
            file: download(None, "https://example.test/log.xml", "aa", 2),
            kind: "log4j2-xml".to_string(),
        },
    };
    let spec = logging_download(&version(None, Some(logging)), "assets").unwrap().unwrap();
    assert_eq!(spec.path, "assets/log_configs/client-log-config.xml");
}

#[test]
fn native_entries_skip_directories_and_exclusions() {
    let exclusions = vec!["META-INF/".to_string()];
    assert_eq!(native_entry_target("natives", "liblwjgl.so", false, &exclusions).as_deref(), Some("natives/liblwjgl.so"));
    assert!(native_entry_target("natives", "META-INF/MANIFEST.MF", false, &exclusions).is_none());
    assert!(native_entry_target("natives", "dir/", true, &exclusions).is_none());
}

fn manifest() -> VersionManifest {
    VersionManifest {
        latest: LatestVersions { release: "1.0".to_string(), snapshot: "1.1-test".to_string() },
        versions: vec![VersionSummary {
            id: "1.0".to_string(),
            kind: VersionType::Release,
            url: "https://example.test/1.0.json".to_string(),
            time: "2026-01-01T00:00:00Z".to_string(),
            release_time: "2026-01-01T00:00:00Z".to_string(),
            sha1: "abc".to_string(),
            compliance_level: 1,
        }],
    }
}

#[test]
fn version_metadata_goes_into_the_version_directory() {
    let paths = LauncherPaths::from_roots("data".to_string(), "cache".to_string());
    let plan = plan_version_json(&paths, linux(), "My world", "1.0", &manifest()).unwrap();
    assert_eq!(plan.version_dir, "data/minecraft/versions/1.0");
    assert_eq!(plan.download.path, "data/minecraft/versions/1.0/1.0.json");
    assert_eq!(plan.download.url, "https://example.test/1.0.json");
    assert_eq!(plan.download.sha1.as_deref(), Some("abc"));
    assert!(plan.download.size.is_none());

    match plan_version_json(&paths, linux(), "x", "2.0", &manifest()) {
        Err(Error::MissingMetadata { kind, key, platform }) => {
            assert_eq!(kind, "Minecraft version");
            assert_eq!(key, "2.0");
            assert_eq!(platform, "linux");
        }
        other => panic!("unexpected {:?}", other),
    }
    assert!(matches!(plan_version_json(&paths, linux(), "a/b", "1.0", &manifest()), Err(Error::UnsafePath(p)) if p == "a/b"));
    assert!(matches!(plan_version_json(&paths, linux(), "ok", "..", &manifest()), Err(Error::UnsafePath(p)) if p == ".."));
}

#[test]
fn instance_layout_places_files() {
    let paths = LauncherPaths::from_roots("data".to_string(), "cache".to_string());
    let layout = instance_layout(&paths, "1.0", "id-1".to_string(), &version(None, None));
    assert_eq!(layout.root, "data/instances/id-1");
    assert_eq!(layout.game_directory, "data/instances/id-1");
    assert_eq!(layout.natives_directory, "cache/natives/id-1/1.0");
    assert_eq!(layout.client_jar, "data/minecraft/versions/1.0/1.0.jar");
    assert_eq!(layout.client_download.url, "https://example.test/client");
    assert_eq!(layout.client_download.size, Some(7));
    assert_eq!(layout.id, "id-1");
}

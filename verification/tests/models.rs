use mc_client::launcher::metadata::{
    rules_allow, Download, JavaRequirement, LatestVersions, Library, OsRule, Rule, RuleAction,
    RuntimeDownload, RuntimeDownloads, RuntimeFile, RuntimeFileType, RuntimeManifest,
    VersionDownloads, VersionManifest, VersionMetadata, VersionSummary, VersionType,
};
use mc_client::launcher::Platform;
use serde_json::Value;

fn text(v: &Value, key: &str) -> String {
    v[key].as_str().unwrap().to_string()
}

fn opt_text(v: &Value, key: &str) -> Option<String> {
    v.get(key).and_then(|x| x.as_str()).map(|s| s.to_string())
}

fn version_type(v: &Value) -> VersionType {
    match v.as_str().unwrap() {
        "release" => VersionType::Release,
        "snapshot" => VersionType::Snapshot,
        "old_alpha" => VersionType::OldAlpha,
        _ => VersionType::OldBeta,
    }
}

fn download_of(v: &Value) -> Download {
    Download {
        id: opt_text(v, "id"),
        sha1: text(v, "sha1"),
        size: v["size"].as_u64().unwrap(),
        total_size: v.get("totalSize").and_then(|x| x.as_u64()),
        url: text(v, "url"),
        path: opt_text(v, "path"),
    }
}

fn manifest_of(v: &Value) -> VersionManifest {
    VersionManifest {
        latest: LatestVersions {
            release: text(&v["latest"], "release"),
            snapshot: text(&v["latest"], "snapshot"),
        },
        versions: v["versions"]
            .as_array()
            .unwrap()
            .iter()
            .map(|s| VersionSummary {
                id: text(s, "id"),
                kind: version_type(&s["type"]),
                url: text(s, "url"),
                time: text(s, "time"),
                release_time: text(s, "releaseTime"),
                sha1: text(s, "sha1"),
                compliance_level: s["complianceLevel"].as_u64().unwrap() as u8,
            })
            .collect(),
    }
}

fn version_of(v: &Value) -> VersionMetadata {
    VersionMetadata {
        id: text(v, "id"),
        kind: version_type(&v["type"]),
        main_class: text(v, "mainClass"),
        assets: text(v, "assets"),
        asset_index: download_of(&v["assetIndex"]),
        downloads: VersionDownloads {
            client: download_of(&v["downloads"]["client"]),
            client_mappings: None,
            server: None,
            server_mappings: None,
        },
        libraries: Vec::new(),
        arguments: None,
        minecraft_arguments: None,
        java_version: v.get("javaVersion").map(|j| JavaRequirement {
            component: text(j, "component"),
            major_version: j["majorVersion"].as_u64().unwrap() as u32,
        }),
        logging: None,
    }
}

fn runtime_manifest_of(v: &Value) -> RuntimeManifest {
    RuntimeManifest {
        files: v["files"]
            .as_object()
            .unwrap()
            .iter()
            .map(|(name, f)| {
                let kind = match f["type"].as_str().unwrap() {
                    "file" => RuntimeFileType::File,
                    "directory" => RuntimeFileType::Directory,
                    _ => RuntimeFileType::Link,
                };
                let raw = f.get("downloads").and_then(|d| d.get("raw")).map(|r| RuntimeDownload {
                    sha1: text(r, "sha1"),
                    size: r["size"].as_u64().unwrap(),
                    url: text(r, "url"),
                });
                (
                    name.clone(),
                    RuntimeFile {
                        kind,
                        downloads: RuntimeDownloads { raw, lzma: None },
                        executable: f.get("executable").and_then(|e| e.as_bool()).unwrap_or(false),
                        target: opt_text(f, "target"),
                    },
                )
            })
            .collect(),
    }
}

#[test]
fn parses_minimal_mojang_metadata_shapes() {
    let catalog = manifest_of(&serde_json::from_str(r#"{
        "latest":{"release":"1.0","snapshot":"1.1-test"},
        "versions":[{"id":"1.0","type":"release","url":"https://example.test/1.0.json","time":"2026-01-01T00:00:00Z","releaseTime":"2026-01-01T00:00:00Z","sha1":"abc","complianceLevel":1}]
    }"#).unwrap());
    assert_eq!(catalog.find("1.0").unwrap().id, "1.0");

    let version = version_of(&serde_json::from_str(
        r#"{
        "id":"1.0","type":"release","mainClass":"net.minecraft.client.main.Main","assets":"1",
        "assetIndex":{"id":"1","sha1":"abc","size":1,"url":"https://example.test/assets"},
        "downloads":{"client":{"sha1":"def","size":1,"url":"https://example.test/client"}},
        "libraries":[]
    }"#,
    )
    .unwrap());
    assert_eq!(version.java_requirement().major_version, 8);

    let runtime = runtime_manifest_of(&serde_json::from_str(r#"{
        "files":{"bin/java":{"type":"file","executable":true,"downloads":{"raw":{"sha1":"abc","size":1,"url":"https://example.test/java"}}}}
    }"#).unwrap());
    let entry = runtime.files.iter().find(|(name, _)| name == "bin/java").unwrap();
    assert!(entry.1.executable);
}

#[test]
fn find_returns_the_first_matching_version() {
    let summary = |id: &str, url: &str| VersionSummary {
        id: id.to_string(),
        kind: VersionType::Snapshot,
        url: url.to_string(),
        time: String::new(),
        release_time: String::new(),
        sha1: String::new(),
        compliance_level: 0,
    };
    let manifest = VersionManifest {
        latest: LatestVersions { release: String::new(), snapshot: String::new() },
        versions: vec![summary("a", "1"), summary("b", "2"), summary("b", "3")],
    };
    assert_eq!(manifest.find("b").unwrap().url, "2");
    assert!(manifest.find("c").is_none());
}

#[test]
fn java_requirement_defaults_to_legacy_java_8() {
    let json: Value = serde_json::from_str(
        r#"{"id":"1","type":"release","mainClass":"M","assets":"1",
        "assetIndex":{"sha1":"a","size":1,"url":"u"},
        "downloads":{"client":{"sha1":"d","size":1,"url":"c"}},
        "javaVersion":{"component":"java-runtime-delta","majorVersion":21}}"#,
    )
    .unwrap();
    let named = version_of(&json);
    let req = named.java_requirement();
    assert_eq!(req.component, "java-runtime-delta");
    assert_eq!(req.major_version, 21);
}

fn rule(action: RuleAction, os: Option<(&str, Option<&str>)>, features: Vec<(&str, bool)>) -> Rule {
    Rule {
        action,
        os: os.map(|(name, arch)| OsRule {
            name: Some(name.to_string()),
            arch: arch.map(|a| a.to_string()),
            version: None,
        }),
        features: features.into_iter().map(|(k, v)| (k.to_string(), v)).collect(),
    }
}

#[test]
fn the_last_matching_rule_decides() {
    let linux = Platform::for_target("linux", "x86_64").unwrap();
    let mac = Platform::for_target("macos", "aarch64").unwrap();
    assert!(rules_allow(&[], linux));
    let rules = vec![
        rule(RuleAction::Allow, None, vec![]),
        rule(RuleAction::Disallow, Some(("osx", None)), vec![]),
    ];
    assert!(rules_allow(&rules, linux));
    assert!(!rules_allow(&rules, mac));
    let only_windows = vec![rule(RuleAction::Allow, Some(("windows", None)), vec![])];
    assert!(!rules_allow(&only_windows, linux));
    let arch = vec![rule(RuleAction::Allow, Some(("linux", Some("x86"))), vec![])];
    assert!(!rules_allow(&arch, linux));
    assert!(rules_allow(&arch, Platform::for_target("linux", "x86").unwrap()));
}

#[test]
fn rules_expecting_a_feature_never_apply() {
    let linux = Platform::for_target("linux", "x86_64").unwrap();
    let rules = vec![
        rule(RuleAction::Allow, None, vec![("is_demo_user", true)]),
    ];
    assert!(!rules_allow(&rules, linux));
    let off = vec![rule(RuleAction::Allow, None, vec![("has_custom_resolution", false)])];
    assert!(rules_allow(&off, linux));
    assert!(rules[0].matches(linux) == false);
}

#[test]
fn native_classifier_substitutes_the_architecture() {
    let lib = Library {
        name: "a:b:1".to_string(),
        url: None,
        downloads: None,
        natives: vec![
            ("windows".to_string(), "natives-windows-${arch}".to_string()),
            ("osx".to_string(), "natives-osx".to_string()),
        ],
        rules: Vec::new(),
        extract: None,
    };
    let win32 = Platform::for_target("windows", "x86").unwrap();
    assert_eq!(lib.native_classifier(win32).as_deref(), Some("natives-windows-32"));
    let mac = Platform::for_target("macos", "x86_64").unwrap();
    assert_eq!(lib.native_classifier(mac).as_deref(), Some("natives-osx"));
    let linux = Platform::for_target("linux", "x86_64").unwrap();
    assert!(lib.native_classifier(linux).is_none());
    assert!(lib.is_allowed(linux));
}

#[test]
fn lookup_finds_each_key_wherever_it_stands() {
    let pairs = vec![("a".to_string(), 1), ("b".to_string(), 2), ("c".to_string(), 3)];
    assert_eq!(mc_client::launcher::metadata::models::lookup_pair(&pairs, "c"), Some(&3));
    assert_eq!(mc_client::launcher::metadata::models::lookup_pair(&pairs, "a"), Some(&1));
    assert_eq!(mc_client::launcher::metadata::models::lookup_pair(&pairs, "d"), None);
}

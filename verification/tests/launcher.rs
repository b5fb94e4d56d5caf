use mc_client::launcher::paths::join;
use mc_client::launcher::{Error, LauncherPaths, Platform};
use mc_client::task::TaskProgress;

#[test]
fn platforms_for_supported_targets() {
    let p = Platform::for_target("windows", "aarch64").unwrap();
    assert_eq!(p.runtime_key(), "windows-arm64");
    assert_eq!(p.rule_os(), "windows");
    assert_eq!(p.rule_arch(), "arm64");
    assert_eq!(p.native_arch(), "arm64");
    let p = Platform::for_target("macos", "x86_64").unwrap();
    assert_eq!(p.runtime_key(), "mac-os");
    assert_eq!(p.rule_os(), "osx");
    let p = Platform::for_target("linux", "x86").unwrap();
    assert_eq!(p.runtime_key(), "linux-i386");
    assert_eq!(p.native_arch(), "32");
    assert!(matches!(Platform::for_target("freebsd", "x86_64"), Err(Error::UnsupportedPlatform)));
    assert!(matches!(Platform::for_target("linux", "aarch64"), Err(Error::UnsupportedPlatform)));
}

#[test]
fn platform_new_keeps_its_names() {
    let p = Platform::new("k", "os", "arch", "n");
    assert_eq!((p.runtime_key(), p.rule_os(), p.rule_arch(), p.native_arch()), ("k", "os", "arch", "n"));
}

#[test]
fn joining_paths() {
    assert_eq!(join("a", "b"), "a/b");
    assert_eq!(join("a/", "b"), "a/b");
    assert_eq!(join("", "b"), "b");
    assert_eq!(join("a", "/b"), "/b");
    assert_eq!(join("a", ""), "a/");
}

#[test]
fn launcher_directories() {
    let paths = LauncherPaths::from_roots("/data".to_string(), "/cache".to_string());
    assert_eq!(paths.data(), "/data");
    assert_eq!(paths.cache(), "/cache");
    assert_eq!(paths.instances(), "/data/instances");
    assert_eq!(paths.runtime("java-runtime-gamma", "linux", "17.0.8"), "/data/runtimes/java-runtime-gamma/linux/17.0.8");
    assert_eq!(paths.libraries(), "/data/minecraft/libraries");
    assert_eq!(paths.assets(), "/data/minecraft/assets");
    assert_eq!(paths.versions(), "/data/minecraft/versions");
    assert_eq!(paths.natives("inst", "1.20"), "/cache/natives/inst/1.20");
}

#[test]
fn progress_is_capped_and_counted() {
    assert_eq!(TaskProgress::new("x".to_string(), 250).percent, 100);
    assert_eq!(TaskProgress::new("x".to_string(), 42).percent, 42);
    assert_eq!(TaskProgress::from_count("x".to_string(), 0, 0).percent, 100);
    assert_eq!(TaskProgress::from_count("x".to_string(), 0, 3).percent, 0);
    assert_eq!(TaskProgress::from_count("x".to_string(), 1, 3).percent, 33);
    assert_eq!(TaskProgress::from_count("x".to_string(), 3, 3).percent, 100);
    assert_eq!(TaskProgress::from_count("x".to_string(), 9, 3).percent, 100);
    assert_eq!(TaskProgress::from_count("x".to_string(), usize::MAX, usize::MAX).percent, 1);
    assert_eq!(TaskProgress::from_count("desc".to_string(), 1, 2).description, "desc");
}

#[test]
fn progress_values_compare_by_description_and_percent() {
    let half = TaskProgress::from_count("Downloading".to_string(), 1, 2);
    assert_eq!(half, TaskProgress::new("Downloading".to_string(), 50));
    assert_ne!(half, TaskProgress::new("Downloading".to_string(), 51));
    assert_ne!(half, TaskProgress::new("Checking".to_string(), 50));
    assert_eq!(half.clone(), half);
}

#[test]
fn platforms_compare_by_their_names() {
    let linux = Platform::for_target("linux", "x86_64").unwrap();
    assert_eq!(linux, Platform::new("linux", "linux", "x86_64", "64"));
    assert_ne!(linux, Platform::for_target("linux", "x86").unwrap());
    assert_ne!(linux, Platform::new("linux", "linux", "x86_64", "32"));
}

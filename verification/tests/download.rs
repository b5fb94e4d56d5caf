use mc_client::launcher::install::download::{
    check_download, check_downloaded_content, existing_hash_ok, existing_size_ok, relative_path,
    relative_path_in, sha1_hex, temp_extension, DownloadSpec, PathStyle,
};
use mc_client::launcher::Error;

#[test]
fn metadata_paths_must_remain_relative() {
    assert!(relative_path("com/mojang/example.jar").is_ok());
    assert!(relative_path("../outside").is_err());
    assert!(relative_path("folder/../outside").is_err());
    assert!(relative_path("/absolute").is_err());
}

#[test]
fn relative_path_returns_the_input() {
    assert_eq!(relative_path("a/b/c.txt").unwrap(), "a/b/c.txt");
    assert_eq!(relative_path("a/./b").unwrap(), "a/./b");
    assert_eq!(relative_path("a//b").unwrap(), "a//b");
    assert_eq!(relative_path("..a/b..").unwrap(), "..a/b..");
}

#[test]
fn relative_path_refuses_leading_current_dir_and_parent_segments() {
    assert!(matches!(relative_path("."), Err(Error::UnsafePath(p)) if p == "."));
    assert!(matches!(relative_path("./a"), Err(Error::UnsafePath(p)) if p == "./a"));
    assert!(matches!(relative_path(".."), Err(Error::UnsafePath(p)) if p == ".."));
    assert!(relative_path("a/..").is_err());
    assert!(relative_path("a/../").is_err());
}

fn spec_with(sha1: Option<&str>, size: Option<u64>) -> DownloadSpec {
    DownloadSpec {
        url: "https://example.test/file".to_string(),
        path: "dir/file".to_string(),
        sha1: sha1.map(|s| s.to_string()),
        size,
    }
}

#[test]
fn size_mismatch_is_reported_first_in_decimal() {
    let spec = spec_with(Some("abc"), Some(1234));
    match check_download(&spec, 99, "def") {
        Err(Error::Integrity { path, expected, actual }) => {
            assert_eq!(path, "dir/file");
            assert_eq!(expected, "1234");
            assert_eq!(actual, "99");
        }
        other => panic!("unexpected {:?}", other),
    }
}

#[test]
fn hash_is_compared_without_regard_to_ascii_case() {
    let spec = spec_with(Some("ABCdef"), Some(3));
    assert!(check_download(&spec, 3, "abcDEF").is_ok());
    match check_download(&spec, 3, "abcdee") {
        Err(Error::Integrity { expected, actual, .. }) => {
            assert_eq!(expected, "ABCdef");
            assert_eq!(actual, "abcdee");
        }
        other => panic!("unexpected {:?}", other),
    }
}

#[test]
fn nothing_expected_accepts_anything() {
    let spec = spec_with(None, None);
    assert!(check_download(&spec, 0, "").is_ok());
}

#[test]
fn sha1_hex_of_known_inputs() {
    assert_eq!(sha1_hex(b"abc"), "a9993e364706816aba3e25717850c26c9cd0d89d");
    assert_eq!(sha1_hex(b""), "da39a3ee5e6b4b0d3255bfef95601890afd80709");
}

#[test]
fn downloaded_content_is_checked_by_length_and_sha1() {
    let spec = spec_with(Some("A9993E364706816ABA3E25717850C26C9CD0D89D"), Some(3));
    assert!(check_downloaded_content(&spec, b"abc").is_ok());
    assert!(matches!(
        check_downloaded_content(&spec, b"abd"),
        Err(Error::Integrity { .. })
    ));
    assert!(matches!(
        check_downloaded_content(&spec, b"abcd"),
        Err(Error::Integrity { expected, .. }) if expected == "3"
    ));
}

#[test]
fn existing_files_are_kept_when_size_and_hash_match() {
    assert!(existing_size_ok(None, 10));
    assert!(existing_size_ok(Some(10), 10));
    assert!(!existing_size_ok(Some(10), 11));
    assert!(existing_hash_ok("a9993e364706816aba3e25717850c26c9cd0d89d", b"abc"));
    assert!(!existing_hash_ok("a9993e364706816aba3e25717850c26c9cd0d89d", b"abd"));
}

#[test]
fn temporary_extension_names_process_and_sequence() {
    assert_eq!(temp_extension(4321, 0), "part-4321-0");
    assert_eq!(temp_extension(0, 18446744073709551615), "part-0-18446744073709551615");
}

#[test]
fn windows_also_refuses_backslash_parents_and_prefixes() {
    for path in ["..\\outside", "a\\..\\..\\x", "C:\\x", "c:x", "\\\\server\\share\\x", "\\x", ".\\a", "a\\.."] {
        assert!(
            matches!(relative_path_in(path, PathStyle::Windows), Err(Error::UnsafePath(p)) if p == path),
            "{path}"
        );
    }
    for path in ["..\\outside", "a\\..\\..\\x", "C:\\x", "c:x", ".\\a"] {
        assert_eq!(relative_path_in(path, PathStyle::Unix).unwrap(), path);
    }
    assert_eq!(relative_path_in("a\\b/c.txt", PathStyle::Windows).unwrap(), "a\\b/c.txt");
    assert_eq!(relative_path_in("1:x", PathStyle::Windows).unwrap(), "1:x");
    for path in ["../x", "/x", "./x", "a/../b"] {
        assert!(relative_path_in(path, PathStyle::Windows).is_err());
        assert!(relative_path_in(path, PathStyle::Unix).is_err());
        assert!(relative_path(path).is_err());
    }
}

#[test]
fn the_host_style_matches_the_main_separator() {
    let expected = if std::path::MAIN_SEPARATOR == '\\' { PathStyle::Windows } else { PathStyle::Unix };
    assert_eq!(PathStyle::host(), expected);
    assert_eq!(relative_path("..\\x").is_ok(), expected == PathStyle::Unix);
}

use vstd::prelude::*;

use sha1::Digest;

use crate::launcher::error::{result_view, Error, ErrorView};
use crate::launcher::install::is_safe_component;
use crate::launcher::paths::{lemma_join_keeps_base, spec_join};
use crate::text::{
    chars_of, copy_str, decimal, starts_with, eq_ignore_ascii_case, hex_lower, push_str, str_eq_ignore_ascii_case,
    to_hex_lower, u64_to_decimal,
};

verus! {

/// A file to fetch: where from, where to, and what it must hash to and
/// weigh, when known.
#[derive(Clone, Debug)]
pub struct DownloadSpec {
    pub url: String,
    pub path: String,
    pub sha1: Option<String>,
    pub size: Option<u64>,
}

/// A `DownloadSpec` with its strings taken by their characters.
pub struct DownloadView {
    pub url: Seq<char>,
    pub path: Seq<char>,
    pub sha1: Option<Seq<char>>,
    pub size: Option<u64>,
}

/// The characters of an optional string.
pub open spec fn opt_view(o: Option<String>) -> Option<Seq<char>> {
    match o {
        Some(s) => Some(s@),
        None => None,
    }
}

impl View for DownloadSpec {
    type V = DownloadView;

    open spec fn view(&self) -> DownloadView {
        DownloadView { url: self.url@, path: self.path@, sha1: opt_view(self.sha1), size: self.size }
    }
}

impl DeepView for DownloadSpec {
    type V = DownloadView;

    open spec fn deep_view(&self) -> DownloadView {
        self@
    }
}

/// How the system reads paths. On Unix only `/` separates components; on
/// Windows `\` does too, and a path may begin with a prefix: a drive such
/// as `C:`, or one that starts with two separators (`\\server\share`,
/// `\\?\...`).
#[derive(Clone, Copy, Debug, PartialEq, Eq, Structural)]
pub enum PathStyle {
    Unix,
    Windows,
}

/// Whether `c` separates path components in `style`.
pub open spec fn is_separator(c: char, style: PathStyle) -> bool {
    c == '/' || (style == PathStyle::Windows && c == '\\')
}

fn separator_in(c: char, style: PathStyle) -> (r: bool)
    ensures
        r == is_separator(c, style),
{
    c == '/' || (style == PathStyle::Windows && c == '\\')
}

/// Trusted: `std::path::MAIN_SEPARATOR` is `\` on Windows and `/` on every
/// other system; this states only that it is one of the two.
#[verifier::external_body]
fn main_separator() -> (r: char)
    ensures
        r == '/' || r == '\\',
{
    std::path::MAIN_SEPARATOR
}

impl PathStyle {
    /// The style of the system this program runs on: `Windows` where the
    /// main path separator is `\`.
    pub fn host() -> (r: PathStyle)
        ensures
            r == PathStyle::Unix || r == PathStyle::Windows,
    {
        if main_separator() == '\\' {
            PathStyle::Windows
        } else {
            PathStyle::Unix
        }
    }
}

/// `s` has a `..` component starting at index `i`.
pub open spec fn parent_segment_at(s: Seq<char>, i: int, style: PathStyle) -> bool {
    &&& 0 <= i
    &&& i + 2 <= s.len()
    &&& s[i] == '.'
    &&& s[i + 1] == '.'
    &&& (i == 0 || is_separator(s[i - 1], style))
    &&& (i + 2 == s.len() || is_separator(s[i + 2], style))
}

/// `s` begins with a Windows drive prefix: an ASCII letter and `:`.
pub open spec fn has_drive_prefix(s: Seq<char>) -> bool {
    s.len() >= 2 && (('a' <= s[0] && s[0] <= 'z') || ('A' <= s[0] && s[0] <= 'Z')) && s[1] == ':'
}

/// A path that stays inside the directory it is joined to, read in
/// `style`: it does not begin with a separator (a root, or on Windows also
/// a `\\` prefix), has no Windows drive prefix, does not start with a `.`
/// component and has no `..` component. These are exactly the paths whose
/// `Path::components` are all normal names and that are not absolute.
pub open spec fn is_safe_relative(s: Seq<char>, style: PathStyle) -> bool {
    &&& !(s.len() > 0 && is_separator(s[0], style))
    &&& !(style == PathStyle::Windows && has_drive_prefix(s))
    &&& !(s.len() == 1 && s[0] == '.')
    &&& !(s.len() >= 2 && s[0] == '.' && is_separator(s[1], style))
    &&& forall|i: int| !parent_segment_at(s, i, style)
}

/// The outcome of `relative_path_in` on `s`.
pub open spec fn spec_relative_path(s: Seq<char>, style: PathStyle) -> Result<Seq<char>, ErrorView> {
    if is_safe_relative(s, style) {
        Ok(s)
    } else {
        Err(ErrorView::UnsafePath(s))
    }
}

/// `value` as a path, when it is a safe relative path in `style`;
/// otherwise `UnsafePath(value)`.
pub fn relative_path_in(value: &str, style: PathStyle) -> (r: Result<String, Error>)
    ensures
        result_view(r) == spec_relative_path(value@, style),
{
    let v = chars_of(value);
    let n = v.len();
    if n > 0 && separator_in(v[0], style) {
        return Err(Error::UnsafePath(copy_str(value)));
    }
    if style == PathStyle::Windows && n >= 2 && (('a' <= v[0] && v[0] <= 'z') || ('A' <= v[0]
        && v[0] <= 'Z')) && v[1] == ':' {
        return Err(Error::UnsafePath(copy_str(value)));
    }
    if n == 1 && v[0] == '.' {
        return Err(Error::UnsafePath(copy_str(value)));
    }
    if n >= 2 && v[0] == '.' && separator_in(v[1], style) {
        return Err(Error::UnsafePath(copy_str(value)));
    }
    let mut i: usize = 0;
    while i < n && i + 1 < n
        invariant
            0 <= i <= n,
            n == v@.len(),
            v@ == value@,
            forall|j: int| 0 <= j < i ==> !parent_segment_at(v@, j, style),
        decreases n - i,
    {
        if v[i] == '.' && v[i + 1] == '.' && (i == 0 || separator_in(v[i - 1], style)) && (i + 2
            == n || separator_in(v[i + 2], style)) {
            assert(parent_segment_at(v@, i as int, style));
            return Err(Error::UnsafePath(copy_str(value)));
        }
        i = i + 1;
    }
    assert forall|j: int| !parent_segment_at(v@, j, style) by {
        if 0 <= j < i {
        }
    }
    Ok(copy_str(value))
}

/// `value` as a path, read the way the system this program runs on reads
/// paths (see `relative_path_in` and `PathStyle::host`): the outcome for
/// Unix or for Windows, whichever the system is.
pub fn relative_path(value: &str) -> (r: Result<String, Error>)
    ensures
        result_view(r) == spec_relative_path(value@, PathStyle::Unix) || result_view(r)
            == spec_relative_path(value@, PathStyle::Windows),
{
    relative_path_in(value, PathStyle::host())
}

/// What checking a downloaded file yields: an `Integrity` error when its
/// size differs from the expected one, else when its SHA-1 differs (ignoring
/// ASCII case) from the expected one; otherwise success.
pub open spec fn spec_check_download(d: DownloadView, actual_size: u64, actual_hash: Seq<char>) -> Result<(), ErrorView> {
    if d.size is Some && d.size->0 != actual_size {
        Err(ErrorView::Integrity { path: d.path, expected: decimal(d.size->0 as nat), actual: decimal(actual_size as nat) })
    } else if d.sha1 is Some && !eq_ignore_ascii_case(d.sha1->0, actual_hash) {
        Err(ErrorView::Integrity { path: d.path, expected: d.sha1->0, actual: actual_hash })
    } else {
        Ok(())
    }
}

/// Checks a file fetched for `spec` that is `actual_size` bytes long and
/// hashes to `actual_hash` (see `spec_check_download`).
pub fn check_download(spec: &DownloadSpec, actual_size: u64, actual_hash: &str) -> (r: Result<(), Error>)
    ensures
        match r {
            Ok(()) => spec_check_download(spec@, actual_size, actual_hash@) is Ok,
            Err(e) => spec_check_download(spec@, actual_size, actual_hash@) == Err::<(), ErrorView>(e@),
        },
{
    if let Some(expected) = spec.size {
        if expected != actual_size {
            return Err(Error::Integrity {
                path: copy_str(spec.path.as_str()),
                expected: u64_to_decimal(expected),
                actual: u64_to_decimal(actual_size),
            });
        }
    }
    if let Some(expected) = &spec.sha1 {
        if !str_eq_ignore_ascii_case(expected.as_str(), actual_hash) {
            return Err(Error::Integrity {
                path: copy_str(spec.path.as_str()),
                expected: copy_str(expected.as_str()),
                actual: copy_str(actual_hash),
            });
        }
    }
    Ok(())
}

/// The SHA-1 digest of `data`, as the `sha1` crate computes it.
pub uninterp spec fn sha1_digest(data: Seq<u8>) -> Seq<u8>;

/// Trusted: `<sha1::Sha1 as Digest>::digest` returns the 20-byte SHA-1
/// digest of `data`; this names that result `sha1_digest(data)` and states
/// its length. That it is SHA-1 is not stated.
#[verifier::external_body]
fn sha1_bytes(data: &[u8]) -> (r: Vec<u8>)
    ensures
        r@ == sha1_digest(data@),
        r@.len() == 20,
{
    sha1::Sha1::digest(data).to_vec()
}

/// The SHA-1 of `data` in lower-case hexadecimal, as `format!("{:x}", ..)`
/// writes a digest.
pub fn sha1_hex(data: &[u8]) -> (r: String)
    ensures
        r@ == hex_lower(sha1_digest(data@)),
        r@.len() == 40,
{
    let digest = sha1_bytes(data);
    to_hex_lower(digest.as_slice())
}

/// Checks the downloaded `content` against `spec`: its length and its
/// SHA-1 (see `spec_check_download`).
pub fn check_downloaded_content(spec: &DownloadSpec, content: &[u8]) -> (r: Result<(), Error>)
    requires
        content@.len() <= u64::MAX,
    ensures
        match r {
            Ok(()) => spec_check_download(spec@, content@.len() as u64, hex_lower(sha1_digest(content@))) is Ok,
            Err(e) => spec_check_download(spec@, content@.len() as u64, hex_lower(sha1_digest(content@)))
                == Err::<(), ErrorView>(e@),
        },
{
    let hash = sha1_hex(content);
    let size = content.len() as u64;
    check_download(spec, size, hash.as_str())
}

/// Whether a file already on disk of `actual_size` bytes can be kept as far
/// as its size goes: no size is expected, or it is the expected one.
pub fn existing_size_ok(expected: Option<u64>, actual_size: u64) -> (r: bool)
    ensures
        r == (expected is None || expected == Some(actual_size)),
{
    match expected {
        Some(size) => size == actual_size,
        None => true,
    }
}

/// Whether a file already on disk with `content` matches the expected
/// SHA-1, ignoring ASCII case.
pub fn existing_hash_ok(expected_sha1: &str, content: &[u8]) -> (r: bool)
    ensures
        r == eq_ignore_ascii_case(expected_sha1@, hex_lower(sha1_digest(content@))),
{
    let hash = sha1_hex(content);
    str_eq_ignore_ascii_case(expected_sha1, hash.as_str())
}

/// The extension of the temporary file a download is written to:
/// `part-<process id>-<sequence number>`.
pub fn temp_extension(process_id: u32, sequence: u64) -> (r: String)
    ensures
        r@ == seq!['p', 'a', 'r', 't', '-'] + decimal(process_id as nat) + seq!['-'] + decimal(
            sequence as nat,
        ),
{
    let mut r = String::new();
    crate::text::push_char(&mut r, 'p');
    crate::text::push_char(&mut r, 'a');
    crate::text::push_char(&mut r, 'r');
    crate::text::push_char(&mut r, 't');
    crate::text::push_char(&mut r, '-');
    let pid = u64_to_decimal(process_id as u64);
    push_str(&mut r, pid.as_str());
    crate::text::push_char(&mut r, '-');
    let seq_text = u64_to_decimal(sequence);
    push_str(&mut r, seq_text.as_str());
    assert(r@ =~= seq!['p', 'a', 'r', 't', '-'] + decimal(process_id as nat) + seq!['-'] + decimal(
        sequence as nat,
    ));
    r
}


/// A safe path component is also a safe relative path: always on Unix,
/// and on Windows unless it begins with a drive prefix such as `C:`.
pub proof fn lemma_safe_component_is_safe_relative(s: Seq<char>, style: PathStyle)
    requires
        is_safe_component(s),
        style == PathStyle::Windows ==> !has_drive_prefix(s),
    ensures
        is_safe_relative(s, style),
{
    assert forall|i: int| !parent_segment_at(s, i, style) by {
        if parent_segment_at(s, i, style) {
            if i > 0 {
                assert(is_separator(s[i - 1], style));
            } else if i + 2 < s.len() {
                assert(is_separator(s[i + 2], style));
            } else {
                assert(s.len() == 2);
            }
        }
    }
    if s.len() >= 2 && s[0] == '.' {
        assert(!is_separator(s[1], style));
    }
    if s.len() > 0 {
        assert(!is_separator(s[0], style));
    }
}

/// A path that is safe on Windows is safe on Unix too: Windows refuses
/// more.
pub proof fn lemma_windows_safe_is_unix_safe(s: Seq<char>)
    requires
        is_safe_relative(s, PathStyle::Windows),
    ensures
        is_safe_relative(s, PathStyle::Unix),
{
    assert forall|i: int| !parent_segment_at(s, i, PathStyle::Unix) by {
        if parent_segment_at(s, i, PathStyle::Unix) {
            assert(parent_segment_at(s, i, PathStyle::Windows));
        }
    }
}

/// Whatever system it runs on, a path that `relative_path` accepts is safe
/// as Unix reads paths, and a path it refuses is unsafe as Windows reads
/// them.
pub proof fn lemma_relative_path_on_any_host(s: Seq<char>, r: Result<Seq<char>, ErrorView>)
    requires
        r == spec_relative_path(s, PathStyle::Unix) || r == spec_relative_path(s, PathStyle::Windows),
    ensures
        r is Ok ==> r == Ok::<Seq<char>, ErrorView>(s) && is_safe_relative(s, PathStyle::Unix),
        r is Err ==> r == Err::<Seq<char>, ErrorView>(ErrorView::UnsafePath(s)) && !is_safe_relative(s, PathStyle::Windows),
{
    if is_safe_relative(s, PathStyle::Windows) {
        lemma_windows_safe_is_unix_safe(s);
    }
}

/// A path that `relative_path_in` accepts, joined to a root, stays under
/// that root: the root is a prefix of the result.
pub proof fn lemma_relative_join_stays_under(root: Seq<char>, p: Seq<char>, style: PathStyle)
    requires
        spec_relative_path(p, style) is Ok,
    ensures
        starts_with(spec_join(root, p), root),
{
    lemma_join_keeps_base(root, p);
}

/// A downloaded file passes exactly when its size is the expected one, if
/// one is expected, and its SHA-1 matches the expected one without regard
/// to ASCII case, if one is expected. A wrong size is reported first, with
/// both sizes in decimal; a wrong hash after that, with both hashes.
pub proof fn lemma_check_download_outcome(d: DownloadView, actual_size: u64, actual_hash: Seq<char>)
    ensures
        (spec_check_download(d, actual_size, actual_hash) is Ok) <==> ((d.size is None || d.size == Some(actual_size))
            && (d.sha1 is None || eq_ignore_ascii_case(d.sha1->0, actual_hash))),
        d.size is Some && d.size->0 != actual_size ==> spec_check_download(d, actual_size, actual_hash) == Err::<(), ErrorView>(
            ErrorView::Integrity { path: d.path, expected: decimal(d.size->0 as nat), actual: decimal(actual_size as nat) },
        ),
        (d.size is None || d.size == Some(actual_size)) && (d.sha1 is Some && !eq_ignore_ascii_case(d.sha1->0, actual_hash))
            ==> spec_check_download(d, actual_size, actual_hash) == Err::<(), ErrorView>(
            ErrorView::Integrity { path: d.path, expected: d.sha1->0, actual: actual_hash },
        ),
{
}

} // verus!

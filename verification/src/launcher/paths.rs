use vstd::prelude::*;

use crate::launcher::install::download::PathStyle;
use crate::text::{
    chars_equal, chars_of, copy_str, pieces_view, push_char, push_str, replace_char, replace_chars,
    split_chars, split_pieces, starts_with, string_from_chars,
};

verus! {

/// `base` joined with `part` the way `Path::join` does it on Unix: an
/// absolute `part` replaces `base`; otherwise a `/` is put between the two
/// unless `base` is empty or already ends with one.
///
/// The library joins this way on every system; Windows reads `/` as a
/// separator as well. This differs from `Path::join` on Windows only for a
/// `part` that begins with `\` or with a drive prefix such as `C:`, which
/// there replaces `base`: relative paths from the metadata never do (see
/// `is_safe_relative`), but a safe path component such as a version id
/// `C:x` may, and here it stays under `base`.
pub open spec fn spec_join(base: Seq<char>, part: Seq<char>) -> Seq<char> {
    if part.len() > 0 && part[0] == '/' {
        part
    } else if base.len() == 0 || base.last() == '/' {
        base + part
    } else {
        base + seq!['/'] + part
    }
}

/// `base` joined with `part` (see `spec_join`).
pub fn join(base: &str, part: &str) -> (r: String)
    ensures
        r@ == spec_join(base@, part@),
{
    let b = chars_of(base);
    let p = chars_of(part);
    let mut r = String::new();
    if p.len() > 0 && p[0] == '/' {
        push_str(&mut r, part);
        assert(Seq::<char>::empty() + part@ =~= part@);
    } else if b.len() == 0 || b[b.len() - 1] == '/' {
        push_str(&mut r, base);
        push_str(&mut r, part);
        assert(Seq::<char>::empty() + base@ + part@ =~= base@ + part@);
    } else {
        push_str(&mut r, base);
        push_char(&mut r, '/');
        push_str(&mut r, part);
        assert((Seq::<char>::empty() + base@).push('/') + part@ =~= base@ + seq!['/'] + part@);
    }
    r
}

/// When `part` is not absolute, `base` is a prefix of `base` joined with
/// `part`.
pub proof fn lemma_join_keeps_base(base: Seq<char>, part: Seq<char>)
    requires
        !(part.len() > 0 && part[0] == '/'),
    ensures
        spec_join(base, part).len() >= base.len(),
        spec_join(base, part).take(base.len() as int) == base,
{
    if base.len() == 0 || base.last() == '/' {
        assert((base + part).take(base.len() as int) =~= base);
    } else {
        assert((base + seq!['/'] + part).take(base.len() as int) =~= base);
    }
}

/// `<data>/instances`.
pub open spec fn spec_instances_dir(data: Seq<char>) -> Seq<char> {
    spec_join(data, "instances"@)
}

/// `<data>/runtimes/<component>/<platform>/<version>`.
pub open spec fn spec_runtime_dir(data: Seq<char>, component: Seq<char>, platform: Seq<char>, version: Seq<char>) -> Seq<char> {
    spec_join(spec_join(spec_join(spec_join(data, "runtimes"@), component), platform), version)
}

/// `<data>/minecraft/libraries`.
pub open spec fn spec_libraries_dir(data: Seq<char>) -> Seq<char> {
    spec_join(spec_join(data, "minecraft"@), "libraries"@)
}

/// `<data>/minecraft/assets`.
pub open spec fn spec_assets_dir(data: Seq<char>) -> Seq<char> {
    spec_join(spec_join(data, "minecraft"@), "assets"@)
}

/// `<data>/minecraft/versions`.
pub open spec fn spec_versions_dir(data: Seq<char>) -> Seq<char> {
    spec_join(spec_join(data, "minecraft"@), "versions"@)
}

/// `<cache>/natives/<instance>/<version>`.
pub open spec fn spec_natives_dir(cache: Seq<char>, instance_id: Seq<char>, version_id: Seq<char>) -> Seq<char> {
    spec_join(spec_join(spec_join(cache, "natives"@), instance_id), version_id)
}

/// Where the launcher keeps its data and its cache.
#[derive(Clone, Debug)]
pub struct LauncherPaths {
    data: String,
    cache: String,
}

impl LauncherPaths {
    /// The data root.
    pub closed spec fn data_root(&self) -> Seq<char> {
        self.data@
    }

    /// The cache root.
    pub closed spec fn cache_root(&self) -> Seq<char> {
        self.cache@
    }

    /// Paths rooted at `data` and `cache`.
    pub fn from_roots(data: String, cache: String) -> (r: Self)
        ensures
            r.data_root() == data@,
            r.cache_root() == cache@,
    {
        LauncherPaths { data, cache }
    }

    /// The data root.
    pub fn data(&self) -> (r: &str)
        ensures
            r@ == self.data_root(),
    {
        self.data.as_str()
    }

    /// The cache root.
    pub fn cache(&self) -> (r: &str)
        ensures
            r@ == self.cache_root(),
    {
        self.cache.as_str()
    }

    /// `<data>/instances`: one directory per instance.
    pub fn instances(&self) -> (r: String)
        ensures
            r@ == spec_instances_dir(self.data_root()),
    {
        join(self.data.as_str(), "instances")
    }

    /// `<data>/runtimes/<component>/<platform>/<version>`: one Java runtime.
    pub fn runtime(&self, component: &str, platform: &str, version: &str) -> (r: String)
        ensures
            r@ == spec_runtime_dir(self.data_root(), component@, platform@, version@),
    {
        let a = join(self.data.as_str(), "runtimes");
        let b = join(a.as_str(), component);
        let c = join(b.as_str(), platform);
        join(c.as_str(), version)
    }

    /// `<data>/minecraft/libraries`.
    pub fn libraries(&self) -> (r: String)
        ensures
            r@ == spec_libraries_dir(self.data_root()),
    {
        let a = join(self.data.as_str(), "minecraft");
        join(a.as_str(), "libraries")
    }

    /// `<data>/minecraft/assets`.
    pub fn assets(&self) -> (r: String)
        ensures
            r@ == spec_assets_dir(self.data_root()),
    {
        let a = join(self.data.as_str(), "minecraft");
        join(a.as_str(), "assets")
    }

    /// `<data>/minecraft/versions`.
    pub fn versions(&self) -> (r: String)
        ensures
            r@ == spec_versions_dir(self.data_root()),
    {
        let a = join(self.data.as_str(), "minecraft");
        join(a.as_str(), "versions")
    }

    /// `<cache>/natives/<instance_id>/<version_id>`: the unpacked native
    /// libraries of one instance.
    pub fn natives(&self, instance_id: &str, version_id: &str) -> (r: String)
        ensures
            r@ == spec_natives_dir(self.cache_root(), instance_id@, version_id@),
    {
        let a = join(self.cache.as_str(), "natives");
        let b = join(a.as_str(), instance_id);
        join(b.as_str(), version_id)
    }
}


/// A path piece that `Path::components` reports as a component: not empty
/// and not `.` (a leading `.` is reported apart, see `has_cur_dir_prefix`).
pub open spec fn is_kept_part(p: Seq<char>) -> bool {
    p.len() > 0 && !(p.len() == 1 && p[0] == '.')
}

/// The pieces of `ps` that are kept as components, in order.
pub open spec fn kept_parts(ps: Seq<Seq<char>>) -> Seq<Seq<char>>
    decreases ps.len(),
{
    if ps.len() == 0 {
        Seq::empty()
    } else if is_kept_part(ps.last()) {
        kept_parts(ps.drop_last()).push(ps.last())
    } else {
        kept_parts(ps.drop_last())
    }
}

/// The path starts at the root.
pub open spec fn is_rooted(s: Seq<char>) -> bool {
    s.len() > 0 && s[0] == '/'
}

/// The path starts with a `.` component (`.` itself or `./...`).
pub open spec fn has_cur_dir_prefix(s: Seq<char>) -> bool {
    !is_rooted(s) && ((s.len() == 1 && s[0] == '.') || (s.len() >= 2 && s[0] == '.' && s[1] == '/'))
}

/// Two Unix paths name the same thing in the sense of `Path`'s `==`: they
/// have the same components (repeated `/` and inner `.` components do not
/// count).
pub open spec fn same_unix_path(a: Seq<char>, b: Seq<char>) -> bool {
    &&& is_rooted(a) == is_rooted(b)
    &&& has_cur_dir_prefix(a) == has_cur_dir_prefix(b)
    &&& kept_parts(split_pieces(a, '/')) == kept_parts(split_pieces(b, '/'))
}

fn kept_components(s: &str) -> (r: Vec<Vec<char>>)
    ensures
        pieces_view(r@) == kept_parts(split_pieces(s@, '/')),
{
    let v = chars_of(s);
    let pieces = split_chars(&v, '/');
    let ghost ps = split_pieces(s@, '/');
    let mut r: Vec<Vec<char>> = Vec::new();
    let mut i: usize = 0;
    while i < pieces.len()
        invariant
            0 <= i <= pieces@.len(),
            pieces_view(pieces@) == ps,
            pieces_view(r@) == kept_parts(ps.take(i as int)),
        decreases pieces@.len() - i,
    {
        assert(ps.take(i + 1).drop_last() =~= ps.take(i as int));
        assert(ps.take(i + 1).last() == pieces@[i as int]@);
        let n = pieces[i].len();
        let keep = n > 0 && !(n == 1 && pieces[i][0] == '.');
        if keep {
            let mut copy: Vec<char> = Vec::new();
            crate::text::extend_chars(&mut copy, &pieces[i], 0, n);
            assert(copy@ =~= pieces@[i as int]@);
            let ghost before = pieces_view(r@);
            r.push(copy);
            assert(pieces_view(r@) =~= before.push(pieces@[i as int]@));
        }
        i = i + 1;
    }
    assert(ps.take(pieces@.len() as int) =~= ps);
    r
}

fn rooted_and_cur_dir(s: &str) -> (r: (bool, bool))
    ensures
        r.0 == is_rooted(s@),
        r.1 == has_cur_dir_prefix(s@),
{
    let v = chars_of(s);
    let n = v.len();
    let rooted = n > 0 && v[0] == '/';
    let cur = !rooted && ((n == 1 && v[0] == '.') || (n >= 2 && v[0] == '.' && v[1] == '/'));
    (rooted, cur)
}

/// `s` with every `\` read as `/` when `style` is Windows, where both
/// separate components.
pub open spec fn with_unix_separators(s: Seq<char>, style: PathStyle) -> Seq<char> {
    if style == PathStyle::Windows {
        replace_char(s, '\\', '/')
    } else {
        s
    }
}

/// Two paths name the same thing in `style`, as `Path`'s `==` compares
/// them: they have the same components once every separator is read as
/// `/`. A Windows prefix is compared as it is written (the paths compared
/// here all come from one root).
pub open spec fn same_path(a: Seq<char>, b: Seq<char>, style: PathStyle) -> bool {
    same_unix_path(with_unix_separators(a, style), with_unix_separators(b, style))
}

fn unix_separators(s: &str, style: PathStyle) -> (r: String)
    ensures
        r@ == with_unix_separators(s@, style),
{
    if style == PathStyle::Windows {
        let v = chars_of(s);
        let w = replace_chars(&v, '\\', '/');
        string_from_chars(w.as_slice())
    } else {
        copy_str(s)
    }
}

/// Whether `a` and `b` are the same path in `style` (see `same_path`).
pub fn paths_equal(a: &str, b: &str, style: PathStyle) -> (r: bool)
    ensures
        r == same_path(a@, b@, style),
{
    let a = unix_separators(a, style);
    let b = unix_separators(b, style);
    unix_paths_equal(a.as_str(), b.as_str())
}

fn unix_paths_equal(a: &str, b: &str) -> (r: bool)
    ensures
        r == same_unix_path(a@, b@),
{
    let ka = rooted_and_cur_dir(a);
    let kb = rooted_and_cur_dir(b);
    if ka.0 != kb.0 || ka.1 != kb.1 {
        return false;
    }
    let pa = kept_components(a);
    let pb = kept_components(b);
    if pa.len() != pb.len() {
        assert(pieces_view(pa@).len() != pieces_view(pb@).len());
        return false;
    }
    let mut i: usize = 0;
    while i < pa.len()
        invariant
            0 <= i <= pa@.len(),
            pa@.len() == pb@.len(),
            pieces_view(pa@) == kept_parts(split_pieces(a@, '/')),
            pieces_view(pb@) == kept_parts(split_pieces(b@, '/')),
            is_rooted(a@) == is_rooted(b@),
            has_cur_dir_prefix(a@) == has_cur_dir_prefix(b@),
            forall|j: int| 0 <= j < i ==> pa@[j]@ == pb@[j]@,
        decreases pa@.len() - i,
    {
        if !chars_equal(pa[i].as_slice(), pb[i].as_slice()) {
            assert(pieces_view(pa@)[i as int] != pieces_view(pb@)[i as int]);
            assert(pieces_view(pa@) != pieces_view(pb@));
            return false;
        }
        i = i + 1;
    }
    assert(pieces_view(pa@) =~= pieces_view(pb@));
    true
}


/// A non-empty base keeps its first character when a relative part is
/// joined to it.
pub proof fn lemma_join_keeps_first(base: Seq<char>, part: Seq<char>)
    requires
        base.len() > 0,
        !(part.len() > 0 && part[0] == '/'),
    ensures
        spec_join(base, part).len() > 0,
        spec_join(base, part)[0] == base[0],
{
    lemma_join_keeps_base(base, part);
    assert(spec_join(base, part).take(base.len() as int)[0] == spec_join(base, part)[0]);
}

/// Every directory the launcher derives from its data root lies under that
/// root, and the natives directory lies under the cache root.
pub proof fn lemma_dirs_under_roots(data: Seq<char>, cache: Seq<char>, component: Seq<char>, platform: Seq<char>, version: Seq<char>, instance_id: Seq<char>, version_id: Seq<char>)
    requires
        !(component.len() > 0 && component[0] == '/'),
        !(platform.len() > 0 && platform[0] == '/'),
        !(version.len() > 0 && version[0] == '/'),
        !(instance_id.len() > 0 && instance_id[0] == '/'),
        !(version_id.len() > 0 && version_id[0] == '/'),
    ensures
        starts_with(spec_instances_dir(data), data),
        starts_with(spec_libraries_dir(data), data),
        starts_with(spec_assets_dir(data), data),
        starts_with(spec_versions_dir(data), data),
        starts_with(spec_runtime_dir(data, component, platform, version), data),
        starts_with(spec_natives_dir(cache, instance_id, version_id), cache),
{
    reveal_strlit("instances");
    reveal_strlit("minecraft");
    reveal_strlit("libraries");
    reveal_strlit("assets");
    reveal_strlit("versions");
    reveal_strlit("runtimes");
    reveal_strlit("natives");
    reveal_with_fuel(joined_all, 5);
    lemma_prefix_through_joins(data, seq!["instances"@]);
    lemma_prefix_through_joins(data, seq!["minecraft"@, "libraries"@]);
    lemma_prefix_through_joins(data, seq!["minecraft"@, "assets"@]);
    lemma_prefix_through_joins(data, seq!["minecraft"@, "versions"@]);
    lemma_prefix_through_joins(data, seq!["runtimes"@, component, platform, version]);
    lemma_prefix_through_joins(cache, seq!["natives"@, instance_id, version_id]);
    let i1 = seq!["instances"@];
    assert(i1.drop_last() =~= Seq::<Seq<char>>::empty());
    assert(joined_all(data, i1) == spec_instances_dir(data));
    let l2 = seq!["minecraft"@, "libraries"@];
    assert(l2.drop_last() =~= seq!["minecraft"@]);
    assert(l2.drop_last().drop_last() =~= Seq::<Seq<char>>::empty());
    assert(joined_all(data, l2) == spec_libraries_dir(data));
    let a2 = seq!["minecraft"@, "assets"@];
    assert(a2.drop_last() =~= seq!["minecraft"@]);
    assert(a2.drop_last().drop_last() =~= Seq::<Seq<char>>::empty());
    assert(joined_all(data, a2) == spec_assets_dir(data));
    let v2 = seq!["minecraft"@, "versions"@];
    assert(v2.drop_last() =~= seq!["minecraft"@]);
    assert(v2.drop_last().drop_last() =~= Seq::<Seq<char>>::empty());
    assert(joined_all(data, v2) == spec_versions_dir(data));
    let r4 = seq!["runtimes"@, component, platform, version];
    assert(r4.drop_last() =~= seq!["runtimes"@, component, platform]);
    assert(r4.drop_last().drop_last() =~= seq!["runtimes"@, component]);
    assert(r4.drop_last().drop_last().drop_last() =~= seq!["runtimes"@]);
    assert(r4.drop_last().drop_last().drop_last().drop_last() =~= Seq::<Seq<char>>::empty());
    assert(joined_all(data, r4) == spec_runtime_dir(data, component, platform, version));
    let n3 = seq!["natives"@, instance_id, version_id];
    assert(n3.drop_last() =~= seq!["natives"@, instance_id]);
    assert(n3.drop_last().drop_last() =~= seq!["natives"@]);
    assert(n3.drop_last().drop_last().drop_last() =~= Seq::<Seq<char>>::empty());
    assert(joined_all(cache, n3) == spec_natives_dir(cache, instance_id, version_id));
}

/// `base` with each of `parts` joined on in turn.
pub open spec fn joined_all(base: Seq<char>, parts: Seq<Seq<char>>) -> Seq<char>
    decreases parts.len(),
{
    if parts.len() == 0 {
        base
    } else {
        spec_join(joined_all(base, parts.drop_last()), parts.last())
    }
}

/// Joining relative parts one after another keeps the base as a prefix.
pub proof fn lemma_prefix_through_joins(base: Seq<char>, parts: Seq<Seq<char>>)
    requires
        forall|i: int| 0 <= i < parts.len() ==> !((#[trigger] parts[i]).len() > 0 && parts[i][0] == '/'),
    ensures
        starts_with(joined_all(base, parts), base),
    decreases parts.len(),
{
    if parts.len() > 0 {
        let rest = parts.drop_last();
        assert forall|i: int| 0 <= i < rest.len() implies !((#[trigger] rest[i]).len() > 0 && rest[i][0] == '/') by {
            assert(rest[i] == parts[i]);
        }
        lemma_prefix_through_joins(base, rest);
        let mid = joined_all(base, rest);
        assert(parts.last() == parts[parts.len() - 1]);
        lemma_join_keeps_base(mid, parts.last());
        assert(spec_join(mid, parts.last()).take(base.len() as int) =~= spec_join(mid, parts.last()).take(mid.len() as int).take(base.len() as int));
    } else {
        assert(base.take(base.len() as int) =~= base);
    }
}

/// With a data root and a cache root that are not empty and do not end
/// with `/`, the launcher's directories are spelled out as
/// `<data>/instances`, `<data>/minecraft/libraries`,
/// `<data>/minecraft/assets`, `<data>/minecraft/versions`,
/// `<data>/runtimes/<component>/<platform>/<version>` and
/// `<cache>/natives/<instance>/<version>`, for names that neither start nor
/// end with `/`.
pub proof fn lemma_launcher_dirs_spelled_out(
    data: Seq<char>,
    cache: Seq<char>,
    component: Seq<char>,
    platform: Seq<char>,
    version: Seq<char>,
    instance_id: Seq<char>,
    version_id: Seq<char>,
)
    requires
        data.len() > 0 && data.last() != '/',
        cache.len() > 0 && cache.last() != '/',
        component.len() > 0 && component[0] != '/' && component.last() != '/',
        platform.len() > 0 && platform[0] != '/' && platform.last() != '/',
        version.len() > 0 && version[0] != '/',
        instance_id.len() > 0 && instance_id[0] != '/' && instance_id.last() != '/',
        version_id.len() > 0 && version_id[0] != '/',
    ensures
        spec_instances_dir(data) == data + "/instances"@,
        spec_libraries_dir(data) == data + "/minecraft/libraries"@,
        spec_assets_dir(data) == data + "/minecraft/assets"@,
        spec_versions_dir(data) == data + "/minecraft/versions"@,
        spec_runtime_dir(data, component, platform, version) == data + "/runtimes/"@ + component + seq!['/']
            + platform + seq!['/'] + version,
        spec_natives_dir(cache, instance_id, version_id) == cache + "/natives/"@ + instance_id + seq!['/']
            + version_id,
{
    reveal_strlit("instances");
    reveal_strlit("minecraft");
    reveal_strlit("libraries");
    reveal_strlit("assets");
    reveal_strlit("versions");
    reveal_strlit("runtimes");
    reveal_strlit("natives");
    reveal_strlit("/instances");
    reveal_strlit("/minecraft/libraries");
    reveal_strlit("/minecraft/assets");
    reveal_strlit("/minecraft/versions");
    reveal_strlit("/runtimes/");
    reveal_strlit("/natives/");
    let m = spec_join(data, "minecraft"@);
    assert(m =~= data + seq!['/'] + "minecraft"@);
    assert(spec_instances_dir(data) =~= data + "/instances"@);
    assert(spec_libraries_dir(data) =~= data + "/minecraft/libraries"@);
    assert(spec_assets_dir(data) =~= data + "/minecraft/assets"@);
    assert(spec_versions_dir(data) =~= data + "/minecraft/versions"@);
    let r1 = spec_join(data, "runtimes"@);
    assert(r1 =~= data + seq!['/'] + "runtimes"@);
    let r2 = spec_join(r1, component);
    assert(r2 =~= data + "/runtimes/"@ + component);
    let r3 = spec_join(r2, platform);
    assert(r2.last() == component.last());
    assert(r3 =~= data + "/runtimes/"@ + component + seq!['/'] + platform);
    assert(r3.last() == platform.last());
    assert(spec_runtime_dir(data, component, platform, version) =~= data + "/runtimes/"@ + component + seq!['/']
        + platform + seq!['/'] + version);
    let n1 = spec_join(cache, "natives"@);
    assert(n1 =~= cache + seq!['/'] + "natives"@);
    let n2 = spec_join(n1, instance_id);
    assert(n2 =~= cache + "/natives/"@ + instance_id);
    assert(n2.last() == instance_id.last());
    assert(spec_natives_dir(cache, instance_id, version_id) =~= cache + "/natives/"@ + instance_id + seq!['/']
        + version_id);
}

} // verus!

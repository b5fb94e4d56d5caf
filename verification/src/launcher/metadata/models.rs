use vstd::prelude::*;

use crate::launcher::platform::{Platform, PlatformView};
use crate::text::{lemma_lex_less_irreflexive, lex_less, replace_all, replace_str, str_eq};

verus! {

/// The list of all Minecraft versions that Mojang publishes.
#[derive(Clone, Debug)]
pub struct VersionManifest {
    pub latest: LatestVersions,
    pub versions: Vec<VersionSummary>,
}

/// The first of `versions` listed under `id`, if any.
pub open spec fn spec_find(versions: Seq<VersionSummary>, id: Seq<char>) -> Option<VersionSummary>
    decreases versions.len(),
{
    if versions.len() == 0 {
        None
    } else if versions[0].id@ == id {
        Some(versions[0])
    } else {
        spec_find(versions.drop_first(), id)
    }
}

impl VersionManifest {
    /// The first version listed under `id`, if any.
    pub fn find(&self, id: &str) -> (r: Option<&VersionSummary>)
        ensures
            match r {
                Some(v) => spec_find(self.versions@, id@) == Some(*v),
                None => spec_find(self.versions@, id@) is None,
            },
            match r {
                Some(v) => exists|i: int|
                    0 <= i < self.versions@.len() && *v == self.versions@[i]
                        && self.versions@[i].id@ == id@ && forall|j: int|
                        0 <= j < i ==> #[trigger] self.versions@[j].id@ != id@,
                None => forall|i: int|
                    0 <= i < self.versions@.len() ==> #[trigger] self.versions@[i].id@ != id@,
            },
    {
        let mut i: usize = 0;
        assert(self.versions@.skip(0) =~= self.versions@);
        while i < self.versions.len()
            invariant
                0 <= i <= self.versions@.len(),
                forall|j: int| 0 <= j < i ==> #[trigger] self.versions@[j].id@ != id@,
                spec_find(self.versions@, id@) == spec_find(self.versions@.skip(i as int), id@),
            decreases self.versions@.len() - i,
        {
            assert(self.versions@.skip(i as int)[0] == self.versions@[i as int]);
            if str_eq(self.versions[i].id.as_str(), id) {
                return Some(&self.versions[i]);
            }
            assert(self.versions@.skip(i as int).drop_first() =~= self.versions@.skip(i + 1));
            i = i + 1;
        }
        None
    }
}

/// The newest release and snapshot.
#[derive(Clone, Debug)]
pub struct LatestVersions {
    pub release: String,
    pub snapshot: String,
}

/// One entry of the version list.
#[derive(Clone, Debug)]
pub struct VersionSummary {
    pub id: String,
    pub kind: VersionType,
    pub url: String,
    pub time: String,
    pub release_time: String,
    pub sha1: String,
    pub compliance_level: u8,
}

/// The sort of a Minecraft version.
#[derive(Clone, Copy, Debug, PartialEq, Eq, Structural)]
pub enum VersionType {
    Release,
    Snapshot,
    OldAlpha,
    OldBeta,
}

/// Everything the launcher needs to know about one Minecraft version.
#[derive(Clone, Debug)]
pub struct VersionMetadata {
    pub id: String,
    pub kind: VersionType,
    pub main_class: String,
    pub assets: String,
    pub asset_index: Download,
    pub downloads: VersionDownloads,
    pub libraries: Vec<Library>,
    pub arguments: Option<Arguments>,
    pub minecraft_arguments: Option<String>,
    pub java_version: Option<JavaRequirement>,
    pub logging: Option<Logging>,
}

/// The Java component and version that `version` asks for: the one it
/// names, or Java 8 (`jre-legacy`) when it names none.
pub open spec fn spec_java_requirement(version: VersionMetadata) -> (Seq<char>, u32) {
    match version.java_version {
        Some(j) => (j.component@, j.major_version),
        None => ("jre-legacy"@, 8u32),
    }
}

impl VersionMetadata {
    /// The Java runtime this version needs (see `spec_java_requirement`).
    pub fn java_requirement(&self) -> (r: JavaRequirement)
        ensures
            (r.component@, r.major_version) == spec_java_requirement(*self),
    {
        match &self.java_version {
            Some(j) => JavaRequirement { component: j.component.clone(), major_version: j.major_version },
            None => JavaRequirement { component: "jre-legacy".to_owned(), major_version: 8 },
        }
    }
}

/// The downloads of a version's jars.
#[derive(Clone, Debug)]
pub struct VersionDownloads {
    pub client: Download,
    pub client_mappings: Option<Download>,
    pub server: Option<Download>,
    pub server_mappings: Option<Download>,
}

/// A file to download, with its SHA-1 and size.
#[derive(Clone, Debug)]
pub struct Download {
    pub id: Option<String>,
    pub sha1: String,
    pub size: u64,
    pub total_size: Option<u64>,
    pub url: String,
    pub path: Option<String>,
}

/// A Java component and its major version.
#[derive(Clone, Debug)]
pub struct JavaRequirement {
    pub component: String,
    pub major_version: u32,
}

/// Game and JVM arguments of a version.
#[derive(Clone, Debug)]
pub struct Arguments {
    pub game: Vec<Argument>,
    pub jvm: Vec<Argument>,
}

/// One argument, given always or under rules.
#[derive(Clone, Debug)]
pub enum Argument {
    Plain(String),
    Conditional { rules: Vec<Rule>, value: ArgumentValue },
}

/// The text of a conditional argument.
#[derive(Clone, Debug)]
pub enum ArgumentValue {
    One(String),
    Many(Vec<String>),
}

/// A library that a version needs.
///
/// `natives` maps an operating system to the classifier of its native
/// archive; each key occurs once (see `library_wf`).
#[derive(Clone, Debug)]
pub struct Library {
    pub name: String,
    pub url: Option<String>,
    pub downloads: Option<LibraryDownloads>,
    pub natives: Vec<(String, String)>,
    pub rules: Vec<Rule>,
    pub extract: Option<Extract>,
}

/// The value stored under `key` in a list of key-value pairs (the first
/// one, should a key occur twice).
pub open spec fn lookup<V>(pairs: Seq<(String, V)>, key: Seq<char>) -> Option<V>
    decreases pairs.len(),
{
    if pairs.len() == 0 {
        None
    } else if pairs[0].0@ == key {
        Some(pairs[0].1)
    } else {
        lookup(pairs.drop_first(), key)
    }
}

/// The value stored under `key` in `pairs` (see `lookup`).
pub fn lookup_pair<'a, V>(pairs: &'a Vec<(String, V)>, key: &str) -> (r: Option<&'a V>)
    ensures
        match r {
            Some(v) => lookup(pairs@, key@) == Some(*v),
            None => lookup(pairs@, key@) is None,
        },
{
    let mut i: usize = 0;
    assert(pairs@.skip(0) =~= pairs@);
    while i < pairs.len()
        invariant
            0 <= i <= pairs@.len(),
            lookup(pairs@, key@) == lookup(pairs@.skip(i as int), key@),
        decreases pairs@.len() - i,
    {
        assert(pairs@.skip(i as int)[0] == pairs@[i as int]);
        if str_eq(pairs[i].0.as_str(), key) {
            return Some(&pairs[i].1);
        }
        assert(pairs@.skip(i as int).drop_first() =~= pairs@.skip(i + 1));
        i = i + 1;
    }
    None
}

/// No key occurs twice among `pairs`, as in the map they stand for.
pub open spec fn keys_unique<V>(pairs: Seq<(String, V)>) -> bool {
    forall|i: int, j: int| 0 <= i < j < pairs.len() ==> #[trigger] pairs[i].0@ != #[trigger] pairs[j].0@
}

/// The keys of `pairs` are in strictly ascending order, as a `BTreeMap`
/// walks them (so no key occurs twice).
pub open spec fn keys_ascending<V>(pairs: Seq<(String, V)>) -> bool {
    forall|i: int, j: int|
        0 <= i < j < pairs.len() ==> lex_less(#[trigger] pairs[i].0@, #[trigger] pairs[j].0@)
}

/// Keys in ascending order are unique.
pub proof fn lemma_ascending_keys_unique<V>(pairs: Seq<(String, V)>)
    requires
        keys_ascending(pairs),
    ensures
        keys_unique(pairs),
{
    assert forall|i: int, j: int| 0 <= i < j < pairs.len() implies #[trigger] pairs[i].0@
        != #[trigger] pairs[j].0@ by {
        assert(lex_less(pairs[i].0@, pairs[j].0@));
        lemma_lex_less_irreflexive(pairs[i].0@);
    }
}

/// A rule as the metadata gives it: each feature named once.
pub open spec fn rule_wf(rule: Rule) -> bool {
    keys_unique(rule.features@)
}

/// Every rule in `rules` is well formed.
pub open spec fn rules_wf(rules: Seq<Rule>) -> bool {
    forall|i: int| 0 <= i < rules.len() ==> rule_wf(#[trigger] rules[i])
}

/// A library as the metadata gives it: each operating system, classifier
/// and rule feature named once.
pub open spec fn library_wf(library: Library) -> bool {
    &&& keys_unique(library.natives@)
    &&& (library.downloads matches Some(d) ==> keys_unique(d.classifiers@))
    &&& rules_wf(library.rules@)
}

/// A runtime catalog as Mojang's JSON gives it: platforms, and within each
/// the components, in ascending order of their keys.
pub open spec fn catalog_wf(catalog: Seq<(String, Vec<(String, Vec<JavaRuntime>)>)>) -> bool {
    &&& keys_ascending(catalog)
    &&& forall|i: int| 0 <= i < catalog.len() ==> keys_ascending(#[trigger] catalog[i].1@)
}

/// A runtime's file list: paths in ascending order.
pub open spec fn manifest_wf(manifest: RuntimeManifest) -> bool {
    keys_ascending(manifest.files@)
}

/// With each key once, `lookup` finds the value stored under a key wherever
/// the pair stands, so the order of the pairs does not matter.
pub proof fn lemma_lookup_finds_unique_key<V>(pairs: Seq<(String, V)>, i: int)
    requires
        keys_unique(pairs),
        0 <= i < pairs.len(),
    ensures
        lookup(pairs, pairs[i].0@) == Some(pairs[i].1),
    decreases i,
{
    if i > 0 {
        let rest = pairs.drop_first();
        assert(pairs[0].0@ != pairs[i].0@);
        assert forall|a: int, b: int| 0 <= a < b < rest.len() implies #[trigger] rest[a].0@
            != #[trigger] rest[b].0@ by {
            assert(rest[a] == pairs[a + 1]);
            assert(rest[b] == pairs[b + 1]);
            assert(pairs[a + 1].0@ != pairs[b + 1].0@);
        }
        assert(rest[i - 1] == pairs[i]);
        lemma_lookup_finds_unique_key(rest, i - 1);
    }
}

/// A key stored nowhere among `pairs` is not found.
pub proof fn lemma_lookup_absent<V>(pairs: Seq<(String, V)>, key: Seq<char>)
    requires
        forall|i: int| 0 <= i < pairs.len() ==> (#[trigger] pairs[i]).0@ != key,
    ensures
        lookup(pairs, key) is None,
    decreases pairs.len(),
{
    if pairs.len() > 0 {
        let rest = pairs.drop_first();
        assert(pairs[0].0@ != key);
        assert forall|i: int| 0 <= i < rest.len() implies (#[trigger] rest[i]).0@ != key by {
            assert(rest[i] == pairs[i + 1]);
        }
        lemma_lookup_absent(rest, key);
    }
}

/// The native classifier that `library` uses on platform `p`: its entry for
/// the platform's operating system, with `${arch}` replaced by the
/// platform's native architecture.
pub open spec fn spec_native_classifier(library: Library, p: PlatformView) -> Option<Seq<char>> {
    match lookup(library.natives@, p.rule_os) {
        Some(v) => Some(replace_all(v@, "${arch}"@, p.native_arch)),
        None => None,
    }
}

impl Library {
    /// Whether the library's rules let it be used on `platform`.
    pub fn is_allowed(&self, platform: Platform) -> (r: bool)
        requires
            rules_wf(self.rules@),
        ensures
            r == rules_allow_spec(self.rules@, platform@),
    {
        rules_allow(self.rules.as_slice(), platform)
    }

    /// The classifier of the library's native archive on `platform`, if it
    /// has one (see `spec_native_classifier`).
    pub fn native_classifier(&self, platform: Platform) -> (r: Option<String>)
        requires
            keys_unique(self.natives@),
        ensures
            match r {
                Some(s) => spec_native_classifier(*self, platform@) == Some(s@),
                None => spec_native_classifier(*self, platform@) is None,
            },
    {
        proof {
            reveal_strlit("${arch}");
        }
        match lookup_pair(&self.natives, platform.rule_os()) {
            Some(value) => Some(replace_str(value.as_str(), "${arch}", platform.native_arch())),
            None => None,
        }
    }
}

/// Where a library's files come from.
///
/// `classifiers` maps a classifier to its download; each key occurs once
/// (see `keys_unique`).
#[derive(Clone, Debug)]
pub struct LibraryDownloads {
    pub artifact: Option<Download>,
    pub classifiers: Vec<(String, Download)>,
}

/// What to leave out when unpacking a native archive.
#[derive(Clone, Debug)]
pub struct Extract {
    pub exclude: Vec<String>,
}

/// A rule that allows or disallows something on some platforms.
///
/// `features` maps a launcher feature to the value the rule expects; each
/// key occurs once (see `keys_unique`).
#[derive(Clone, Debug)]
pub struct Rule {
    pub action: RuleAction,
    pub os: Option<OsRule>,
    pub features: Vec<(String, bool)>,
}

/// An optional name that, when present, must equal `want`.
pub open spec fn absent_or_equal(o: Option<String>, want: Seq<char>) -> bool {
    match o {
        None => true,
        Some(s) => s@ == want,
    }
}

/// Whether `rule` applies on platform `p`: its operating system and
/// architecture, where given, are the platform's, and it expects every
/// feature it names to be off (this launcher enables none).
pub open spec fn rule_matches(rule: Rule, p: PlatformView) -> bool {
    &&& match rule.os {
        None => true,
        Some(os) => absent_or_equal(os.name, p.rule_os) && absent_or_equal(os.arch, p.rule_arch),
    }
    &&& forall|i: int| 0 <= i < rule.features@.len() ==> !(#[trigger] rule.features@[i]).1
}

/// With at least one rule that applies, whether the last of them allows.
pub open spec fn last_match_allows(rules: Seq<Rule>, p: PlatformView) -> bool
    decreases rules.len(),
{
    if rules.len() == 0 {
        false
    } else if rule_matches(rules.last(), p) {
        rules.last().action == RuleAction::Allow
    } else {
        last_match_allows(rules.drop_last(), p)
    }
}

/// Whether `rules` allow something on `p`: no rules allow everything;
/// otherwise the last rule that applies decides, and nothing is allowed
/// when none applies.
pub open spec fn rules_allow_spec(rules: Seq<Rule>, p: PlatformView) -> bool {
    rules.len() == 0 || last_match_allows(rules, p)
}

impl Rule {
    /// Whether this rule applies on `platform` (see `rule_matches`).
    pub fn matches(&self, platform: Platform) -> (r: bool)
        requires
            rule_wf(*self),
        ensures
            r == rule_matches(*self, platform@),
    {
        let os_matches = match &self.os {
            None => true,
            Some(os) => {
                let name_ok = match &os.name {
                    None => true,
                    Some(name) => str_eq(name.as_str(), platform.rule_os()),
                };
                let arch_ok = match &os.arch {
                    None => true,
                    Some(arch) => str_eq(arch.as_str(), platform.rule_arch()) || (str_eq(
                        arch.as_str(),
                        "x86",
                    ) && str_eq(platform.rule_arch(), "x86")),
                };
                name_ok && arch_ok
            },
        };
        let mut features_off = true;
        let mut i: usize = 0;
        while i < self.features.len()
            invariant
                0 <= i <= self.features@.len(),
                features_off == forall|j: int|
                    0 <= j < i ==> !(#[trigger] self.features@[j]).1,
            decreases self.features@.len() - i,
        {
            if self.features[i].1 {
                features_off = false;
            }
            i = i + 1;
        }
        os_matches && features_off
    }
}

/// Whether `rules` allow something on `platform` (see `rules_allow_spec`).
pub fn rules_allow(rules: &[Rule], platform: Platform) -> (r: bool)
    requires
        rules_wf(rules@),
    ensures
        r == rules_allow_spec(rules@, platform@),
{
    if rules.len() == 0 {
        return true;
    }
    let mut allowed = false;
    let mut i: usize = 0;
    while i < rules.len()
        invariant
            0 <= i <= rules@.len(),
            allowed == last_match_allows(rules@.take(i as int), platform@),
            rules_wf(rules@),
        decreases rules@.len() - i,
    {
        assert(rules@.take(i + 1).drop_last() =~= rules@.take(i as int));
        assert(rules@.take(i + 1).last() == rules@[i as int]);
        if rules[i].matches(platform) {
            allowed = rules[i].action == RuleAction::Allow;
        }
        i = i + 1;
    }
    assert(rules@.take(rules@.len() as int) =~= rules@);
    allowed
}

/// With no rules at all, everything is allowed.
pub proof fn lemma_no_rules_allow(p: PlatformView)
    ensures
        rules_allow_spec(Seq::<Rule>::empty(), p),
{
}

/// Rules of which none applies allow nothing.
pub proof fn lemma_no_matching_rule_disallows(rules: Seq<Rule>, p: PlatformView)
    requires
        rules.len() > 0,
        forall|i: int| 0 <= i < rules.len() ==> !rule_matches(#[trigger] rules[i], p),
    ensures
        !rules_allow_spec(rules, p),
    decreases rules.len(),
{
    assert(!rule_matches(rules[rules.len() - 1], p));
    assert(rules.last() == rules[rules.len() - 1]);
    if rules.len() > 1 {
        let rest = rules.drop_last();
        assert forall|i: int| 0 <= i < rest.len() implies !rule_matches(#[trigger] rest[i], p) by {
            assert(rest[i] == rules[i]);
        }
        lemma_no_matching_rule_disallows(rest, p);
        assert(!last_match_allows(rest, p));
        assert(last_match_allows(rules, p) == last_match_allows(rest, p));
    } else {
        assert(rules.drop_last().len() == 0);
        assert(!last_match_allows(rules.drop_last(), p));
        assert(last_match_allows(rules, p) == last_match_allows(rules.drop_last(), p));
    }
}

/// A rule added after the others decides whenever it applies.
pub proof fn lemma_last_matching_rule_decides(rules: Seq<Rule>, rule: Rule, p: PlatformView)
    requires
        rule_matches(rule, p),
    ensures
        rules_allow_spec(rules.push(rule), p) == (rule.action == RuleAction::Allow),
{
    assert(rules.push(rule).last() == rule);
}

/// A rule added after the others changes nothing on platforms where it does
/// not apply, as long as there were rules before it.
pub proof fn lemma_non_matching_rule_changes_nothing(rules: Seq<Rule>, rule: Rule, p: PlatformView)
    requires
        rules.len() > 0,
        !rule_matches(rule, p),
    ensures
        rules_allow_spec(rules.push(rule), p) == rules_allow_spec(rules, p),
{
    assert(rules.push(rule).drop_last() =~= rules);
    assert(rules.push(rule).last() == rule);
}

/// The operating system and architecture a rule is about.
#[derive(Clone, Debug)]
pub struct OsRule {
    pub name: Option<String>,
    pub arch: Option<String>,
    pub version: Option<String>,
}

/// Allow or disallow.
#[derive(Clone, Copy, Debug, PartialEq, Eq, Structural)]
pub enum RuleAction {
    Allow,
    Disallow,
}

/// Logging configuration of a version.
#[derive(Clone, Debug)]
pub struct Logging {
    pub client: ClientLogging,
}

/// The client's logging configuration file and its argument.
#[derive(Clone, Debug)]
pub struct ClientLogging {
    pub argument: String,
    pub file: Download,
    pub kind: String,
}

/// The assets of a version: logical name to object, each name once (see
/// `keys_unique`).
#[derive(Clone, Debug)]
pub struct AssetIndex {
    pub objects: Vec<(String, AssetObject)>,
    pub virtual_: bool,
    pub map_to_resources: bool,
}

/// An asset object, stored under its SHA-1.
#[derive(Clone, Debug)]
pub struct AssetObject {
    pub hash: String,
    pub size: u64,
}

/// The Java runtimes that Mojang offers: platform key, then component,
/// then the runtimes of that component, each list in ascending order of
/// its keys (see `catalog_wf`).
pub type JavaRuntimeCatalog = Vec<(String, Vec<(String, Vec<JavaRuntime>)>)>;

/// One Java runtime offered for a platform and component.
#[derive(Clone, Debug)]
pub struct JavaRuntime {
    pub availability: Availability,
    pub manifest: RuntimeManifestDownload,
    pub version: RuntimeVersion,
}

/// How far the roll-out of a runtime has come.
#[derive(Clone, Debug)]
pub struct Availability {
    pub group: u32,
    pub progress: u8,
}

/// Where the file list of a runtime is.
#[derive(Clone, Debug)]
pub struct RuntimeManifestDownload {
    pub sha1: String,
    pub size: u64,
    pub url: String,
}

/// Name and release date of a runtime.
#[derive(Clone, Debug)]
pub struct RuntimeVersion {
    pub name: String,
    pub released: String,
}

/// The files of a runtime, by relative path, in ascending order of path
/// (see `manifest_wf`).
#[derive(Clone, Debug)]
pub struct RuntimeManifest {
    pub files: Vec<(String, RuntimeFile)>,
}

/// One entry of a runtime's file list.
#[derive(Clone, Debug)]
pub struct RuntimeFile {
    pub kind: RuntimeFileType,
    pub downloads: RuntimeDownloads,
    pub executable: bool,
    pub target: Option<String>,
}

/// File, directory or symbolic link.
#[derive(Clone, Copy, Debug, PartialEq, Eq, Structural)]
pub enum RuntimeFileType {
    File,
    Directory,
    Link,
}

/// Raw and compressed downloads of a runtime file.
#[derive(Clone, Debug)]
pub struct RuntimeDownloads {
    pub raw: Option<RuntimeDownload>,
    pub lzma: Option<RuntimeDownload>,
}

/// One download of a runtime file.
#[derive(Clone, Debug)]
pub struct RuntimeDownload {
    pub sha1: String,
    pub size: u64,
    pub url: String,
}

/// A library's native classifier on a platform is the one its natives
/// list under the platform's rule operating system, wherever it stands in
/// the list, with `${arch}` replaced by the platform's native architecture;
/// a library with nothing listed there has none.
pub proof fn lemma_native_classifier_by_os(library: Library, p: PlatformView, i: int)
    requires
        keys_unique(library.natives@),
    ensures
        0 <= i < library.natives@.len() && library.natives@[i].0@ == p.rule_os ==> spec_native_classifier(library, p)
            == Some(replace_all(library.natives@[i].1@, "${arch}"@, p.native_arch)),
        (forall|j: int| 0 <= j < library.natives@.len() ==> (#[trigger] library.natives@[j]).0@ != p.rule_os)
            ==> spec_native_classifier(library, p) is None,
{
    if 0 <= i < library.natives@.len() && library.natives@[i].0@ == p.rule_os {
        lemma_lookup_finds_unique_key(library.natives@, i);
    }
    if forall|j: int| 0 <= j < library.natives@.len() ==> (#[trigger] library.natives@[j]).0@ != p.rule_os {
        lemma_lookup_absent(library.natives@, p.rule_os);
    }
}

} // verus!

use vstd::prelude::*;
use vstd::std_specs::cmp::PartialEqSpecImpl;

use crate::launcher::error::Error;
use crate::text::str_eq;

verus! {

/// A platform as Mojang's metadata names it.
#[derive(Clone, Copy, Debug, Eq)]
pub struct Platform {
    runtime_key: &'static str,
    rule_os: &'static str,
    rule_arch: &'static str,
    native_arch: &'static str,
}

/// The four names of a platform, by their characters.
pub struct PlatformView {
    /// Key of the platform in the Java runtime catalog.
    pub runtime_key: Seq<char>,
    /// Operating system name used by library and argument rules.
    pub rule_os: Seq<char>,
    /// Architecture name used by library and argument rules.
    pub rule_arch: Seq<char>,
    /// Value substituted for `${arch}` in native classifiers.
    pub native_arch: Seq<char>,
}

impl View for Platform {
    type V = PlatformView;

    closed spec fn view(&self) -> PlatformView {
        PlatformView {
            runtime_key: self.runtime_key@,
            rule_os: self.rule_os@,
            rule_arch: self.rule_arch@,
            native_arch: self.native_arch@,
        }
    }
}

impl PartialEq for Platform {
    fn eq(&self, other: &Self) -> (r: bool) {
        str_eq(self.runtime_key, other.runtime_key) && str_eq(self.rule_os, other.rule_os)
            && str_eq(self.rule_arch, other.rule_arch) && str_eq(self.native_arch, other.native_arch)
    }
}

impl PartialEqSpecImpl for Platform {
    open spec fn obeys_eq_spec() -> bool {
        true
    }

    open spec fn eq_spec(&self, other: &Self) -> bool {
        self@ == other@
    }
}

/// The platform that Mojang's metadata uses for the Rust target `os` and
/// `arch` (the values of `std::env::consts::OS` and `ARCH`), if Mojang
/// supports it.
pub open spec fn target_platform(os: Seq<char>, arch: Seq<char>) -> Option<PlatformView> {
    if os == "windows"@ && arch == "x86_64"@ {
        Some(PlatformView { runtime_key: "windows-x64"@, rule_os: "windows"@, rule_arch: "x86_64"@, native_arch: "64"@ })
    } else if os == "windows"@ && arch == "x86"@ {
        Some(PlatformView { runtime_key: "windows-x86"@, rule_os: "windows"@, rule_arch: "x86"@, native_arch: "32"@ })
    } else if os == "windows"@ && arch == "aarch64"@ {
        Some(PlatformView { runtime_key: "windows-arm64"@, rule_os: "windows"@, rule_arch: "arm64"@, native_arch: "arm64"@ })
    } else if os == "macos"@ && arch == "x86_64"@ {
        Some(PlatformView { runtime_key: "mac-os"@, rule_os: "osx"@, rule_arch: "x86_64"@, native_arch: "64"@ })
    } else if os == "macos"@ && arch == "aarch64"@ {
        Some(PlatformView { runtime_key: "mac-os-arm64"@, rule_os: "osx"@, rule_arch: "arm64"@, native_arch: "arm64"@ })
    } else if os == "linux"@ && arch == "x86_64"@ {
        Some(PlatformView { runtime_key: "linux"@, rule_os: "linux"@, rule_arch: "x86_64"@, native_arch: "64"@ })
    } else if os == "linux"@ && arch == "x86"@ {
        Some(PlatformView { runtime_key: "linux-i386"@, rule_os: "linux"@, rule_arch: "x86"@, native_arch: "32"@ })
    } else {
        None
    }
}

impl Platform {
    /// The platform for the Rust target `os` and `arch`, or
    /// `UnsupportedPlatform` when Mojang publishes nothing for it.
    pub fn for_target(os: &str, arch: &str) -> (r: Result<Self, Error>)
        ensures
            match target_platform(os@, arch@) {
                Some(p) => r matches Ok(q) && q@ == p,
                None => r matches Err(Error::UnsupportedPlatform),
            },
    {
        if str_eq(os, "windows") && str_eq(arch, "x86_64") {
            Ok(Self::new("windows-x64", "windows", "x86_64", "64"))
        } else if str_eq(os, "windows") && str_eq(arch, "x86") {
            Ok(Self::new("windows-x86", "windows", "x86", "32"))
        } else if str_eq(os, "windows") && str_eq(arch, "aarch64") {
            Ok(Self::new("windows-arm64", "windows", "arm64", "arm64"))
        } else if str_eq(os, "macos") && str_eq(arch, "x86_64") {
            Ok(Self::new("mac-os", "osx", "x86_64", "64"))
        } else if str_eq(os, "macos") && str_eq(arch, "aarch64") {
            Ok(Self::new("mac-os-arm64", "osx", "arm64", "arm64"))
        } else if str_eq(os, "linux") && str_eq(arch, "x86_64") {
            Ok(Self::new("linux", "linux", "x86_64", "64"))
        } else if str_eq(os, "linux") && str_eq(arch, "x86") {
            Ok(Self::new("linux-i386", "linux", "x86", "32"))
        } else {
            Err(Error::UnsupportedPlatform)
        }
    }

    /// A platform with the given names.
    pub fn new(
        runtime_key: &'static str,
        rule_os: &'static str,
        rule_arch: &'static str,
        native_arch: &'static str,
    ) -> (r: Self)
        ensures
            r@ == (PlatformView {
                runtime_key: runtime_key@,
                rule_os: rule_os@,
                rule_arch: rule_arch@,
                native_arch: native_arch@,
            }),
    {
        Platform { runtime_key, rule_os, rule_arch, native_arch }
    }

    /// Key of the platform in the Java runtime catalog.
    pub fn runtime_key(self) -> (r: &'static str)
        ensures
            r@ == self@.runtime_key,
    {
        self.runtime_key
    }

    /// Operating system name used by rules.
    pub fn rule_os(self) -> (r: &'static str)
        ensures
            r@ == self@.rule_os,
    {
        self.rule_os
    }

    /// Architecture name used by rules.
    pub fn rule_arch(self) -> (r: &'static str)
        ensures
            r@ == self@.rule_arch,
    {
        self.rule_arch
    }

    /// Value substituted for `${arch}` in native classifiers.
    pub fn native_arch(self) -> (r: &'static str)
        ensures
            r@ == self@.native_arch,
    {
        self.native_arch
    }
}

/// `s` ends with `p`.
pub open spec fn ends_with(s: Seq<char>, p: Seq<char>) -> bool {
    p.len() <= s.len() && s.skip(s.len() - p.len()) == p
}

/// The names Mojang uses for a supported target follow from the target:
/// rules name the operating system as Rust does, except that macOS is
/// `osx`, and the architecture as Rust does, except that `aarch64` is
/// `arm64`; the native architecture is `64` for `x86_64`, `32` for `x86`
/// and `arm64` for `aarch64`; the runtime key starts with the system's
/// name (`windows-`, `mac-os`, `linux`) and ends with `arm64` exactly for
/// `aarch64` and with `86` exactly for `x86`.
pub proof fn lemma_target_platform_names(os: Seq<char>, arch: Seq<char>)
    ensures
        target_platform(os, arch) matches Some(p) ==> {
            &&& p.rule_os == (if os == "macos"@ { "osx"@ } else { os })
            &&& p.rule_arch == (if arch == "aarch64"@ { "arm64"@ } else { arch })
            &&& (arch == "x86_64"@ ==> p.native_arch == "64"@)
            &&& (arch == "x86"@ ==> p.native_arch == "32"@)
            &&& (arch == "aarch64"@ ==> p.native_arch == "arm64"@)
            &&& (os == "windows"@ ==> crate::text::starts_with(p.runtime_key, "windows-"@))
            &&& (os == "macos"@ ==> crate::text::starts_with(p.runtime_key, "mac-os"@))
            &&& (os == "linux"@ ==> crate::text::starts_with(p.runtime_key, "linux"@))
            &&& ends_with(p.runtime_key, "arm64"@) == (arch == "aarch64"@)
            &&& ends_with(p.runtime_key, "86"@) == (arch == "x86"@)
        },
{
    reveal_strlit("windows");
    reveal_strlit("macos");
    reveal_strlit("linux");
    reveal_strlit("x86_64");
    reveal_strlit("x86");
    reveal_strlit("aarch64");
    reveal_strlit("osx");
    reveal_strlit("arm64");
    reveal_strlit("64");
    reveal_strlit("32");
    reveal_strlit("86");
    reveal_strlit("windows-");
    reveal_strlit("mac-os");
    reveal_strlit("windows-x64");
    reveal_strlit("windows-x86");
    reveal_strlit("windows-arm64");
    reveal_strlit("mac-os-arm64");
    reveal_strlit("linux-i386");
    if let Some(p) = target_platform(os, arch) {
        let k = p.runtime_key;
        assert("windows"@.len() == 7);
        assert("macos"@.len() == 5 && "macos"@[0] == 'm');
        assert("linux"@.len() == 5 && "linux"@[0] == 'l');
        assert("x86_64"@.len() == 6);
        assert("x86"@.len() == 3);
        assert("aarch64"@.len() == 7);
        assert("windows"@ != "macos"@);
        assert("linux"@ != "macos"@);
        assert("x86_64"@ != "aarch64"@);
        assert("x86"@ != "aarch64"@);
        assert("x86"@ != "x86_64"@);
        assert(p.rule_os == (if os == "macos"@ { "osx"@ } else { os }));
        assert(p.rule_arch == (if arch == "aarch64"@ { "arm64"@ } else { arch }));
        if os == "windows"@ && arch == "x86_64"@ {
            assert(k.skip(k.len() - 5) =~= seq!['s', '-', 'x', '6', '4']);
            assert(k.skip(k.len() - 5)[0] != "arm64"@[0]);
            assert(!ends_with(k, "arm64"@));
            assert(k.skip(k.len() - 2) =~= seq!['6', '4']);
            assert(k.skip(k.len() - 2)[0] != "86"@[0]);
            assert(!ends_with(k, "86"@));
            assert(k.take(8) =~= "windows-"@);
        } else if os == "windows"@ && arch == "x86"@ {
            assert(k.skip(k.len() - 5) =~= seq!['s', '-', 'x', '8', '6']);
            assert(k.skip(k.len() - 5)[0] != "arm64"@[0]);
            assert(!ends_with(k, "arm64"@));
            assert(k.skip(k.len() - 2) =~= "86"@);
            assert(k.take(8) =~= "windows-"@);
        } else if os == "windows"@ && arch == "aarch64"@ {
            assert(k.skip(k.len() - 5) =~= "arm64"@);
            assert(k.skip(k.len() - 2) =~= seq!['6', '4']);
            assert(k.skip(k.len() - 2)[0] != "86"@[0]);
            assert(!ends_with(k, "86"@));
            assert(k.take(8) =~= "windows-"@);
        } else if os == "macos"@ && arch == "x86_64"@ {
            assert(k.len() == 6);
            assert(k.skip(k.len() - 5) =~= seq!['a', 'c', '-', 'o', 's']);
            assert(k.skip(k.len() - 5)[1] != "arm64"@[1]);
            assert(!ends_with(k, "arm64"@));
            assert(k.skip(k.len() - 2) =~= seq!['o', 's']);
            assert(k.skip(k.len() - 2)[0] != "86"@[0]);
            assert(!ends_with(k, "86"@));
            assert(k.take(6) =~= "mac-os"@);
        } else if os == "macos"@ && arch == "aarch64"@ {
            assert(k.skip(k.len() - 5) =~= "arm64"@);
            assert(k.skip(k.len() - 2) =~= seq!['6', '4']);
            assert(k.skip(k.len() - 2)[0] != "86"@[0]);
            assert(!ends_with(k, "86"@));
            assert(k.take(6) =~= "mac-os"@);
        } else if os == "linux"@ && arch == "x86_64"@ {
            assert(k.len() == 5);
            assert(k.skip(k.len() - 5) =~= "linux"@);
            assert(k.skip(k.len() - 5)[0] != "arm64"@[0]);
            assert(!ends_with(k, "arm64"@));
            assert(k.skip(k.len() - 2) =~= seq!['u', 'x']);
            assert(k.skip(k.len() - 2)[0] != "86"@[0]);
            assert(!ends_with(k, "86"@));
            assert(k.take(5) =~= "linux"@);
        } else {
            assert(k.skip(k.len() - 5) =~= seq!['x', '-', 'i', '3', '8'].skip(1).push('6'));
            assert(k.skip(k.len() - 5)[0] != "arm64"@[0]);
            assert(!ends_with(k, "arm64"@));
            assert(k.skip(k.len() - 2) =~= "86"@);
            assert(k.take(5) =~= "linux"@);
        }
    }
}

/// Two different supported targets never share a runtime key, so each
/// picks its own Java runtimes from the catalog.
pub proof fn lemma_runtime_keys_distinct(os1: Seq<char>, arch1: Seq<char>, os2: Seq<char>, arch2: Seq<char>)
    requires
        target_platform(os1, arch1) is Some,
        target_platform(os2, arch2) is Some,
        os1 != os2 || arch1 != arch2,
    ensures
        target_platform(os1, arch1)->0.runtime_key != target_platform(os2, arch2)->0.runtime_key,
{
    lemma_target_platform_names(os1, arch1);
    lemma_target_platform_names(os2, arch2);
    reveal_strlit("windows");
    reveal_strlit("macos");
    reveal_strlit("linux");
    reveal_strlit("x86_64");
    reveal_strlit("x86");
    reveal_strlit("aarch64");
    reveal_strlit("windows-");
    reveal_strlit("mac-os");
    let k1 = target_platform(os1, arch1)->0.runtime_key;
    let k2 = target_platform(os2, arch2)->0.runtime_key;
    assert(os1 == "windows"@ || os1 == "macos"@ || os1 == "linux"@);
    assert(os2 == "windows"@ || os2 == "macos"@ || os2 == "linux"@);
    assert(k1.take(1)[0] == k1[0]);
    assert(k2.take(1)[0] == k2[0]);
    assert(k1.take(5).take(1) =~= k1.take(1));
    assert(k2.take(5).take(1) =~= k2.take(1));
    if os1 == "windows"@ {
        assert(k1.take(8).take(1) =~= k1.take(1));
    }
    if os2 == "windows"@ {
        assert(k2.take(8).take(1) =~= k2.take(1));
    }
    if os1 == "macos"@ {
        assert(k1.take(6).take(1) =~= k1.take(1));
    }
    if os2 == "macos"@ {
        assert(k2.take(6).take(1) =~= k2.take(1));
    }
    if k1 == k2 {
        assert(os1 == os2);
    }
}

} // verus!

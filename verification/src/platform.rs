//! The machines for which a compiler is published.

use vstd::prelude::*;
use crate::error::{Error, ErrorView};
use crate::text::{push_str_chars, str_equal, string_of};

verus! {

/// An operating system for which a compiler is published.
#[derive(Clone, Copy, Debug, PartialEq, Eq, Structural)]
pub enum Os {
    Linux,
    MacOs,
}

/// A processor architecture for which a compiler is published.
#[derive(Clone, Copy, Debug, PartialEq, Eq, Structural)]
pub enum Arch {
    Amd64,
    Arm64,
}

/// A machine for which a compiler is published.
#[derive(Clone, Copy, Debug, PartialEq, Eq, Structural)]
pub struct Platform {
    pub os: Os,
    pub arch: Arch,
}

/// The operating system that goes by `name`.
pub open spec fn os_named(name: Seq<char>) -> Option<Os> {
    if name == "linux"@ {
        Some(Os::Linux)
    } else if name == "macos"@ || name == "darwin"@ {
        Some(Os::MacOs)
    } else {
        None
    }
}

/// The architecture that goes by `name`.
pub open spec fn arch_named(name: Seq<char>) -> Option<Arch> {
    if name == "x86_64"@ || name == "amd64"@ {
        Some(Arch::Amd64)
    } else if name == "aarch64"@ || name == "arm64"@ {
        Some(Arch::Arm64)
    } else {
        None
    }
}

/// The platform with the operating system `os` and the architecture `arch`,
/// if a compiler is published for it.
pub open spec fn platform_named(os: Seq<char>, arch: Seq<char>) -> Option<Platform> {
    match os_named(os) {
        None => None,
        Some(os) => match arch_named(arch) {
            None => None,
            Some(arch) => Some(Platform { os, arch }),
        },
    }
}

/// How a platform is reported in a failure: the two names with a hyphen between them.
pub open spec fn platform_label(os: Seq<char>, arch: Seq<char>) -> Seq<char> {
    os + seq!['-'] + arch
}

impl Platform {
    /// The name under which the compilers for this platform are published.
    pub open spec fn tag(self) -> Seq<char> {
        match (self.os, self.arch) {
            (Os::Linux, Arch::Amd64) => "linux-amd64-musl"@,
            (Os::Linux, Arch::Arm64) => "linux-arm64-musl"@,
            (Os::MacOs, Arch::Amd64) => "macosx-amd64"@,
            (Os::MacOs, Arch::Arm64) => "macosx-arm64"@,
        }
    }

    /// Executable form of [`Platform::tag`].
    pub fn tag_text(self) -> (r: &'static str)
        ensures
            r@ == self.tag(),
    {
        match (self.os, self.arch) {
            (Os::Linux, Arch::Amd64) => "linux-amd64-musl",
            (Os::Linux, Arch::Arm64) => "linux-arm64-musl",
            (Os::MacOs, Arch::Amd64) => "macosx-amd64",
            (Os::MacOs, Arch::Arm64) => "macosx-arm64",
        }
    }

    /// The platform that the machine's own names for its operating system and
    /// architecture stand for. Fails with an unsupported-platform error, which
    /// holds both names, when no compiler is published for it.
    pub fn detect(os: &str, arch: &str) -> (r: Result<Platform, Error>)
        ensures
            match r {
                Ok(p) => platform_named(os@, arch@) == Some(p),
                Err(e) => platform_named(os@, arch@) is None && e@
                    == ErrorView::UnsupportedPlatform(platform_label(os@, arch@)),
            },
    {
        let found_os = if str_equal(os, "linux") {
            Some(Os::Linux)
        } else if str_equal(os, "macos") || str_equal(os, "darwin") {
            Some(Os::MacOs)
        } else {
            None
        };
        let found_arch = if str_equal(arch, "x86_64") || str_equal(arch, "amd64") {
            Some(Arch::Amd64)
        } else if str_equal(arch, "aarch64") || str_equal(arch, "arm64") {
            Some(Arch::Arm64)
        } else {
            None
        };
        match (found_os, found_arch) {
            (Some(os), Some(arch)) => Ok(Platform { os, arch }),
            _ => {
                let mut label: Vec<char> = Vec::new();
                push_str_chars(&mut label, os);
                label.push('-');
                push_str_chars(&mut label, arch);
                assert(label@ =~= platform_label(os@, arch@));
                Err(Error::UnsupportedPlatform(string_of(&label)))
            },
        }
    }
}

} // verus!

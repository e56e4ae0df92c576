//! Which prebuilt tree-sitter CLI fits the machine.
use vstd::prelude::*;

use crate::text::str_eq;

verus! {

/// The slug tree-sitter's release assets carry for an operating system and
/// an architecture, as `std::env::consts` names them; `None` where no
/// prebuilt CLI is released.
pub open spec fn release_slug(os: Seq<char>, arch: Seq<char>) -> Option<Seq<char>> {
    if os == "linux"@ && arch == "x86_64"@ {
        Some("linux-x64"@)
    } else if os == "linux"@ && arch == "aarch64"@ {
        Some("linux-arm64"@)
    } else if os == "macos"@ && arch == "x86_64"@ {
        Some("macos-x64"@)
    } else if os == "macos"@ && arch == "aarch64"@ {
        Some("macos-arm64"@)
    } else if os == "windows"@ && arch == "x86_64"@ {
        Some("windows-x64"@)
    } else if os == "windows"@ && arch == "aarch64"@ {
        Some("windows-arm64"@)
    } else {
        None
    }
}

/// The platform slug in the name of the tree-sitter CLI release for `os` and
/// `arch`, or `None` where there is no prebuilt CLI and it has to be
/// installed by hand.
pub fn release_platform(os: &str, arch: &str) -> (r: Option<String>)
    ensures
        match r {
            Some(slug) => release_slug(os@, arch@) == Some(slug@),
            None => release_slug(os@, arch@) is None,
        },
{
    let x86 = str_eq(arch, "x86_64");
    let arm = str_eq(arch, "aarch64");
    if str_eq(os, "linux") {
        if x86 {
            return Some("linux-x64".to_string());
        } else if arm {
            return Some("linux-arm64".to_string());
        }
    } else if str_eq(os, "macos") {
        if x86 {
            return Some("macos-x64".to_string());
        } else if arm {
            return Some("macos-arm64".to_string());
        }
    } else if str_eq(os, "windows") {
        if x86 {
            return Some("windows-x64".to_string());
        } else if arm {
            return Some("windows-arm64".to_string());
        }
    }
    None
}

} // verus!

//! Finding and naming interpreters: what a `--version` answer says and where
//! a managed interpreter is downloaded from and kept.

use vstd::prelude::*;
use crate::engine::text::{
    chars_of, concat, contains, ends_with, has_infix, has_prefix, has_suffix, owned, same_text,
    starts_with, string_of, trim, trimmed,
};

verus! {

/// The release of the standalone interpreter builds that downloads come from.
pub fn build_release() -> (r: String)
    ensures
        r@ == "20251217"@,
{
    owned("20251217")
}

/// What an interpreter said when asked for its version: its standard output
/// without surrounding white space, or its standard error where that is empty.
pub open spec fn reported_version(stdout: Seq<char>, stderr: Seq<char>) -> Seq<char> {
    if trimmed(stdout).len() == 0 {
        trimmed(stderr)
    } else {
        trimmed(stdout)
    }
}

/// Reads the version answer of an interpreter from its two output streams.
pub fn version_answer(stdout: &str, stderr: &str) -> (r: String)
    ensures
        r@ == reported_version(stdout@, stderr@),
{
    let out = trim(&chars_of(stdout));
    if out.len() == 0 {
        string_of(&trim(&chars_of(stderr)))
    } else {
        string_of(&out)
    }
}

/// The answer is that of an interpreter of the expected version: it mentions
/// the version, or starts with `Python ` and the version.
pub open spec fn answers_version(answer: Seq<char>, expected: Seq<char>) -> bool {
    has_infix(answer, expected) || has_prefix(answer, "Python "@ + expected)
}

/// Tests whether a version answer is that of the expected version.
pub fn version_matches(answer: &str, expected: &str) -> (r: bool)
    ensures
        r == answers_version(answer@, expected@),
{
    let text = chars_of(answer);
    if contains(&text, &chars_of(expected)) {
        return true;
    }
    let full = concat("Python ", expected);
    starts_with(&text, &chars_of(full.as_str()))
}

/// The name of the standalone build for a host, by operating system and
/// machine architecture; none for a host there is no build for.
pub open spec fn build_platform(os: Seq<char>, arch: Seq<char>) -> Option<Seq<char>> {
    if os == "windows"@ && arch == "x86_64"@ {
        Some("x86_64-pc-windows-msvc-shared-install_only"@)
    } else if os == "linux"@ && arch == "x86_64"@ {
        Some("x86_64-unknown-linux-gnu-install_only"@)
    } else if os == "macos"@ && arch == "x86_64"@ {
        Some("x86_64-apple-darwin-install_only"@)
    } else if os == "macos"@ && arch == "aarch64"@ {
        Some("aarch64-apple-darwin-install_only"@)
    } else {
        None
    }
}

/// The patch release that stands for a MAJOR.MINOR version in the build
/// release; any other version stands for itself.
pub open spec fn build_version(version: Seq<char>) -> Seq<char> {
    if version == "3.12"@ {
        "3.12.8"@
    } else if version == "3.11"@ {
        "3.11.11"@
    } else if version == "3.10"@ {
        "3.10.16"@
    } else if version == "3.9"@ {
        "3.9.21"@
    } else {
        version
    }
}

/// The kind of archive that builds for an operating system come in.
pub open spec fn build_extension(os: Seq<char>) -> Seq<char> {
    if os == "windows"@ {
        "zip"@
    } else {
        "tar.gz"@
    }
}

/// The address of the standalone build of an interpreter version for a host.
pub open spec fn build_address(version: Seq<char>, os: Seq<char>, arch: Seq<char>) -> Option<
    Seq<char>,
> {
    match build_platform(os, arch) {
        Some(platform) => Some(
            "https://github.com/astral-sh/python-build-standalone/releases/download/"@
                + "20251217"@ + "/cpython-"@ + build_version(version) + "+"@ + "20251217"@ + "-"@
                + platform + "."@ + build_extension(os),
        ),
        None => None,
    }
}

/// The name of the standalone build for the host.
fn platform_name(os: &str, arch: &str) -> (r: Option<String>)
    ensures
        match r {
            Some(p) => build_platform(os@, arch@) == Some(p@),
            None => build_platform(os@, arch@).is_none(),
        },
{
    let x86 = same_text(arch, "x86_64");
    let arm = same_text(arch, "aarch64");
    proof {
        reveal_strlit("windows");
        reveal_strlit("macos");
        reveal_strlit("linux");
        reveal_strlit("x86_64");
        reveal_strlit("aarch64");
        assert("windows"@.len() == 7 && "macos"@.len() == 5 && "linux"@.len() == 5);
        assert("macos"@[0] != "linux"@[0]);
        assert("x86_64"@.len() == 6 && "aarch64"@.len() == 7);
    }
    if same_text(os, "windows") {
        if x86 {
            return Some(owned("x86_64-pc-windows-msvc-shared-install_only"));
        }
        None
    } else if same_text(os, "linux") {
        if x86 {
            return Some(owned("x86_64-unknown-linux-gnu-install_only"));
        }
        None
    } else if same_text(os, "macos") {
        if x86 {
            return Some(owned("x86_64-apple-darwin-install_only"));
        }
        if arm {
            return Some(owned("aarch64-apple-darwin-install_only"));
        }
        None
    } else {
        None
    }
}

/// The patch release that the build release holds for `version`.
fn full_version_of(version: &str) -> (r: String)
    ensures
        r@ == build_version(version@),
{
    if same_text(version, "3.12") {
        owned("3.12.8")
    } else if same_text(version, "3.11") {
        owned("3.11.11")
    } else if same_text(version, "3.10") {
        owned("3.10.16")
    } else if same_text(version, "3.9") {
        owned("3.9.21")
    } else {
        owned(version)
    }
}

/// Builds the address that the interpreter `version` is downloaded from for
/// the host; none for a host there is no build for.
pub fn get_download_url(version: &str, os: &str, arch: &str) -> (r: Option<String>)
    ensures
        match r {
            Some(url) => build_address(version@, os@, arch@) == Some(url@),
            None => build_address(version@, os@, arch@).is_none(),
        },
{
    let platform = match platform_name(os, arch) {
        Some(p) => p,
        None => {
            return None;
        },
    };
    let extension = if same_text(os, "windows") {
        owned("zip")
    } else {
        owned("tar.gz")
    };
    let release = build_release();
    let a = concat(
        "https://github.com/astral-sh/python-build-standalone/releases/download/",
        release.as_str(),
    );
    let b = concat(a.as_str(), "/cpython-");
    let c = concat(b.as_str(), full_version_of(version).as_str());
    let d = concat(c.as_str(), "+");
    let e = concat(d.as_str(), release.as_str());
    let f = concat(e.as_str(), "-");
    let g = concat(f.as_str(), platform.as_str());
    let h = concat(g.as_str(), ".");
    Some(concat(h.as_str(), extension.as_str()))
}

/// The directory that the managed interpreter `version` is kept in.
pub fn get_managed_python_path(home: &str, version: &str) -> (r: String)
    ensures
        r@ == home@ + "/.woven/python/"@ + version@,
{
    let base = concat(home, "/.woven/python/");
    concat(base.as_str(), version)
}

/// The interpreter inside an unpacked standalone build.
pub fn managed_python_exe(managed_path: &str, windows: bool) -> (r: String)
    ensures
        r@ == managed_path@ + if windows {
            "/python/install/python.exe"@
        } else {
            "/python/install/bin/python3"@
        },
{
    if windows {
        concat(managed_path, "/python/install/python.exe")
    } else {
        concat(managed_path, "/python/install/bin/python3")
    }
}

/// The interpreter inside an unpacked build that has no `python/install` level.
pub fn fallback_python_exe(managed_path: &str, windows: bool) -> (r: String)
    ensures
        r@ == managed_path@ + if windows {
            "/python.exe"@
        } else {
            "/bin/python3"@
        },
{
    if windows {
        concat(managed_path, "/python.exe")
    } else {
        concat(managed_path, "/bin/python3")
    }
}

/// Tests whether an archive is unpacked as a zip archive: whether its name
/// ends in `.zip`.
pub fn is_zip(archive_path: &str) -> (r: bool)
    ensures
        r == has_suffix(archive_path@, ".zip"@),
{
    ends_with(&chars_of(archive_path), &chars_of(".zip"))
}

} // verus!

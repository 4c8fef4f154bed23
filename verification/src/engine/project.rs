//! The decisions behind the commands: where things are in a project, which
//! platform the host is, and what a command does next.

use vstd::prelude::*;
use crate::engine::text::{concat, owned, same_text};

verus! {

/// The platform tag of a host, by operating system and machine architecture
/// as `std::env::consts` names them.
pub open spec fn host_tag(os: Seq<char>, arch: Seq<char>) -> Option<Seq<char>> {
    if os == "windows"@ && arch == "x86_64"@ {
        Some("win_amd64"@)
    } else if os == "macos"@ && arch == "aarch64"@ {
        Some("macosx_arm64"@)
    } else if os == "macos"@ && arch == "x86_64"@ {
        Some("macosx_x86_64"@)
    } else if os == "linux"@ && arch == "x86_64"@ {
        Some("manylinux"@)
    } else if os == "linux"@ && arch == "aarch64"@ {
        Some("manylinux_aarch64"@)
    } else {
        None
    }
}

/// The platform tag of the host; none for a host that no artifact is built for.
pub fn host_platform(os: &str, arch: &str) -> (r: Option<String>)
    ensures
        match r {
            Some(tag) => host_tag(os@, arch@) == Some(tag@),
            None => host_tag(os@, arch@).is_none(),
        },
{
    let x86 = same_text(arch, "x86_64");
    let arm = same_text(arch, "aarch64");
    proof {
        reveal_strlit("windows");
        reveal_strlit("macos");
        reveal_strlit("linux");
        reveal_strlit("x86_64");
        reveal_strlit("aarch64");
        assert("windows"@.len() == 7 && "macos"@.len() == 5 && "linux"@.len() == 5);
        assert("macos"@[0] != "linux"@[0]);
        assert("x86_64"@.len() == 6 && "aarch64"@.len() == 7);
    }
    if same_text(os, "windows") {
        if x86 {
            return Some(owned("win_amd64"));
        }
        None
    } else if same_text(os, "macos") {
        if arm {
            return Some(owned("macosx_arm64"));
        }
        if x86 {
            return Some(owned("macosx_x86_64"));
        }
        None
    } else if same_text(os, "linux") {
        if x86 {
            return Some(owned("manylinux"));
        }
        if arm {
            return Some(owned("manylinux_aarch64"));
        }
        None
    } else {
        None
    }
}

/// The site directory of an environment.
pub open spec fn site_dir_of(
    venv: Seq<char>,
    python_version: Seq<char>,
    windows: bool,
) -> Seq<char> {
    if windows {
        venv + "/Lib/site-packages"@
    } else {
        venv + "/lib/python"@ + python_version + "/site-packages"@
    }
}

/// The site directory of the environment at `venv`: `Lib/site-packages` on
/// Windows, `lib/python<MAJOR.MINOR>/site-packages` elsewhere.
pub fn site_packages_dir(venv: &str, python_version: &str, windows: bool) -> (r: String)
    ensures
        r@ == site_dir_of(venv@, python_version@, windows),
{
    if windows {
        concat(venv, "/Lib/site-packages")
    } else {
        let lib = concat(venv, "/lib/python");
        let versioned = concat(lib.as_str(), python_version);
        concat(versioned.as_str(), "/site-packages")
    }
}

/// The scripts directory of an environment.
pub open spec fn scripts_dir_of(venv: Seq<char>, windows: bool) -> Seq<char> {
    if windows {
        venv + "/Scripts"@
    } else {
        venv + "/bin"@
    }
}

/// The scripts directory of the environment at `venv`: `Scripts` on Windows,
/// `bin` elsewhere.
pub fn scripts_dir(venv: &str, windows: bool) -> (r: String)
    ensures
        r@ == scripts_dir_of(venv@, windows),
{
    if windows {
        concat(venv, "/Scripts")
    } else {
        concat(venv, "/bin")
    }
}

/// The interpreter of the environment at `venv`.
pub fn env_python(venv: &str, windows: bool) -> (r: String)
    ensures
        r@ == scripts_dir_of(venv@, windows) + if windows {
            "/python.exe"@
        } else {
            "/python"@
        },
{
    let dir = scripts_dir(venv, windows);
    if windows {
        concat(dir.as_str(), "/python.exe")
    } else {
        concat(dir.as_str(), "/python")
    }
}

/// The search path for a command run inside the environment: the scripts
/// directory in front of the present search path.
pub fn search_path(scripts: &str, present: &str, windows: bool) -> (r: String)
    ensures
        r@ == scripts@ + (if windows {
            ";"@
        } else {
            ":"@
        }) + present@,
{
    let head = if windows {
        concat(scripts, ";")
    } else {
        concat(scripts, ":")
    };
    concat(head.as_str(), present)
}

/// How an install brings the environment up to date.
#[derive(Clone, Copy, Debug, PartialEq, Eq, Structural)]
pub enum InstallMode {
    /// Synchronise from the lockfile that is there.
    SyncFromLock,
    /// Resolve, write the lockfile, then synchronise from it.
    ResolveThenSync,
}

/// Decides how an install proceeds: from the lockfile where there is one and
/// no fresh resolution is asked for, and by resolving otherwise.
pub fn install_mode(lock_exists: bool, force_resolve: bool) -> (r: InstallMode)
    ensures
        r == if lock_exists && !force_resolve {
            InstallMode::SyncFromLock
        } else {
            InstallMode::ResolveThenSync
        },
{
    if lock_exists && !force_resolve {
        InstallMode::SyncFromLock
    } else {
        InstallMode::ResolveThenSync
    }
}

/// What a command is run as inside the environment.
#[derive(Clone, Copy, Debug, PartialEq, Eq, Structural)]
pub enum RunTarget {
    /// The file of that name in the scripts directory.
    Script,
    /// The file of that name with `.exe` in the scripts directory.
    ScriptExe,
    /// The interpreter of the environment.
    EnvPython,
    /// The command as given, found through the search path.
    AsGiven,
}

/// Decides what the command `name` is run as: the script of that name if
/// the scripts directory has one, on Windows else the `.exe` of that name if
/// it has that, else the environment's interpreter for `python` and
/// `python3`, else the command as given.
pub fn run_target(name: &str, script_exists: bool, exe_exists: bool, windows: bool) -> (r:
    RunTarget)
    ensures
        r == if script_exists {
            RunTarget::Script
        } else if windows && exe_exists {
            RunTarget::ScriptExe
        } else if name@ == "python"@ || name@ == "python3"@ {
            RunTarget::EnvPython
        } else {
            RunTarget::AsGiven
        },
{
    if script_exists {
        RunTarget::Script
    } else if windows && exe_exists {
        RunTarget::ScriptExe
    } else if same_text(name, "python") || same_text(name, "python3") {
        RunTarget::EnvPython
    } else {
        RunTarget::AsGiven
    }
}

/// How a command ended.
#[derive(Clone, Copy, Debug, PartialEq, Eq, Structural)]
pub enum Ending {
    Success,
    Failure,
    Cancelled,
}

/// The exit code of the tool: 0 on success, 1 on failure, 130 when cancelled.
pub fn exit_code(ending: Ending) -> (code: u8)
    ensures
        code == match ending {
            Ending::Success => 0u8,
            Ending::Failure => 1u8,
            Ending::Cancelled => 130u8,
        },
{
    match ending {
        Ending::Success => 0,
        Ending::Failure => 1,
        Ending::Cancelled => 130,
    }
}

} // verus!

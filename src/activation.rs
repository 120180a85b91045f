//! The layout under the manager's root directory and the shell helpers
//! that are written beside the `current` pointer.
use vstd::prelude::*;

verus! {

/// A shell for which an activation helper is written.
#[derive(Clone, Copy, Debug, PartialEq, Eq, Structural)]
pub enum Shell {
    Bash,
    Cmd,
    PowerShell,
}

/// `base`, the separator, then `name`.
pub open spec fn joined(base: Seq<char>, sep: char, name: Seq<char>) -> Seq<char> {
    base.push(sep) + name
}

/// `base`, the separator, then `name`.
pub fn join_path(base: &str, sep: char, name: &str) -> (r: String)
    ensures
        r@ == joined(base@, sep, name@),
{
    let mut r = String::from_str(base);
    r.push(sep);
    r.append(name);
    r
}

/// The directory holding one subdirectory per installed version.
pub fn get_versions_dir(govm_dir: &str, sep: char) -> (r: String)
    ensures
        r@ == joined(govm_dir@, sep, "versions"@),
{
    join_path(govm_dir, sep, "versions")
}

/// The directory of one installed version.
pub fn get_version_dir(govm_dir: &str, sep: char, dir: &str) -> (r: String)
    ensures
        r@ == joined(joined(govm_dir@, sep, "versions"@), sep, dir@),
{
    let versions = get_versions_dir(govm_dir, sep);
    join_path(versions.as_str(), sep, dir)
}

/// The activation pointer.
pub fn get_current_dir(govm_dir: &str, sep: char) -> (r: String)
    ensures
        r@ == joined(govm_dir@, sep, "current"@),
{
    join_path(govm_dir, sep, "current")
}

/// The `bin` directory behind the activation pointer, when it exists.
pub fn get_current_go_path(govm_dir: &str, sep: char, bin_exists: bool) -> (r: Option<String>)
    ensures
        bin_exists ==> r is Some && r->Some_0@ == joined(
            joined(govm_dir@, sep, "current"@),
            sep,
            "bin"@,
        ),
        !bin_exists ==> r is None,
{
    if !bin_exists {
        return None;
    }
    let current = get_current_dir(govm_dir, sep);
    Some(join_path(current.as_str(), sep, "bin"))
}

/// The helper's file name, inside the `current` directory.
pub fn script_file_name(shell: Shell) -> (r: &'static str)
    ensures
        r@ == match shell {
            Shell::Bash => "activate.sh"@,
            Shell::Cmd => "activate.bat"@,
            Shell::PowerShell => "activate.ps1"@,
        },
{
    match shell {
        Shell::Bash => "activate.sh",
        Shell::Cmd => "activate.bat",
        Shell::PowerShell => "activate.ps1",
    }
}

/// The text before the `bin` directory in each helper.
pub open spec fn script_head(shell: Shell) -> Seq<char> {
    match shell {
        Shell::Bash => "#!/bin/bash\n# GoVM activation script\nexport PATH=\""@,
        Shell::Cmd => "@echo off\nREM GoVM activation script\nset \"PATH="@,
        Shell::PowerShell => "# GoVM activation script\n$env:PATH = \""@,
    }
}

/// The text after the `bin` directory in each helper.
pub open spec fn script_tail(shell: Shell) -> Seq<char> {
    match shell {
        Shell::Bash => ":$PATH\"\necho \"Go environment activated. Go binary: $(which go)\"\ngo version\n"@,
        Shell::Cmd => ";%PATH%\"\necho Go environment activated.\ngo version\n"@,
        Shell::PowerShell => ";\" + $env:PATH\nWrite-Host \"Go environment activated.\" -ForegroundColor Green\n& go version\n"@,
    }
}

/// The activation helper for `shell`, which puts `bin_dir` first on the
/// search path and reports the active toolchain.
pub fn activation_script(shell: Shell, bin_dir: &str) -> (r: String)
    ensures
        r@ == script_head(shell) + bin_dir@ + script_tail(shell),
{
    let (head, tail) = match shell {
        Shell::Bash => (
            "#!/bin/bash\n# GoVM activation script\nexport PATH=\"",
            ":$PATH\"\necho \"Go environment activated. Go binary: $(which go)\"\ngo version\n",
        ),
        Shell::Cmd => (
            "@echo off\nREM GoVM activation script\nset \"PATH=",
            ";%PATH%\"\necho Go environment activated.\ngo version\n",
        ),
        Shell::PowerShell => (
            "# GoVM activation script\n$env:PATH = \"",
            ";\" + $env:PATH\nWrite-Host \"Go environment activated.\" -ForegroundColor Green\n& go version\n",
        ),
    };
    let mut r = String::from_str(head);
    r.append(bin_dir);
    r.append(tail);
    r
}

/// The command that puts `bin_dir` first on the search path, in the
/// platform's usual shell (PowerShell on Windows, a POSIX shell elsewhere).
pub fn env_command(bin_dir: &str, windows: bool) -> (r: String)
    ensures
        windows ==> r@ == "$env:PATH = \""@ + bin_dir@ + ";$env:PATH\""@,
        !windows ==> r@ == "export PATH=\""@ + bin_dir@ + ":$PATH\""@,
{
    let mut r = String::from_str(if windows { "$env:PATH = \"" } else { "export PATH=\"" });
    r.append(bin_dir);
    r.append(if windows { ";$env:PATH\"" } else { ":$PATH\"" });
    r
}

} // verus!

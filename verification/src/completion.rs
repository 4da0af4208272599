//! The shells for which completion is offered.
use vstd::prelude::*;
use crate::text::{contains, contains_exec, to_chars};

verus! {

/// A shell with completion support.
#[derive(Debug, Copy, Clone, PartialEq, Eq, Structural)]
pub enum Shell {
    Bash,
    Zsh,
    Fish,
    PowerShell,
}

pub open spec fn shell_name(s: Shell) -> Seq<char> {
    match s {
        Shell::Bash => "bash"@,
        Shell::Zsh => "zsh"@,
        Shell::Fish => "fish"@,
        Shell::PowerShell => "powershell"@,
    }
}

/// The shell named in the value of the `SHELL` variable: the first of `bash`, `zsh`,
/// `fish`, then `pwsh` or `powershell`, that occurs in it.
pub open spec fn shell_of(var: Seq<char>) -> Option<Shell> {
    if contains(var, "bash"@) {
        Some(Shell::Bash)
    } else if contains(var, "zsh"@) {
        Some(Shell::Zsh)
    } else if contains(var, "fish"@) {
        Some(Shell::Fish)
    } else if contains(var, "pwsh"@) || contains(var, "powershell"@) {
        Some(Shell::PowerShell)
    } else {
        None
    }
}

impl Shell {
    /// The lowercase name of the shell.
    pub fn name(self) -> (s: &'static str)
        ensures
            s@ == shell_name(self),
    {
        match self {
            Shell::Bash => "bash",
            Shell::Zsh => "zsh",
            Shell::Fish => "fish",
            Shell::PowerShell => "powershell",
        }
    }

    /// The shell that the value of the `SHELL` environment variable names (see `shell_of`).
    pub fn from_shell_var(shell_var: &str) -> (r: Option<Shell>)
        ensures
            r == shell_of(shell_var@),
    {
        let v = to_chars(shell_var);
        let bash = to_chars("bash");
        let zsh = to_chars("zsh");
        let fish = to_chars("fish");
        let pwsh = to_chars("pwsh");
        let powershell = to_chars("powershell");
        if contains_exec(v.as_slice(), bash.as_slice()) {
            Some(Shell::Bash)
        } else if contains_exec(v.as_slice(), zsh.as_slice()) {
            Some(Shell::Zsh)
        } else if contains_exec(v.as_slice(), fish.as_slice()) {
            Some(Shell::Fish)
        } else if contains_exec(v.as_slice(), pwsh.as_slice()) || contains_exec(v.as_slice(), powershell.as_slice()) {
            Some(Shell::PowerShell)
        } else {
            None
        }
    }
}

} // verus!

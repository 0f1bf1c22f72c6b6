use std::collections::HashMap;
use std::path::PathBuf;
use vstd::prelude::*;

verus! {

#[verifier::external_type_specification]
#[verifier::external_body]
pub struct ExPathBuf(PathBuf);

/// A shell that a tab can run: the command, its arguments and environment,
/// the directory it starts in and whether its tab starts right-to-left.
#[derive(Debug, Clone)]
pub struct Profile {
    pub name: String,
    pub command: String,
    pub args: Vec<String>,
    pub env: HashMap<String, String>,
    pub working_directory: Option<PathBuf>,
    pub rtl_mode: Option<bool>,
}

impl Profile {
    /// A profile named `name` that runs `command` with no argument, no extra
    /// environment, in the current directory, with no direction of its own.
    pub open spec fn is_plain(&self, name: Seq<char>, command: Seq<char>) -> bool {
        &&& self.name@ == name
        &&& self.command@ == command
        &&& self.args@.len() == 0
        &&& self.env@ == Map::<String, String>::empty()
        &&& self.working_directory.is_none()
        &&& self.rtl_mode.is_none()
    }

    fn plain(name: &str, command: &str) -> (p: Self)
        ensures
            p.is_plain(name@, command@),
    {
        Profile {
            name: name.to_string(),
            command: command.to_string(),
            args: Vec::new(),
            env: HashMap::new(),
            working_directory: None,
            rtl_mode: None,
        }
    }

    /// Windows PowerShell.
    pub fn powershell() -> (p: Self)
        ensures
            p.is_plain("PowerShell"@, "powershell.exe"@),
    {
        Self::plain("PowerShell", "powershell.exe")
    }

    /// The Windows command prompt.
    pub fn cmd() -> (p: Self)
        ensures
            p.is_plain("Command Prompt"@, "cmd.exe"@),
    {
        Self::plain("Command Prompt", "cmd.exe")
    }

    /// Bash.
    pub fn bash() -> (p: Self)
        ensures
            p.is_plain("Bash"@, "/bin/bash"@),
    {
        Self::plain("Bash", "/bin/bash")
    }

    /// Zsh.
    pub fn zsh() -> (p: Self)
        ensures
            p.is_plain("Zsh"@, "/bin/zsh"@),
    {
        Self::plain("Zsh", "/bin/zsh")
    }
}

} // verus!

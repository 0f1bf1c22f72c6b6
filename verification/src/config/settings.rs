use vstd::prelude::*;

verus! {

/// How the cursor is drawn.
#[derive(Debug, Clone, Copy, PartialEq, Eq, Structural)]
pub enum CursorStyle {
    Block,
    Bar,
    Underline,
}

/// The shell of the default profile on the operating system `target_os`
/// (named as `std::env::consts::OS` names it): PowerShell on Windows, Zsh on
/// macOS, Bash elsewhere.
pub open spec fn spec_default_shell(target_os: Seq<char>) -> Seq<char> {
    if target_os == "windows"@ {
        "powershell.exe"@
    } else if target_os == "macos"@ {
        "/bin/zsh"@
    } else {
        "/bin/bash"@
    }
}

/// The shell of the default profile on the operating system `target_os`.
pub fn get_default_shell(target_os: &str) -> (s: String)
    ensures
        s@ == spec_default_shell(target_os@),
{
    let os = target_os.to_string();
    if os == "windows".to_string() {
        "powershell.exe".to_string()
    } else if os == "macos".to_string() {
        "/bin/zsh".to_string()
    } else {
        "/bin/bash".to_string()
    }
}

/// Whether `name` is none of `names`: a theme found on disk is added only
/// when no theme of that name is known.
pub fn is_new_name(names: &[String], name: &String) -> (b: bool)
    ensures
        b == (forall|i: int| 0 <= i < names@.len() ==> (#[trigger] names@[i])@ != name@),
{
    let mut i: usize = 0;
    while i < names.len()
        invariant
            i <= names@.len(),
            forall|j: int| 0 <= j < i ==> (#[trigger] names@[j])@ != name@,
        decreases names@.len() - i,
    {
        if names[i] == *name {
            return false;
        }
        i = i + 1;
    }
    true
}

} // verus!

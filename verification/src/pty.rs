use vstd::prelude::*;

verus! {

/// Events emitted by the PTY reader.
#[derive(Debug)]
pub enum PtyEvent {
    /// Received standard output data from the shell subprocess.
    Output(String),
    /// Subprocess has exited or closed the terminal interface.
    Exited,
}

} // verus!

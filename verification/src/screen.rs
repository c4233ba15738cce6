//! Selection of the terminal-clear command: `cls` on Windows-like targets,
//! `clear` everywhere else. Spawning the chosen command is the caller's job.

use vstd::prelude::*;

verus! {

/// The command name a platform's terminal-clear utility goes by.
pub fn clear_command(windows: bool) -> (r: &'static str)
    ensures
        windows ==> r@ == "cls"@,
        !windows ==> r@ == "clear"@,
{
    if windows {
        "cls"
    } else {
        "clear"
    }
}

} // verus!

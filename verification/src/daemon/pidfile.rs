//! Where the running daemon can be found.

use crate::text::{chars_of, decimal, number, owned, parse_u32, trim, trimmed, unsigned};
use vstd::prelude::*;
use vstd::string::*;

verus! {

/// What a pid file says, once it is known whether the process lives.
#[derive(Debug, Clone, Copy, PartialEq, Eq, Structural)]
pub enum Recorded {
    /// A live daemon.
    Running(u32),
    /// A dead run's leftovers, to be tidied up: they must not block a fresh start.
    Stale,
}

/// The process that a pid file names.
pub fn recorded_pid(text: &str) -> (r: Option<u32>)
    ensures
        r == (match unsigned(trim(text@), u32::MAX as nat) {
            Some(n) => Some(n as u32),
            None => None,
        }),
{
    parse_u32(&trimmed(&chars_of(text)))
}

/// What to make of a recorded process.
pub fn judge(pid: u32, alive: bool) -> (r: Recorded)
    ensures
        r == if alive {
            Recorded::Running(pid)
        } else {
            Recorded::Stale
        },
{
    if alive {
        Recorded::Running(pid)
    } else {
        Recorded::Stale
    }
}

/// Why a second daemon does not start.
pub fn already_running(pid: u32, path: &str) -> (r: String)
    ensures
        r@ == "another StabMouse daemon is already running (pid "@ + decimal(pid as nat)
            + "). Stop it first, or remove "@ + path@ + " if you are sure it is gone"@,
{
    owned("another StabMouse daemon is already running (pid ").concat(
        number(pid as u64).as_str(),
    ).concat("). Stop it first, or remove ").concat(path).concat(" if you are sure it is gone")
}

} // verus!

//! Process-identity reads from the operating system, taken on trust.

use vstd::prelude::*;

verus! {

/// Relies on nix::unistd::getpid: the id of this process. The value is
/// machine state, so nothing is promised of it.
#[verifier::external_body]
pub fn current_pid() -> i64 {
    nix::unistd::getpid().as_raw() as i64
}

/// Relies on nix::unistd::getppid: the id of the parent process. The value
/// is machine state, so nothing is promised of it.
#[verifier::external_body]
pub fn parent_pid() -> i64 {
    nix::unistd::getppid().as_raw() as i64
}

} // verus!

//! Reading what `pgrep` prints.

use crate::text::{parse_isize, signed_value, trim, trimmed};
use vstd::prelude::*;

verus! {

/// The process id that `pgrep` printed, if what it printed is one process
/// id with nothing but white space around it.
pub open spec fn printed_pid(output: Seq<u8>) -> Option<isize> {
    match signed_value(trimmed(output)) {
        Some(pid) => if isize::MIN <= pid <= isize::MAX {
            Some(pid as isize)
        } else {
            None
        },
        None => None,
    }
}

/// The process id in the output of a successful `pgrep`.
pub fn parse_pid(output: &[u8]) -> (pid: Option<isize>)
    ensures
        pid == printed_pid(output@),
{
    parse_isize(trim(output))
}

} // verus!

//! Routines for parsing /proc/[pid]/stat

use crate::text::{append_integer, integer_text, nth_part, part, trim, trimmed, SPACE};
use vstd::prelude::*;
use vstd::string::StringExecFns;

verus! {

/// Used when choosing which process to get stats for.
pub enum Process {
    /// The currently process
    Current,
    /// The process with the given pid. This may require root priveleges.
    Pid(isize),
}

/// The path of the stat file of the process.
pub open spec fn path_of(which: Process) -> Seq<char> {
    match which {
        Process::Current => "/proc/self/stat"@,
        Process::Pid(pid) => "/proc/"@ + integer_text(pid as int) + "/stat"@,
    }
}

/// The path of the stat file of the process.
pub fn get_path(which: Process) -> (path: String)
    ensures
        path@ == path_of(which),
{
    match which {
        Process::Current => String::from_str("/proc/self/stat"),
        Process::Pid(pid) => {
            let mut path = String::from_str("/proc/");
            append_integer(&mut path, pid);
            path.append("/stat");
            path
        },
    }
}

/// The `k`th field of the stat file, counted from zero: the fields stand
/// in one line with one space between each two, and white space around a
/// field does not count. `None` where the file has fewer fields.
pub open spec fn field_of(content: Seq<u8>, k: nat) -> Option<Seq<u8>> {
    match part(content, SPACE, k) {
        Some(p) => Some(trimmed(p)),
        None => None,
    }
}

/// The `k`th field of the stat file.
pub fn field(content: &[u8], k: usize) -> (found: Option<&[u8]>)
    ensures
        match found {
            Some(f) => field_of(content@, k as nat) == Some(f@),
            None => field_of(content@, k as nat) is None,
        },
{
    match nth_part(content, SPACE, k) {
        Some(p) => Some(trim(p)),
        None => None,
    }
}

} // verus!

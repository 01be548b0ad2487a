//! Runtime flags: the decision whether a command line asks for verbose
//! debug output.  Reading the process's arguments is the caller's business;
//! the decision over them is made here.

use vstd::prelude::*;

verus! {

use crate::strutil::str_eq;

/// Whether an argument list carries the debug flag, short or long form.
pub open spec fn spec_has_debug_flag(args: Seq<Seq<char>>) -> bool {
    exists|i: int| 0 <= i < args.len() && (args[i] == "-d"@ || args[i] == "--debug"@)
}

/// Decides whether the given command-line arguments enable debug output.
pub fn debug_enabled(args: &Vec<String>) -> (r: bool)
    ensures
        r == spec_has_debug_flag(args@.map_values(|a: String| a@)),
{
    let ghost views = args@.map_values(|a: String| a@);
    let n = args.len();
    let mut i: usize = 0;
    while i < n
        invariant
            i <= n,
            n == args@.len(),
            views == args@.map_values(|a: String| a@),
            forall|k: int| 0 <= k < i ==> !(#[trigger] views[k] == "-d"@ || views[k] == "--debug"@),
        decreases n - i,
    {
        assert(views[i as int] == args@[i as int]@);
        if str_eq(args[i].as_str(), "-d") || str_eq(args[i].as_str(), "--debug") {
            return true;
        }
        i = i + 1;
    }
    false
}

} // verus!

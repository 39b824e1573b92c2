//! The tracer's command line: where its dataset lives.
use crate::text::{chars_eq_str, chars_of, string_from};
use vstd::prelude::*;

verus! {

/// The directory named by the first `--data-dir` at position `i` or later
/// (but not as the last argument), or `./tracer-data` when there is none.
pub open spec fn spec_data_dir_from(args: Seq<Seq<char>>, i: int) -> Seq<char>
    decreases args.len() - i,
{
    if i < 1 || i >= args.len() {
        "./tracer-data"@
    } else if args[i] == "--data-dir"@ && i + 1 < args.len() {
        args[i + 1]
    } else {
        spec_data_dir_from(args, i + 1)
    }
}

/// The data directory named on the command line `args` (the program name
/// first): the value after the first `--data-dir`, or `./tracer-data`.
pub fn data_dir_from_args(args: &[String]) -> (dir: String)
    ensures
        dir@ == spec_data_dir_from(args@.map_values(|a: String| a@), 1),
{
    let ghost views = args@.map_values(|a: String| a@);
    let mut i: usize = 1;
    while i < args.len()
        invariant
            1 <= i,
            views == args@.map_values(|a: String| a@),
            spec_data_dir_from(views, 1) == spec_data_dir_from(views, i as int),
        decreases args@.len() - i,
    {
        let a = chars_of(args[i].as_str());
        if chars_eq_str(a.as_slice(), "--data-dir") && i + 1 < args.len() {
            let v = string_from(args[i + 1].as_str());
            return v;
        }
        i = i + 1;
    }
    string_from("./tracer-data")
}

} // verus!

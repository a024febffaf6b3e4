//! A REPL whose launchers live in a fixed directory, and how its output is
//! told apart into text and errors.

use vstd::prelude::*;

use crate::eres::EvalResult;
use crate::text::{has_prefix, join_path, path_join, starts_with};

verus! {

/// The launcher for `name`: `name` under the directory
/// `/home/engon/apps/rrr/launchers/` (an absolute `name` stands for itself).
pub fn repl_launcher(name: &str) -> (out: String)
    ensures
        out@ == path_join("/home/engon/apps/rrr/launchers/"@, name@),
{
    join_path("/home/engon/apps/rrr/launchers/", name)
}

/// The result that a REPL's output stands for: an error when it begins with
/// `ERRROR`, text otherwise.
pub fn parse_eval_result(txt: String) -> (out: EvalResult)
    ensures
        has_prefix(txt@, "ERRROR"@) ==> (out matches EvalResult::Error(e) && e@ == txt@),
        !has_prefix(txt@, "ERRROR"@) ==> (out matches EvalResult::Text(t) && t@ == txt@),
{
    if starts_with(txt.as_str(), "ERRROR") {
        EvalResult::Error(txt)
    } else {
        EvalResult::Text(txt)
    }
}

} // verus!

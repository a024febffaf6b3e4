//! The outcome of an evaluation in a REPL.

use vstd::prelude::*;

verus! {

/// What a REPL gave back: plain text, or an error.
#[derive(Debug)]
pub enum EvalResult {
    /// Text the REPL printed.
    Text(String),
    /// An error the REPL reported.
    Error(String),
}

impl EvalResult {
    /// The text the result shows: the text it holds, whichever kind it is.
    pub fn to_string(&self) -> (out: String)
        ensures
            out@ == match self {
                EvalResult::Text(t) => t@,
                EvalResult::Error(e) => e@,
            },
    {
        match self {
            EvalResult::Text(t) => t.clone(),
            EvalResult::Error(e) => e.clone(),
        }
    }
}

} // verus!

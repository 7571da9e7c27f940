//! Bookkeeping for runs over collections of test sources: what a case was
//! expected to do, what it did, and how a whole suite fared.
use vstd::prelude::*;

pub mod csstree;
pub mod postcss;
pub mod sass_spec;
pub mod suite;

verus! {

/// What the command line asked for.
#[derive(Debug)]
pub struct CliArgs {
    /// Only the cases whose path holds this text are run.
    pub filter: Option<String>,
    /// Whether the failed cases are listed.
    pub detail: bool,
    /// Whether mismatches are shown as a diff.
    pub diff: bool,
}

impl Default for CliArgs {
    fn default() -> (args: CliArgs)
        ensures
            args.filter is None,
            !args.detail,
            !args.diff,
    {
        CliArgs { filter: None, detail: false, diff: false }
    }
}

impl CliArgs {
    /// Whether the failed cases are listed: when asked for, and always when a
    /// filter narrows the run.
    pub fn should_print_detail(&self) -> (b: bool)
        ensures
            b == (self.filter is Some || self.detail),
    {
        self.filter.is_some() || self.detail
    }
}

} // verus!

//! Process-wide options: a read-only snapshot captured before the pipeline is
//! built and shared by every stage.

use vstd::prelude::*;

verus! {

/// One global option flag.
#[derive(Debug, Clone, Copy, PartialEq, Eq, Structural)]
pub enum Config {
    /// Print version information and stop.
    Version,
    /// Print help and stop.
    Help,
    /// Print the parsed pipeline before running it.
    Verbose,
    /// Parse the pipeline but do not run it.
    DryRun,
    /// Case-insensitive comparison everywhere, unless a stage overrides it.
    Nocase,
    /// Skip per-item errors instead of aborting.
    SkipErr,
    /// The next argument is one embedded token string holding the pipeline.
    Token,
}

/// True when `configs` holds `which`.
pub open spec fn has_config(configs: Seq<Config>, which: Config) -> bool {
    exists|i: int| 0 <= i < configs.len() && configs[i] == which
}

/// Linear scan for a flag in the snapshot.
pub fn contains_config(configs: &Vec<Config>, which: Config) -> (r: bool)
    ensures
        r == has_config(configs@, which),
{
    let n = configs.len();
    let mut i: usize = 0;
    while i < n
        invariant
            n == configs@.len(),
            i <= n,
            forall|j: int| 0 <= j < i ==> configs@[j] != which,
        decreases n - i,
    {
        if configs[i] == which {
            return true;
        }
        i += 1;
    }
    false
}

/// A stage ignores case when it asked for it itself or the global flag is set.
pub fn is_nocase(nocase: bool, configs: &Vec<Config>) -> (r: bool)
    ensures
        r == (nocase || has_config(configs@, Config::Nocase)),
{
    nocase || contains_config(configs, Config::Nocase)
}

/// True when per-item errors are skipped globally.
pub fn skip_err(configs: &Vec<Config>) -> (r: bool)
    ensures
        r == has_config(configs@, Config::SkipErr),
{
    contains_config(configs, Config::SkipErr)
}

} // verus!

//! Settings of the process that do not come from the document.
use vstd::prelude::*;

verus! {

/// Which log lines are kept, as an env-filter directive.
#[derive(Debug, PartialEq, Clone)]
pub struct LogConfig {
    pub filter: String,
}

impl Default for LogConfig {
    fn default() -> (r: LogConfig)
        ensures
            r.filter@ == "gjallarbot=info"@,
    {
        LogConfig { filter: "gjallarbot=info".to_string() }
    }
}

} // verus!

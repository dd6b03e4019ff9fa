//! The command line: how often to check for updates.
use vstd::prelude::*;

verus! {

/// The arguments of the publisher: the polling interval in seconds, if any.
pub struct CliArgs {
    pub poll_interval: Option<u64>,
}

/// How the publisher runs: once, or again after every interval.
pub enum RunMode {
    Once,
    Poll { interval_secs: u64 },
}

impl CliArgs {
    /// Polling once an interval is given; a single run otherwise.
    pub fn run_mode(&self) -> (res: RunMode)
        ensures
            match self.poll_interval {
                Some(secs) => res == (RunMode::Poll { interval_secs: secs }),
                None => res == RunMode::Once,
            },
    {
        match self.poll_interval {
            Some(secs) => RunMode::Poll { interval_secs: secs },
            None => RunMode::Once,
        }
    }
}

} // verus!

//! The options of one run of the generator, as a caller such as a command
//! line hands them over: how many identifiers, how long to pause between two
//! of them, and whether to issue the nil identifier instead of fresh ones.
use vstd::prelude::*;

verus! {

/// The number of identifiers issued when the caller names none.
pub const DEFAULT_COUNT: u32 = 1;

/// The pause between two identifiers, in milliseconds, when the caller names
/// none.
pub const DEFAULT_INTERVAL: u64 = 100;

/// The options of one run.
#[derive(Clone, Copy, Debug, PartialEq, Eq, Structural)]
pub struct Args {
    /// Number of identifiers to issue.
    pub count: u32,
    /// Pause between two identifiers, in milliseconds.
    pub interval: u64,
    /// Issue the nil identifier each time.
    pub nil: bool,
}

impl Default for Args {
    /// One identifier, a pause of 100 ms, not nil.
    fn default() -> (a: Args)
        ensures
            a == (Args { count: DEFAULT_COUNT, interval: DEFAULT_INTERVAL, nil: false }),
    {
        Args { count: DEFAULT_COUNT, interval: DEFAULT_INTERVAL, nil: false }
    }
}

impl Args {
    /// The options for what the caller supplied: each value that is missing
    /// takes its default.
    pub fn from_options(count: Option<u32>, interval: Option<u64>, nil: bool) -> (a: Args)
        ensures
            a.count == (match count {
                Some(c) => c,
                None => DEFAULT_COUNT,
            }),
            a.interval == (match interval {
                Some(i) => i,
                None => DEFAULT_INTERVAL,
            }),
            a.nil == nil,
    {
        Args {
            count: match count {
                Some(c) => c,
                None => DEFAULT_COUNT,
            },
            interval: match interval {
                Some(i) => i,
                None => DEFAULT_INTERVAL,
            },
            nil,
        }
    }

    /// Whether the run pauses after identifier number `index`, counting from
    /// zero: after each one but the last.
    pub fn pauses_after(&self, index: u32) -> (b: bool)
        ensures
            b <==> index + 1 < self.count,
    {
        index < self.count && index + 1 < self.count
    }
}

} // verus!

use vstd::prelude::*;

verus! {

/// Human-readable views of an operation's progress.
pub trait ProgressFormatter {
    /// Percentage done, with bytes done and total.
    fn format_progress(&self) -> String;

    /// Current throughput.
    fn format_speed(&self) -> String;

    /// Estimated time left.
    fn format_time_remaining(&self) -> String;
}

} // verus!

//! Command-line options of the timeline tool.
use vstd::prelude::*;

verus! {

/// The tool's arguments.
pub struct AppArg {
    pub action: Action,
    /// Print debug information (memory usage, etc.).
    pub debug: bool,
}

/// Options of the CSV timeline.
pub struct CsvTimelineOption {
    /// Path to a logarchive formatted directory.
    pub archive_dir: Option<String>,
    /// Run on the live system.
    pub live_analysis: bool,
    /// Where the CSV goes.
    pub output: String,
}

/// What the tool does.
pub enum Action {
    CsvTimeline(CsvTimelineOption),
}

} // verus!

//! Output mode: aligned tables (the default) or JSON.

use vstd::prelude::*;

verus! {

/// How a command presents its results.
#[derive(Debug, Clone, Copy, PartialEq, Eq, Structural)]
pub enum OutputMode {
    /// Aligned tables with colours (the default).
    Table,
    /// JSON serialisation.
    Json,
}

/// Output settings shared by the commands.
pub struct OutputConfig {
    pub mode: OutputMode,
}

impl Default for OutputConfig {
    /// Tables, unless asked otherwise.
    fn default() -> (config: Self)
        ensures
            config.mode == OutputMode::Table,
    {
        OutputConfig { mode: OutputMode::Table }
    }
}

} // verus!

use vstd::prelude::*;

verus! {

/// Engine-level failures surfaced to the block driver.
///
/// No error is silently dropped: a failure aborts the affected track's render
/// for the block and is reported upward so playback can stop rather than emit
/// corrupt output.
#[derive(Clone, Copy, Debug, PartialEq, Eq, Structural)]
pub enum EngineError {
    /// An automation index or audio-input source index in the timeline is out
    /// of range: a data-integrity fault rejected before rendering.
    InvalidBinding { track_index: usize, module_index: usize },
    /// A module's native processing call signalled an error: fatal for that
    /// module this block, propagated and never retried mid-deadline.
    PluginProcessFailure { track_index: usize, module_index: usize },
    /// Shared read access to another track's render context could not be
    /// acquired promptly by the host's scheduler.
    CrossTrackAccessContention { track_index: usize },
}

} // verus!

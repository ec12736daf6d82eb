use vstd::prelude::*;

verus! {

/// A translated timeline event in a track's per-block event queue.
///
/// Offsets (`delay`) are in ticks from the start of the block's playback
/// window; the host converts them to sample frames when handing events to a
/// plugin. Automation values carry the raw stored byte (0..=255); the host
/// normalizes it to `[0, 1]` at the plugin boundary.
#[derive(Clone, Copy, Debug, PartialEq, Eq, Structural)]
pub enum Event {
    /// Start a note: key, velocity, in-block offset.
    NoteOn(i16, u8, u64),
    /// Release a note: key, in-block offset.
    NoteOff(i16, u64),
    /// Release every held note immediately (transport stop / reset).
    NoteAllOff,
    /// An automation sample: destination module index, parameter id, raw
    /// value (0..=255), in-block offset.
    ParamValue(usize, u32, u8, u64),
}

/// An event prepared for one specific module's plugin instance.
///
/// Note events carry the fixed channel 0; parameter events are already
/// filtered to the module being prepared, so they no longer name a module.
#[derive(Clone, Copy, Debug, PartialEq, Eq, Structural)]
pub enum PluginEvent {
    /// Start a note: key, velocity, channel, in-block offset.
    NoteOn(i16, u8, i16, u64),
    /// Release a note: key, channel, in-block offset.
    NoteOff(i16, i16, u64),
    /// Set a parameter: parameter id, raw value (0..=255), in-block offset.
    ParamValue(u32, u8, u64),
}

} // verus!

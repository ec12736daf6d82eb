//! A real-time block-processing sequencing engine.
//!
//! The engine translates an editor-owned timeline (songs, tracks, lanes of
//! notes and automation points) into per-block plugin events, routes audio
//! between modules with a constant-signal optimization, advances the playback
//! window once per block, and sums per-track output into the final mix.
//! Native plugin processing, threading and I/O live outside this crate; the
//! engine exposes plain-data entry points that a host drives once per block.
//!
//! Cross-track audio routing uses a one-block-latency policy: a module that
//! reads another track's output reads the buffer that track produced for the
//! previous block. Blocks may therefore be rendered in any order (or in
//! parallel) within a block without data races or stale reads.

pub mod context;
pub mod error;
pub mod event;
pub mod lane;
pub mod routing;
pub mod singer;
pub mod song;
pub mod time;
pub mod track;

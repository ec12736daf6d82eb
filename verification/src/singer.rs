use vstd::arithmetic::div_mod::lemma_div_is_ordered_by_denominator;
use vstd::prelude::*;

use vstd::arithmetic::div_mod::{lemma_div_is_ordered, lemma_div_multiples_vanish};

use crate::context::ProcessTrackContext;
use crate::event::Event;
use crate::song::Song;
use crate::track::{Module, Track};
use crate::time::{TickRange, TICKS_PER_LINE, TICK_LIMIT};

verus! {

/// Playback state reported outward to observers between blocks.
#[derive(Clone, Copy, Debug, PartialEq, Eq, Structural)]
pub struct SongState {
    pub line_play: u64,
}

/// How many ticks one block of `frames` frames covers, rounded to the
/// nearest integer: the block's duration `frames / sample_rate` seconds
/// divided by the duration of one tick, `60 / (bpm * lpb * 256)` seconds.
pub open spec fn ticks_per_block(frames: int, bpm: int, lpb: int, sample_rate: int) -> int {
    (2 * (frames * bpm * lpb * 256) + 60 * sample_rate) / (2 * (60 * sample_rate))
}

/// A channel's pan gain on the 16.16 scale: the track's pan position splits
/// the signal linearly between the first two channels (channel 0 carries
/// `0x10000 - pan`, channel 1 carries `pan`); any further channel carries the
/// centre share.
pub open spec fn pan_gain(track: Track, ch: int) -> int {
    if ch == 0 {
        0x10000 - track.pan
    } else if ch == 1 {
        track.pan as int
    } else {
        0x8000
    }
}

/// A nonnegative sample magnitude scaled by a volume and a pan gain, both in
/// 16.16 fixed point, rounded down.
pub open spec fn scaled_magnitude(mag: int, volume: int, gain: int) -> int {
    (mag * volume * gain) / 0x1_0000_0000
}

/// One track's contribution to a mix slot: nothing when the track is muted,
/// otherwise its output sample scaled by the track's volume and the channel's
/// pan gain, rounded toward zero.
pub open spec fn track_mix_sample(track: Track, ctx: ProcessTrackContext, ch: int, f: int) -> int {
    if track.mute {
        0
    } else {
        let s = ctx.buffer@[ch]@[f] as int;
        if s >= 0 {
            scaled_magnitude(s, track.volume as int, pan_gain(track, ch))
        } else {
            -scaled_magnitude(-s, track.volume as int, pan_gain(track, ch))
        }
    }
}

/// The block mix of one channel/frame slot over the first `upto` tracks, each
/// track's mute, volume and pan applied during the summation.
pub open spec fn mix_sum(
    tracks: Seq<Track>,
    contexts: Seq<ProcessTrackContext>,
    upto: int,
    ch: int,
    f: int,
) -> int
    decreases upto,
{
    if upto <= 0 {
        0
    } else {
        mix_sum(tracks, contexts, upto - 1, ch, f) + track_mix_sample(
            tracks[upto - 1],
            contexts[upto - 1],
            ch,
            f,
        )
    }
}

/// The block driver: owns the song, the per-track render contexts and the
/// transport counters, and advances them once per block. Per-track rendering
/// and the native plugin calls happen between `begin_block` and `mix_output`;
/// the host may fan tracks out in any order, because cross-track routing only
/// reads outputs frozen from the previous block.
pub struct Singer {
    /// Frames rendered since the engine started; handed to plugins as their
    /// monotonic clock.
    pub steady_time: i64,
    pub song: Song,
    /// The line most recently reported to observers.
    pub line_play: u64,
    /// One render context per track, index-aligned with `song.tracks`.
    pub process_track_contexts: Vec<ProcessTrackContext>,
}

impl Singer {
    /// A driver with one empty track, stopped at the origin.
    pub fn new() -> (s: Singer)
        ensures
            s.steady_time == 0,
            s.line_play == 0,
            s.song.tracks@.len() == 1,
            s.process_track_contexts@.len() == 1,
            !s.song.play_p,
            s.song.play_position == (TickRange { start: 0, end: 0 }),
            s.song.bpm == 128,
            s.song.sample_rate == 48000,
            s.song.lpb == 4,
            s.song.loop_range == (TickRange { start: 0, end: 0x0e00 }),
            s.song.tracks@[0].modules@.len() == 0,
            s.process_track_contexts@[0].process_data@.len() == 0,
            s.process_track_contexts@[0].on_keys@.len() == 0,
    {
        let mut s = Singer {
            steady_time: 0,
            song: Song::new(),
            line_play: 0,
            process_track_contexts: Vec::new(),
        };
        s.add_track();
        s
    }

    /// Append a fresh track together with its render context.
    pub fn add_track(&mut self)
        requires
            old(self).song.tracks@.len() < usize::MAX,
        ensures
            final(self).song.tracks@.len() == old(self).song.tracks@.len() + 1,
            final(self).song.tracks@.subrange(0, old(self).song.tracks@.len() as int) == old(self).song.tracks@,
            final(self).song.tracks@.last().modules@.len() == 0,
            final(self).process_track_contexts@.len() == old(self).process_track_contexts@.len() + 1,
            final(self).process_track_contexts@.subrange(
                0,
                old(self).process_track_contexts@.len() as int,
            ) == old(self).process_track_contexts@,
            final(self).process_track_contexts@.last().process_data@.len() == 0,
            final(self).process_track_contexts@.last().on_keys@.len() == 0,
            final(self).song == (Song { tracks: final(self).song.tracks, ..old(self).song }),
            *final(self) == (Singer {
                song: final(self).song,
                process_track_contexts: final(self).process_track_contexts,
                ..*old(self)
            }),
    {
        self.song.add_track();
        self.process_track_contexts.push(ProcessTrackContext::default());
        proof {
            assert(self.process_track_contexts@.subrange(
                0,
                old(self).process_track_contexts@.len() as int,
            ) =~= old(self).process_track_contexts@);
        }
    }

    /// Register a loaded plugin instance on a track: append its module entry
    /// to the track's chain and matching process data to the track's context.
    pub fn add_module(&mut self, track_index: usize, module: Module, ports_in: usize, ports_out: usize)
        requires
            track_index < old(self).song.tracks@.len(),
            track_index < old(self).process_track_contexts@.len(),
        ensures
            final(self).song.tracks@.len() == old(self).song.tracks@.len(),
            final(self).song.tracks@[track_index as int].modules@.len() == old(self).song.tracks@[track_index as int].modules@.len() + 1,
            final(self).song.tracks@[track_index as int].modules@.last() == module,
            final(self).process_track_contexts@[track_index as int].process_data@.len() == old(self).process_track_contexts@[track_index as int].process_data@.len() + 1,
            final(self).process_track_contexts@[track_index as int].process_data@.last().ports_in()
                == ports_in,
            final(self).process_track_contexts@[track_index as int].process_data@.last().ports_out()
                == ports_out,
            final(self).process_track_contexts@[track_index as int].process_data@.last().ports_shape(),
    {
        let nch = self.process_track_contexts[track_index].nchannels;
        let nfr = self.process_track_contexts[track_index].nframes;
        let pd = crate::context::ModuleProcessData::new(ports_in, ports_out, nch, nfr);
        let tr = &mut self.song.tracks[track_index];
        tr.modules.push(module);
        let ctx = &mut self.process_track_contexts[track_index];
        ctx.process_data.push(pd);
    }

    /// Start the transport; the next block begins advancing the window.
    pub fn play(&mut self)
        ensures
            final(self).song.play_p,
            final(self).song == (Song { play_p: true, ..old(self).song }),
            *final(self) == (Singer { song: final(self).song, ..*old(self) }),
    {
        if self.song.play_p {
            return ;
        }
        self.song.play_p = true;
    }

    /// Stop the transport: the window stops advancing and later blocks
    /// translate no new events. On the stopping transition an all-notes-off
    /// event is queued on every track, so the next block's event delivery
    /// releases every held key; stopping an already stopped transport changes
    /// nothing.
    #[verifier::loop_isolation(false)]
    pub fn stop(&mut self)
        ensures
            !final(self).song.play_p,
            final(self).song == (Song { play_p: false, ..old(self).song }),
            final(self).process_track_contexts@.len() == old(self).process_track_contexts@.len(),
            !old(self).song.play_p ==> *final(self) == *old(self),
            old(self).song.play_p ==> forall|t: int|
                0 <= t < old(self).process_track_contexts@.len()
                    ==> #[trigger] final(self).process_track_contexts@[t]
                    == (ProcessTrackContext {
                    event_list_input: final(self).process_track_contexts@[t].event_list_input,
                    ..old(self).process_track_contexts@[t]
                }) && final(self).process_track_contexts@[t].event_list_input@ == old(
                    self,
                ).process_track_contexts@[t].event_list_input@.push(Event::NoteAllOff),
            *final(self) == (Singer {
                song: final(self).song,
                process_track_contexts: final(self).process_track_contexts,
                ..*old(self)
            }),
    {
        if !self.song.play_p {
            return ;
        }
        self.song.play_p = false;
        let n = self.process_track_contexts.len();
        let mut t: usize = 0;
        while t < n
            invariant
                t <= n,
                self.process_track_contexts@.len() == n,
                self.song == (Song { play_p: false, ..old(self).song }),
                self.steady_time == old(self).steady_time,
                self.line_play == old(self).line_play,
                forall|k: int|
                    t <= k < n ==> #[trigger] self.process_track_contexts@[k] == old(
                        self,
                    ).process_track_contexts@[k],
                forall|k: int|
                    0 <= k < t ==> #[trigger] self.process_track_contexts@[k]
                        == (ProcessTrackContext {
                        event_list_input: self.process_track_contexts@[k].event_list_input,
                        ..old(self).process_track_contexts@[k]
                    }) && self.process_track_contexts@[k].event_list_input@ == old(
                        self,
                    ).process_track_contexts@[k].event_list_input@.push(Event::NoteAllOff),
            decreases n - t,
        {
            self.process_track_contexts[t].event_list_input.push(Event::NoteAllOff);
            t = t + 1;
        }
    }

    /// Advance the playback window for a block of `frames_count` frames,
    /// before any track renders. The new window starts where the previous one
    /// ended; with the transport stopped it is empty; otherwise it spans the
    /// block's tick count, wrapping past the loop end back into the loop.
    /// Returns the new current line when it differs from the last reported
    /// one, for the host to forward to observers.
    pub fn compute_play_position(&mut self, frames_count: usize) -> (line_changed: Option<u64>)
        requires
            old(self).song.sample_rate >= 1,
            old(self).song.bpm >= 1,
            old(self).song.lpb >= 1,
            frames_count * old(self).song.bpm * old(self).song.lpb <= 0x4000_0000_0000,
            old(self).song.play_position.end <= TICK_LIMIT,
            old(self).song.loop_range.start <= TICK_LIMIT,
            old(self).song.loop_range.end <= TICK_LIMIT,
        ensures
            ({
                let s0 = old(self).song;
                let start = s0.play_position.end;
                let line = start / TICKS_PER_LINE;
                let t = ticks_per_block(
                    frames_count as int,
                    s0.bpm as int,
                    s0.lpb as int,
                    s0.sample_rate as int,
                );
                let raw = start + t;
                let new_end: int = if !s0.play_p {
                    start as int
                } else if raw > s0.loop_range.end {
                    s0.loop_range.start + (raw - s0.loop_range.end)
                } else {
                    raw
                };
                &&& final(self).song.play_position.start == start
                &&& final(self).song.play_position.end == new_end
                &&& final(self).line_play == line
                &&& line_changed == (if line != old(self).line_play {
                    Some(line)
                } else {
                    None::<u64>
                })
                &&& final(self).song == (Song {
                    play_position: final(self).song.play_position,
                    ..s0
                })
                &&& *final(self) == (Singer {
                    song: final(self).song,
                    line_play: final(self).line_play,
                    ..*old(self)
                })
            }),
    {
        let start = self.song.play_position.end;
        self.song.play_position.start = start;
        let line = start / TICKS_PER_LINE;
        let line_changed: Option<u64> = if line != self.line_play {
            Some(line)
        } else {
            None
        };
        self.line_play = line;
        if !self.song.play_p {
            return line_changed;
        }
        proof {
            assert((frames_count as int) * (self.song.bpm as int) <= (frames_count as int) * (
            self.song.bpm as int) * (self.song.lpb as int)) by (nonlinear_arith)
                requires
                    1 <= self.song.lpb,
                    0 <= frames_count,
                    0 <= self.song.bpm,
            ;
        }
        let num: u128 = (frames_count as u128) * (self.song.bpm as u128) * (self.song.lpb as u128)
            * 256;
        let den: u128 = 60 * (self.song.sample_rate as u128);
        let t128: u128 = (2 * num + den) / (2 * den);
        proof {
            lemma_div_is_ordered_by_denominator((2 * num + den) as int, 2, (2 * den) as int);
            assert((2 * (num as int) + den as int) / 2 == num as int + (den as int) / 2)
                by (nonlinear_arith);
            assert(t128 <= num + den);
        }
        let t = t128 as u64;
        let raw = start + t;
        if raw > self.song.loop_range.end {
            self.song.play_position.end = self.song.loop_range.start + (raw
                - self.song.loop_range.end);
        } else {
            self.song.play_position.end = raw;
        }
        line_changed
    }

    /// Begin a block: advance the playback window, then refresh every track's
    /// render context with the block's dimensions and the song's transport
    /// state. Events queued between blocks (live notes, a transport stop's
    /// all-notes-off) stay in the queue for this block's delivery. Returns
    /// the new current line when it changed.
    #[verifier::loop_isolation(false)]
    pub fn begin_block(&mut self, nchannels: usize, nframes: usize) -> (line_changed: Option<u64>)
        requires
            1 <= nframes,
            nchannels <= 64,
            old(self).song.sample_rate >= 1,
            old(self).song.bpm >= 1,
            old(self).song.lpb >= 1,
            nframes * old(self).song.bpm * old(self).song.lpb <= 0x4000_0000_0000,
            old(self).song.play_position.end <= TICK_LIMIT,
            old(self).song.loop_range.start <= TICK_LIMIT,
            old(self).song.loop_range.end <= TICK_LIMIT,
            forall|t: int, m: int|
                0 <= t < old(self).process_track_contexts@.len() && 0 <= m < old(self).process_track_contexts@[t].process_data@.len() ==> (
                #[trigger] old(self).process_track_contexts@[t].process_data@[m]).ports_shape(),
        ensures
            final(self).song == (Song {
                play_position: final(self).song.play_position,
                ..old(self).song
            }),
            final(self).song.play_position.start == old(self).song.play_position.end,
            final(self).process_track_contexts@.len() == old(self).process_track_contexts@.len(),
            forall|t: int|
                0 <= t < final(self).process_track_contexts@.len() ==> {
                    let ctx = #[trigger] final(self).process_track_contexts@[t];
                    &&& ctx.wf()
                    &&& ctx.nchannels == nchannels
                    &&& ctx.nframes == nframes
                    &&& ctx.play_p == final(self).song.play_p
                    &&& ctx.play_position == final(self).song.play_position
                    &&& ctx.loop_range == final(self).song.loop_range
                    &&& ctx.event_list_input == old(self).process_track_contexts@[t].event_list_input
                    &&& ctx.on_keys == old(self).process_track_contexts@[t].on_keys
                    &&& ctx.process_data@.len() == old(self).process_track_contexts@[t].process_data@.len()
                },
            forall|t: int, m: int|
                0 <= t < final(self).process_track_contexts@.len() && 0 <= m < final(self).process_track_contexts@[t].process_data@.len() ==> {
                    let pd1 = #[trigger] final(self).process_track_contexts@[t].process_data@[m];
                    let pd0 = old(self).process_track_contexts@[t].process_data@[m];
                    &&& pd1.ports_shape()
                    &&& pd1.ports_in() == pd0.ports_in()
                    &&& pd1.ports_out() == pd0.ports_out()
                    &&& pd1.constant_mask_out_prev@ == pd0.constant_mask_out@
                },
            forall|t: int, m: int, p: int, c: int|
                0 <= t < final(self).process_track_contexts@.len() && 0 <= m < final(self).process_track_contexts@[t].process_data@.len() && old(self).process_track_contexts@[t].process_data@[m].wf(
                    nchannels as nat,
                    nframes as nat,
                ) && 0 <= p < old(self).process_track_contexts@[t].process_data@[m].ports_out()
                    && 0 <= c < nchannels
                    ==> #[trigger] final(self).process_track_contexts@[t].process_data@[m].buffer_out_prev@[p]@[c]@ == old(self).process_track_contexts@[t].process_data@[m].buffer_out@[p]@[c]@,
    {
        let line_changed = self.compute_play_position(nframes);
        let ghost singer_mid = *self;
        let n = self.process_track_contexts.len();
        let mut t: usize = 0;
        while t < n
            invariant
                t <= n,
                self.process_track_contexts@.len() == n,
                n == old(self).process_track_contexts@.len(),
                self.song == singer_mid.song,
                self.steady_time == singer_mid.steady_time,
                self.line_play == singer_mid.line_play,
                forall|k: int|
                    t <= k < n ==> #[trigger] self.process_track_contexts@[k] == old(self).process_track_contexts@[k],
                forall|k: int|
                    0 <= k < t ==> {
                        let ctx = #[trigger] self.process_track_contexts@[k];
                        &&& ctx.wf()
                        &&& ctx.nchannels == nchannels
                        &&& ctx.nframes == nframes
                        &&& ctx.play_p == self.song.play_p
                        &&& ctx.play_position == self.song.play_position
                        &&& ctx.loop_range == self.song.loop_range
                        &&& ctx.event_list_input == old(
                            self,
                        ).process_track_contexts@[k].event_list_input
                        &&& ctx.on_keys == old(self).process_track_contexts@[k].on_keys
                        &&& ctx.process_data@.len() == old(self).process_track_contexts@[k].process_data@.len()
                    },
                forall|k: int, m: int|
                    0 <= k < t && 0 <= m < self.process_track_contexts@[k].process_data@.len()
                        ==> {
                        let pd1 = #[trigger] self.process_track_contexts@[k].process_data@[m];
                        let pd0 = old(self).process_track_contexts@[k].process_data@[m];
                        &&& pd1.ports_shape()
                        &&& pd1.ports_in() == pd0.ports_in()
                        &&& pd1.ports_out() == pd0.ports_out()
                        &&& pd1.constant_mask_out_prev@ == pd0.constant_mask_out@
                    },
                forall|k: int, m: int, p: int, c: int|
                    0 <= k < t && 0 <= m < self.process_track_contexts@[k].process_data@.len()
                        && old(self).process_track_contexts@[k].process_data@[m].wf(
                        nchannels as nat,
                        nframes as nat,
                    ) && 0 <= p < old(self).process_track_contexts@[k].process_data@[m].ports_out()
                        && 0 <= c < nchannels
                        ==> #[trigger] self.process_track_contexts@[k].process_data@[m].buffer_out_prev@[p]@[c]@
                        == old(self).process_track_contexts@[k].process_data@[m].buffer_out@[p]@[c]@,
            decreases n - t,
        {
            let play_p = self.song.play_p;
            let bpm = self.song.bpm;
            let steady_time = self.steady_time;
            let play_position = self.song.play_position;
            let loop_range = self.song.loop_range;
            let ctx = &mut self.process_track_contexts[t];
            ctx.prepare(nchannels, nframes, play_p, bpm, steady_time, play_position, loop_range);
            t = t + 1;
        }
        line_changed
    }

    /// Finish a block: sum every track's output buffer into the interleaved
    /// output stream with each track's mixer state applied during the
    /// summation — a muted track contributes nothing, every other sample is
    /// scaled by the track's volume and the channel's pan gain (16.16 fixed
    /// point, rounded toward zero) — then clear the consumed event queues and
    /// advance the engine's monotonic frame clock by the block length.
    #[verifier::loop_isolation(false)]
    pub fn mix_output(&mut self, output: &mut Vec<i64>, nchannels: usize)
        requires
            1 <= nchannels,
            old(output)@.len() as int % (nchannels as int) == 0,
            old(self).process_track_contexts@.len() <= 0x1_0000_0000,
            old(self).song.tracks@.len() == old(self).process_track_contexts@.len(),
            forall|t: int|
                0 <= t < old(self).song.tracks@.len() ==> (
                #[trigger] old(self).song.tracks@[t]).volume <= 0x10000 && old(
                    self,
                ).song.tracks@[t].pan <= 0x10000,
            forall|t: int|
                0 <= t < old(self).process_track_contexts@.len() ==> {
                    let ctx = #[trigger] old(self).process_track_contexts@[t];
                    &&& ctx.wf()
                    &&& ctx.nchannels == nchannels
                    &&& ctx.nframes == old(output)@.len() as int / (nchannels as int)
                },
            0 <= old(self).steady_time,
            old(self).steady_time + old(output)@.len() as int / (nchannels as int) <= i64::MAX,
        ensures
            final(output)@.len() == old(output)@.len(),
            forall|i: int|
                0 <= i < old(output)@.len() ==> #[trigger] final(output)@[i] == mix_sum(
                    old(self).song.tracks@,
                    old(self).process_track_contexts@,
                    old(self).process_track_contexts@.len() as int,
                    i % (nchannels as int),
                    i / (nchannels as int),
                ),
            final(self).steady_time == old(self).steady_time + old(output)@.len() as int / (
            nchannels as int),
            final(self).process_track_contexts@.len() == old(
                self,
            ).process_track_contexts@.len(),
            forall|t: int|
                0 <= t < old(self).process_track_contexts@.len()
                    ==> #[trigger] final(self).process_track_contexts@[t]
                    == (ProcessTrackContext {
                    event_list_input: final(self).process_track_contexts@[t].event_list_input,
                    ..old(self).process_track_contexts@[t]
                }) && final(self).process_track_contexts@[t].event_list_input@.len() == 0,
            *final(self) == (Singer {
                steady_time: final(self).steady_time,
                process_track_contexts: final(self).process_track_contexts,
                ..*old(self)
            }),
    {
        let nframes = output.len() / nchannels;
        let ntracks = self.process_track_contexts.len();
        let len = output.len();
        proof {
            assert(len as int == (nchannels as int) * (nframes as int)) by (nonlinear_arith)
                requires
                    nframes as int == len as int / (nchannels as int),
                    len as int % (nchannels as int) == 0,
                    1 <= nchannels,
            ;
        }
        let mut i: usize = 0;
        while i < len
            invariant
                i <= len,
                output@.len() == len,
                forall|j: int|
                    0 <= j < i ==> #[trigger] output@[j] == mix_sum(
                        self.song.tracks@,
                        self.process_track_contexts@,
                        ntracks as int,
                        j % (nchannels as int),
                        j / (nchannels as int),
                    ),
            decreases len - i,
        {
            let c = i % nchannels;
            let f = i / nchannels;
            proof {
                assert(f < nframes) by (nonlinear_arith)
                    requires
                        i < len,
                        len as int == (nchannels as int) * (nframes as int),
                        f as int == i as int / (nchannels as int),
                        1 <= nchannels,
                ;
            }
            let mut acc: i64 = 0;
            let mut tr: usize = 0;
            while tr < ntracks
                invariant
                    tr <= ntracks,
                    c < nchannels,
                    f < nframes,
                    acc as int == mix_sum(
                        self.song.tracks@,
                        self.process_track_contexts@,
                        tr as int,
                        c as int,
                        f as int,
                    ),
                    -((tr as int) * 0x8000_0000) <= acc as int <= (tr as int) * 0x8000_0000,
                decreases ntracks - tr,
            {
                let ghost tracks = self.song.tracks@;
                let ghost ctxs = self.process_track_contexts@;
                let track_mute = self.song.tracks[tr].mute;
                let mut contribution: i64 = 0;
                if !track_mute {
                    let s: i32 = self.process_track_contexts[tr].buffer[c][f];
                    let vol: u64 = self.song.tracks[tr].volume as u64;
                    let pan: u64 = self.song.tracks[tr].pan as u64;
                    let g: u64 = if c == 0 {
                        0x10000u64 - pan
                    } else if c == 1 {
                        pan
                    } else {
                        0x8000u64
                    };
                    let mag: u64 = if s >= 0 {
                        s as u64
                    } else {
                        (-(s as i64)) as u64
                    };
                    proof {
                        assert(mag <= 0x8000_0000);
                        assert((mag as int) * (vol as int) <= 0x8000_0000 * 0x10000)
                            by (nonlinear_arith)
                            requires
                                0 <= mag <= 0x8000_0000,
                                0 <= vol <= 0x10000,
                        ;
                        assert(((mag as int) * (vol as int)) * (g as int) <= (0x8000_0000
                            * 0x10000) * 0x10000) by (nonlinear_arith)
                            requires
                                0 <= (mag as int) * (vol as int) <= 0x8000_0000 * 0x10000,
                                0 <= g <= 0x10000,
                        ;
                    }
                    let scaled128: u128 = (mag as u128) * (vol as u128) * (g as u128)
                        / 0x1_0000_0000;
                    proof {
                        assert(g as int == pan_gain(tracks[tr as int], c as int));
                        assert((mag as int) * (vol as int) * (g as int) <= (mag as int)
                            * 0x1_0000_0000) by (nonlinear_arith)
                            requires
                                0 <= mag,
                                0 <= vol <= 0x10000,
                                0 <= g <= 0x10000,
                        ;
                        lemma_div_is_ordered(
                            (mag as int) * (vol as int) * (g as int),
                            (mag as int) * 0x1_0000_0000,
                            0x1_0000_0000,
                        );
                        lemma_div_multiples_vanish(mag as int, 0x1_0000_0000);
                        assert(scaled128 <= mag);
                    }
                    let scaled: u64 = scaled128 as u64;
                    contribution = if s >= 0 {
                        scaled as i64
                    } else {
                        -(scaled as i64)
                    };
                    proof {
                        assert(contribution as int == track_mix_sample(
                            tracks[tr as int],
                            ctxs[tr as int],
                            c as int,
                            f as int,
                        ));
                    }
                }
                proof {
                    assert((tr as int) * 0x8000_0000 + 0x8000_0000 == (tr as int + 1)
                        * 0x8000_0000) by (nonlinear_arith);
                    assert((tr as int + 1) * 0x8000_0000 <= 0x1_0000_0000 * 0x8000_0000)
                        by (nonlinear_arith)
                        requires
                            tr as int + 1 <= 0x1_0000_0000,
                    ;
                }
                acc = acc + contribution;
                tr = tr + 1;
            }
            output.set(i, acc);
            i = i + 1;
        }
        proof {
            assert(nframes as int == old(output)@.len() as int / (nchannels as int));
        }
        let mut t2: usize = 0;
        while t2 < ntracks
            invariant
                t2 <= ntracks,
                self.process_track_contexts@.len() == ntracks,
                self.song == old(self).song,
                self.steady_time == old(self).steady_time,
                self.line_play == old(self).line_play,
                forall|k: int|
                    t2 <= k < ntracks ==> #[trigger] self.process_track_contexts@[k] == old(
                        self,
                    ).process_track_contexts@[k],
                forall|k: int|
                    0 <= k < t2 ==> #[trigger] self.process_track_contexts@[k]
                        == (ProcessTrackContext {
                        event_list_input: self.process_track_contexts@[k].event_list_input,
                        ..old(self).process_track_contexts@[k]
                    }) && self.process_track_contexts@[k].event_list_input@.len() == 0,
            decreases ntracks - t2,
        {
            self.process_track_contexts[t2].event_list_input.clear();
            t2 = t2 + 1;
        }
        self.steady_time = self.steady_time + (nframes as i64);
    }
}

} // verus!

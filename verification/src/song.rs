use vstd::prelude::*;

use crate::error::EngineError;
use crate::time::TickRange;
use crate::track::Track;

verus! {

/// The editor-owned description of what to play: tempo, transport, the
/// playback and loop windows, and the ordered tracks. The engine reads it
/// once per block and never mutates it mid-block.
#[derive(Clone, Debug)]
pub struct Song {
    /// Tempo in beats per minute.
    pub bpm: u32,
    /// Sample rate in frames per second.
    pub sample_rate: u32,
    /// Lines per beat.
    pub lpb: u16,
    /// Transport flag: whether playback advances.
    pub play_p: bool,
    /// The current playback window in ticks, half-open.
    pub play_position: TickRange,
    /// The loop window in ticks, half-open.
    pub loop_range: TickRange,
    pub tracks: Vec<Track>,
}

/// The hexadecimal digit character for `d` (0..=15).
pub open spec fn hex_digit(d: int) -> char {
    if d == 0 {
        '0'
    } else if d == 1 {
        '1'
    } else if d == 2 {
        '2'
    } else if d == 3 {
        '3'
    } else if d == 4 {
        '4'
    } else if d == 5 {
        '5'
    } else if d == 6 {
        '6'
    } else if d == 7 {
        '7'
    } else if d == 8 {
        '8'
    } else if d == 9 {
        '9'
    } else if d == 10 {
        'A'
    } else if d == 11 {
        'B'
    } else if d == 12 {
        'C'
    } else if d == 13 {
        'D'
    } else if d == 14 {
        'E'
    } else {
        'F'
    }
}

/// The upper-case hexadecimal digit sequence of `n`, most significant digit
/// first.
pub open spec fn hex_digits(n: int) -> Seq<char>
    decreases n,
{
    if n < 16 {
        seq![hex_digit(n)]
    } else {
        hex_digits(n / 16).push(hex_digit(n % 16))
    }
}

/// The display name of the track at 1-based position `n`: a `T` followed by
/// the position in upper-case hexadecimal, padded to at least two digits.
pub open spec fn spec_track_name(n: int) -> Seq<char> {
    if n < 16 {
        seq!['T', '0', hex_digit(n)]
    } else {
        seq!['T'] + hex_digits(n)
    }
}

/// `n` in upper-case hexadecimal.
fn hex_str(n: usize) -> (s: String)
    ensures
        s@ == hex_digits(n as int),
    decreases n,
{
    let digits = "0123456789ABCDEF";
    proof {
        reveal_strlit("0123456789ABCDEF");
    }
    if n < 16 {
        let s = String::from_str(digits.substring_ascii(n, n + 1));
        proof {
            assert(s@ =~= hex_digits(n as int));
        }
        s
    } else {
        let mut s = hex_str(n / 16);
        s.append(digits.substring_ascii(n % 16, n % 16 + 1));
        proof {
            assert(s@ =~= hex_digits(n as int));
        }
        s
    }
}

pub fn track_name(n: usize) -> (name: String)
    ensures
        name@ == spec_track_name(n as int),
{
    let mut name = String::from_str("T");
    proof {
        reveal_strlit("T");
        reveal_strlit("0");
    }
    if n < 16 {
        name.append("0");
    }
    let h = hex_str(n);
    name.append(h.as_str());
    proof {
        assert(name@ =~= spec_track_name(n as int));
    }
    name
}

impl Song {
    /// A song in its initial state: default tempo and rate, transport
    /// stopped, an empty playback window at the origin, a fourteen-line loop,
    /// and no tracks yet.
    pub fn new() -> (song: Song)
        ensures
            song.bpm == 128,
            song.sample_rate == 48000,
            song.lpb == 4,
            !song.play_p,
            song.play_position == (TickRange { start: 0, end: 0 }),
            song.loop_range == (TickRange { start: 0, end: 0x0e00 }),
            song.tracks@.len() == 0,
    {
        Song {
            bpm: 128,
            sample_rate: 48000,
            lpb: 4,
            play_p: false,
            play_position: TickRange { start: 0, end: 0 },
            loop_range: TickRange { start: 0, end: 0x0e00 },
            tracks: Vec::new(),
        }
    }

    /// Append a fresh track: every field as `Track::new` makes it, except the
    /// name, which counts the track's 1-based position in hexadecimal.
    pub fn add_track(&mut self)
        requires
            old(self).tracks@.len() < usize::MAX,
        ensures
            final(self).tracks@.len() == old(self).tracks@.len() + 1,
            final(self).tracks@.subrange(0, old(self).tracks@.len() as int) == old(self).tracks@,
            final(self).tracks@.last().lanes@.len() == 1,
            final(self).tracks@.last().lanes@[0].items@.len() == 0,
            final(self).tracks@.last().modules@.len() == 0,
            final(self).tracks@.last().automation_params@.len() == 0,
            final(self).tracks@.last().automation_indexes_valid(),
            final(self).tracks@.last().volume == crate::track::DEFAULT_VOLUME,
            final(self).tracks@.last().pan == crate::track::PAN_CENTER,
            !final(self).tracks@.last().mute,
            !final(self).tracks@.last().solo,
            final(self).tracks@.last().name@ == spec_track_name(
                old(self).tracks@.len() + 1 as int,
            ),
            *final(self) == (Song { tracks: final(self).tracks, ..*old(self) }),
    {
        let mut track = Track::new();
        track.name = track_name(self.tracks.len() + 1);
        self.tracks.push(track);
        proof {
            assert(self.tracks@.subrange(0, old(self).tracks@.len() as int) =~= old(self).tracks@);
        }
    }

    /// Every automation index and audio-input source index stored anywhere in
    /// the song stays inside the structures it refers to, and every
    /// intra-track source names a module earlier in the chain than the module
    /// it feeds (the processing-order invariant).
    pub open spec fn bindings_valid(self) -> bool {
        &&& forall|t: int|
            0 <= t < self.tracks@.len() ==> (#[trigger] self.tracks@[t]).automation_indexes_valid()
        &&& forall|t: int, m: int, i: int|
            0 <= t < self.tracks@.len() && 0 <= m < self.tracks@[t].modules@.len() && 0 <= i
                < self.tracks@[t].modules@[m].audio_inputs@.len() ==> {
                let b = #[trigger] self.tracks@[t].modules@[m].audio_inputs@[i];
                &&& b.src_track_index < self.tracks@.len()
                &&& b.src_module_index < self.tracks@[b.src_track_index as int].modules@.len()
                &&& (b.src_track_index == t ==> b.src_module_index < m)
            }
    }

    /// Check the song's cross-references before rendering: `Ok` exactly when
    /// every automation index and audio-input binding is in range and every
    /// intra-track source precedes its consumer.
    #[verifier::loop_isolation(false)]
    pub fn validate(&self) -> (r: Result<(), EngineError>)
        ensures
            r is Ok <==> self.bindings_valid(),
            r is Err ==> r->Err_0 is InvalidBinding,
    {
        let ntracks = self.tracks.len();
        let mut t: usize = 0;
        while t < ntracks
            invariant
                t <= ntracks,
                forall|t2: int|
                    0 <= t2 < t ==> (#[trigger] self.tracks@[t2]).automation_indexes_valid(),
                forall|t2: int, m2: int, i2: int|
                    0 <= t2 < t && 0 <= m2 < self.tracks@[t2].modules@.len() && 0 <= i2
                        < self.tracks@[t2].modules@[m2].audio_inputs@.len() ==> {
                        let b = #[trigger] self.tracks@[t2].modules@[m2].audio_inputs@[i2];
                        &&& b.src_track_index < self.tracks@.len()
                        &&& b.src_module_index
                            < self.tracks@[b.src_track_index as int].modules@.len()
                        &&& (b.src_track_index == t2 ==> b.src_module_index < m2)
                    },
            decreases ntracks - t,
        {
            if !self.tracks[t].automation_valid() {
                return Err(EngineError::InvalidBinding { track_index: t, module_index: 0 });
            }
            let nmodules = self.tracks[t].modules.len();
            let mut m: usize = 0;
            while m < nmodules
                invariant
                    m <= nmodules,
                    t < ntracks,
                    nmodules == self.tracks@[t as int].modules@.len(),
                    forall|m2: int, i2: int|
                        0 <= m2 < m && 0 <= i2
                            < self.tracks@[t as int].modules@[m2].audio_inputs@.len() ==> {
                            let b = #[trigger] self.tracks@[t as int].modules@[m2].audio_inputs@[i2];
                            &&& b.src_track_index < self.tracks@.len()
                            &&& b.src_module_index
                                < self.tracks@[b.src_track_index as int].modules@.len()
                            &&& (b.src_track_index == t ==> b.src_module_index < m2)
                        },
                decreases nmodules - m,
            {
                let ninputs = self.tracks[t].modules[m].audio_inputs.len();
                let mut i: usize = 0;
                while i < ninputs
                    invariant
                        i <= ninputs,
                        t < ntracks,
                        m < nmodules,
                        nmodules == self.tracks@[t as int].modules@.len(),
                        ninputs == self.tracks@[t as int].modules@[m as int].audio_inputs@.len(),
                        forall|i2: int|
                            0 <= i2 < i ==> {
                                let b =
                                    #[trigger] self.tracks@[t as int].modules@[m as int].audio_inputs@[i2];
                                &&& b.src_track_index < self.tracks@.len()
                                &&& b.src_module_index
                                    < self.tracks@[b.src_track_index as int].modules@.len()
                                &&& (b.src_track_index == t ==> b.src_module_index < m)
                            },
                    decreases ninputs - i,
                {
                    let b = self.tracks[t].modules[m].audio_inputs[i];
                    if b.src_track_index >= self.tracks.len() {
                        return Err(
                            EngineError::InvalidBinding { track_index: t, module_index: m },
                        );
                    }
                    if b.src_module_index >= self.tracks[b.src_track_index].modules.len() {
                        return Err(
                            EngineError::InvalidBinding { track_index: t, module_index: m },
                        );
                    }
                    if b.src_track_index == t && b.src_module_index >= m {
                        return Err(
                            EngineError::InvalidBinding { track_index: t, module_index: m },
                        );
                    }
                    i = i + 1;
                }
                m = m + 1;
            }
            t = t + 1;
        }
        Ok(())
    }
}

} // verus!

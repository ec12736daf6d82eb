use vstd::prelude::*;

use crate::context::{ModuleProcessData, ProcessTrackContext};
use crate::event::{Event, PluginEvent};
use crate::lane::{lemma_lookup_is_entry, lookup, Lane, LaneItem};
use crate::time::{TickRange, TICKS_PER_LINE, TICK_LIMIT};

verus! {

/// Default mixer gain of a new track: unity (0 dB) on the 16.16 fixed-point
/// gain scale the block mix applies.
pub const DEFAULT_VOLUME: u32 = 0x10000;

/// Centre pan position on the 16.16 gain scale: `0` is hard left, `0x10000`
/// hard right.
pub const PAN_CENTER: u32 = 0x8000;

/// A patch cable: route the source module's output port into an input port of
/// the module that declares the binding.
#[derive(Clone, Copy, Debug, PartialEq, Eq, Structural)]
pub struct AudioInput {
    pub src_track_index: usize,
    pub src_module_index: usize,
    pub src_port_index: usize,
    pub dst_port_index: usize,
}

/// One plugin instance in a track's processing chain. The native instance is
/// owned by the external plugin host; the engine only keeps the path it was
/// loaded from and the audio-input bindings feeding it.
#[derive(Clone, Debug)]
pub struct Module {
    pub plugin_path: String,
    pub audio_inputs: Vec<AudioInput>,
}

impl Module {
    pub fn new(plugin_path: String) -> (m: Module)
        ensures
            m.plugin_path == plugin_path,
            m.audio_inputs@.len() == 0,
    {
        Module { plugin_path, audio_inputs: Vec::new() }
    }
}

/// One sequencer track: mixer state, the ordered processing chain of modules,
/// the timeline lanes, and the automation-binding table mapping an automation
/// index to `(module index, parameter id)`.
#[derive(Clone, Debug)]
pub struct Track {
    pub name: String,
    /// Linear mixer gain in 16.16 fixed point; `0x10000` is unity.
    pub volume: u32,
    /// Pan position in 16.16 fixed point; `0` left, `0x8000` centre,
    /// `0x10000` right.
    pub pan: u32,
    pub mute: bool,
    pub solo: bool,
    pub modules: Vec<Module>,
    pub lanes: Vec<Lane>,
    pub automation_params: Vec<(usize, u32)>,
}

/// A held-note table at least as long as `n`, extended with empty slots where
/// the stored table is shorter.
pub open spec fn pad_keys(keys: Seq<Option<i16>>, n: nat) -> Seq<Option<i16>> {
    if keys.len() >= n {
        keys
    } else {
        keys + Seq::new((n - keys.len()) as nat, |i: int| None::<i16>)
    }
}

/// The events one timeline cell (a line of one lane) contributes to the
/// block, and the held-note table after it, given the table before it.
///
/// A `Note` whose tick time falls in `range` first releases the lane's held
/// key, if any; unless it is an `off` marker it then starts `(key, velocity)`
/// and becomes the lane's held key, otherwise the held key is cleared. A
/// `Point` in range emits a parameter event addressed through the track's
/// automation-binding table. Anything outside `range` contributes nothing.
pub open spec fn cell_events(
    track: Track,
    range: TickRange,
    line: u64,
    lane: int,
    keys: Seq<Option<i16>>,
) -> (Seq<Event>, Seq<Option<i16>>) {
    match lookup(track.lanes@[lane].items@, line) {
        None => (seq![], keys),
        Some(item) => {
            let time = line as int * TICKS_PER_LINE as int + item.spec_delay();
            if !range.spec_contains(time) {
                (seq![], keys)
            } else {
                let offset = (time - range.start) as u64;
                match item {
                    LaneItem::Note { key, velocity, off, .. } => {
                        let releases: Seq<Event> = match keys[lane] {
                            Some(held) => seq![Event::NoteOff(held, offset)],
                            None => seq![],
                        };
                        if !off {
                            (
                                releases + seq![Event::NoteOn(key, velocity, offset)],
                                keys.update(lane, Some(key)),
                            )
                        } else {
                            (releases, keys.update(lane, None::<i16>))
                        }
                    },
                    LaneItem::Point { value, automation_index, .. } => {
                        let binding = track.automation_params@[automation_index as int];
                        (seq![Event::ParamValue(binding.0, binding.1, value, offset)], keys)
                    },
                }
            }
        },
    }
}

/// The events a line contributes across lanes `lane..`, in lane order,
/// threading the held-note table from one lane to the next.
pub open spec fn line_events_from(
    track: Track,
    range: TickRange,
    line: u64,
    lane: int,
    keys: Seq<Option<i16>>,
) -> (Seq<Event>, Seq<Option<i16>>)
    decreases track.lanes@.len() - lane,
{
    if lane < 0 || lane >= track.lanes@.len() {
        (seq![], keys)
    } else {
        let head = cell_events(track, range, line, lane, keys);
        let rest = line_events_from(track, range, line, lane + 1, head.1);
        (head.0 + rest.0, rest.1)
    }
}

/// The events `count` consecutive lines starting at `line` contribute, in
/// line-then-lane order.
pub open spec fn lines_events(
    track: Track,
    range: TickRange,
    line: u64,
    count: nat,
    keys: Seq<Option<i16>>,
) -> (Seq<Event>, Seq<Option<i16>>)
    decreases count,
{
    if count == 0 {
        (seq![], keys)
    } else {
        let head = line_events_from(track, range, line, 0, keys);
        let rest = lines_events(track, range, (line + 1) as u64, (count - 1) as nat, head.1);
        (head.0 + rest.0, rest.1)
    }
}

/// The inclusive number of lines a tick range's line span covers.
pub open spec fn range_line_count(range: TickRange) -> nat {
    let line_start = range.start / TICKS_PER_LINE;
    let line_end = range.end / TICKS_PER_LINE;
    if line_start <= line_end {
        (line_end - line_start + 1) as nat
    } else {
        0
    }
}

/// The events one tick range contributes: every line of its inclusive line
/// span is scanned, and items are kept only when their tick time falls inside
/// the range itself.
pub open spec fn range_events(track: Track, range: TickRange, keys: Seq<Option<i16>>) -> (
    Seq<Event>,
    Seq<Option<i16>>,
) {
    lines_events(track, range, range.start / TICKS_PER_LINE, range_line_count(range), keys)
}

/// The complete timeline-to-event translation of one block: the ranges of
/// the playback window (split in two on a loop wrap) processed in order,
/// threading the held-note table through. A zero-length window (for
/// example a stopped transport, or a block too short to cover one tick)
/// performs no translation at all.
pub open spec fn block_events(
    track: Track,
    play: TickRange,
    loop_range: TickRange,
    keys: Seq<Option<i16>>,
) -> (Seq<Event>, Seq<Option<i16>>) {
    if play.start == play.end {
        (seq![], keys)
    } else {
        let ranges = crate::time::ranges_of(play, loop_range);
        if ranges.len() == 1 {
            range_events(track, ranges[0], keys)
        } else {
            let first = range_events(track, ranges[0], keys);
            let second = range_events(track, ranges[1], first.1);
            (first.0 + second.0, second.1)
        }
    }
}

/// The immediate releases an "all notes off" event emits: one note-off, at
/// offset 0 on channel 0, for each key the held-note table holds, in lane
/// order.
pub open spec fn all_off_releases(keys: Seq<Option<i16>>) -> Seq<PluginEvent>
    decreases keys.len(),
{
    if keys.len() == 0 {
        seq![]
    } else {
        let head: Seq<PluginEvent> = match keys[0] {
            Some(k) => seq![PluginEvent::NoteOff(k, 0, 0)],
            None => seq![],
        };
        head + all_off_releases(keys.drop_first())
    }
}

/// The events one module receives from the block's shared event queue, and
/// the held-note table afterwards.
///
/// Note events are forwarded verbatim on channel 0. An "all notes off" event
/// releases and drains every held key. A parameter event is forwarded only
/// when addressed to `module_index`; events addressed elsewhere are ignored
/// here and picked up when their own module is prepared.
pub open spec fn module_events(
    queue: Seq<Event>,
    keys: Seq<Option<i16>>,
    module_index: int,
) -> (Seq<PluginEvent>, Seq<Option<i16>>)
    decreases queue.len(),
{
    if queue.len() == 0 {
        (seq![], keys)
    } else {
        let step: (Seq<PluginEvent>, Seq<Option<i16>>) = match queue[0] {
            Event::NoteOn(k, v, d) => (seq![PluginEvent::NoteOn(k, v, 0, d)], keys),
            Event::NoteOff(k, d) => (seq![PluginEvent::NoteOff(k, 0, d)], keys),
            Event::NoteAllOff => (all_off_releases(keys), Seq::<Option<i16>>::empty()),
            Event::ParamValue(m, p, v, d) => if m == module_index {
                (seq![PluginEvent::ParamValue(p, v, d)], keys)
            } else {
                (seq![], keys)
            },
        };
        let rest = module_events(queue.drop_first(), step.1, module_index);
        (step.0 + rest.0, rest.1)
    }
}

/// Held-note discipline of one timeline cell. A lane holds at most one note
/// at a time by construction (`on_keys` stores one optional key per lane);
/// this lemma states the rest: a cell emits at most one note-release, any
/// release it emits names exactly the key the lane held before the cell, and
/// after a note cell the lane's slot holds exactly the newly started key (or
/// nothing, after an `off` marker), so the previously held key can never be
/// released a second time.
pub proof fn lemma_cell_release_discipline(
    track: Track,
    range: TickRange,
    line: u64,
    lane: int,
    keys: Seq<Option<i16>>,
)
    requires
        0 <= lane < track.lanes@.len(),
        keys.len() >= track.lanes@.len(),
    ensures
        ({
            let r = cell_events(track, range, line, lane, keys);
            &&& forall|i: int, j: int|
                0 <= i < j < r.0.len() && r.0[i] is NoteOff ==> !(r.0[j] is NoteOff)
            &&& forall|i: int|
                0 <= i < r.0.len() ==> (#[trigger] r.0[i] matches Event::NoteOff(k, _)
                    ==> keys[lane] == Some(k))
            &&& r.1.len() == keys.len()
            &&& forall|l2: int| 0 <= l2 < keys.len() && l2 != lane ==> r.1[l2] == keys[l2]
            &&& (lookup(track.lanes@[lane].items@, line) matches Some(item) ==> (
            item matches LaneItem::Note { key, off, .. } ==> (range.spec_contains(
                line as int * TICKS_PER_LINE as int + item.spec_delay(),
            ) ==> r.1[lane] == (if off {
                None::<i16>
            } else {
                Some(key)
            }))))
        }),
{
    let r = cell_events(track, range, line, lane, keys);
    match lookup(track.lanes@[lane].items@, line) {
        None => {},
        Some(item) => {
            let time = line as int * TICKS_PER_LINE as int + item.spec_delay();
            if range.spec_contains(time) {
                match item {
                    LaneItem::Note { key, velocity, off, .. } => {
                        assert(forall|i: int, j: int|
                            0 <= i < j < r.0.len() && r.0[i] is NoteOff ==> !(r.0[j]
                                is NoteOff));
                    },
                    LaneItem::Point { .. } => {},
                }
            }
        },
    }
}

/// Across one line, the held-note table keeps its length, lanes before
/// `lane` and lanes past the track's lane count are untouched, and so the
/// per-cell release discipline of `lemma_cell_release_discipline` is the only
/// way any lane's slot changes.
proof fn lemma_line_keys_local(
    track: Track,
    range: TickRange,
    line: u64,
    lane: int,
    keys: Seq<Option<i16>>,
)
    requires
        0 <= lane <= track.lanes@.len(),
        keys.len() >= track.lanes@.len(),
    ensures
        line_events_from(track, range, line, lane, keys).1.len() == keys.len(),
        forall|l: int|
            0 <= l < keys.len() && !(lane <= l < track.lanes@.len())
                ==> line_events_from(track, range, line, lane, keys).1[l] == keys[l],
    decreases track.lanes@.len() - lane,
{
    if lane < track.lanes@.len() {
        lemma_cell_release_discipline(track, range, line, lane, keys);
        let head = cell_events(track, range, line, lane, keys);
        lemma_line_keys_local(track, range, line, lane + 1, head.1);
    }
}

/// Across a span of lines, the held-note table keeps its length and lanes
/// past the track's lane count are untouched.
proof fn lemma_lines_keys_local(
    track: Track,
    range: TickRange,
    line: u64,
    count: nat,
    keys: Seq<Option<i16>>,
)
    requires
        keys.len() >= track.lanes@.len(),
    ensures
        lines_events(track, range, line, count, keys).1.len() == keys.len(),
        forall|l: int|
            track.lanes@.len() <= l < keys.len() ==> lines_events(
                track,
                range,
                line,
                count,
                keys,
            ).1[l] == keys[l],
    decreases count,
{
    if count > 0 {
        lemma_line_keys_local(track, range, line, 0, keys);
        let head = line_events_from(track, range, line, 0, keys);
        lemma_lines_keys_local(track, range, (line + 1) as u64, (count - 1) as nat, head.1);
    }
}

/// Block-level held-note discipline. A lane holds at most one key at any
/// point of a block by construction: the table stores exactly one optional
/// key per lane, the block keeps the table's length, and slots beyond the
/// track's lanes are never touched. Together with
/// `lemma_cell_release_discipline` — each cell releases at most once, names
/// exactly the key held at that moment, and immediately clears or replaces
/// the slot — a key instance held on a lane can never be released twice
/// anywhere in the block.
pub proof fn lemma_block_keys_discipline(
    track: Track,
    play: TickRange,
    loop_range: TickRange,
    keys: Seq<Option<i16>>,
)
    requires
        keys.len() >= track.lanes@.len(),
    ensures
        block_events(track, play, loop_range, keys).1.len() == keys.len(),
        forall|l: int|
            track.lanes@.len() <= l < keys.len() ==> block_events(
                track,
                play,
                loop_range,
                keys,
            ).1[l] == keys[l],
{
    if play.start == play.end {
    } else {
        let ranges = crate::time::ranges_of(play, loop_range);
        if ranges.len() == 1 {
            lemma_lines_keys_local(
                track,
                ranges[0],
                ranges[0].start / TICKS_PER_LINE,
                range_line_count(ranges[0]),
                keys,
            );
        } else {
            lemma_lines_keys_local(
                track,
                ranges[0],
                ranges[0].start / TICKS_PER_LINE,
                range_line_count(ranges[0]),
                keys,
            );
            let first = range_events(track, ranges[0], keys);
            lemma_lines_keys_local(
                track,
                ranges[1],
                ranges[1].start / TICKS_PER_LINE,
                range_line_count(ranges[1]),
                first.1,
            );
        }
    }
}

/// One block's worth of translated events for each scheduled window pair
/// (playback window, loop window), threading the held-note table from block
/// to block as the engine does.
pub open spec fn replay(
    track: Track,
    schedule: Seq<(TickRange, TickRange)>,
    keys: Seq<Option<i16>>,
) -> Seq<Event>
    decreases schedule.len(),
{
    if schedule.len() == 0 {
        seq![]
    } else {
        let head = block_events(
            track,
            schedule[0].0,
            schedule[0].1,
            pad_keys(keys, track.lanes@.len() as nat),
        );
        head.0 + replay(track, schedule.drop_first(), head.1)
    }
}

/// Replay is deterministic: translating the same timeline over the same block
/// schedule from equal held-note states (in particular, twice from the cold
/// state with no notes held) produces the identical event sequence, because
/// translation is a pure function of the lanes, the automation table, the
/// windows and the held-note table going in.
pub proof fn lemma_replay_deterministic(
    track: Track,
    schedule: Seq<(TickRange, TickRange)>,
    keys1: Seq<Option<i16>>,
    keys2: Seq<Option<i16>>,
)
    requires
        keys1 == keys2,
    ensures
        replay(track, schedule, keys1) == replay(track, schedule, keys2),
{
}

impl Track {
    /// Every automation point stored in any lane refers to an entry of the
    /// automation-binding table. A timeline violating this is a configuration
    /// fault, rejected before rendering.
    pub open spec fn automation_indexes_valid(self) -> bool {
        forall|la: int, i: int|
            0 <= la < self.lanes@.len() && 0 <= i < self.lanes@[la].items@.len()
                ==> ((#[trigger] self.lanes@[la].items@[i]).1 matches LaneItem::Point {
                automation_index,
                ..
            } ==> automation_index < self.automation_params@.len())
    }

    /// The item stored at `line` on the track's first lane (conventionally
    /// the note lane), if any.
    pub fn note(&self, line: u64) -> (r: Option<LaneItem>)
        ensures
            r == (if self.lanes@.len() > 0 {
                self.lanes@[0].spec_item_at(line)
            } else {
                None::<LaneItem>
            }),
    {
        if self.lanes.len() == 0 {
            return None;
        }
        self.lanes[0].item_at(line)
    }

    /// Check that every automation point stored in this track's lanes refers
    /// to an entry of the automation-binding table.
    #[verifier::loop_isolation(false)]
    pub fn automation_valid(&self) -> (r: bool)
        ensures
            r == self.automation_indexes_valid(),
    {
        let nlanes = self.lanes.len();
        let mut la: usize = 0;
        while la < nlanes
            invariant
                la <= nlanes,
                forall|l2: int, i2: int|
                    0 <= l2 < la && 0 <= i2 < self.lanes@[l2].items@.len() ==> ((
                    #[trigger] self.lanes@[l2].items@[i2]).1 matches LaneItem::Point {
                        automation_index,
                        ..
                    } ==> automation_index < self.automation_params@.len()),
            decreases nlanes - la,
        {
            let nitems = self.lanes[la].items.len();
            let mut i: usize = 0;
            while i < nitems
                invariant
                    i <= nitems,
                    la < nlanes,
                    nitems == self.lanes@[la as int].items@.len(),
                    forall|i2: int|
                        0 <= i2 < i ==> ((#[trigger] self.lanes@[la as int].items@[i2]).1 matches
                        LaneItem::Point {
                            automation_index,
                            ..
                        } ==> automation_index < self.automation_params@.len()),
                decreases nitems - i,
            {
                let (_, item) = self.lanes[la].items[i];
                if let LaneItem::Point { automation_index, .. } = item {
                    if automation_index >= self.automation_params.len() {
                        return false;
                    }
                }
                i = i + 1;
            }
            la = la + 1;
        }
        true
    }

    pub fn new() -> (track: Track)
        ensures
            track.name@ == seq!['T', '0', '1'],
            track.volume == DEFAULT_VOLUME,
            track.pan == PAN_CENTER,
            !track.mute,
            !track.solo,
            track.modules@.len() == 0,
            track.lanes@.len() == 1,
            track.lanes@[0].items@.len() == 0,
            track.automation_params@.len() == 0,
            track.automation_indexes_valid(),
    {
        let mut lanes: Vec<Lane> = Vec::new();
        lanes.push(Lane::new());
        proof {
            reveal_strlit("T01");
        }
        Track {
            name: String::from_str("T01"),
            volume: DEFAULT_VOLUME,
            pan: PAN_CENTER,
            mute: false,
            solo: false,
            modules: Vec::new(),
            lanes,
            automation_params: vec![],
        }
    }

    /// Translate one timeline cell: append the events it contributes to the
    /// block and update the held-note table in place.
    fn run_cell(
        &self,
        range: TickRange,
        line: u64,
        lane: usize,
        evs: &mut Vec<Event>,
        keys: &mut Vec<Option<i16>>,
    )
        requires
            lane < self.lanes@.len(),
            old(keys)@.len() >= self.lanes@.len(),
            self.automation_indexes_valid(),
            range.end <= TICK_LIMIT,
            line <= TICK_LIMIT / TICKS_PER_LINE,
        ensures
            ({
                let r = cell_events(*self, range, line, lane as int, old(keys)@);
                final(evs)@ == old(evs)@ + r.0 && final(keys)@ == r.1
            }),
            final(keys)@.len() == old(keys)@.len(),
    {
        let ghost r = cell_events(*self, range, line, lane as int, old(keys)@);
        let item_opt = self.lanes[lane].item_at(line);
        match item_opt {
            None => {
                proof {
                    assert(evs@ =~= old(evs)@ + r.0);
                }
            },
            Some(item) => {
                let d = item.delay();
                let time: u64 = line * TICKS_PER_LINE + d as u64;
                if range.start <= time && time < range.end {
                    let offset: u64 = time - range.start;
                    match item {
                        LaneItem::Note { key, velocity, off, .. } => {
                            let held = keys[lane];
                            if let Some(held_key) = held {
                                evs.push(Event::NoteOff(held_key, offset));
                            }
                            if !off {
                                evs.push(Event::NoteOn(key, velocity, offset));
                                keys.set(lane, Some(key));
                            } else {
                                keys.set(lane, None);
                            }
                            proof {
                                assert(evs@ =~= old(evs)@ + r.0);
                            }
                        },
                        LaneItem::Point { value, automation_index, .. } => {
                            proof {
                                lemma_lookup_is_entry(self.lanes@[lane as int].items@, line);
                            }
                            let binding = self.automation_params[automation_index];
                            evs.push(Event::ParamValue(binding.0, binding.1, value, offset));
                            proof {
                                assert(evs@ =~= old(evs)@ + r.0);
                            }
                        },
                    }
                } else {
                    proof {
                        assert(evs@ =~= old(evs)@ + r.0);
                    }
                }
            },
        }
    }

    /// Translate one line across every lane, in lane order.
    #[verifier::loop_isolation(false)]
    fn run_line(
        &self,
        range: TickRange,
        line: u64,
        evs: &mut Vec<Event>,
        keys: &mut Vec<Option<i16>>,
    )
        requires
            old(keys)@.len() >= self.lanes@.len(),
            self.automation_indexes_valid(),
            range.end <= TICK_LIMIT,
            line <= TICK_LIMIT / TICKS_PER_LINE,
        ensures
            ({
                let r = line_events_from(*self, range, line, 0, old(keys)@);
                final(evs)@ == old(evs)@ + r.0 && final(keys)@ == r.1
            }),
            final(keys)@.len() == old(keys)@.len(),
    {
        let ghost n0 = old(evs)@.len() as int;
        let ghost full = line_events_from(*self, range, line, 0, old(keys)@);
        proof {
            assert(evs@.skip(n0) =~= Seq::<Event>::empty());
            assert(Seq::<Event>::empty() + full.0 =~= full.0);
        }
        let mut lane: usize = 0;
        while lane < self.lanes.len()
            invariant
                lane <= self.lanes@.len(),
                keys@.len() == old(keys)@.len(),
                evs@.len() >= n0,
                evs@.subrange(0, n0) == old(evs)@,
                full.0 == evs@.skip(n0) + line_events_from(
                    *self,
                    range,
                    line,
                    lane as int,
                    keys@,
                ).0,
                full.1 == line_events_from(*self, range, line, lane as int, keys@).1,
            decreases self.lanes@.len() - lane,
        {
            let ghost keys_b = keys@;
            let ghost evs_b = evs@;
            self.run_cell(range, line, lane, evs, keys);
            proof {
                let cell = cell_events(*self, range, line, lane as int, keys_b);
                assert(line_events_from(*self, range, line, lane as int, keys_b).0 == cell.0
                    + line_events_from(*self, range, line, lane as int + 1, cell.1).0);
                assert(evs@.skip(n0) =~= evs_b.skip(n0) + cell.0);
                assert(evs@.subrange(0, n0) =~= evs_b.subrange(0, n0));
                assert((evs_b.skip(n0) + cell.0) + line_events_from(
                    *self,
                    range,
                    line,
                    lane as int + 1,
                    cell.1,
                ).0 =~= evs_b.skip(n0) + (cell.0 + line_events_from(
                    *self,
                    range,
                    line,
                    lane as int + 1,
                    cell.1,
                ).0));
            }
            lane = lane + 1;
        }
        proof {
            assert(line_events_from(*self, range, line, lane as int, keys@) == (
                Seq::<Event>::empty(),
                keys@,
            ));
            assert(full.0 =~= evs@.skip(n0));
            assert(evs@ =~= evs@.subrange(0, n0) + evs@.skip(n0));
        }
    }

    /// Translate one tick range: scan every line of its inclusive line span
    /// in order.
    #[verifier::loop_isolation(false)]
    fn run_range(
        &self,
        range: TickRange,
        evs: &mut Vec<Event>,
        keys: &mut Vec<Option<i16>>,
    )
        requires
            old(keys)@.len() >= self.lanes@.len(),
            self.automation_indexes_valid(),
            range.end <= TICK_LIMIT,
            range.start <= TICK_LIMIT,
        ensures
            ({
                let r = range_events(*self, range, old(keys)@);
                final(evs)@ == old(evs)@ + r.0 && final(keys)@ == r.1
            }),
            final(keys)@.len() == old(keys)@.len(),
    {
        let ghost n0 = old(evs)@.len() as int;
        let ghost full = range_events(*self, range, old(keys)@);
        let line_start: u64 = range.start / TICKS_PER_LINE;
        let line_end: u64 = range.end / TICKS_PER_LINE;
        if line_start > line_end {
            proof {
                assert(full.0 =~= Seq::<Event>::empty());
                assert(evs@ =~= old(evs)@ + full.0);
            }
            return ;
        }
        proof {
            assert(evs@.skip(n0) =~= Seq::<Event>::empty());
            assert(Seq::<Event>::empty() + full.0 =~= full.0);
        }
        let mut line: u64 = line_start;
        while line <= line_end
            invariant
                line_start <= line <= line_end + 1,
                keys@.len() == old(keys)@.len(),
                evs@.len() >= n0,
                evs@.subrange(0, n0) == old(evs)@,
                full.0 == evs@.skip(n0) + lines_events(
                    *self,
                    range,
                    line,
                    (line_end + 1 - line) as nat,
                    keys@,
                ).0,
                full.1 == lines_events(*self, range, line, (line_end + 1 - line) as nat, keys@).1,
            decreases line_end + 1 - line,
        {
            let ghost keys_b = keys@;
            let ghost evs_b = evs@;
            self.run_line(range, line, evs, keys);
            proof {
                let head = line_events_from(*self, range, line, 0, keys_b);
                assert(lines_events(*self, range, line, (line_end + 1 - line) as nat, keys_b).0
                    == head.0 + lines_events(
                    *self,
                    range,
                    (line + 1) as u64,
                    (line_end - line) as nat,
                    head.1,
                ).0);
                assert(evs@.skip(n0) =~= evs_b.skip(n0) + head.0);
                assert(evs@.subrange(0, n0) =~= evs_b.subrange(0, n0));
                assert((evs_b.skip(n0) + head.0) + lines_events(
                    *self,
                    range,
                    (line + 1) as u64,
                    (line_end - line) as nat,
                    head.1,
                ).0 =~= evs_b.skip(n0) + (head.0 + lines_events(
                    *self,
                    range,
                    (line + 1) as u64,
                    (line_end - line) as nat,
                    head.1,
                ).0));
            }
            line = line + 1;
        }
        proof {
            assert(lines_events(*self, range, line, 0, keys@) == (Seq::<Event>::empty(), keys@));
            assert(full.0 =~= evs@.skip(n0));
            assert(evs@ =~= evs@.subrange(0, n0) + evs@.skip(n0));
        }
    }

    /// Translate the timeline into this block's event queue (playback window
    /// and, on a loop wrap, the two split sub-ranges, in order), updating the
    /// per-lane held-note table. With the transport stopped, or with a
    /// zero-length window (a block too short to cover one tick), the context
    /// is left untouched: no translation is performed. The translation is a
    /// pure function of the lanes, the automation table, the block's windows
    /// and the held-note table going in, so replaying the same timeline over
    /// the same block schedule from the same state reproduces the same event
    /// sequence.
    pub fn compute_midi(&self, context: &mut ProcessTrackContext)
        requires
            self.automation_indexes_valid(),
            old(context).play_position.start <= TICK_LIMIT,
            old(context).play_position.end <= TICK_LIMIT,
            old(context).loop_range.start <= TICK_LIMIT,
            old(context).loop_range.end <= TICK_LIMIT,
        ensures
            !old(context).play_p ==> *final(context) == *old(context),
            old(context).play_p && old(context).play_position.start == old(
                context,
            ).play_position.end ==> *final(context) == *old(context),
            old(context).play_p && old(context).play_position.start != old(
                context,
            ).play_position.end ==> ({
                let r = block_events(
                    *self,
                    old(context).play_position,
                    old(context).loop_range,
                    pad_keys(old(context).on_keys@, self.lanes@.len() as nat),
                );
                &&& final(context).event_list_input@ == old(context).event_list_input@ + r.0
                &&& final(context).on_keys@ == r.1
                &&& *final(context) == (ProcessTrackContext {
                    event_list_input: final(context).event_list_input,
                    on_keys: final(context).on_keys,
                    ..*old(context)
                })
            }),
    {
        if !context.play_p {
            return ;
        }
        if context.play_position.start == context.play_position.end {
            return ;
        }
        let ghost keys_padded = pad_keys(old(context).on_keys@, self.lanes@.len() as nat);
        let mut keys: Vec<Option<i16>> = Vec::new();
        let mut evs: Vec<Event> = Vec::new();
        core::mem::swap(&mut keys, &mut context.on_keys);
        core::mem::swap(&mut evs, &mut context.event_list_input);
        let ghost keys_orig = keys@;
        let nlanes = self.lanes.len();
        #[verifier::loop_isolation(false)]
        while keys.len() < nlanes
            invariant
                keys_orig.len() <= keys@.len(),
                keys@.len() <= nlanes || keys@ == keys_orig,
                keys@ == pad_keys(keys_orig, keys@.len() as nat),
            decreases nlanes - keys@.len(),
        {
            keys.push(None);
            proof {
                assert(keys@ =~= pad_keys(keys_orig, keys@.len() as nat));
            }
        }
        proof {
            assert(keys@ == keys_padded);
        }
        let play = context.play_position;
        let loop_range = context.loop_range;
        if play.start < play.end {
            self.run_range(play, &mut evs, &mut keys);
        } else {
            let ghost first = range_events(
                *self,
                TickRange { start: play.start, end: loop_range.end },
                keys_padded,
            );
            self.run_range(TickRange { start: play.start, end: loop_range.end }, &mut evs, &mut keys);
            self.run_range(
                TickRange { start: loop_range.start, end: play.end },
                &mut evs,
                &mut keys,
            );
            proof {
                let second = range_events(
                    *self,
                    TickRange { start: loop_range.start, end: play.end },
                    first.1,
                );
                assert(evs@ =~= old(context).event_list_input@ + (first.0 + second.0));
            }
        }
        context.on_keys = keys;
        context.event_list_input = evs;
    }

    /// Deliver this block's event queue to one module: store the events
    /// addressed to it (notes verbatim on channel 0, an all-notes-off as
    /// immediate releases of every held key, parameter values only when
    /// addressed to this module) in that module's process data.
    #[verifier::loop_isolation(false)]
    pub fn prepare_module_event(&self, context: &mut ProcessTrackContext, module_index: usize)
        requires
            module_index < old(context).process_data@.len(),
        ensures
            ({
                let r = module_events(
                    old(context).event_list_input@,
                    old(context).on_keys@,
                    module_index as int,
                );
                &&& final(context).process_data@[module_index as int].events@ == r.0
                &&& final(context).on_keys@ == r.1
            }),
            final(context).process_data@ == old(context).process_data@.update(
                module_index as int,
                ModuleProcessData {
                    events: final(context).process_data@[module_index as int].events,
                    ..old(context).process_data@[module_index as int]
                },
            ),
            *final(context) == (ProcessTrackContext {
                on_keys: final(context).on_keys,
                process_data: final(context).process_data,
                ..*old(context)
            }),
    {
        let ghost queue = old(context).event_list_input@;
        let ghost full = module_events(queue, old(context).on_keys@, module_index as int);
        let mut keys: Vec<Option<i16>> = Vec::new();
        core::mem::swap(&mut keys, &mut context.on_keys);
        let mut out: Vec<PluginEvent> = Vec::new();
        proof {
            assert(queue.skip(0) =~= queue);
            assert(Seq::<PluginEvent>::empty() + full.0 =~= full.0);
        }
        let mut i: usize = 0;
        while i < context.event_list_input.len()
            invariant
                i <= queue.len(),
                context.event_list_input@ == queue,
                full.0 == out@ + module_events(queue.skip(i as int), keys@, module_index as int).0,
                full.1 == module_events(queue.skip(i as int), keys@, module_index as int).1,
                context.process_data@ == old(context).process_data@,
            decreases queue.len() - i,
        {
            proof {
                assert(queue.skip(i as int)[0] == queue[i as int]);
                assert(queue.skip(i as int).drop_first() =~= queue.skip(i as int + 1));
            }
            let ghost keys_b = keys@;
            let ghost out_b = out@;
            let ev = context.event_list_input[i];
            match ev {
                Event::NoteOn(k, v, d) => {
                    out.push(PluginEvent::NoteOn(k, v, 0, d));
                    proof {
                        assert(out@.skip(out_b.len() as int) =~= seq![
                            PluginEvent::NoteOn(k, v, 0, d),
                        ]);
                    }
                },
                Event::NoteOff(k, d) => {
                    out.push(PluginEvent::NoteOff(k, 0, d));
                    proof {
                        assert(out@.skip(out_b.len() as int) =~= seq![
                            PluginEvent::NoteOff(k, 0, d),
                        ]);
                    }
                },
                Event::NoteAllOff => {
                    proof {
                        assert(keys@.skip(0) =~= keys@);
                    }
                    let mut j: usize = 0;
                    while j < keys.len()
                        invariant
                            j <= keys@.len(),
                            keys@ == keys_b,
                            out@.len() >= out_b.len(),
                            out@.subrange(0, out_b.len() as int) == out_b,
                            all_off_releases(keys_b) == out@.skip(out_b.len() as int)
                                + all_off_releases(keys_b.skip(j as int)),
                        decreases keys@.len() - j,
                    {
                        proof {
                            assert(keys_b.skip(j as int)[0] == keys_b[j as int]);
                            assert(keys_b.skip(j as int).drop_first() =~= keys_b.skip(
                                j as int + 1,
                            ));
                        }
                        let ghost out_c = out@;
                        if let Some(k) = keys[j] {
                            out.push(PluginEvent::NoteOff(k, 0, 0));
                            proof {
                                assert(out@.skip(out_b.len() as int) =~= out_c.skip(
                                    out_b.len() as int,
                                ) + seq![PluginEvent::NoteOff(k, 0, 0)]);
                                assert((out_c.skip(out_b.len() as int) + seq![
                                    PluginEvent::NoteOff(k, 0, 0),
                                ]) + all_off_releases(keys_b.skip(j as int + 1)) =~= out_c.skip(
                                    out_b.len() as int,
                                ) + (seq![PluginEvent::NoteOff(k, 0, 0)] + all_off_releases(
                                    keys_b.skip(j as int + 1),
                                )));
                            }
                        } else {
                            proof {
                                assert(Seq::<PluginEvent>::empty() + all_off_releases(
                                    keys_b.skip(j as int + 1),
                                ) =~= all_off_releases(keys_b.skip(j as int + 1)));
                            }
                        }
                        j = j + 1;
                    }
                    proof {
                        assert(keys_b.skip(keys_b.len() as int)
                            =~= Seq::<Option<i16>>::empty());
                        assert(out@.skip(out_b.len() as int) + Seq::<PluginEvent>::empty()
                            =~= out@.skip(out_b.len() as int));
                        assert(out@ =~= out@.subrange(0, out_b.len() as int) + out@.skip(
                            out_b.len() as int,
                        ));
                        assert(out@.skip(out_b.len() as int) =~= all_off_releases(keys_b));
                    }
                    keys.clear();
                },
                Event::ParamValue(m, p, v, d) => {
                    if m == module_index {
                        out.push(PluginEvent::ParamValue(p, v, d));
                        proof {
                            assert(out@.skip(out_b.len() as int) =~= seq![
                                PluginEvent::ParamValue(p, v, d),
                            ]);
                        }
                    } else {
                        proof {
                            assert(out@.skip(out_b.len() as int)
                                =~= Seq::<PluginEvent>::empty());
                        }
                    }
                },
            }
            proof {
                let rest0 = module_events(
                    queue.skip(i as int + 1),
                    keys@,
                    module_index as int,
                ).0;
                let h = out@.skip(out_b.len() as int);
                assert(out_b + h =~= out@);
                assert((out_b + h) + rest0 =~= out_b + (h + rest0));
            }
            i = i + 1;
        }
        proof {
            assert(queue.skip(queue.len() as int) =~= Seq::<Event>::empty());
            assert(full.0 =~= out@ + Seq::<PluginEvent>::empty());
            assert(full.0 =~= out@);
        }
        context.on_keys = keys;
        let pd = &mut context.process_data[module_index];
        pd.events = out;
        proof {
            assert(context.process_data@ == old(context).process_data@.update(
                module_index as int,
                ModuleProcessData {
                    events: context.process_data@[module_index as int].events,
                    ..old(context).process_data@[module_index as int]
                },
            ));
        }
    }
}

} // verus!

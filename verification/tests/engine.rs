use sing_like_coding::context::ProcessTrackContext;
use sing_like_coding::error::EngineError;
use sing_like_coding::event::{Event, PluginEvent};
use sing_like_coding::lane::LaneItem;
use sing_like_coding::singer::Singer;
use sing_like_coding::song::{track_name, Song};
use sing_like_coding::time::TickRange;
use sing_like_coding::track::{AudioInput, Module, Track};

fn note(key: i16, velocity: u8, delay: u8) -> LaneItem {
    LaneItem::Note { key, velocity, off: false, delay }
}

fn note_off(delay: u8) -> LaneItem {
    LaneItem::Note { key: 0, velocity: 0, off: true, delay }
}

fn playing_context(start: u64, end: u64, loop_start: u64, loop_end: u64) -> ProcessTrackContext {
    let mut ctx = ProcessTrackContext::default();
    ctx.play_p = true;
    ctx.play_position = TickRange { start, end };
    ctx.loop_range = TickRange { start: loop_start, end: loop_end };
    ctx
}

#[test]
fn note_start_at_block_origin() {
    // lpb = 4, bpm = 120; one note at line 0, lane 0; block covering [0, 0x100).
    let mut song = Song::new();
    song.bpm = 120;
    song.lpb = 4;
    song.add_track();
    song.tracks[0].lanes[0].put(0, note(60, 100, 0));
    let mut ctx = playing_context(0, 0x100, 0, 0x0e00);
    song.tracks[0].compute_midi(&mut ctx);
    assert_eq!(ctx.event_list_input.len(), 1);
    assert!(matches!(ctx.event_list_input[0], Event::NoteOn(60, 100, 0)));
    assert_eq!(ctx.on_keys, vec![Some(60)]);
}

#[test]
fn stopped_transport_translates_nothing() {
    let mut track = Track::new();
    track.lanes[0].put(0, note(60, 100, 0));
    let mut ctx = playing_context(0, 0x100, 0, 0x0e00);
    ctx.play_p = false;
    track.compute_midi(&mut ctx);
    assert!(ctx.event_list_input.is_empty());
}

#[test]
fn held_note_released_exactly_once() {
    let mut track = Track::new();
    track.lanes[0].put(0, note(60, 100, 0));
    track.lanes[0].put(1, note(64, 90, 0));
    track.lanes[0].put(2, note_off(0));
    track.lanes[0].put(3, note_off(0));
    let mut ctx = playing_context(0, 0x400, 0, 0x0e00);
    track.compute_midi(&mut ctx);
    let evs = &ctx.event_list_input;
    assert_eq!(evs.len(), 4);
    assert!(matches!(evs[0], Event::NoteOn(60, 100, 0)));
    assert!(matches!(evs[1], Event::NoteOff(60, 0x100)));
    assert!(matches!(evs[2], Event::NoteOn(64, 90, 0x100)));
    // The off marker at line 2 releases the held note once; the second off
    // marker at line 3 finds nothing held and releases nothing.
    assert!(matches!(evs[3], Event::NoteOff(64, 0x200)));
    assert_eq!(ctx.on_keys, vec![None]);
}

#[test]
fn wrapped_window_emits_both_subranges_in_order() {
    // Loop [0, 0x0e00), wrapped window 0x0d80..0x0180: events must come from
    // [0x0d80, 0x0e00) first, then [0x0000, 0x0180).
    let mut track = Track::new();
    track.lanes[0].put(13, note(71, 100, 0x80)); // tick 0x0d80, first sub-range
    track.lanes[0].put(0, note(60, 100, 0)); // tick 0x0000, second sub-range
    track.lanes[0].put(1, note(62, 100, 0)); // tick 0x0100, second sub-range
    let mut ctx = playing_context(0x0d80, 0x0180, 0, 0x0e00);
    track.compute_midi(&mut ctx);
    let evs = &ctx.event_list_input;
    assert_eq!(evs.len(), 5);
    assert!(matches!(evs[0], Event::NoteOn(71, 100, 0)));
    assert!(matches!(evs[1], Event::NoteOff(71, 0)));
    assert!(matches!(evs[2], Event::NoteOn(60, 100, 0)));
    assert!(matches!(evs[3], Event::NoteOff(60, 0x100)));
    assert!(matches!(evs[4], Event::NoteOn(62, 100, 0x100)));
}

#[test]
fn boundary_item_never_fires_twice_across_blocks() {
    // An item exactly at a block boundary belongs to the block whose window
    // contains its tick, and to that block only.
    let mut track = Track::new();
    track.lanes[0].put(1, note(60, 100, 0)); // tick 0x100
    let mut ctx = playing_context(0, 0x100, 0, 0x0e00);
    track.compute_midi(&mut ctx);
    assert!(ctx.event_list_input.is_empty());
    ctx.event_list_input.clear();
    ctx.play_position = TickRange { start: 0x100, end: 0x200 };
    track.compute_midi(&mut ctx);
    assert_eq!(ctx.event_list_input.len(), 1);
    assert!(matches!(ctx.event_list_input[0], Event::NoteOn(60, 100, 0)));
}

#[test]
fn replay_from_cold_state_is_identical() {
    let mut track = Track::new();
    track.lanes[0].put(0, note(60, 100, 4));
    track.lanes[0].put(2, note(65, 80, 0));
    track.lanes[0].put(5, note_off(7));
    let windows = [(0u64, 0x300u64), (0x300, 0x600), (0x600, 0x180)];
    let run = |track: &Track| -> Vec<Event> {
        let mut ctx = ProcessTrackContext::default();
        ctx.play_p = true;
        ctx.loop_range = TickRange { start: 0, end: 0x0e00 };
        let mut all = Vec::new();
        for (s, e) in windows.iter() {
            ctx.play_position = TickRange { start: *s, end: *e };
            ctx.event_list_input.clear();
            track.compute_midi(&mut ctx);
            all.extend(ctx.event_list_input.iter().copied());
        }
        all
    };
    let first = run(&track);
    let second = run(&track);
    assert_eq!(first, second);
    assert!(!first.is_empty());
}

#[test]
fn automation_point_resolves_binding_table() {
    let mut track = Track::new();
    track.automation_params.push((3, 77));
    track.automation_params.push((1, 42));
    track.lanes[0].put(0, LaneItem::Point { value: 255, automation_index: 1, delay: 16 });
    let mut ctx = playing_context(0, 0x100, 0, 0x0e00);
    track.compute_midi(&mut ctx);
    assert_eq!(ctx.event_list_input.len(), 1);
    assert!(matches!(ctx.event_list_input[0], Event::ParamValue(1, 42, 255, 16)));
}

#[test]
fn module_events_filter_and_all_notes_off() {
    let track = Track::new();
    let mut ctx = ProcessTrackContext::default();
    ctx.process_data.push(sing_like_coding::context::ModuleProcessData::new(1, 1, 2, 4));
    ctx.process_data.push(sing_like_coding::context::ModuleProcessData::new(1, 1, 2, 4));
    ctx.on_keys = vec![Some(60), None, Some(72)];
    ctx.event_list_input = vec![
        Event::NoteOn(61, 99, 5),
        Event::ParamValue(0, 7, 200, 1),
        Event::ParamValue(1, 8, 100, 2),
        Event::NoteAllOff,
        Event::NoteOff(61, 9),
    ];
    track.prepare_module_event(&mut ctx, 0);
    let evs = &ctx.process_data[0].events;
    assert_eq!(
        evs.as_slice(),
        &[
            PluginEvent::NoteOn(61, 99, 0, 5),
            PluginEvent::ParamValue(7, 200, 1),
            PluginEvent::NoteOff(60, 0, 0),
            PluginEvent::NoteOff(72, 0, 0),
            PluginEvent::NoteOff(61, 0, 9),
        ]
    );
    // The all-notes-off drained the held keys, and the event addressed to
    // module 1 was ignored while preparing module 0.
    assert!(ctx.on_keys.is_empty());
}

#[test]
fn constant_mask_routes_single_sample_and_live_channel_full_copy() {
    // Same-track routing: module 1 reads module 0's current-block output.
    let mut singer = Singer::new();
    singer.add_module(0, Module::new("a".to_string()), 1, 1);
    singer.add_module(0, Module::new("b".to_string()), 1, 1);
    singer.song.tracks[0].modules[1].audio_inputs.push(AudioInput {
        src_track_index: 0,
        src_module_index: 0,
        src_port_index: 0,
        dst_port_index: 0,
    });
    singer.begin_block(2, 4);
    // Channel 0 carries a constant block (mask bit 0 set): every frame is 7.
    // Channel 1 carries a live signal (mask bit clear).
    singer.process_track_contexts[0].set_module_output(
        0,
        vec![vec![vec![7, 7, 7, 7], vec![1, 2, 3, 4]]],
        vec![0b01],
    );
    let track = singer.song.tracks[0].clone();
    track.prepare_module_audio(0, &mut singer.process_track_contexts, 1);
    let pd = &singer.process_track_contexts[0].process_data[1];
    // Constant channel: bit set, representative sample copied; its logical
    // content equals the direct full copy [7, 7, 7, 7].
    assert_eq!(pd.constant_mask_in[0] & 1, 1);
    assert_eq!(pd.buffer_in[0][0][0], 7);
    let broadcast: Vec<i32> = std::iter::repeat(pd.buffer_in[0][0][0]).take(4).collect();
    assert_eq!(broadcast, vec![7, 7, 7, 7]);
    // Live channel: bit clear, full frame copy.
    assert_eq!(pd.constant_mask_in[0] & 2, 0);
    assert_eq!(pd.buffer_in[0][1], vec![1, 2, 3, 4]);
}

#[test]
fn cross_track_routing_reads_previous_block_output() {
    // Track 0's module 1 is fed from track 1's module 0: under the
    // one-block-latency policy it reads the output track 1 completed for the
    // previous block.
    let mut singer = Singer::new();
    singer.add_track();
    singer.add_module(0, Module::new("dst".to_string()), 1, 1);
    singer.add_module(0, Module::new("dst2".to_string()), 1, 1);
    singer.add_module(1, Module::new("src".to_string()), 1, 1);
    singer.song.tracks[0].modules[1].audio_inputs.push(AudioInput {
        src_track_index: 1,
        src_module_index: 0,
        src_port_index: 0,
        dst_port_index: 0,
    });
    assert!(singer.song.validate().is_ok());
    singer.begin_block(2, 4);
    singer.process_track_contexts[1].set_module_output(
        0,
        vec![vec![vec![10, 20, 30, 40], vec![-1, -2, -3, -4]]],
        vec![0],
    );
    // Next block freezes that output as track 1's previous-block output.
    singer.begin_block(2, 4);
    let track = singer.song.tracks[0].clone();
    track.prepare_module_audio(0, &mut singer.process_track_contexts, 1);
    let pd = &singer.process_track_contexts[0].process_data[1];
    assert_eq!(pd.buffer_in[0][0], vec![10, 20, 30, 40]);
    assert_eq!(pd.buffer_in[0][1], vec![-1, -2, -3, -4]);
    assert_eq!(pd.constant_mask_in[0] & 0b11, 0);
}

#[test]
fn play_position_advances_by_block_tick_count() {
    // bpm = 120, lpb = 4, 48000 Hz: 3000 frames are exactly 128 ticks.
    let mut singer = Singer::new();
    singer.song.bpm = 120;
    singer.song.lpb = 4;
    singer.song.loop_range = TickRange { start: 0, end: 0x0e00 };
    singer.play();
    let changed = singer.compute_play_position(3000);
    assert_eq!(changed, None);
    assert_eq!(singer.song.play_position, TickRange { start: 0, end: 0x80 });
    let changed = singer.compute_play_position(3000);
    assert_eq!(changed, None);
    assert_eq!(singer.song.play_position, TickRange { start: 0x80, end: 0x100 });
}

#[test]
fn play_position_wraps_at_loop_end() {
    let mut singer = Singer::new();
    singer.song.bpm = 120;
    singer.song.lpb = 4;
    singer.song.loop_range = TickRange { start: 0, end: 0x0e00 };
    singer.song.play_position = TickRange { start: 0x0d00, end: 0x0d80 };
    singer.line_play = 13;
    singer.play();
    let changed = singer.compute_play_position(3000);
    assert_eq!(changed, None);
    assert_eq!(singer.song.play_position, TickRange { start: 0x0d80, end: 0x0e00 });
    // The next block exceeds the loop end and wraps: start >= end marks it,
    // and the overshoot continues from the loop start.
    let changed = singer.compute_play_position(9000);
    assert_eq!(changed, Some(14));
    assert_eq!(singer.song.play_position, TickRange { start: 0x0e00, end: 0x0180 });
}

#[test]
fn stopped_transport_keeps_empty_window() {
    let mut singer = Singer::new();
    singer.song.play_position = TickRange { start: 0x40, end: 0x80 };
    let changed = singer.compute_play_position(3000);
    assert_eq!(changed, None);
    assert_eq!(singer.song.play_position, TickRange { start: 0x80, end: 0x80 });
}

#[test]
fn mix_applies_volume_and_pan() {
    let mut singer = Singer::new();
    singer.add_track();
    // Unity volume; track 0 panned hard left, track 1 hard right, so channel
    // 0 carries exactly track 0 and channel 1 exactly track 1.
    singer.song.tracks[0].volume = 0x10000;
    singer.song.tracks[0].pan = 0;
    singer.song.tracks[1].volume = 0x10000;
    singer.song.tracks[1].pan = 0x10000;
    singer.begin_block(2, 3);
    singer.process_track_contexts[0].buffer = vec![vec![1, 2, 3], vec![10, 20, 30]];
    singer.process_track_contexts[1].buffer = vec![vec![5, 5, 5], vec![-10, -20, -30]];
    let mut output: Vec<i64> = vec![0; 6];
    singer.mix_output(&mut output, 2);
    // Interleaved: [ch0 f0, ch1 f0, ch0 f1, ch1 f1, ch0 f2, ch1 f2].
    assert_eq!(output, vec![1, -10, 2, -20, 3, -30]);
    assert_eq!(singer.steady_time, 3);
}

#[test]
fn mix_excludes_muted_tracks_and_scales_toward_zero() {
    let mut singer = Singer::new();
    singer.add_track();
    // Track 0 at unity volume and centre pan halves each stereo channel,
    // rounding toward zero; track 1 is muted and contributes nothing.
    singer.song.tracks[0].volume = 0x10000;
    singer.song.tracks[0].pan = 0x8000;
    singer.song.tracks[1].mute = true;
    singer.begin_block(2, 2);
    singer.process_track_contexts[0].buffer = vec![vec![8, -9], vec![3, 7]];
    singer.process_track_contexts[1].buffer = vec![vec![1000, 1000], vec![1000, 1000]];
    let mut output: Vec<i64> = vec![0; 4];
    singer.mix_output(&mut output, 2);
    assert_eq!(output, vec![4, 1, -4, 3]);
}

#[test]
fn begin_block_freezes_previous_output_and_keeps_pending_events() {
    let mut singer = Singer::new();
    singer.add_module(0, Module::new("m".to_string()), 1, 1);
    singer.begin_block(2, 4);
    singer.process_track_contexts[0].set_module_output(
        0,
        vec![vec![vec![9, 9, 9, 9], vec![8, 8, 8, 8]]],
        vec![0b10],
    );
    // An event queued between blocks survives the next block's refresh and is
    // consumed (cleared) only by that block's mix.
    singer.process_track_contexts[0].event_list_input.push(Event::NoteAllOff);
    singer.begin_block(2, 4);
    let pd = &singer.process_track_contexts[0].process_data[0];
    assert_eq!(pd.buffer_out_prev[0][0], vec![9, 9, 9, 9]);
    assert_eq!(pd.buffer_out_prev[0][1], vec![8, 8, 8, 8]);
    assert_eq!(pd.constant_mask_out_prev[0], 0b10);
    assert_eq!(
        singer.process_track_contexts[0].event_list_input,
        vec![Event::NoteAllOff]
    );
    let mut output: Vec<i64> = vec![0; 8];
    singer.mix_output(&mut output, 2);
    assert!(singer.process_track_contexts[0].event_list_input.is_empty());
}

#[test]
fn stop_queues_all_notes_off_that_releases_held_keys() {
    let mut singer = Singer::new();
    singer.add_module(0, Module::new("m".to_string()), 1, 1);
    singer.play();
    singer.begin_block(2, 4);
    // Hold a note, then stop the transport: the stopping transition queues an
    // all-notes-off on every track.
    singer.process_track_contexts[0].on_keys = vec![Some(60)];
    singer.stop();
    assert_eq!(
        singer.process_track_contexts[0].event_list_input,
        vec![Event::NoteAllOff]
    );
    // Stopping again changes nothing.
    singer.stop();
    assert_eq!(
        singer.process_track_contexts[0].event_list_input,
        vec![Event::NoteAllOff]
    );
    // The next block's event delivery turns it into a release of the held key.
    singer.begin_block(2, 4);
    let track = singer.song.tracks[0].clone();
    track.compute_midi(&mut singer.process_track_contexts[0]);
    track.prepare_module_event(&mut singer.process_track_contexts[0], 0);
    assert_eq!(
        singer.process_track_contexts[0].process_data[0].events,
        vec![PluginEvent::NoteOff(60, 0, 0)]
    );
    assert!(singer.process_track_contexts[0].on_keys.is_empty());
}

#[test]
fn finalize_output_materializes_constant_channels() {
    let mut singer = Singer::new();
    singer.add_module(0, Module::new("m".to_string()), 1, 1);
    singer.begin_block(2, 4);
    // Channel 0 constant at 7, channel 1 live.
    singer.process_track_contexts[0].set_module_output(
        0,
        vec![vec![vec![7, 0, 0, 0], vec![1, 2, 3, 4]]],
        vec![0b01],
    );
    singer.process_track_contexts[0].finalize_output();
    let ctx = &singer.process_track_contexts[0];
    assert_eq!(ctx.buffer[0], vec![7, 7, 7, 7]);
    assert_eq!(ctx.buffer[1], vec![1, 2, 3, 4]);
    // A track without modules materializes silence.
    let mut singer2 = Singer::new();
    singer2.begin_block(2, 3);
    singer2.process_track_contexts[0].finalize_output();
    assert_eq!(singer2.process_track_contexts[0].buffer, vec![vec![0, 0, 0], vec![0, 0, 0]]);
}

#[test]
fn validate_rejects_out_of_range_bindings() {
    let mut singer = Singer::new();
    singer.add_module(0, Module::new("m".to_string()), 1, 1);
    // Automation point with no binding table entry.
    singer.song.tracks[0].lanes[0].put(
        0,
        LaneItem::Point { value: 1, automation_index: 0, delay: 0 },
    );
    assert_eq!(
        singer.song.validate(),
        Err(EngineError::InvalidBinding { track_index: 0, module_index: 0 })
    );
    singer.song.tracks[0].automation_params.push((0, 1));
    assert_eq!(singer.song.validate(), Ok(()));
    // A source track index past the end of the track list.
    singer.song.tracks[0].modules[0].audio_inputs.push(AudioInput {
        src_track_index: 5,
        src_module_index: 0,
        src_port_index: 0,
        dst_port_index: 0,
    });
    assert_eq!(
        singer.song.validate(),
        Err(EngineError::InvalidBinding { track_index: 0, module_index: 0 })
    );
    // An intra-track source must name an earlier module, never itself.
    singer.song.tracks[0].modules[0].audio_inputs[0] = AudioInput {
        src_track_index: 0,
        src_module_index: 0,
        src_port_index: 0,
        dst_port_index: 0,
    };
    assert!(singer.song.validate().is_err());
}

#[test]
fn track_names_count_in_hexadecimal() {
    assert_eq!(track_name(0), "T00");
    assert_eq!(track_name(1), "T01");
    assert_eq!(track_name(10), "T0A");
    assert_eq!(track_name(0x1f), "T1F");
    // Past two digits the name simply grows.
    assert_eq!(track_name(0x100), "T100");
    assert_eq!(track_name(0x1ab), "T1AB");
    let mut song = Song::new();
    song.add_track();
    song.add_track();
    assert_eq!(song.tracks[0].name, "T01");
    assert_eq!(song.tracks[1].name, "T02");
}

#[test]
fn zero_length_playing_window_translates_nothing() {
    // A block whose window has start == end while the transport plays (a
    // block too short to cover one tick) performs no translation: it must
    // not be mistaken for a loop wrap and scan the whole loop.
    let mut track = Track::new();
    track.lanes[0].put(3, note(60, 100, 0));
    let mut ctx = playing_context(0x0200, 0x0200, 0, 0x0e00);
    track.compute_midi(&mut ctx);
    assert!(ctx.event_list_input.is_empty());
    assert!(ctx.on_keys.is_empty());
}

#[test]
fn lane_put_replaces_and_note_reads_first_lane() {
    let mut track = Track::new();
    track.lanes[0].put(4, note(60, 100, 0));
    track.lanes[0].put(4, note(65, 90, 3));
    assert_eq!(track.lanes[0].items.len(), 1);
    assert_eq!(track.note(4), Some(note(65, 90, 3)));
    assert_eq!(track.note(5), None);
}

#[test]
fn transport_flags_toggle() {
    let mut singer = Singer::new();
    assert!(!singer.song.play_p);
    singer.play();
    assert!(singer.song.play_p);
    singer.play();
    assert!(singer.song.play_p);
    singer.stop();
    assert!(!singer.song.play_p);
}

#[test]
fn held_note_survives_block_boundary() {
    // A note held across a block boundary is still releasable next block.
    let mut track = Track::new();
    track.lanes[0].put(0, note(60, 100, 0));
    track.lanes[0].put(1, note_off(0));
    let mut ctx = playing_context(0, 0x100, 0, 0x0e00);
    track.compute_midi(&mut ctx);
    assert_eq!(ctx.on_keys, vec![Some(60)]);
    ctx.event_list_input.clear();
    ctx.play_position = TickRange { start: 0x100, end: 0x200 };
    track.compute_midi(&mut ctx);
    assert_eq!(ctx.event_list_input.len(), 1);
    assert!(matches!(ctx.event_list_input[0], Event::NoteOff(60, 0)));
    assert_eq!(ctx.on_keys, vec![None]);
}

#[test]
fn block_tick_count_rounds_to_nearest() {
    // bpm = 120, lpb = 4, 48000 Hz: one frame is 0.0426... ticks.
    // 100 frames are 4.266 ticks (rounds down); 60 frames are 2.56 (rounds up).
    let mut singer = Singer::new();
    singer.song.bpm = 120;
    singer.song.lpb = 4;
    singer.play();
    singer.compute_play_position(100);
    assert_eq!(singer.song.play_position, TickRange { start: 0, end: 4 });
    singer.compute_play_position(60);
    assert_eq!(singer.song.play_position, TickRange { start: 4, end: 7 });
}

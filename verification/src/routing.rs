use vstd::prelude::*;

use crate::context::{bit_set, copy_channel, ModuleProcessData, ProcessTrackContext};
use crate::track::AudioInput;

verus! {

/// Setting bit `ch` of a mask leaves every other bit as it was.
proof fn lemma_bit_or(m: u64, ch: u64)
    by (bit_vector)
    requires
        ch < 64,
    ensures
        forall|j: u64| j < 64 ==> ((m | (1u64 << ch)) & #[trigger] (1u64 << j) != 0) == (j == ch
            || (m & (1u64 << j) != 0)),
{
}

/// Clearing bit `ch` of a mask leaves every other bit as it was.
proof fn lemma_bit_and_not(m: u64, ch: u64)
    by (bit_vector)
    requires
        ch < 64,
    ensures
        forall|j: u64| j < 64 ==> ((m & !(1u64 << ch)) & #[trigger] (1u64 << j) != 0) == (j != ch
            && (m & (1u64 << j) != 0)),
{
}

/// The binding that determines an input port's content after routing: the
/// last declared binding addressing that destination port.
pub open spec fn last_binding_for(bindings: Seq<AudioInput>, port: int) -> Option<AudioInput>
    decreases bindings.len(),
{
    if bindings.len() == 0 {
        None
    } else if bindings.last().dst_port_index == port {
        Some(bindings.last())
    } else {
        last_binding_for(bindings.drop_last(), port)
    }
}

/// A binding's source indices stay inside `contexts` and its port counts.
pub open spec fn binding_in_bounds(
    contexts: Seq<ProcessTrackContext>,
    b: AudioInput,
) -> bool {
    &&& b.src_track_index < contexts.len()
    &&& b.src_module_index < contexts[b.src_track_index as int].process_data@.len()
    &&& b.src_port_index < contexts[b.src_track_index as int].process_data@[b.src_module_index as int].ports_out()
}

/// The constant mask of a binding's source port: the current block's output
/// mask for an intra-track source, the previous block's for a cross-track
/// source (the one-block-latency policy).
pub open spec fn source_mask_word(
    contexts: Seq<ProcessTrackContext>,
    track_index: int,
    b: AudioInput,
) -> u64 {
    if b.src_track_index == track_index {
        contexts[track_index].process_data@[b.src_module_index as int].constant_mask_out@[b.src_port_index as int]
    } else {
        contexts[b.src_track_index as int].process_data@[b.src_module_index as int].constant_mask_out_prev@[b.src_port_index as int]
    }
}

/// The raw stored frames of a binding's source port/channel.
pub open spec fn source_raw_channel(
    contexts: Seq<ProcessTrackContext>,
    track_index: int,
    b: AudioInput,
    ch: int,
) -> Seq<i32> {
    if b.src_track_index == track_index {
        contexts[track_index].process_data@[b.src_module_index as int].buffer_out@[b.src_port_index as int]@[ch]@
    } else {
        contexts[b.src_track_index as int].process_data@[b.src_module_index as int].buffer_out_prev@[b.src_port_index as int]@[ch]@
    }
}

/// The block of samples a binding's source port/channel logically carries:
/// the current block's output for an intra-track source, the previous
/// (completed) block's output for a cross-track source.
pub open spec fn source_view(
    contexts: Seq<ProcessTrackContext>,
    track_index: int,
    b: AudioInput,
    ch: int,
    nframes: nat,
) -> Seq<i32> {
    if b.src_track_index == track_index {
        contexts[track_index].process_data@[b.src_module_index as int].out_view(
            b.src_port_index as int,
            ch,
            nframes,
        )
    } else {
        contexts[b.src_track_index as int].process_data@[b.src_module_index as int].prev_out_view(
            b.src_port_index as int,
            ch,
            nframes,
        )
    }
}

/// Patch one audio-input binding: for every channel of the block, copy the
/// source port's constant bit and either its single representative sample
/// (constant channel) or its full frame buffer (live channel) into the
/// destination module's input port.
#[verifier::loop_isolation(false)]
fn route_one_binding(
    contexts: &mut Vec<ProcessTrackContext>,
    track_index: usize,
    module_index: usize,
    b: AudioInput,
)
    requires
        track_index < old(contexts)@.len(),
        old(contexts)@[track_index as int].wf(),
        module_index < old(contexts)@[track_index as int].process_data@.len(),
        binding_in_bounds(old(contexts)@, b),
        b.dst_port_index < old(contexts)@[track_index as int].process_data@[module_index as int].ports_in(),
        old(contexts)@[b.src_track_index as int].wf(),
        old(contexts)@[b.src_track_index as int].nchannels == old(contexts)@[track_index as int].nchannels,
        old(contexts)@[b.src_track_index as int].nframes == old(contexts)@[track_index as int].nframes,
    ensures
        final(contexts)@.len() == old(contexts)@.len(),
        forall|t: int|
            0 <= t < old(contexts)@.len() && t != track_index ==> final(contexts)@[t] == old(
                contexts,
            )@[t],
        ({
            let ctx0 = old(contexts)@[track_index as int];
            let pd0 = ctx0.process_data@[module_index as int];
            let ctx1 = final(contexts)@[track_index as int];
            let pd1 = ctx1.process_data@[module_index as int];
            let nch = ctx0.nchannels as int;
            let nframes = ctx0.nframes as nat;
            let dp = b.dst_port_index as int;
            let srcw = source_mask_word(old(contexts)@, track_index as int, b);
            &&& ctx1 == (ProcessTrackContext { process_data: ctx1.process_data, ..ctx0 })
            &&& ctx1.process_data@ == ctx0.process_data@.update(
                module_index as int,
                ModuleProcessData {
                    buffer_in: pd1.buffer_in,
                    constant_mask_in: pd1.constant_mask_in,
                    ..pd0
                },
            )
            &&& pd1.constant_mask_in@ == pd0.constant_mask_in@.update(
                dp,
                pd1.constant_mask_in@[dp],
            )
            &&& pd1.buffer_in@ == pd0.buffer_in@.update(dp, pd1.buffer_in@[dp])
            &&& forall|j: u64|
                j < 64 ==> bit_set(pd1.constant_mask_in@[dp], j) == (if (j as int) < nch {
                    bit_set(srcw, j)
                } else {
                    bit_set(pd0.constant_mask_in@[dp], j)
                })
            &&& pd1.buffer_in@[dp]@.len() == pd0.buffer_in@[dp]@.len()
            &&& forall|c: int|
                0 <= c < nch ==> #[trigger] pd1.buffer_in@[dp]@[c]@ == (if bit_set(
                    srcw,
                    c as u64,
                ) {
                    pd0.buffer_in@[dp]@[c]@.update(
                        0,
                        source_raw_channel(old(contexts)@, track_index as int, b, c)[0],
                    )
                } else {
                    source_raw_channel(old(contexts)@, track_index as int, b, c)
                })
            &&& forall|c: int|
                nch <= c < pd0.buffer_in@[dp]@.len() ==> #[trigger] pd1.buffer_in@[dp]@[c]
                    == pd0.buffer_in@[dp]@[c]
            &&& forall|c: int|
                0 <= c < nch ==> #[trigger] pd1.in_view(dp, c, nframes) == source_view(
                    old(contexts)@,
                    track_index as int,
                    b,
                    c,
                    nframes,
                )
            &&& ctx1.wf()
        }),
{
    let ghost ctx0 = old(contexts)@[track_index as int];
    let ghost pd0 = ctx0.process_data@[module_index as int];
    let ghost srcw = source_mask_word(old(contexts)@, track_index as int, b);
    let nch: usize = contexts[track_index].nchannels;
    let nframes: usize = contexts[track_index].nframes;
    let dp = b.dst_port_index;
    let same_track = b.src_track_index == track_index;
    proof {
        assert(ctx0.process_data@[module_index as int].wf(
            ctx0.nchannels as nat,
            ctx0.nframes as nat,
        ));
        assert(old(contexts)@[b.src_track_index as int].process_data@[b.src_module_index as int].wf(
            ctx0.nchannels as nat,
            ctx0.nframes as nat,
        ));
    }
    let src_word: u64 = if same_track {
        contexts[track_index].process_data[b.src_module_index].constant_mask_out[b.src_port_index]
    } else {
        contexts[b.src_track_index].process_data[b.src_module_index].constant_mask_out_prev[b.src_port_index]
    };
    proof {
        assert(pd0.constant_mask_in@.update(dp as int, pd0.constant_mask_in@[dp as int])
            =~= pd0.constant_mask_in@);
        assert(pd0.buffer_in@.update(dp as int, pd0.buffer_in@[dp as int]) =~= pd0.buffer_in@);
        assert((ModuleProcessData {
            buffer_in: pd0.buffer_in,
            constant_mask_in: pd0.constant_mask_in,
            ..pd0
        }) == pd0);
        assert(ctx0.process_data@.update(module_index as int, pd0) =~= ctx0.process_data@);
    }
    let mut ch: usize = 0;
    while ch < nch
        invariant
            ch <= nch,
            contexts@.len() == old(contexts)@.len(),
            forall|t: int|
                0 <= t < old(contexts)@.len() && t != track_index ==> contexts@[t] == old(
                    contexts,
                )@[t],
            contexts@[track_index as int] == (ProcessTrackContext {
                process_data: contexts@[track_index as int].process_data,
                ..ctx0
            }),
            contexts@[track_index as int].process_data@ == ctx0.process_data@.update(
                module_index as int,
                ModuleProcessData {
                    buffer_in: contexts@[track_index as int].process_data@[module_index as int].buffer_in,
                    constant_mask_in: contexts@[track_index as int].process_data@[module_index as int].constant_mask_in,
                    ..pd0
                },
            ),
            contexts@[track_index as int].process_data@[module_index as int].constant_mask_in@
                == pd0.constant_mask_in@.update(
                dp as int,
                contexts@[track_index as int].process_data@[module_index as int].constant_mask_in@[dp as int],
            ),
            contexts@[track_index as int].process_data@[module_index as int].buffer_in@
                == pd0.buffer_in@.update(
                dp as int,
                contexts@[track_index as int].process_data@[module_index as int].buffer_in@[dp as int],
            ),
            forall|j: u64|
                j < 64 ==> bit_set(
                    contexts@[track_index as int].process_data@[module_index as int].constant_mask_in@[dp as int],
                    j,
                ) == (if (j as int) < ch {
                    bit_set(srcw, j)
                } else {
                    bit_set(pd0.constant_mask_in@[dp as int], j)
                }),
            contexts@[track_index as int].process_data@[module_index as int].buffer_in@[dp as int]@.len()
                == pd0.buffer_in@[dp as int]@.len(),
            forall|c: int|
                0 <= c < ch
                    ==> #[trigger] contexts@[track_index as int].process_data@[module_index as int].buffer_in@[dp as int]@[c]@
                    == (if bit_set(srcw, c as u64) {
                    pd0.buffer_in@[dp as int]@[c]@.update(
                        0,
                        source_raw_channel(old(contexts)@, track_index as int, b, c)[0],
                    )
                } else {
                    source_raw_channel(old(contexts)@, track_index as int, b, c)
                }),
            forall|c: int|
                ch <= c < pd0.buffer_in@[dp as int]@.len()
                    ==> #[trigger] contexts@[track_index as int].process_data@[module_index as int].buffer_in@[dp as int]@[c]
                    == pd0.buffer_in@[dp as int]@[c],
        decreases nch - ch,
    {
        proof {
            lemma_bit_or(
                contexts@[track_index as int].process_data@[module_index as int].constant_mask_in@[dp as int],
                ch as u64,
            );
            lemma_bit_and_not(
                contexts@[track_index as int].process_data@[module_index as int].constant_mask_in@[dp as int],
                ch as u64,
            );
        }
        let ghost pd_before = contexts@[track_index as int].process_data@[module_index as int];
        if src_word & (1u64 << (ch as u64)) != 0 {
            let s: i32 = if same_track {
                contexts[track_index].process_data[b.src_module_index].buffer_out[b.src_port_index][ch][0]
            } else {
                contexts[b.src_track_index].process_data[b.src_module_index].buffer_out_prev[b.src_port_index][ch][0]
            };
            let w: u64 = contexts[track_index].process_data[module_index].constant_mask_in[dp];
            contexts[track_index].process_data[module_index].constant_mask_in.set(
                dp,
                w | (1u64 << (ch as u64)),
            );
            contexts[track_index].process_data[module_index].buffer_in[dp][ch].set(0, s);
            proof {
                let pdn = contexts@[track_index as int].process_data@[module_index as int];
                let dpi = dp as int;
                assert(bit_set(srcw, ch as u64));
                assert(pdn.constant_mask_in@[dpi] == w | (1u64 << (ch as u64)));
                lemma_bit_or(w, ch as u64);
                assert forall|j: u64| j < 64 implies bit_set(pdn.constant_mask_in@[dpi], j) == (
                if (j as int) < ch + 1 {
                    bit_set(srcw, j)
                } else {
                    bit_set(pd0.constant_mask_in@[dpi], j)
                }) by {
                    assert((pdn.constant_mask_in@[dpi] & (1u64 << j) != 0) == (j == ch as u64 || (
                    w & (1u64 << j) != 0)));
                    assert(w == pd_before.constant_mask_in@[dpi]);
                    assert(bit_set(pd_before.constant_mask_in@[dpi], j) == (if (j as int) < ch {
                        bit_set(srcw, j)
                    } else {
                        bit_set(pd0.constant_mask_in@[dpi], j)
                    }));
                }
                assert(s == source_raw_channel(old(contexts)@, track_index as int, b, ch as int)[0]);
                assert(pdn.constant_mask_in@ =~= pd0.constant_mask_in@.update(
                    dpi,
                    pdn.constant_mask_in@[dpi],
                ));
                assert(pdn.buffer_in@ =~= pd0.buffer_in@.update(dpi, pdn.buffer_in@[dpi]));
                assert(contexts@[track_index as int].process_data@ =~= ctx0.process_data@.update(
                    module_index as int,
                    ModuleProcessData {
                        buffer_in: pdn.buffer_in,
                        constant_mask_in: pdn.constant_mask_in,
                        ..pd0
                    },
                ));
            }
        } else {
            let data: Vec<i32> = if same_track {
                copy_channel(
                    &contexts[track_index].process_data[b.src_module_index].buffer_out[b.src_port_index][ch],
                )
            } else {
                copy_channel(
                    &contexts[b.src_track_index].process_data[b.src_module_index].buffer_out_prev[b.src_port_index][ch],
                )
            };
            let w: u64 = contexts[track_index].process_data[module_index].constant_mask_in[dp];
            contexts[track_index].process_data[module_index].constant_mask_in.set(
                dp,
                w & !(1u64 << (ch as u64)),
            );
            contexts[track_index].process_data[module_index].buffer_in[dp].set(ch, data);
            proof {
                let pdn = contexts@[track_index as int].process_data@[module_index as int];
                let dpi = dp as int;
                assert(!bit_set(srcw, ch as u64));
                assert(pdn.constant_mask_in@[dpi] == w & !(1u64 << (ch as u64)));
                lemma_bit_and_not(w, ch as u64);
                assert forall|j: u64| j < 64 implies bit_set(pdn.constant_mask_in@[dpi], j) == (
                if (j as int) < ch + 1 {
                    bit_set(srcw, j)
                } else {
                    bit_set(pd0.constant_mask_in@[dpi], j)
                }) by {
                    assert((pdn.constant_mask_in@[dpi] & (1u64 << j) != 0) == (j != ch as u64 && (
                    w & (1u64 << j) != 0)));
                    assert(w == pd_before.constant_mask_in@[dpi]);
                    assert(bit_set(pd_before.constant_mask_in@[dpi], j) == (if (j as int) < ch {
                        bit_set(srcw, j)
                    } else {
                        bit_set(pd0.constant_mask_in@[dpi], j)
                    }));
                }
                assert(pdn.buffer_in@[dpi]@[ch as int]@ == source_raw_channel(
                    old(contexts)@,
                    track_index as int,
                    b,
                    ch as int,
                ));
                assert(pdn.constant_mask_in@ =~= pd0.constant_mask_in@.update(
                    dpi,
                    pdn.constant_mask_in@[dpi],
                ));
                assert(pdn.buffer_in@ =~= pd0.buffer_in@.update(dpi, pdn.buffer_in@[dpi]));
                assert(contexts@[track_index as int].process_data@ =~= ctx0.process_data@.update(
                    module_index as int,
                    ModuleProcessData {
                        buffer_in: pdn.buffer_in,
                        constant_mask_in: pdn.constant_mask_in,
                        ..pd0
                    },
                ));
            }
        }
        ch = ch + 1;
    }
    proof {
        let ctx1 = contexts@[track_index as int];
        let pd1 = ctx1.process_data@[module_index as int];
        let dpi = dp as int;
        let nfr = ctx0.nframes as nat;
        assert forall|c: int| 0 <= c < nch implies #[trigger] pd1.in_view(dpi, c, nfr)
            == source_view(old(contexts)@, track_index as int, b, c, nfr) by {
            if bit_set(srcw, c as u64) {
                assert(pd1.in_view(dpi, c, nfr) =~= source_view(
                    old(contexts)@,
                    track_index as int,
                    b,
                    c,
                    nfr,
                ));
            } else {
                assert(pd1.in_view(dpi, c, nfr) =~= source_view(
                    old(contexts)@,
                    track_index as int,
                    b,
                    c,
                    nfr,
                ));
            }
        }
        assert(ctx1.wf());
    }
}

/// Processing one more binding only changes which binding is decisive for its
/// own destination port.
proof fn lemma_last_binding_take_step(bindings: Seq<AudioInput>, i: int, port: int)
    requires
        0 <= i < bindings.len(),
    ensures
        last_binding_for(bindings.take(i + 1), port) == (if bindings[i].dst_port_index == port {
            Some(bindings[i])
        } else {
            last_binding_for(bindings.take(i), port)
        }),
{
    assert(bindings.take(i + 1).last() == bindings[i]);
    assert(bindings.take(i + 1).drop_last() =~= bindings.take(i));
}

impl crate::track::Track {
    /// Resolve this module's declared audio inputs before its native
    /// processing call: for every binding, in declaration order, copy the
    /// source port's constant-signal bits and samples into the destination
    /// input port. An intra-track source feeds its current-block output; a
    /// cross-track source feeds the output it completed for the previous
    /// block, so tracks can render in any order within a block.
    ///
    /// After routing, each input port carries, channel for channel, exactly
    /// the block of samples its last declared binding's source logically
    /// carries: a constant channel arrives as a set mask bit plus the
    /// representative sample, a live channel as a full frame copy, and the
    /// logical contents equal a direct full copy of the source either way.
    #[verifier::loop_isolation(false)]
    #[verifier::rlimit(60)]
    pub fn prepare_module_audio(
        &self,
        track_index: usize,
        contexts: &mut Vec<ProcessTrackContext>,
        module_index: usize,
    )
        requires
            track_index < old(contexts)@.len(),
            module_index < self.modules@.len(),
            old(contexts)@[track_index as int].process_data@.len() == self.modules@.len(),
            forall|t: int|
                0 <= t < old(contexts)@.len() ==> (#[trigger] old(contexts)@[t]).wf() && old(
                    contexts,
                )@[t].nchannels == old(contexts)@[track_index as int].nchannels && old(
                    contexts,
                )@[t].nframes == old(contexts)@[track_index as int].nframes,
            forall|i: int|
                0 <= i < self.modules@[module_index as int].audio_inputs@.len()
                    ==> binding_in_bounds(
                    old(contexts)@,
                    #[trigger] self.modules@[module_index as int].audio_inputs@[i],
                ) && self.modules@[module_index as int].audio_inputs@[i].dst_port_index < old(
                    contexts,
                )@[track_index as int].process_data@[module_index as int].ports_in(),
        ensures
            final(contexts)@.len() == old(contexts)@.len(),
            forall|t: int|
                0 <= t < old(contexts)@.len() && t != track_index ==> final(contexts)@[t] == old(
                    contexts,
                )@[t],
            final(contexts)@[track_index as int] == (ProcessTrackContext {
                process_data: final(contexts)@[track_index as int].process_data,
                ..old(contexts)@[track_index as int]
            }),
            final(contexts)@[track_index as int].process_data@ == old(
                contexts,
            )@[track_index as int].process_data@.update(
                module_index as int,
                ModuleProcessData {
                    buffer_in: final(contexts)@[track_index as int].process_data@[module_index as int].buffer_in,
                    constant_mask_in: final(contexts)@[track_index as int].process_data@[module_index as int].constant_mask_in,
                    ..old(contexts)@[track_index as int].process_data@[module_index as int]
                },
            ),
            final(contexts)@[track_index as int].wf(),
            forall|p: int|
                0 <= p < old(contexts)@[track_index as int].process_data@[module_index as int].ports_in()
                    && last_binding_for(self.modules@[module_index as int].audio_inputs@, p)
                    is None
                    ==> #[trigger] final(contexts)@[track_index as int].process_data@[module_index as int].constant_mask_in@[p]
                    == old(contexts)@[track_index as int].process_data@[module_index as int].constant_mask_in@[p]
                    && final(contexts)@[track_index as int].process_data@[module_index as int].buffer_in@[p]
                    == old(contexts)@[track_index as int].process_data@[module_index as int].buffer_in@[p],
            forall|p: int, c: int|
                0 <= p < old(contexts)@[track_index as int].process_data@[module_index as int].ports_in()
                    && 0 <= c < old(contexts)@[track_index as int].nchannels && last_binding_for(
                    self.modules@[module_index as int].audio_inputs@,
                    p,
                ) is Some
                    ==> #[trigger] final(contexts)@[track_index as int].process_data@[module_index as int].in_view(
                    p,
                    c,
                    old(contexts)@[track_index as int].nframes as nat,
                ) == source_view(
                    old(contexts)@,
                    track_index as int,
                    last_binding_for(self.modules@[module_index as int].audio_inputs@, p)->Some_0,
                    c,
                    old(contexts)@[track_index as int].nframes as nat,
                ),
            forall|p: int, c: int|
                0 <= p < old(contexts)@[track_index as int].process_data@[module_index as int].ports_in()
                    && 0 <= c < old(contexts)@[track_index as int].nchannels && last_binding_for(
                    self.modules@[module_index as int].audio_inputs@,
                    p,
                ) is Some ==> #[trigger] bit_set(
                    final(contexts)@[track_index as int].process_data@[module_index as int].constant_mask_in@[p],
                    c as u64,
                ) == bit_set(
                    source_mask_word(
                        old(contexts)@,
                        track_index as int,
                        last_binding_for(
                            self.modules@[module_index as int].audio_inputs@,
                            p,
                        )->Some_0,
                    ),
                    c as u64,
                ),
    {
        let ghost ctx0 = old(contexts)@[track_index as int];
        let ghost pd0 = ctx0.process_data@[module_index as int];
        let ghost bindings = self.modules@[module_index as int].audio_inputs@;
        let nbind = self.modules[module_index].audio_inputs.len();
        proof {
            assert(ctx0.wf());
            assert(pd0.wf(ctx0.nchannels as nat, ctx0.nframes as nat));
            assert(pd0.buffer_in@.len() == pd0.ports_in());
            assert(pd0 == (ModuleProcessData {
                buffer_in: pd0.buffer_in,
                constant_mask_in: pd0.constant_mask_in,
                ..pd0
            }));
            assert(ctx0.process_data@.update(module_index as int, pd0) =~= ctx0.process_data@);
            assert(bindings.take(0) =~= Seq::<AudioInput>::empty());
        }
        let mut bi: usize = 0;
        while bi < nbind
            invariant
                bi <= nbind,
                contexts@.len() == old(contexts)@.len(),
                forall|t: int|
                    0 <= t < old(contexts)@.len() && t != track_index ==> contexts@[t] == old(
                        contexts,
                    )@[t],
                contexts@[track_index as int] == (ProcessTrackContext {
                    process_data: contexts@[track_index as int].process_data,
                    ..ctx0
                }),
                contexts@[track_index as int].process_data@ == ctx0.process_data@.update(
                    module_index as int,
                    ModuleProcessData {
                        buffer_in: contexts@[track_index as int].process_data@[module_index as int].buffer_in,
                        constant_mask_in: contexts@[track_index as int].process_data@[module_index as int].constant_mask_in,
                        ..pd0
                    },
                ),
                contexts@[track_index as int].wf(),
                contexts@[track_index as int].process_data@[module_index as int].constant_mask_in@.len()
                    == pd0.ports_in(),
                contexts@[track_index as int].process_data@[module_index as int].buffer_in@.len()
                    == pd0.buffer_in@.len(),
                forall|p: int|
                    0 <= p < pd0.ports_in() && last_binding_for(bindings.take(bi as int), p)
                        is None
                        ==> #[trigger] contexts@[track_index as int].process_data@[module_index as int].constant_mask_in@[p]
                        == pd0.constant_mask_in@[p]
                        && contexts@[track_index as int].process_data@[module_index as int].buffer_in@[p]
                        == pd0.buffer_in@[p],
                forall|p: int, c: int|
                    0 <= p < pd0.ports_in() && 0 <= c < ctx0.nchannels && last_binding_for(
                        bindings.take(bi as int),
                        p,
                    ) is Some
                        ==> #[trigger] contexts@[track_index as int].process_data@[module_index as int].in_view(
                        p,
                        c,
                        ctx0.nframes as nat,
                    ) == source_view(
                        old(contexts)@,
                        track_index as int,
                        last_binding_for(bindings.take(bi as int), p)->Some_0,
                        c,
                        ctx0.nframes as nat,
                    ) && bit_set(
                        contexts@[track_index as int].process_data@[module_index as int].constant_mask_in@[p],
                        c as u64,
                    ) == bit_set(
                        source_mask_word(
                            old(contexts)@,
                            track_index as int,
                            last_binding_for(bindings.take(bi as int), p)->Some_0,
                        ),
                        c as u64,
                    ),
            decreases nbind - bi,
        {
            let b = self.modules[module_index].audio_inputs[bi];
            let ghost ctxs_b = contexts@;
            let ghost pd_b = ctxs_b[track_index as int].process_data@[module_index as int];
            proof {
                assert(b == bindings[bi as int]);
                assert(binding_in_bounds(old(contexts)@, b));
                assert(b.dst_port_index < pd0.ports_in());
                assert(binding_in_bounds(ctxs_b, b));
                assert(ctxs_b[b.src_track_index as int].wf());
                assert(source_mask_word(ctxs_b, track_index as int, b) == source_mask_word(
                    old(contexts)@,
                    track_index as int,
                    b,
                ));
            }
            route_one_binding(contexts, track_index, module_index, b);
            proof {
                let pdn = contexts@[track_index as int].process_data@[module_index as int];
                let nfr = ctx0.nframes as nat;
                assert((ModuleProcessData {
                    buffer_in: pdn.buffer_in,
                    constant_mask_in: pdn.constant_mask_in,
                    ..pd_b
                }) == (ModuleProcessData {
                    buffer_in: pdn.buffer_in,
                    constant_mask_in: pdn.constant_mask_in,
                    ..pd0
                }));
                assert(contexts@[track_index as int].process_data@ =~= ctx0.process_data@.update(
                    module_index as int,
                    ModuleProcessData {
                        buffer_in: pdn.buffer_in,
                        constant_mask_in: pdn.constant_mask_in,
                        ..pd0
                    },
                ));
                assert forall|c: int| 0 <= c < ctx0.nchannels implies source_view(
                    ctxs_b,
                    track_index as int,
                    b,
                    c,
                    nfr,
                ) == source_view(old(contexts)@, track_index as int, b, c, nfr) by {
                    assert(source_raw_channel(ctxs_b, track_index as int, b, c)
                        == source_raw_channel(old(contexts)@, track_index as int, b, c));
                }
                assert forall|p: int|
                    0 <= p < pd0.ports_in() && last_binding_for(bindings.take(bi as int + 1), p)
                        is None implies pdn.constant_mask_in@[p] == pd0.constant_mask_in@[p]
                    && pdn.buffer_in@[p] == pd0.buffer_in@[p] by {
                    lemma_last_binding_take_step(bindings, bi as int, p);
                    assert(p != b.dst_port_index);
                    assert(last_binding_for(bindings.take(bi as int), p) is None);
                    assert(pdn.constant_mask_in@[p] == pd_b.constant_mask_in@[p]);
                    assert(pdn.buffer_in@[p] == pd_b.buffer_in@[p]);
                }
                assert forall|p: int, c: int|
                    0 <= p < pd0.ports_in() && 0 <= c < ctx0.nchannels && last_binding_for(
                        bindings.take(bi as int + 1),
                        p,
                    ) is Some implies pdn.in_view(p, c, nfr) == source_view(
                    old(contexts)@,
                    track_index as int,
                    last_binding_for(bindings.take(bi as int + 1), p)->Some_0,
                    c,
                    nfr,
                ) && bit_set(pdn.constant_mask_in@[p], c as u64) == bit_set(
                    source_mask_word(
                        old(contexts)@,
                        track_index as int,
                        last_binding_for(bindings.take(bi as int + 1), p)->Some_0,
                    ),
                    c as u64,
                ) by {
                    lemma_last_binding_take_step(bindings, bi as int, p);
                    if p == b.dst_port_index {
                        assert(pdn.in_view(p, c, nfr) == source_view(
                            ctxs_b,
                            track_index as int,
                            b,
                            c,
                            nfr,
                        ));
                        assert(source_view(ctxs_b, track_index as int, b, c, nfr) == source_view(
                            old(contexts)@,
                            track_index as int,
                            b,
                            c,
                            nfr,
                        ));
                        assert(bit_set(pdn.constant_mask_in@[p], c as u64) == bit_set(
                            source_mask_word(ctxs_b, track_index as int, b),
                            c as u64,
                        ));
                    } else {
                        assert(last_binding_for(bindings.take(bi as int), p) is Some);
                        assert(pdn.constant_mask_in@[p] == pd_b.constant_mask_in@[p]);
                        assert(pdn.buffer_in@[p] == pd_b.buffer_in@[p]);
                        assert(pdn.in_view(p, c, nfr) =~= pd_b.in_view(p, c, nfr));
                    }
                }
            }
            bi = bi + 1;
        }
        proof {
            assert(bindings.take(nbind as int) =~= bindings);
            let pdn = contexts@[track_index as int].process_data@[module_index as int];
            let nfr = ctx0.nframes as nat;
            assert forall|p: int|
                0 <= p < pd0.ports_in() && last_binding_for(bindings, p) is None implies
                pdn.constant_mask_in@[p] == pd0.constant_mask_in@[p] && pdn.buffer_in@[p]
                == pd0.buffer_in@[p] by {
                assert(last_binding_for(bindings.take(nbind as int), p) == last_binding_for(
                    bindings,
                    p,
                ));
            }
            assert forall|p: int, c: int|
                0 <= p < old(contexts)@[track_index as int].process_data@[module_index as int].ports_in()
                    && 0 <= c < old(contexts)@[track_index as int].nchannels && last_binding_for(
                    self.modules@[module_index as int].audio_inputs@,
                    p,
                ) is Some implies #[trigger] contexts@[track_index as int].process_data@[module_index as int].in_view(
                p,
                c,
                old(contexts)@[track_index as int].nframes as nat,
            ) == source_view(
                old(contexts)@,
                track_index as int,
                last_binding_for(self.modules@[module_index as int].audio_inputs@, p)->Some_0,
                c,
                old(contexts)@[track_index as int].nframes as nat,
            ) && bit_set(
                contexts@[track_index as int].process_data@[module_index as int].constant_mask_in@[p],
                c as u64,
            ) == bit_set(
                source_mask_word(
                    old(contexts)@,
                    track_index as int,
                    last_binding_for(self.modules@[module_index as int].audio_inputs@, p)->Some_0,
                ),
                c as u64,
            ) by {
                assert(last_binding_for(bindings.take(nbind as int), p) == last_binding_for(
                    bindings,
                    p,
                ));
                assert(pdn.in_view(p, c, nfr) == source_view(
                    old(contexts)@,
                    track_index as int,
                    last_binding_for(bindings.take(nbind as int), p)->Some_0,
                    c,
                    nfr,
                ));
            }
            assert forall|p: int, c: int|
                0 <= p < pd0.ports_in() && 0 <= c < ctx0.nchannels && last_binding_for(
                    bindings,
                    p,
                ) is Some implies #[trigger] bit_set(
                contexts@[track_index as int].process_data@[module_index as int].constant_mask_in@[p],
                c as u64,
            ) == bit_set(
                source_mask_word(
                    old(contexts)@,
                    track_index as int,
                    last_binding_for(bindings, p)->Some_0,
                ),
                c as u64,
            ) by {
                assert(last_binding_for(bindings.take(nbind as int), p) == last_binding_for(
                    bindings,
                    p,
                ));
                assert(pdn.in_view(p, c, nfr) == source_view(
                    old(contexts)@,
                    track_index as int,
                    last_binding_for(bindings.take(nbind as int), p)->Some_0,
                    c,
                    nfr,
                ));
            }
        }
    }
}

} // verus!

use vstd::prelude::*;

use crate::event::{Event, PluginEvent};
use crate::time::TickRange;

verus! {

/// Whether channel bit `ch` is set in a per-port constant-signal mask.
pub open spec fn bit_set(mask: u64, ch: u64) -> bool {
    mask & (1u64 << ch) != 0
}

/// Per-module, per-block audio and event state.
///
/// Buffers are indexed `[port][channel][frame]`. A set bit `ch` in a
/// constant mask declares that the whole block on `[port][ch]` is the single
/// sample stored at frame 0, so only that sample is meaningful; a clear bit
/// means the full frame range is meaningful. `buffer_out_prev` and
/// `constant_mask_out_prev` hold the module's completed output from the
/// previous block; cross-track routing reads them, which is what gives the
/// engine its one-block-latency policy for inter-track feeds.
#[derive(Clone, Debug)]
pub struct ModuleProcessData {
    pub buffer_in: Vec<Vec<Vec<i32>>>,
    pub constant_mask_in: Vec<u64>,
    pub buffer_out: Vec<Vec<Vec<i32>>>,
    pub constant_mask_out: Vec<u64>,
    pub buffer_out_prev: Vec<Vec<Vec<i32>>>,
    pub constant_mask_out_prev: Vec<u64>,
    /// Events prepared for this module's plugin instance this block.
    pub events: Vec<PluginEvent>,
}

/// Dimension discipline for one `[port][channel][frame]` buffer.
pub open spec fn buffer_wf(buffer: Seq<Vec<Vec<i32>>>, ports: nat, nchannels: nat, nframes: nat) -> bool {
    &&& buffer.len() == ports
    &&& forall|p: int|
        0 <= p < buffer.len() ==> #[trigger] buffer[p]@.len() == nchannels
    &&& forall|p: int, c: int|
        0 <= p < buffer.len() && 0 <= c < nchannels ==> #[trigger] buffer[p]@[c]@.len() == nframes
}

impl ModuleProcessData {
    /// How many input ports this module's process data was created with.
    pub open spec fn ports_in(self) -> nat {
        self.constant_mask_in@.len()
    }

    /// How many output ports this module's process data was created with.
    pub open spec fn ports_out(self) -> nat {
        self.constant_mask_out@.len()
    }

    /// All buffers sized consistently for `nchannels` channels of `nframes`
    /// frames.
    pub open spec fn wf(self, nchannels: nat, nframes: nat) -> bool {
        &&& buffer_wf(self.buffer_in@, self.ports_in(), nchannels, nframes)
        &&& buffer_wf(self.buffer_out@, self.ports_out(), nchannels, nframes)
        &&& buffer_wf(self.buffer_out_prev@, self.ports_out(), nchannels, nframes)
        &&& self.constant_mask_out_prev@.len() == self.ports_out()
    }

    /// The block of samples an input port/channel logically carries: the
    /// frame-0 sample broadcast over the block when its constant bit is set,
    /// the stored frames otherwise.
    pub open spec fn in_view(self, port: int, ch: int, nframes: nat) -> Seq<i32> {
        if bit_set(self.constant_mask_in@[port], ch as u64) {
            Seq::new(nframes, |i: int| self.buffer_in@[port]@[ch]@[0])
        } else {
            self.buffer_in@[port]@[ch]@
        }
    }

    /// The block of samples an output port/channel logically carries this
    /// block.
    pub open spec fn out_view(self, port: int, ch: int, nframes: nat) -> Seq<i32> {
        if bit_set(self.constant_mask_out@[port], ch as u64) {
            Seq::new(nframes, |i: int| self.buffer_out@[port]@[ch]@[0])
        } else {
            self.buffer_out@[port]@[ch]@
        }
    }

    /// The block of samples an output port/channel logically carried in the
    /// previous, completed block.
    pub open spec fn prev_out_view(self, port: int, ch: int, nframes: nat) -> Seq<i32> {
        if bit_set(self.constant_mask_out_prev@[port], ch as u64) {
            Seq::new(nframes, |i: int| self.buffer_out_prev@[port]@[ch]@[0])
        } else {
            self.buffer_out_prev@[port]@[ch]@
        }
    }
}

/// A channel whose constant bit is set logically carries its frame-0 sample
/// broadcast across the full frame range of the block.
pub proof fn lemma_constant_mask_broadcast(pd: ModuleProcessData, port: int, ch: int, nframes: nat)
    requires
        bit_set(pd.constant_mask_in@[port], ch as u64),
    ensures
        pd.in_view(port, ch, nframes).len() == nframes,
        forall|f: int|
            0 <= f < nframes ==> pd.in_view(port, ch, nframes)[f] == pd.buffer_in@[port]@[ch]@[0],
{
}

/// A fresh all-zero channel of `nframes` samples.
fn zero_channel(nframes: usize) -> (r: Vec<i32>)
    ensures
        r@.len() == nframes,
        forall|f: int| 0 <= f < nframes ==> r@[f] == 0i32,
{
    let mut r: Vec<i32> = Vec::new();
    let mut f: usize = 0;
    while f < nframes
        invariant
            f <= nframes,
            r@.len() == f,
            forall|k: int| 0 <= k < f ==> r@[k] == 0i32,
        decreases nframes - f,
    {
        r.push(0);
        f = f + 1;
    }
    r
}

/// Copy one channel's frames into a fresh buffer.
pub(crate) fn copy_channel(src: &Vec<i32>) -> (r: Vec<i32>)
    ensures
        r@ == src@,
{
    let mut r: Vec<i32> = Vec::new();
    let mut i: usize = 0;
    while i < src.len()
        invariant
            i <= src@.len(),
            r@ == src@.subrange(0, i as int),
        decreases src@.len() - i,
    {
        r.push(src[i]);
        proof {
            assert(r@ =~= src@.subrange(0, i as int + 1));
        }
        i = i + 1;
    }
    proof {
        assert(r@ =~= src@);
    }
    r
}

/// One sample repeated over a whole block of `nframes` frames.
fn broadcast_channel(sample: i32, nframes: usize) -> (r: Vec<i32>)
    ensures
        r@ == Seq::new(nframes as nat, |i: int| sample),
{
    let mut r: Vec<i32> = Vec::new();
    let mut f: usize = 0;
    while f < nframes
        invariant
            f <= nframes,
            r@.len() == f,
            forall|k: int| 0 <= k < f ==> r@[k] == sample,
        decreases nframes - f,
    {
        r.push(sample);
        f = f + 1;
    }
    proof {
        assert(r@ =~= Seq::new(nframes as nat, |i: int| sample));
    }
    r
}

/// Grow or shrink one channel to exactly `nframes` samples, keeping the
/// stored frames where the length already fits.
#[verifier::loop_isolation(false)]
fn fit_channel(v: &mut Vec<i32>, nframes: usize)
    ensures
        final(v)@.len() == nframes,
        old(v)@.len() == nframes ==> final(v)@ == old(v)@,
{
    while v.len() > nframes
        invariant
            old(v)@.len() == nframes ==> v@ == old(v)@,
        decreases v@.len(),
    {
        v.pop();
    }
    while v.len() < nframes
        invariant
            v@.len() <= nframes,
            old(v)@.len() == nframes ==> v@ == old(v)@,
        decreases nframes - v@.len(),
    {
        v.push(0);
    }
}

/// Grow or shrink a `[channel][frame]` buffer to the block's dimensions,
/// keeping the stored samples where the dimensions already fit.
#[verifier::loop_isolation(false)]
fn fit_buffer(buf: &mut Vec<Vec<i32>>, nchannels: usize, nframes: usize)
    ensures
        final(buf)@.len() == nchannels,
        forall|c: int| 0 <= c < nchannels ==> #[trigger] final(buf)@[c]@.len() == nframes,
        (old(buf)@.len() == nchannels && forall|c: int|
            0 <= c < nchannels ==> #[trigger] old(buf)@[c]@.len() == nframes) ==> forall|c: int|
            0 <= c < nchannels ==> #[trigger] final(buf)@[c]@ == old(buf)@[c]@,
{
    let ghost buf0 = old(buf)@;
    let ghost fits = buf0.len() == nchannels && forall|c: int|
        0 <= c < nchannels ==> #[trigger] buf0[c]@.len() == nframes;
    while buf.len() > nchannels
        invariant
            buf@.len() <= buf0.len(),
            fits ==> buf@ == buf0,
        decreases buf@.len(),
    {
        buf.pop();
    }
    while buf.len() < nchannels
        invariant
            buf@.len() <= nchannels,
            fits ==> buf@ == buf0,
        decreases nchannels - buf@.len(),
    {
        buf.push(zero_channel(nframes));
    }
    let mut c: usize = 0;
    while c < nchannels
        invariant
            c <= nchannels,
            buf@.len() == nchannels,
            fits ==> forall|k: int| 0 <= k < nchannels ==> #[trigger] buf@[k]@ == buf0[k]@,
            forall|k: int| 0 <= k < c ==> #[trigger] buf@[k]@.len() == nframes,
        decreases nchannels - c,
    {
        proof {
            if fits {
                assert(buf0[c as int]@.len() == nframes);
                assert(buf@[c as int]@ == buf0[c as int]@);
            }
        }
        fit_channel(&mut buf[c], nframes);
        c = c + 1;
    }
}

/// Grow or shrink a `[port][channel][frame]` buffer to the block's
/// dimensions, keeping the port count and, where the dimensions already fit,
/// the stored samples.
#[verifier::loop_isolation(false)]
fn fit_ports(buf: &mut Vec<Vec<Vec<i32>>>, nchannels: usize, nframes: usize)
    ensures
        final(buf)@.len() == old(buf)@.len(),
        buffer_wf(final(buf)@, old(buf)@.len() as nat, nchannels as nat, nframes as nat),
        buffer_wf(old(buf)@, old(buf)@.len() as nat, nchannels as nat, nframes as nat)
            ==> forall|p: int, c: int|
            0 <= p < old(buf)@.len() && 0 <= c < nchannels
                ==> #[trigger] final(buf)@[p]@[c]@ == old(buf)@[p]@[c]@,
{
    let ghost buf0 = old(buf)@;
    let ghost fits = buffer_wf(buf0, buf0.len() as nat, nchannels as nat, nframes as nat);
    let nports = buf.len();
    let mut p: usize = 0;
    while p < nports
        invariant
            p <= nports,
            nports == buf0.len(),
            buf@.len() == nports,
            fits ==> forall|k: int, c: int|
                0 <= k < p && 0 <= c < nchannels ==> #[trigger] buf@[k]@[c]@ == buf0[k]@[c]@,
            forall|k: int| 0 <= k < p ==> #[trigger] buf@[k]@.len() == nchannels,
            forall|k: int, c: int|
                0 <= k < p && 0 <= c < nchannels ==> #[trigger] buf@[k]@[c]@.len() == nframes,
            forall|k: int| p <= k < nports ==> #[trigger] buf@[k] == buf0[k],
        decreases nports - p,
    {
        proof {
            if fits {
                assert(buf0[p as int]@.len() == nchannels);
                assert(forall|c: int|
                    0 <= c < nchannels ==> #[trigger] buf0[p as int]@[c]@.len() == nframes);
            }
            assert(buf@[p as int] == buf0[p as int]);
        }
        fit_buffer(&mut buf[p], nchannels, nframes);
        p = p + 1;
    }
}

impl ModuleProcessData {
    /// Port counts consistent between each buffer and its constant mask.
    pub open spec fn ports_shape(self) -> bool {
        &&& self.buffer_in@.len() == self.ports_in()
        &&& self.buffer_out@.len() == self.ports_out()
        &&& self.buffer_out_prev@.len() == self.ports_out()
        &&& self.constant_mask_out_prev@.len() == self.ports_out()
    }

    /// Fresh process data for a module instance with the given port shape:
    /// all-zero buffers, all-clear constant masks, no events.
    pub fn new(ports_in: usize, ports_out: usize, nchannels: usize, nframes: usize) -> (pd:
        ModuleProcessData)
        ensures
            pd.ports_in() == ports_in,
            pd.ports_out() == ports_out,
            pd.ports_shape(),
            pd.wf(nchannels as nat, nframes as nat),
            pd.events@.len() == 0,
            forall|p: int| 0 <= p < ports_in ==> pd.constant_mask_in@[p] == 0u64,
            forall|p: int| 0 <= p < ports_out ==> pd.constant_mask_out@[p] == 0u64,
            forall|p: int| 0 <= p < ports_out ==> pd.constant_mask_out_prev@[p] == 0u64,
    {
        let mut buffer_in: Vec<Vec<Vec<i32>>> = Vec::new();
        let mut p: usize = 0;
        while p < ports_in
            invariant
                p <= ports_in,
                buffer_in@.len() == p,
            decreases ports_in - p,
        {
            buffer_in.push(Vec::new());
            p = p + 1;
        }
        fit_ports(&mut buffer_in, nchannels, nframes);
        let mut buffer_out: Vec<Vec<Vec<i32>>> = Vec::new();
        let mut q: usize = 0;
        while q < ports_out
            invariant
                q <= ports_out,
                buffer_out@.len() == q,
            decreases ports_out - q,
        {
            buffer_out.push(Vec::new());
            q = q + 1;
        }
        fit_ports(&mut buffer_out, nchannels, nframes);
        let mut buffer_out_prev: Vec<Vec<Vec<i32>>> = Vec::new();
        let mut q2: usize = 0;
        while q2 < ports_out
            invariant
                q2 <= ports_out,
                buffer_out_prev@.len() == q2,
            decreases ports_out - q2,
        {
            buffer_out_prev.push(Vec::new());
            q2 = q2 + 1;
        }
        fit_ports(&mut buffer_out_prev, nchannels, nframes);
        let mut constant_mask_in: Vec<u64> = Vec::new();
        let mut r1: usize = 0;
        while r1 < ports_in
            invariant
                r1 <= ports_in,
                constant_mask_in@.len() == r1,
                forall|k: int| 0 <= k < r1 ==> constant_mask_in@[k] == 0u64,
            decreases ports_in - r1,
        {
            constant_mask_in.push(0);
            r1 = r1 + 1;
        }
        let mut constant_mask_out: Vec<u64> = Vec::new();
        let mut r2: usize = 0;
        while r2 < ports_out
            invariant
                r2 <= ports_out,
                constant_mask_out@.len() == r2,
                forall|k: int| 0 <= k < r2 ==> constant_mask_out@[k] == 0u64,
            decreases ports_out - r2,
        {
            constant_mask_out.push(0);
            r2 = r2 + 1;
        }
        let mut constant_mask_out_prev: Vec<u64> = Vec::new();
        let mut r3: usize = 0;
        while r3 < ports_out
            invariant
                r3 <= ports_out,
                constant_mask_out_prev@.len() == r3,
                forall|k: int| 0 <= k < r3 ==> constant_mask_out_prev@[k] == 0u64,
            decreases ports_out - r3,
        {
            constant_mask_out_prev.push(0);
            r3 = r3 + 1;
        }
        ModuleProcessData {
            buffer_in,
            constant_mask_in,
            buffer_out,
            constant_mask_out,
            buffer_out_prev,
            constant_mask_out_prev,
            events: Vec::new(),
        }
    }
}

/// Per-track render state, rebuilt (but not reallocated) every block.
///
/// The track that owns a context is the only writer during its own render
/// step; other tracks read only the `*_prev` module outputs, which the block
/// driver froze before fan-out.
#[derive(Clone, Debug)]
pub struct ProcessTrackContext {
    pub nchannels: usize,
    pub nframes: usize,
    /// The track's final output for this block, `[channel][frame]`; the block
    /// mix sums it across tracks.
    pub buffer: Vec<Vec<i32>>,
    pub play_p: bool,
    pub bpm: u32,
    pub steady_time: i64,
    pub play_position: TickRange,
    pub loop_range: TickRange,
    /// Per-lane currently-held note key; persists across blocks so a note
    /// held over a block boundary can still be released.
    pub on_keys: Vec<Option<i16>>,
    /// The block's translated event queue, shared read-only by every module
    /// of the track during event delivery.
    pub event_list_input: Vec<Event>,
    /// Per-module process state, index-aligned with the track's module list.
    pub process_data: Vec<ModuleProcessData>,
}

impl ProcessTrackContext {
    /// Dimension discipline for the whole context: the track buffer and every
    /// module's buffers match the block's channel and frame counts, and the
    /// channel count fits the 64-bit constant masks.
    pub open spec fn wf(self) -> bool {
        &&& 1 <= self.nframes
        &&& self.nchannels <= 64
        &&& self.buffer@.len() == self.nchannels
        &&& forall|c: int|
            0 <= c < self.buffer@.len() ==> #[trigger] self.buffer@[c]@.len() == self.nframes
        &&& forall|m: int|
            0 <= m < self.process_data@.len() ==> #[trigger] self.process_data@[m].wf(
                self.nchannels as nat,
                self.nframes as nat,
            )
    }

    pub fn default() -> (ctx: ProcessTrackContext)
        ensures
            ctx.nchannels == 0,
            ctx.nframes == 0,
            ctx.buffer@.len() == 0,
            !ctx.play_p,
            ctx.bpm == 0,
            ctx.steady_time == 0,
            ctx.play_position == (TickRange { start: 0, end: 0 }),
            ctx.loop_range == (TickRange { start: 0, end: 0 }),
            ctx.on_keys@.len() == 0,
            ctx.event_list_input@.len() == 0,
            ctx.process_data@.len() == 0,
    {
        ProcessTrackContext {
            nchannels: 0,
            nframes: 0,
            buffer: Vec::new(),
            play_p: false,
            bpm: 0,
            steady_time: 0,
            play_position: TickRange { start: 0, end: 0 },
            loop_range: TickRange { start: 0, end: 0 },
            on_keys: Vec::new(),
            event_list_input: Vec::new(),
            process_data: Vec::new(),
        }
    }
}

impl ProcessTrackContext {
    /// Refresh this context for a new block: adopt the block's dimensions and
    /// the song's transport state, freeze each module's completed output as
    /// its previous-block output (the swap that implements the one-block
    /// latency policy for cross-track feeds), and fit every buffer to the
    /// block's dimensions, overwriting rather than reallocating ones that
    /// already fit. Held notes persist across blocks, and so do events queued
    /// between blocks (live notes, the transport stop's all-notes-off): the
    /// queue is consumed by the block and cleared only at the block mix.
    #[verifier::loop_isolation(false)]
    pub fn prepare(
        &mut self,
        nchannels: usize,
        nframes: usize,
        play_p: bool,
        bpm: u32,
        steady_time: i64,
        play_position: TickRange,
        loop_range: TickRange,
    )
        requires
            1 <= nframes,
            nchannels <= 64,
            forall|m: int|
                0 <= m < old(self).process_data@.len() ==> (
                #[trigger] old(self).process_data@[m]).ports_shape(),
        ensures
            final(self).nchannels == nchannels,
            final(self).nframes == nframes,
            final(self).play_p == play_p,
            final(self).bpm == bpm,
            final(self).steady_time == steady_time,
            final(self).play_position == play_position,
            final(self).loop_range == loop_range,
            final(self).on_keys == old(self).on_keys,
            final(self).event_list_input == old(self).event_list_input,
            final(self).process_data@.len() == old(self).process_data@.len(),
            final(self).wf(),
            forall|m: int|
                0 <= m < old(self).process_data@.len() ==> (
                #[trigger] final(self).process_data@[m]).ports_shape() && final(self).process_data@[m].ports_in() == old(self).process_data@[m].ports_in() && final(self).process_data@[m].ports_out() == old(self).process_data@[m].ports_out() && final(self).process_data@[m].events == old(self).process_data@[m].events && final(self).process_data@[m].constant_mask_out_prev@ == old(self).process_data@[m].constant_mask_out@ && final(self).process_data@[m].constant_mask_out@ == old(self).process_data@[m].constant_mask_out_prev@ && final(self).process_data@[m].constant_mask_in@ == old(self).process_data@[m].constant_mask_in@,
            forall|m: int, p: int, c: int|
                0 <= m < old(self).process_data@.len() && old(self).process_data@[m].wf(
                    nchannels as nat,
                    nframes as nat,
                ) && 0 <= p < old(self).process_data@[m].ports_out() && 0 <= c < nchannels
                    ==> #[trigger] final(self).process_data@[m].buffer_out_prev@[p]@[c]@ == old(self).process_data@[m].buffer_out@[p]@[c]@,
    {
        self.nchannels = nchannels;
        self.nframes = nframes;
        self.play_p = play_p;
        self.bpm = bpm;
        self.steady_time = steady_time;
        self.play_position = play_position;
        self.loop_range = loop_range;
        fit_buffer(&mut self.buffer, nchannels, nframes);
        let n = self.process_data.len();
        let mut m: usize = 0;
        while m < n
            invariant
                m <= n,
                self.process_data@.len() == n,
                n == old(self).process_data@.len(),
                self.nchannels == nchannels,
                self.nframes == nframes,
                self.play_p == play_p,
                self.bpm == bpm,
                self.steady_time == steady_time,
                self.play_position == play_position,
                self.loop_range == loop_range,
                self.on_keys == old(self).on_keys,
                self.event_list_input == old(self).event_list_input,
                self.buffer@.len() == nchannels,
                forall|c: int| 0 <= c < nchannels ==> #[trigger] self.buffer@[c]@.len() == nframes,
                forall|k: int|
                    m <= k < n ==> #[trigger] self.process_data@[k] == old(self).process_data@[k],
                forall|k: int|
                    0 <= k < m ==> (#[trigger] self.process_data@[k]).ports_shape()
                        && self.process_data@[k].wf(nchannels as nat, nframes as nat)
                        && self.process_data@[k].ports_in() == old(self).process_data@[k].ports_in() && self.process_data@[k].ports_out() == old(self).process_data@[k].ports_out() && self.process_data@[k].events == old(self).process_data@[k].events && self.process_data@[k].constant_mask_out_prev@
                        == old(self).process_data@[k].constant_mask_out@
                        && self.process_data@[k].constant_mask_out@ == old(self).process_data@[k].constant_mask_out_prev@
                        && self.process_data@[k].constant_mask_in@ == old(self).process_data@[k].constant_mask_in@,
                forall|k: int, p: int, c: int|
                    0 <= k < m && old(self).process_data@[k].wf(nchannels as nat, nframes as nat)
                        && 0 <= p < old(self).process_data@[k].ports_out() && 0 <= c < nchannels
                        ==> #[trigger] self.process_data@[k].buffer_out_prev@[p]@[c]@ == old(self).process_data@[k].buffer_out@[p]@[c]@,
            decreases n - m,
        {
            let ghost pd_old = self.process_data@[m as int];
            let pd = &mut self.process_data[m];
            core::mem::swap(&mut pd.buffer_out, &mut pd.buffer_out_prev);
            core::mem::swap(&mut pd.constant_mask_out, &mut pd.constant_mask_out_prev);
            fit_ports(&mut pd.buffer_in, nchannels, nframes);
            fit_ports(&mut pd.buffer_out, nchannels, nframes);
            fit_ports(&mut pd.buffer_out_prev, nchannels, nframes);
            m = m + 1;
        }
    }

    /// Materialize the track's output for the block mix: each channel of the
    /// track buffer becomes the last module's logical output on its first
    /// port (a constant channel broadcast over the full frame range, a live
    /// channel copied frame for frame), or silence when the track has no
    /// module or its last module has no output port.
    #[verifier::loop_isolation(false)]
    pub fn finalize_output(&mut self)
        requires
            old(self).wf(),
        ensures
            *final(self) == (ProcessTrackContext { buffer: final(self).buffer, ..*old(self) }),
            final(self).buffer@.len() == old(self).nchannels,
            forall|c: int|
                0 <= c < old(self).nchannels ==> #[trigger] final(self).buffer@[c]@ == (if old(
                    self,
                ).process_data@.len() > 0 && old(self).process_data@.last().ports_out() > 0 {
                    old(self).process_data@.last().out_view(0, c, old(self).nframes as nat)
                } else {
                    Seq::new(old(self).nframes as nat, |i: int| 0i32)
                }),
            final(self).wf(),
    {
        let nch = self.nchannels;
        let nfr = self.nframes;
        let n = self.process_data.len();
        let has_port = n > 0 && self.process_data[n - 1].constant_mask_out.len() > 0;
        proof {
            if n > 0 {
                assert(old(self).process_data@.last().wf(nch as nat, nfr as nat));
            }
        }
        let mut buffer: Vec<Vec<i32>> = Vec::new();
        let mut c: usize = 0;
        while c < nch
            invariant
                c <= nch,
                buffer@.len() == c,
                forall|k: int|
                    0 <= k < c ==> #[trigger] buffer@[k]@ == (if old(self).process_data@.len() > 0
                        && old(self).process_data@.last().ports_out() > 0 {
                        old(self).process_data@.last().out_view(0, k, old(self).nframes as nat)
                    } else {
                        Seq::new(old(self).nframes as nat, |i: int| 0i32)
                    }),
                forall|k: int| 0 <= k < c ==> #[trigger] buffer@[k]@.len() == nfr,
            decreases nch - c,
        {
            let ch_buf: Vec<i32> = if has_port {
                let pd = &self.process_data[n - 1];
                if pd.constant_mask_out[0] & (1u64 << (c as u64)) != 0 {
                    broadcast_channel(pd.buffer_out[0][c][0], nfr)
                } else {
                    copy_channel(&pd.buffer_out[0][c])
                }
            } else {
                zero_channel(nfr)
            };
            proof {
                if has_port {
                    assert(ch_buf@ =~= old(self).process_data@.last().out_view(
                        0,
                        c as int,
                        old(self).nframes as nat,
                    ));
                } else {
                    assert(ch_buf@ =~= Seq::new(old(self).nframes as nat, |i: int| 0i32));
                }
            }
            buffer.push(ch_buf);
            c = c + 1;
        }
        self.buffer = buffer;
        proof {
            assert(self.wf());
        }
    }

    /// Store a module's native processing result for this block: its output
    /// buffers and per-port constant masks, replacing the current-block
    /// output wholesale.
    pub fn set_module_output(
        &mut self,
        module_index: usize,
        buffer: Vec<Vec<Vec<i32>>>,
        constant_mask: Vec<u64>,
    )
        requires
            module_index < old(self).process_data@.len(),
            constant_mask@.len() == old(self).process_data@[module_index as int].ports_out(),
            buffer_wf(
                buffer@,
                old(self).process_data@[module_index as int].ports_out(),
                old(self).nchannels as nat,
                old(self).nframes as nat,
            ),
        ensures
            *final(self) == (ProcessTrackContext {
                process_data: final(self).process_data,
                ..*old(self)
            }),
            final(self).process_data@ == old(self).process_data@.update(
                module_index as int,
                ModuleProcessData {
                    buffer_out: final(self).process_data@[module_index as int].buffer_out,
                    constant_mask_out: final(self).process_data@[module_index as int].constant_mask_out,
                    ..old(self).process_data@[module_index as int]
                },
            ),
            final(self).process_data@[module_index as int].buffer_out == buffer,
            final(self).process_data@[module_index as int].constant_mask_out == constant_mask,
            old(self).wf() ==> final(self).wf(),
    {
        let pd = &mut self.process_data[module_index];
        pd.buffer_out = buffer;
        pd.constant_mask_out = constant_mask;
        proof {
            if old(self).wf() {
                assert forall|m: int| 0 <= m < self.process_data@.len() implies (
                #[trigger] self.process_data@[m]).wf(
                    self.nchannels as nat,
                    self.nframes as nat,
                ) by {
                    assert(old(self).process_data@[m].wf(
                        old(self).nchannels as nat,
                        old(self).nframes as nat,
                    ));
                    if m != module_index {
                        assert(self.process_data@[m] == old(self).process_data@[m]);
                    }
                }
            }
        }
    }
}

} // verus!

//! The render loop: dispatch sample-accurate note events to the pool and
//! mix every voice into channel frames.
//!
//! For each frame the sample counter advances, every event scheduled at
//! that frame is applied in arrival order, and one sample is pulled from
//! every voice in the array — idle voices included, which contribute
//! exactly zero; skipping them would desynchronise phase across retrigger.
//! The frame's mono mixdown is scaled by that frame's externally smoothed
//! gain and written identically to all output channels.

use vstd::prelude::*;

verus! {

use crate::fixed::{scale_signed, spec_scale_signed, GAIN_MAX, UNIT};
use crate::pool::{
    spec_note_off, spec_note_on, spec_tick, PoolView, VoicePool,
};
use vstd::arithmetic::div_mod::lemma_div_multiples_vanish_fancy;

/// A sample-accurate note event within a block.
#[derive(Clone, Copy, Debug, PartialEq, Eq, Structural)]
pub enum NoteEvent {
    NoteOn { note: u8, velocity: u64, frame_offset: usize },
    NoteOff { note: u8, frame_offset: usize },
}

impl NoteEvent {
    /// The frame within the block at which the event takes effect.
    pub open spec fn spec_offset(self) -> int {
        match self {
            NoteEvent::NoteOn { frame_offset, .. } => frame_offset as int,
            NoteEvent::NoteOff { frame_offset, .. } => frame_offset as int,
        }
    }

    /// In-domain for a block: a note number, a velocity within full scale,
    /// and an offset inside the block.
    pub open spec fn spec_valid(self, num_frames: int) -> bool {
        match self {
            NoteEvent::NoteOn { note, velocity, frame_offset } => note < 128 && velocity <= UNIT
                && (frame_offset as int) < num_frames,
            NoteEvent::NoteOff { note, frame_offset } => note < 128 && (frame_offset as int)
                < num_frames,
        }
    }
}

/// What one event does to the pool.
pub open spec fn spec_apply_event(v: PoolView, e: NoteEvent) -> PoolView {
    match e {
        NoteEvent::NoteOn { note, velocity, .. } => spec_note_on(v, note, velocity),
        NoteEvent::NoteOff { note, .. } => spec_note_off(v, note),
    }
}

/// The pool after the first `k` events of the block, applying those
/// scheduled at frame `f` in arrival order.
pub open spec fn spec_dispatch_upto(v: PoolView, events: Seq<NoteEvent>, f: int, k: int) -> PoolView
    decreases k,
{
    if k <= 0 {
        v
    } else {
        let prev = spec_dispatch_upto(v, events, f, k - 1);
        if events[k - 1].spec_offset() == f {
            spec_apply_event(prev, events[k - 1])
        } else {
            prev
        }
    }
}

/// The pool after every event of the block scheduled at frame `f`.
pub open spec fn spec_dispatch(v: PoolView, events: Seq<NoteEvent>, f: int) -> PoolView {
    spec_dispatch_upto(v, events, f, events.len() as int)
}

/// Every voice advanced by one sample.
pub open spec fn spec_voices_stepped(vs: Seq<crate::voice::Voice>) -> Seq<crate::voice::Voice> {
    Seq::new(vs.len(), |i: int| vs[i].spec_next())
}

/// The mono mixdown of the first `n` voices' next samples.
pub open spec fn spec_voices_sum(vs: Seq<crate::voice::Voice>, n: int) -> int
    decreases n,
{
    if n <= 0 {
        0
    } else {
        spec_voices_sum(vs, n - 1) + vs[n - 1].spec_sample()
    }
}

/// What one whole frame does to the pool: the clock ticks, the frame's
/// events apply, every voice advances one sample.
pub open spec fn spec_frame_pool(v: PoolView, events: Seq<NoteEvent>, f: int) -> PoolView {
    let v2 = spec_dispatch(spec_tick(v), events, f);
    PoolView { voices: spec_voices_stepped(v2.voices), ..v2 }
}

/// The pool after the first `f` frames of the block.
pub open spec fn spec_run(v: PoolView, events: Seq<NoteEvent>, f: nat) -> PoolView
    decreases f,
{
    if f == 0 {
        v
    } else {
        spec_frame_pool(spec_run(v, events, (f - 1) as nat), events, f - 1)
    }
}

/// The output sample of frame `f`: the frame's mono mixdown scaled by that
/// frame's gain.
pub open spec fn spec_frame_out(
    v: PoolView,
    events: Seq<NoteEvent>,
    gains: Seq<u64>,
    f: int,
) -> int {
    let v2 = spec_dispatch(spec_tick(spec_run(v, events, f as nat)), events, f);
    spec_scale_signed(spec_voices_sum(v2.voices, v2.voices.len() as int), gains[f] as int)
}

/// Advance every voice by one sample and return the frame's mono mixdown.
fn frame_audio(pool: &mut VoicePool) -> (sum: i64)
    requires
        old(pool)@.wf(),
    ensures
        final(pool)@.wf(),
        final(pool)@ == (PoolView { voices: spec_voices_stepped(old(pool)@.voices), ..old(
            pool,
        )@ }),
        sum == spec_voices_sum(old(pool)@.voices, old(pool)@.voices.len() as int),
        -2_000_000_000 <= sum <= 2_000_000_000,
{
    let mut sum: i64 = 0;
    let mut i: usize = 0;
    while i < pool.voices.len()
        invariant
            old(pool)@.wf(),
            i <= pool.voices@.len(),
            pool.voices@.len() == old(pool)@.voices.len(),
            pool.note_map@ == old(pool)@.note_map,
            pool.queue@ == old(pool)@.queue,
            pool.max_voices == old(pool)@.max_voices,
            pool.sample_rate == old(pool)@.sample_rate,
            pool.ts == old(pool)@.ts,
            forall|j: int|
                0 <= j < i ==> (#[trigger] pool.voices@[j]) == old(pool)@.voices[j].spec_next()
                    && pool.voices@[j].wf() && pool.voices@[j].sample_rate == old(
                    pool,
                )@.sample_rate,
            forall|j: int| i <= j < pool.voices@.len() ==> (#[trigger] pool.voices@[j]) == old(
                pool,
            )@.voices[j],
            sum == spec_voices_sum(old(pool)@.voices, i as int),
            -(i as int) * (UNIT as int) <= sum <= (i as int) * (UNIT as int),
        decreases pool.voices@.len() - i,
    {
        proof {
            assert(old(pool)@.voices[i as int].wf());
        }
        let mut v = pool.voices[i];
        let s = v.next_sample();
        pool.voices.set(i, v);
        sum = sum + s;
        i = i + 1;
    }
    proof {
        assert(pool@.voices =~= spec_voices_stepped(old(pool)@.voices));
        let b = pool@;
        assert forall|n: int|
            0 <= n < crate::pool::NOTE_RANGE implies ((#[trigger] b.note_map[n]) matches Some(j)
            ==> j < b.voices.len()) by {
            assert(old(pool)@.note_map[n] matches Some(j) ==> j < old(pool)@.voices.len());
        }
        assert forall|x: int, y: int|
            #![trigger b.note_map[x], b.note_map[y]]
            0 <= x < y < crate::pool::NOTE_RANGE && b.note_map[x] is Some implies b.note_map[x]
            != b.note_map[y] by {
            assert(old(pool)@.note_map[x] != old(pool)@.note_map[y] || !(old(
                pool,
            )@.note_map[x] is Some));
        }
        assert forall|k: int| 0 <= k < b.queue.len() implies (#[trigger] b.queue[k])
            < b.voices.len() by {
            assert(old(pool)@.queue[k] < old(pool)@.voices.len());
        }
        assert forall|x: int, y: int|
            #![trigger b.queue[x], b.queue[y]]
            0 <= x < y < b.queue.len() implies b.queue[x] != b.queue[y] by {
            assert(old(pool)@.queue[x] != old(pool)@.queue[y]);
        }
        assert(b.wf());
    }
    sum
}

/// Render a block of `num_frames` frames into `num_channels` interleaved
/// channels. Events apply at their frame offset in arrival order; the gain
/// sequence supplies one externally smoothed linear gain per frame; the
/// mono mixdown of each frame is written identically to every channel of
/// that frame.
pub fn process_block(
    pool: &mut VoicePool,
    events: &Vec<NoteEvent>,
    num_frames: usize,
    num_channels: usize,
    gains: &Vec<u64>,
) -> (out: Vec<i64>)
    requires
        old(pool)@.wf(),
        gains@.len() == num_frames,
        forall|g: int| 0 <= g < gains@.len() ==> (#[trigger] gains@[g]) <= GAIN_MAX,
        forall|k: int| 0 <= k < events@.len() ==> (#[trigger] events@[k]).spec_valid(
            num_frames as int,
        ),
        num_frames * num_channels <= usize::MAX,
    ensures
        final(pool)@.wf(),
        final(pool)@ == spec_run(old(pool)@, events@, num_frames as nat),
        out@.len() == num_frames * num_channels,
        forall|j: int| 0 <= j < out@.len() ==> (#[trigger] out@[j]) == spec_frame_out(
            old(pool)@,
            events@,
            gains@,
            j / (num_channels as int),
        ),
{
    let ghost p0 = old(pool)@;
    let mut out: Vec<i64> = Vec::new();
    let mut f: usize = 0;
    while f < num_frames
        invariant
            old(pool)@ == p0,
            p0.wf(),
            pool@.wf(),
            pool@ == spec_run(p0, events@, f as nat),
            f <= num_frames,
            gains@.len() == num_frames,
            forall|g: int| 0 <= g < gains@.len() ==> (#[trigger] gains@[g]) <= GAIN_MAX,
            forall|k: int| 0 <= k < events@.len() ==> (#[trigger] events@[k]).spec_valid(
                num_frames as int,
            ),
            num_frames * num_channels <= usize::MAX,
            out@.len() == f * num_channels,
            forall|j: int| 0 <= j < out@.len() ==> (#[trigger] out@[j]) == spec_frame_out(
                p0,
                events@,
                gains@,
                j / (num_channels as int),
            ),
        decreases num_frames - f,
    {
        pool.tick();
        let ghost v1 = pool@;
        let mut k: usize = 0;
        while k < events.len()
            invariant
                pool@.wf(),
                k <= events@.len(),
                f < num_frames,
                forall|k2: int| 0 <= k2 < events@.len() ==> (#[trigger] events@[k2]).spec_valid(
                    num_frames as int,
                ),
                pool@ == spec_dispatch_upto(v1, events@, f as int, k as int),
            decreases events@.len() - k,
        {
            let e = events[k];
            match e {
                NoteEvent::NoteOn { note, velocity, frame_offset } => {
                    if frame_offset == f {
                        pool.on_note_on(note, velocity);
                    }
                },
                NoteEvent::NoteOff { note, frame_offset } => {
                    if frame_offset == f {
                        pool.on_note_off(note);
                    }
                },
            }
            k = k + 1;
        }
        proof {
            assert(pool@ == spec_dispatch(v1, events@, f as int));
        }
        let sum = frame_audio(pool);
        proof {
            assert(pool@ == spec_run(p0, events@, (f + 1) as nat));
        }
        let gain = gains[f];
        let val = scale_signed(sum, gain);
        let mut c: usize = 0;
        while c < num_channels
            invariant
                c <= num_channels,
                f < num_frames,
                num_frames * num_channels <= usize::MAX,
                pool@.wf(),
                pool@ == spec_run(p0, events@, (f + 1) as nat),
                val == spec_frame_out(p0, events@, gains@, f as int),
                out@.len() == f * num_channels + c,
                forall|j: int| 0 <= j < out@.len() ==> (#[trigger] out@[j]) == spec_frame_out(
                    p0,
                    events@,
                    gains@,
                    j / (num_channels as int),
                ),
            decreases num_channels - c,
        {
            proof {
                lemma_div_multiples_vanish_fancy(f as int, c as int, num_channels as int);
                assert(f * num_channels + c == num_channels * f + c) by (nonlinear_arith);
                assert(f * num_channels + c < num_frames * num_channels) by (nonlinear_arith)
                    requires
                        f < num_frames,
                        c < num_channels,
                        0 <= f,
                        0 <= c,
                ;
            }
            out.push(val);
            c = c + 1;
        }
        proof {
            assert((f + 1) * num_channels == f * num_channels + num_channels)
                by (nonlinear_arith);
        }
        f = f + 1;
    }
    out
}

} // verus!

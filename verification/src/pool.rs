//! The voice pool: a fixed-capacity array of voices, a note-to-index
//! mapping, and the allocation policy.
//!
//! Voices are created lazily up to capacity and never destroyed: a finished
//! voice stays in the array, contributing silence, until a later note-on
//! reclaims its mapping entry (lazy reclamation). At capacity a new note
//! steals the voice with the lowest current amplitude, ties broken by the
//! lowest array index — quietest-voice stealing, chosen to minimise audible
//! artifacts from interrupting a loud voice. An allocation-order queue of
//! indices, least recently triggered first, is maintained alongside for
//! diagnostics.

use vstd::prelude::*;

verus! {

use crate::fixed::SR_MAX;
use crate::voice::Voice;

/// Number of distinct note numbers.
pub const NOTE_RANGE: usize = 128;

/// The conventional default polyphony.
pub const MAX_VOICES: usize = 16;

/// Hard cap on the polyphony a pool can be built with, so that a frame's
/// mixdown can never overflow.
pub const MAX_VOICES_LIMIT: usize = 1024;

/// The mathematical state of a pool.
pub struct PoolView {
    pub voices: Seq<Voice>,
    pub note_map: Seq<Option<usize>>,
    pub queue: Seq<usize>,
    pub max_voices: usize,
    pub sample_rate: u32,
    pub ts: u64,
}

impl PoolView {
    /// Well-formedness: the pool never holds more than `max_voices` voices;
    /// every mapping points at a voice; no two notes share a voice; the
    /// queue holds valid indices, each at most once; every voice is well
    /// formed at the pool's sample rate.
    pub open spec fn wf(self) -> bool {
        &&& self.voices.len() <= self.max_voices
        &&& 1 <= self.max_voices <= MAX_VOICES_LIMIT
        &&& 1 <= self.sample_rate <= SR_MAX
        &&& self.note_map.len() == NOTE_RANGE
        &&& forall|n: int|
            0 <= n < NOTE_RANGE ==> ((#[trigger] self.note_map[n]) matches Some(i) ==> i
                < self.voices.len())
        &&& forall|a: int, b: int|
            #![trigger self.note_map[a], self.note_map[b]]
            0 <= a < b < NOTE_RANGE && self.note_map[a] is Some ==> self.note_map[a]
                != self.note_map[b]
        &&& forall|k: int| 0 <= k < self.queue.len() ==> (#[trigger] self.queue[k])
            < self.voices.len()
        &&& forall|a: int, b: int|
            #![trigger self.queue[a], self.queue[b]]
            0 <= a < b < self.queue.len() ==> self.queue[a] != self.queue[b]
        &&& forall|i: int|
            0 <= i < self.voices.len() ==> (#[trigger] self.voices[i]).wf() && self.voices[
                i
            ].sample_rate == self.sample_rate
    }
}

/// The note mapping after lazy reclamation: every entry whose voice has
/// rung out is removed; the voice array itself is never shrunk.
pub open spec fn spec_cleared_finished(m: Seq<Option<usize>>, vs: Seq<Voice>) -> Seq<
    Option<usize>,
> {
    Seq::new(
        m.len(),
        |n: int|
            match m[n] {
                Some(i) => if i < vs.len() && vs[i as int].env.spec_is_finished() {
                    None
                } else {
                    Some(i)
                },
                None => None,
            },
    )
}

/// What the reclamation pass does to a pool.
pub open spec fn spec_gc(v: PoolView) -> PoolView {
    PoolView { note_map: spec_cleared_finished(v.note_map, v.voices), ..v }
}

/// The index of the voice with the lowest amplitude among the first `n`,
/// ties broken by the lowest index.
pub open spec fn spec_quietest(vs: Seq<Voice>, n: int) -> int
    decreases n,
{
    if n <= 1 {
        0
    } else {
        let q = spec_quietest(vs, n - 1);
        if vs[n - 1].spec_amplitude() < vs[q].spec_amplitude() {
            n - 1
        } else {
            q
        }
    }
}

/// The quietest index is in range, no voice is quieter, and every voice
/// before it is strictly louder.
pub proof fn lemma_quietest_props(vs: Seq<Voice>, n: int)
    requires
        1 <= n <= vs.len(),
    ensures
        0 <= spec_quietest(vs, n) < n,
        forall|j: int|
            0 <= j < n ==> vs[spec_quietest(vs, n)].spec_amplitude() <= (#[trigger] vs[
                j
            ]).spec_amplitude(),
        forall|j: int|
            0 <= j < spec_quietest(vs, n) ==> (#[trigger] vs[j]).spec_amplitude() > vs[
                spec_quietest(vs, n)
            ].spec_amplitude(),
    decreases n,
{
    if n > 1 {
        lemma_quietest_props(vs, n - 1);
    }
}

/// A sequence with every occurrence of one value removed, order kept.
pub open spec fn remove_value(q: Seq<usize>, x: usize) -> Seq<usize>
    decreases q.len(),
{
    if q.len() == 0 {
        q
    } else {
        let rest = remove_value(q.drop_last(), x);
        if q.last() == x {
            rest
        } else {
            rest.push(q.last())
        }
    }
}

/// Removal leaves no occurrence of the value, keeps only elements of the
/// original, and keeps distinctness.
pub proof fn lemma_remove_value_props(q: Seq<usize>, x: usize)
    ensures
        forall|k: int| 0 <= k < remove_value(q, x).len() ==> (#[trigger] remove_value(q, x)[k])
            != x,
        forall|k: int| 0 <= k < remove_value(q, x).len() ==> q.contains(
            #[trigger] remove_value(q, x)[k],
        ),
        (forall|a: int, b: int|
            #![trigger q[a], q[b]]
            0 <= a < b < q.len() ==> q[a] != q[b]) ==> (forall|a: int, b: int|
            #![trigger remove_value(q, x)[a], remove_value(q, x)[b]]
            0 <= a < b < remove_value(q, x).len() ==> remove_value(q, x)[a] != remove_value(
                q,
                x,
            )[b]),
    decreases q.len(),
{
    if q.len() > 0 {
        let q1 = q.drop_last();
        lemma_remove_value_props(q1, x);
        assert forall|k: int|
            0 <= k < remove_value(q1, x).len() implies q.contains(
            #[trigger] remove_value(q1, x)[k],
        ) by {
            let y = remove_value(q1, x)[k];
            let w = choose|i: int| 0 <= i < q1.len() && q1[i] == y;
            assert(q[w] == y);
        }
        if remove_value(q, x) != remove_value(q1, x) {
            assert(remove_value(q, x) == remove_value(q1, x).push(q.last()));
        }
        if (forall|a: int, b: int|
            #![trigger q[a], q[b]]
            0 <= a < b < q.len() ==> q[a] != q[b]) {
            assert forall|a: int, b: int|
                #![trigger q1[a], q1[b]]
                0 <= a < b < q1.len() implies q1[a] != q1[b] by {
                assert(q[a] == q1[a] && q[b] == q1[b]);
            }
            if q.last() != x {
                assert forall|k: int|
                    0 <= k < remove_value(q1, x).len() implies (#[trigger] remove_value(q1, x)[k])
                    != q.last() by {
                    let y = remove_value(q1, x)[k];
                    let w = choose|i: int| 0 <= i < q1.len() && q1[i] == y;
                    assert(q[w] == y && q[q.len() - 1] == q.last());
                }
            }
        }
    }
}

/// Well-formedness carries over to a pool with the same voices and queue
/// whose mapping entries are each kept or dropped.
proof fn lemma_wf_same_voices(a: PoolView, b: PoolView)
    requires
        a.wf(),
        b.voices == a.voices,
        b.queue == a.queue,
        b.max_voices == a.max_voices,
        b.sample_rate == a.sample_rate,
        b.note_map.len() == NOTE_RANGE,
        forall|n: int|
            0 <= n < NOTE_RANGE ==> ((#[trigger] b.note_map[n]) is Some ==> b.note_map[n]
                == a.note_map[n]),
    ensures
        b.wf(),
{
    assert forall|n: int|
        0 <= n < NOTE_RANGE implies ((#[trigger] b.note_map[n]) matches Some(i) ==> i
        < b.voices.len()) by {
        if b.note_map[n] is Some {
            assert(a.note_map[n] matches Some(i) ==> i < a.voices.len());
        }
    }
    assert forall|x: int, y: int|
        #![trigger b.note_map[x], b.note_map[y]]
        0 <= x < y < NOTE_RANGE && b.note_map[x] is Some implies b.note_map[x]
        != b.note_map[y] by {
        if b.note_map[y] is Some {
            assert(a.note_map[x] != a.note_map[y]);
        }
    }
    assert forall|k: int| 0 <= k < b.queue.len() implies (#[trigger] b.queue[k])
        < b.voices.len() by {
        assert(a.queue[k] < a.voices.len());
    }
    assert forall|x: int, y: int|
        #![trigger b.queue[x], b.queue[y]]
        0 <= x < y < b.queue.len() implies b.queue[x] != b.queue[y] by {
        assert(a.queue[x] != a.queue[y]);
    }
    assert forall|i: int| 0 <= i < b.voices.len() implies (#[trigger] b.voices[i]).wf()
        && b.voices[i].sample_rate == b.sample_rate by {
        assert(a.voices[i].wf() && a.voices[i].sample_rate == a.sample_rate);
    }
}

/// Well-formedness carries over when one voice is replaced in place by
/// another well-formed voice at the same sample rate.
proof fn lemma_wf_voice_updated(a: PoolView, b: PoolView, i: int, w: Voice)
    requires
        a.wf(),
        0 <= i < a.voices.len(),
        w.wf(),
        w.sample_rate == a.sample_rate,
        b == (PoolView { voices: a.voices.update(i, w), ..a }),
    ensures
        b.wf(),
{
    assert forall|n: int|
        0 <= n < NOTE_RANGE implies ((#[trigger] b.note_map[n]) matches Some(j) ==> j
        < b.voices.len()) by {
        assert(a.note_map[n] matches Some(j) ==> j < a.voices.len());
    }
    assert forall|x: int, y: int|
        #![trigger b.note_map[x], b.note_map[y]]
        0 <= x < y < NOTE_RANGE && b.note_map[x] is Some implies b.note_map[x]
        != b.note_map[y] by {
        assert(a.note_map[x] != a.note_map[y] || !(a.note_map[x] is Some));
    }
    assert forall|k: int| 0 <= k < b.queue.len() implies (#[trigger] b.queue[k])
        < b.voices.len() by {
        assert(a.queue[k] < a.voices.len());
    }
    assert forall|x: int, y: int|
        #![trigger b.queue[x], b.queue[y]]
        0 <= x < y < b.queue.len() implies b.queue[x] != b.queue[y] by {
        assert(a.queue[x] != a.queue[y]);
    }
    assert forall|j: int| 0 <= j < b.voices.len() implies (#[trigger] b.voices[j]).wf()
        && b.voices[j].sample_rate == b.sample_rate by {
        if j != i {
            assert(a.voices[j].wf() && a.voices[j].sample_rate == a.sample_rate);
        }
    }
}

/// What a note-on does to a pool: reclaim finished mappings, pick a target
/// voice (grow below capacity, else steal the quietest), mark it most
/// recently used, remap the note to it (silently evicting whatever note
/// previously owned that voice), and trigger it at the pool's clock.
pub open spec fn spec_note_on(v: PoolView, note: u8, velocity: u64) -> PoolView {
    let g = spec_gc(v);
    let grew = g.voices.len() < g.max_voices;
    let idx: int = if grew {
        g.voices.len() as int
    } else {
        spec_quietest(g.voices, g.voices.len() as int)
    };
    let vs1 = if grew {
        g.voices.push(Voice::spec_default(g.sample_rate))
    } else {
        g.voices
    };
    let queue1 = remove_value(g.queue, idx as usize).push(idx as usize);
    let map1 = Seq::new(
        g.note_map.len(),
        |n: int|
            if n == note {
                Some(idx as usize)
            } else if g.note_map[n] == Some(idx as usize) {
                None
            } else {
                g.note_map[n]
            },
    );
    PoolView {
        voices: vs1.update(idx, vs1[idx].spec_triggered(note, v.ts)),
        note_map: map1,
        queue: queue1,
        ..v
    }
}

/// What a note-off does to a pool: release the mapped voice and keep the
/// mapping in place until reclaimed; a no-op for an unmapped note.
pub open spec fn spec_note_off(v: PoolView, note: u8) -> PoolView {
    match v.note_map[note as int] {
        Some(i) => PoolView {
            voices: v.voices.update(
                i as int,
                Voice { env: v.voices[i as int].env.spec_release(), ..v.voices[i as int] },
            ),
            ..v
        },
        None => v,
    }
}

/// What one tick of the sample clock does: the counter wraps around.
pub open spec fn spec_tick(v: PoolView) -> PoolView {
    PoolView {
        ts: if v.ts == u64::MAX {
            0
        } else {
            (v.ts + 1) as u64
        },
        ..v
    }
}

/// A note-on never grows the pool beyond its capacity, however many
/// notes arrive.
pub proof fn lemma_note_on_bounded(v: PoolView, note: u8, velocity: u64)
    requires
        v.wf(),
        note < 128,
    ensures
        spec_note_on(v, note, velocity).voices.len() <= v.max_voices,
        spec_note_on(v, note, velocity).max_voices == v.max_voices,
{
    let g = spec_gc(v);
    if g.voices.len() < g.max_voices {
        assert(spec_note_on(v, note, velocity).voices.len() == g.voices.len() + 1);
    } else {
        lemma_quietest_props(g.voices, g.voices.len() as int);
        assert(spec_note_on(v, note, velocity).voices.len() == g.voices.len());
    }
}

/// At capacity, a note-on reclaims exactly the voice with the lowest
/// amplitude at that instant, ties broken by the lowest array index; the
/// pool size does not change.
pub proof fn lemma_steal_quietest(v: PoolView, note: u8, velocity: u64)
    requires
        v.wf(),
        v.voices.len() == v.max_voices,
        note < 128,
    ensures
        ({
            let idx = spec_quietest(v.voices, v.voices.len() as int);
            &&& 0 <= idx < v.voices.len()
            &&& spec_note_on(v, note, velocity).voices.len() == v.voices.len()
            &&& spec_note_on(v, note, velocity).voices[idx] == v.voices[idx].spec_triggered(
                note,
                v.ts,
            )
            &&& forall|j: int|
                0 <= j < v.voices.len() ==> v.voices[idx].spec_amplitude() <= (#[trigger] v.voices[
                    j
                ]).spec_amplitude()
            &&& forall|j: int| 0 <= j < idx ==> (#[trigger] v.voices[j]).spec_amplitude()
                > v.voices[idx].spec_amplitude()
        }),
{
    lemma_quietest_props(v.voices, v.voices.len() as int);
}

/// After a note-on, the mapping for that note points at the voice that was
/// just triggered: of two note-ons for one note, the mapping reflects the
/// most recent.
pub proof fn lemma_note_on_maps_note(v: PoolView, note: u8, velocity: u64)
    requires
        v.wf(),
        note < 128,
    ensures
        ({
            let after = spec_note_on(v, note, velocity);
            &&& after.note_map[note as int] matches Some(i)
            &&& after.note_map[note as int] matches Some(i) ==> i < after.voices.len()
                && after.voices[i as int] == (if v.voices.len() < v.max_voices {
                Voice::spec_default(v.sample_rate)
            } else {
                v.voices[i as int]
            }).spec_triggered(note, v.ts)
        }),
{
    let g = spec_gc(v);
    if g.voices.len() < g.max_voices {
    } else {
        lemma_quietest_props(g.voices, g.voices.len() as int);
    }
}

/// The voice pool.
pub struct VoicePool {
    pub voices: Vec<Voice>,
    pub note_map: Vec<Option<usize>>,
    pub queue: Vec<usize>,
    pub max_voices: usize,
    pub sample_rate: u32,
    pub ts: u64,
}

impl View for VoicePool {
    type V = PoolView;

    open spec fn view(&self) -> PoolView {
        PoolView {
            voices: self.voices@,
            note_map: self.note_map@,
            queue: self.queue@,
            max_voices: self.max_voices,
            sample_rate: self.sample_rate,
            ts: self.ts,
        }
    }
}

impl VoicePool {
    /// An empty pool: no voices yet, no mappings, clock at zero.
    pub fn new(sample_rate: u32, max_voices: usize) -> (p: VoicePool)
        requires
            1 <= sample_rate <= SR_MAX,
            1 <= max_voices <= MAX_VOICES_LIMIT,
        ensures
            p@.wf(),
            p@.voices.len() == 0,
            p@.queue.len() == 0,
            p@.max_voices == max_voices,
            p@.sample_rate == sample_rate,
            p@.ts == 0,
            forall|n: int| 0 <= n < NOTE_RANGE ==> (#[trigger] p@.note_map[n]) is None,
    {
        let mut note_map: Vec<Option<usize>> = Vec::new();
        let mut n: usize = 0;
        while n < NOTE_RANGE
            invariant
                n <= NOTE_RANGE,
                note_map@.len() == n,
                forall|m: int| 0 <= m < n ==> (#[trigger] note_map@[m]) is None,
            decreases NOTE_RANGE - n,
        {
            note_map.push(None);
            n = n + 1;
        }
        VoicePool { voices: Vec::new(), note_map, queue: Vec::new(), max_voices, sample_rate, ts: 0 }
    }

    /// Advance the monotonically wrapping sample counter.
    pub fn tick(&mut self)
        requires
            old(self)@.wf(),
        ensures
            final(self)@.wf(),
            final(self)@ == spec_tick(old(self)@),
    {
        if self.ts == u64::MAX {
            self.ts = 0;
        } else {
            self.ts = self.ts + 1;
        }
        proof {
            lemma_wf_same_voices(old(self)@, self@);
        }
    }

    /// Lazy reclamation: drop every mapping whose voice has rung out.
    fn garbage_collect(&mut self)
        requires
            old(self)@.wf(),
        ensures
            final(self)@.wf(),
            final(self)@ == spec_gc(old(self)@),
    {
        let mut n: usize = 0;
        while n < NOTE_RANGE
            invariant
                old(self)@.wf(),
                n <= NOTE_RANGE,
                self.voices == old(self).voices,
                self.queue == old(self).queue,
                self.max_voices == old(self).max_voices,
                self.sample_rate == old(self).sample_rate,
                self.ts == old(self).ts,
                self.note_map@.len() == NOTE_RANGE,
                forall|m: int|
                    0 <= m < n ==> (#[trigger] self.note_map@[m]) == spec_cleared_finished(
                        old(self)@.note_map,
                        old(self)@.voices,
                    )[m],
                forall|m: int| n <= m < NOTE_RANGE ==> (#[trigger] self.note_map@[m]) == old(
                    self,
                )@.note_map[m],
            decreases NOTE_RANGE - n,
        {
            match self.note_map[n] {
                Some(i) => {
                    if self.voices[i].is_released_and_done() {
                        self.note_map.set(n, None);
                    }
                },
                None => {},
            }
            n = n + 1;
        }
        proof {
            assert(self@.note_map =~= spec_cleared_finished(old(self)@.note_map, old(self)@.voices));
            lemma_wf_same_voices(old(self)@, self@);
        }
    }

    /// The index to steal: lowest amplitude, ties broken by lowest index.
    fn steal_target(&self) -> (idx: usize)
        requires
            self@.wf(),
            self.voices.len() >= 1,
        ensures
            idx == spec_quietest(self@.voices, self@.voices.len() as int),
            idx < self.voices.len(),
    {
        let mut best: usize = 0;
        let mut i: usize = 1;
        while i < self.voices.len()
            invariant
                self@.wf(),
                1 <= i <= self.voices.len(),
                best < i,
                best == spec_quietest(self@.voices, i as int),
            decreases self.voices.len() - i,
        {
            if self.voices[i].get_amplitude() < self.voices[best].get_amplitude() {
                best = i;
            }
            i = i + 1;
        }
        best
    }

    /// Remove every occurrence of an index from the allocation-order queue.
    fn queue_remove(&mut self, x: usize)
        requires
            old(self)@.wf(),
        ensures
            final(self)@ == (PoolView { queue: remove_value(old(self)@.queue, x), ..old(self)@ }),
    {
        let mut out: Vec<usize> = Vec::new();
        let mut k: usize = 0;
        while k < self.queue.len()
            invariant
                self == old(self),
                k <= self.queue.len(),
                out@ == remove_value(self.queue@.subrange(0, k as int), x),
            decreases self.queue.len() - k,
        {
            let v = self.queue[k];
            proof {
                assert(self.queue@.subrange(0, k + 1int).drop_last() =~= self.queue@.subrange(
                    0,
                    k as int,
                ));
                assert(self.queue@.subrange(0, k + 1int).last() == self.queue@[k as int]);
            }
            if v != x {
                out.push(v);
            }
            k = k + 1;
        }
        proof {
            assert(self.queue@.subrange(0, self.queue@.len() as int) =~= self.queue@);
        }
        self.queue = out;
    }

    /// Handle a note-on at the pool's current clock value. The velocity is
    /// accepted but ignored, as in the voice itself.
    pub fn on_note_on(&mut self, note: u8, velocity: u64)
        requires
            old(self)@.wf(),
            note < 128,
        ensures
            final(self)@.wf(),
            final(self)@ == spec_note_on(old(self)@, note, velocity),
    {
        self.garbage_collect();
        let ghost g = self@;
        let ghost grew = g.voices.len() < g.max_voices;
        let idx: usize;
        if self.voices.len() < self.max_voices {
            self.voices.push(Voice::new(self.sample_rate));
            idx = self.voices.len() - 1;
        } else {
            idx = self.steal_target();
        }
        let ghost vs1 = self@.voices;
        self.queue_remove(idx);
        self.queue.push(idx);
        proof {
            lemma_remove_value_props(g.queue, idx);
        }
        let mut n: usize = 0;
        while n < NOTE_RANGE
            invariant
                self@.note_map.len() == NOTE_RANGE,
                n <= NOTE_RANGE,
                self.voices@ == vs1,
                self.queue@ == remove_value(g.queue, idx).push(idx),
                self.max_voices == g.max_voices,
                self.sample_rate == g.sample_rate,
                self.ts == g.ts,
                forall|m: int|
                    0 <= m < n ==> (#[trigger] self.note_map@[m]) == (if g.note_map[m] == Some(idx) {
                        None
                    } else {
                        g.note_map[m]
                    }),
                forall|m: int| n <= m < NOTE_RANGE ==> (#[trigger] self.note_map@[m])
                    == g.note_map[m],
            decreases NOTE_RANGE - n,
        {
            match self.note_map[n] {
                Some(i) => {
                    if i == idx {
                        self.note_map.set(n, None);
                    }
                },
                None => {},
            }
            n = n + 1;
        }
        self.note_map.set(note as usize, Some(idx));
        let mut v = self.voices[idx];
        v.trigger(note, velocity, self.ts);
        self.voices.set(idx, v);
        proof {
            if !grew {
                lemma_quietest_props(g.voices, g.voices.len() as int);
            }
            let target = spec_note_on(old(self)@, note, velocity);
            assert(self@.note_map =~= target.note_map);
            assert(self@.voices =~= target.voices);
            assert(self@ == target);
            assert forall|k: int| 0 <= k < self@.queue.len() implies (#[trigger] self@.queue[k])
                < self@.voices.len() by {
                if k < self@.queue.len() - 1 {
                    assert(g.queue.contains(remove_value(g.queue, idx)[k]));
                    let w = choose|i: int| 0 <= i < g.queue.len() && g.queue[i] == self@.queue[k];
                }
            }
            assert forall|i: int| 0 <= i < self@.voices.len() implies (#[trigger] self@.voices[
                i
            ]).wf() && self@.voices[i].sample_rate == self@.sample_rate by {
                if i != idx && (grew ==> i < g.voices.len()) {
                    assert(self@.voices[i] == g.voices[i]);
                }
            }
            assert(self@.wf());
        }
    }

    /// Handle a note-off: release the mapped voice, keep the mapping until
    /// reclamation. A note-off for an unknown or stale note mutates nothing
    /// and never fails.
    pub fn on_note_off(&mut self, note: u8)
        requires
            old(self)@.wf(),
            note < 128,
        ensures
            final(self)@.wf(),
            final(self)@ == spec_note_off(old(self)@, note),
            old(self)@.note_map[note as int] is None ==> *final(self) == *old(self),
    {
        match self.note_map[note as usize] {
            Some(i) => {
                let mut v = self.voices[i];
                v.release();
                self.voices.set(i, v);
                proof {
                    lemma_wf_voice_updated(old(self)@, self@, i as int, self@.voices[i as int]);
                }
            },
            None => {
                proof {
                    assert(self@.voices =~= spec_note_off(old(self)@, note).voices);
                }
            },
        }
    }

    /// How many voices have been created so far.
    pub fn voice_count(&self) -> (n: usize)
        ensures
            n == self@.voices.len(),
    {
        self.voices.len()
    }

    /// The voice index a note is currently mapped to, if any.
    pub fn note_index(&self, note: u8) -> (r: Option<usize>)
        requires
            self@.wf(),
            note < 128,
        ensures
            r == self@.note_map[note as int],
    {
        self.note_map[note as usize]
    }
}

} // verus!

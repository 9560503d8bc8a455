//! One voice: an oscillator phase accumulator paired with its own envelope.
//!
//! The tone is a fixed-point approximation of a sine over a phase in
//! `[0, UNIT)`: each half period is the parabola `4 u (1 - u)` of the
//! half-period position `u`, the second half negated. The note number maps
//! to a frequency by the standard equal-tempered tuning: twelve base
//! frequencies for the lowest octave, doubled once per octave above it.

use vstd::prelude::*;

verus! {

use crate::adsr::{
    Adsr, CurveType, EnvState, spec_alpha, spec_samples, DEFAULT_ATTACK_US, DEFAULT_DECAY_US,
    DEFAULT_RELEASE_US, DEFAULT_SUSTAIN,
};
use crate::fixed::{
    lemma_scale_signed_le, scale_signed, spec_scale_signed, SR_MAX, UNIT,
};
use vstd::arithmetic::div_mod::{
    lemma_div_is_ordered, lemma_div_is_ordered_by_denominator, lemma_div_multiples_vanish,
    lemma_div_pos_is_pos, lemma_mod_bound,
};
use vstd::arithmetic::mul::{lemma_mul_inequality, lemma_mul_upper_bound};

/// Half a waveform period, in phase units: `UNIT / 2`.
pub const HALF_PERIOD: u64 = 500_000;

/// Largest phase increment a note can produce: just above the increment of
/// the highest note at the lowest accepted sample rate.
pub const MAX_PHASE_INC: u64 = 16_000_000_000;

/// Largest note frequency, in millihertz: the highest note, `15434 << 10`.
pub const MAX_FREQ_MILLIHZ: u64 = 15_804_416;

/// The parabolic sine approximation at a phase in `[0, UNIT)`, a fixed-point
/// fraction in `[-UNIT, UNIT]`.
pub open spec fn spec_sine(phase: int) -> int {
    let h = HALF_PERIOD as int;
    if phase < h {
        4 * phase * (h - phase) * (UNIT as int) / (h * h)
    } else {
        let q = phase - h;
        -(4 * q * (h - q) * (UNIT as int) / (h * h))
    }
}

/// The sine approximation never leaves full scale.
pub proof fn lemma_sine_bounds(phase: int)
    requires
        0 <= phase < UNIT,
    ensures
        -(UNIT as int) <= spec_sine(phase) <= UNIT as int,
{
    let h = HALF_PERIOD as int;
    let q = if phase < h {
        phase
    } else {
        phase - h
    };
    assert(0 <= q < h);
    assert(4 * q * (h - q) <= h * h) by (nonlinear_arith)
        requires
            0 <= q < h,
    ;
    assert(4 * q * (h - q) >= 0) by (nonlinear_arith)
        requires
            0 <= q < h,
    ;
    assert(4 * q * (h - q) * (UNIT as int) <= h * h * (UNIT as int)) by (nonlinear_arith)
        requires
            4 * q * (h - q) <= h * h,
            0 <= 4 * q * (h - q),
    ;
    assert(4 * q * (h - q) * (UNIT as int) >= 0) by (nonlinear_arith)
        requires
            0 <= 4 * q * (h - q),
    ;
    lemma_div_is_ordered(4 * q * (h - q) * (UNIT as int), h * h * (UNIT as int), h * h);
    lemma_div_pos_is_pos(4 * q * (h - q) * (UNIT as int), h * h);
    assert(h * h * (UNIT as int) == (h * h) * (UNIT as int));
    lemma_div_multiples_vanish(UNIT as int, h * h);
    assert((h * h) * (UNIT as int) / (h * h) == UNIT as int);
}

/// The parabolic sine approximation, executable.
pub fn sine_fp(phase: u64) -> (s: i64)
    requires
        phase < UNIT,
    ensures
        s == spec_sine(phase as int),
        -(UNIT as int) <= s <= UNIT as int,
{
    proof {
        lemma_sine_bounds(phase as int);
    }
    let h = HALF_PERIOD;
    let q = if phase < h {
        phase
    } else {
        phase - h
    };
    proof {
        lemma_mul_upper_bound(q as int, h as int, (h - q) as int, h as int);
        lemma_mul_upper_bound(
            4 * (q as int * (h - q) as int),
            1_000_000_000_000,
            UNIT as int,
            UNIT as int,
        );
        assert(0 <= 4 * (q as int * (h - q) as int)) by (nonlinear_arith)
            requires
                0 <= q as int,
                0 <= (h - q) as int,
        ;
    }
    let num = 4 * (q * (h - q)) * UNIT;
    let mag = num / (h * h);
    proof {
        assert(4 * (q as int * (h - q) as int) * (UNIT as int) == 4 * (q as int) * ((h
            - q) as int) * (UNIT as int)) by (nonlinear_arith);
        if phase < h {
            assert(mag == spec_sine(phase as int));
        } else {
            assert(mag == -spec_sine(phase as int));
        }
    }
    if phase < h {
        mag as i64
    } else {
        -(mag as i64)
    }
}

/// The equal-tempered base frequency of a semitone in the lowest octave,
/// in millihertz (semitone 9 is exactly 13.75 Hz, five octaves below the
/// 440 Hz reference).
pub open spec fn spec_base_freq_millihz(semitone: int) -> int {
    if semitone == 0 {
        8176
    } else if semitone == 1 {
        8662
    } else if semitone == 2 {
        9177
    } else if semitone == 3 {
        9723
    } else if semitone == 4 {
        10301
    } else if semitone == 5 {
        10913
    } else if semitone == 6 {
        11562
    } else if semitone == 7 {
        12250
    } else if semitone == 8 {
        12978
    } else if semitone == 9 {
        13750
    } else if semitone == 10 {
        14568
    } else {
        15434
    }
}

/// Two to the `k`-th power.
pub open spec fn spec_pow2(k: nat) -> int
    decreases k,
{
    if k == 0 {
        1
    } else {
        2 * spec_pow2((k - 1) as nat)
    }
}

proof fn lemma_pow2_mono(a: nat, b: nat)
    requires
        a <= b,
    ensures
        0 < spec_pow2(a) <= spec_pow2(b),
    decreases b,
{
    if b > 0 {
        if a == b {
            lemma_pow2_mono((a - 1) as nat, (b - 1) as nat);
        } else {
            lemma_pow2_mono(a, (b - 1) as nat);
        }
    }
}

/// The equal-tempered frequency of a note number, in millihertz.
pub open spec fn spec_note_freq_millihz(note: int) -> int {
    spec_base_freq_millihz(note % 12) * spec_pow2((note / 12) as nat)
}

fn base_freq_millihz(semitone: u8) -> (f: u64)
    requires
        semitone < 12,
    ensures
        f == spec_base_freq_millihz(semitone as int),
        8176 <= f <= 15434,
{
    if semitone == 0 {
        8176
    } else if semitone == 1 {
        8662
    } else if semitone == 2 {
        9177
    } else if semitone == 3 {
        9723
    } else if semitone == 4 {
        10301
    } else if semitone == 5 {
        10913
    } else if semitone == 6 {
        11562
    } else if semitone == 7 {
        12250
    } else if semitone == 8 {
        12978
    } else if semitone == 9 {
        13750
    } else if semitone == 10 {
        14568
    } else {
        15434
    }
}

/// The frequency of a note by the standard equal-tempered tuning, in
/// millihertz.
pub fn midi_note_to_freq_millihz(note: u8) -> (f: u64)
    requires
        note < 128,
    ensures
        f == spec_note_freq_millihz(note as int),
        f <= MAX_FREQ_MILLIHZ,
{
    let semitone = note % 12;
    let octave = note / 12;
    let base = base_freq_millihz(semitone);
    let mut f = base;
    let mut k: u8 = 0;
    while k < octave
        invariant
            k <= octave,
            octave <= 10,
            8176 <= base <= 15434,
            f == base * spec_pow2(k as nat),
            f <= 15434 * spec_pow2(k as nat),
        decreases octave - k,
    {
        proof {
            reveal_with_fuel(spec_pow2, 11);
            lemma_pow2_mono(k as nat, 9);
            lemma_mul_inequality(spec_pow2(k as nat), spec_pow2(9), 15434);
            assert(spec_pow2(k as nat) * 15434 == 15434 * spec_pow2(k as nat))
                by (nonlinear_arith);
            assert(base * spec_pow2((k + 1) as nat) == 2 * (base * spec_pow2(k as nat)))
                by (nonlinear_arith)
                requires
                    spec_pow2((k + 1) as nat) == 2 * spec_pow2(k as nat),
            ;
            assert(15434 * spec_pow2((k + 1) as nat) == 2 * (15434 * spec_pow2(k as nat)))
                by (nonlinear_arith)
                requires
                    spec_pow2((k + 1) as nat) == 2 * spec_pow2(k as nat),
            ;
        }
        f = f * 2;
        k = k + 1;
    }
    proof {
        reveal_with_fuel(spec_pow2, 11);
        lemma_pow2_mono(octave as nat, 10);
        lemma_mul_inequality(spec_pow2(octave as nat), spec_pow2(10), base as int);
        assert(spec_pow2(octave as nat) * base as int == base as int * spec_pow2(octave as nat))
            by (nonlinear_arith);
        lemma_mul_inequality(base as int, 15434, spec_pow2(10));
        assert(spec_pow2(10) == 1024);
    }
    f
}

/// The phase increment per sample for a note at a sample rate: the note
/// frequency divided by the sample rate, as a fixed-point fraction of a
/// period.
pub open spec fn spec_phase_inc(note: int, sr: int) -> int {
    spec_note_freq_millihz(note) * (UNIT as int) / (sr * 1000)
}

/// The phase increment, executable.
pub fn phase_inc_for(note: u8, sr: u32) -> (inc: u64)
    requires
        note < 128,
        1 <= sr <= SR_MAX,
    ensures
        inc == spec_phase_inc(note as int, sr as int),
        inc <= MAX_PHASE_INC,
{
    let f = midi_note_to_freq_millihz(note);
    proof {
        lemma_mul_upper_bound(f as int, MAX_FREQ_MILLIHZ as int, UNIT as int, UNIT as int);
        lemma_div_pos_is_pos(f as int * UNIT as int, sr as int * 1000);
        lemma_div_is_ordered_by_denominator(f as int * UNIT as int, 1000, sr as int * 1000);
        lemma_div_is_ordered(
            f as int * UNIT as int,
            15_804_416_000_000,
            1000,
        );
        assert(sr as int * 1000 >= 1000) by (nonlinear_arith)
            requires
                sr as int >= 1,
        ;
    }
    (f * UNIT) / ((sr as u64) * 1000)
}

/// One currently sounding note: an oscillator and its envelope.
#[derive(Clone, Copy, Debug)]
pub struct Voice {
    /// The note number last triggered on this voice.
    pub note_id: u8,
    /// Oscillator phase, a fraction of a period in `[0, UNIT)`.
    pub phase: u64,
    /// Phase advance per sample.
    pub phase_inc: u64,
    /// Sample rate, in hertz.
    pub sample_rate: u32,
    /// The envelope exclusively owned by this voice.
    pub env: Adsr,
    /// Monotonic counter value at the last trigger, for age tie-breaking.
    pub start_ts: u64,
}

impl Voice {
    pub open spec fn wf(self) -> bool {
        &&& self.phase < UNIT
        &&& self.phase_inc <= MAX_PHASE_INC
        &&& 1 <= self.sample_rate <= SR_MAX
        &&& self.env.wf()
    }

    /// A fresh idle voice at the given sample rate, with the default
    /// envelope parameters.
    pub open spec fn spec_default(sr: u32) -> Voice {
        Voice {
            note_id: 0,
            phase: 0,
            phase_inc: 0,
            sample_rate: sr,
            env: Adsr {
                state: EnvState::Idle,
                curve: CurveType::Exponential,
                level: 0,
                sustain: DEFAULT_SUSTAIN,
                attack_us: DEFAULT_ATTACK_US,
                decay_us: DEFAULT_DECAY_US,
                release_us: DEFAULT_RELEASE_US,
                sample_rate: sr,
                attack_samples: spec_samples(DEFAULT_ATTACK_US as int, sr as int) as u64,
                decay_samples: spec_samples(DEFAULT_DECAY_US as int, sr as int) as u64,
                release_samples: spec_samples(DEFAULT_RELEASE_US as int, sr as int) as u64,
                attack_alpha: spec_alpha(spec_samples(DEFAULT_ATTACK_US as int, sr as int)) as u64,
                decay_alpha: spec_alpha(spec_samples(DEFAULT_DECAY_US as int, sr as int)) as u64,
                release_alpha: spec_alpha(
                    spec_samples(DEFAULT_RELEASE_US as int, sr as int),
                ) as u64,
                elapsed: 0,
                release_start: 0,
            },
            start_ts: 0,
        }
    }

    /// What `trigger` does: point the oscillator at the note's frequency,
    /// retrigger the envelope, and record the trigger timestamp. The phase
    /// is kept so that a steal does not jump the waveform.
    pub open spec fn spec_triggered(self, note: u8, timestamp: u64) -> Voice {
        Voice {
            note_id: note,
            phase_inc: spec_phase_inc(note as int, self.sample_rate as int) as u64,
            env: self.env.spec_trigger(),
            start_ts: timestamp,
            ..self
        }
    }

    /// What `next_sample` does to the voice: the envelope steps once and
    /// the phase advances by one increment, wrapped into `[0, UNIT)`.
    pub open spec fn spec_next(self) -> Voice {
        Voice {
            phase: ((self.phase + self.phase_inc) % (UNIT as int)) as u64,
            env: self.env.spec_step(),
            ..self
        }
    }

    /// The sample `next_sample` returns: the tone at the current phase,
    /// scaled by the envelope level after the step.
    pub open spec fn spec_sample(self) -> int {
        spec_scale_signed(spec_sine(self.phase as int), self.env.spec_step().level as int)
    }

    /// The current envelope level, the stealing heuristic's measure.
    pub open spec fn spec_amplitude(self) -> u64 {
        self.env.level
    }

    /// A fresh idle voice with the default envelope.
    pub fn new(sample_rate: u32) -> (v: Voice)
        requires
            1 <= sample_rate <= SR_MAX,
        ensures
            v.wf(),
            v == Voice::spec_default(sample_rate),
    {
        Voice {
            note_id: 0,
            phase: 0,
            phase_inc: 0,
            sample_rate,
            env: Adsr::new(
                DEFAULT_ATTACK_US,
                DEFAULT_DECAY_US,
                DEFAULT_SUSTAIN,
                DEFAULT_RELEASE_US,
                sample_rate,
                CurveType::Exponential,
            ),
            start_ts: 0,
        }
    }

    /// Start (or steal) this voice for a note. The velocity is accepted but
    /// ignored: the envelope alone shapes the amplitude.
    pub fn trigger(&mut self, note: u8, velocity: u64, timestamp: u64)
        requires
            old(self).wf(),
            note < 128,
        ensures
            final(self).wf(),
            *final(self) == old(self).spec_triggered(note, timestamp),
    {
        let _ = velocity;
        self.note_id = note;
        self.phase_inc = phase_inc_for(note, self.sample_rate);
        self.env.trigger();
        self.start_ts = timestamp;
    }

    /// Begin the envelope's release.
    pub fn release(&mut self)
        requires
            old(self).wf(),
        ensures
            final(self).wf(),
            *final(self) == (Voice { env: old(self).env.spec_release(), ..*old(self) }),
    {
        self.env.release();
    }

    /// Advance one sample: step the envelope, emit the tone at the current
    /// phase scaled by the new level, then advance the phase.
    pub fn next_sample(&mut self) -> (sample: i64)
        requires
            old(self).wf(),
        ensures
            final(self).wf(),
            *final(self) == old(self).spec_next(),
            sample == old(self).spec_sample(),
            -(UNIT as int) <= sample <= UNIT as int,
    {
        let amp = self.env.step();
        let s = sine_fp(self.phase);
        let sample = scale_signed(s, amp);
        proof {
            lemma_scale_signed_le(s as int, amp as int, UNIT as int);
            lemma_mod_bound(self.phase + self.phase_inc, UNIT as int);
        }
        self.phase = (self.phase + self.phase_inc) % UNIT;
        sample
    }

    /// An idle voice contributes exactly zero to the mix — which is why the
    /// render loop can pull a sample from every voice without skipping the
    /// finished ones — and stepping it keeps it idle.
    pub proof fn lemma_idle_voice_is_silent(self)
        requires
            self.wf(),
            self.env.state == EnvState::Idle,
        ensures
            self.spec_sample() == 0,
            self.spec_next().env.state == EnvState::Idle,
    {
        let s = spec_sine(self.phase as int);
        lemma_sine_bounds(self.phase as int);
        assert(s * 0 == 0) by (nonlinear_arith);
        assert((-s) * 0 == 0) by (nonlinear_arith);
        assert(0int / (UNIT as int) == 0);
    }

    /// Whether the envelope has rung out completely.
    pub fn is_released_and_done(&self) -> (r: bool)
        ensures
            r == self.env.spec_is_finished(),
    {
        self.env.is_finished()
    }

    /// The current envelope level, without advancing anything.
    pub fn get_amplitude(&self) -> (r: u64)
        ensures
            r == self.spec_amplitude(),
    {
        self.env.get_level()
    }
}

} // verus!

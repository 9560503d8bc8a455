//! The ADSR envelope generator: a per-sample state machine with exact
//! boundary transitions, plus a closed-form evaluator for the linear curve.
//!
//! Every stage is time-boxed by an elapsed-sample counter. An exponential
//! stage approaches its target with a one-pole smoother and a linear stage
//! with a constant increment, but in both cases the stage ends by snapping
//! exactly to the target value once the counter reaches the stage's time box
//! (an asymptotic approach alone would never reach the target).

use vstd::prelude::*;

verus! {

use crate::fixed::{
    lemma_scale_le, scale, spec_scale, EPSILON, SAMPLES_MAX, SR_MAX, TIME_US_MAX, UNIT,
};
use vstd::arithmetic::div_mod::{
    lemma_div_is_ordered, lemma_div_is_ordered_by_denominator, lemma_div_multiples_vanish,
    lemma_div_pos_is_pos,
};
use vstd::arithmetic::mul::{lemma_mul_inequality, lemma_mul_upper_bound};

/// The stage an envelope is in. Exactly one is active at a time.
#[derive(Clone, Copy, Debug, PartialEq, Eq, Structural)]
pub enum EnvState {
    Idle,
    Attack,
    Decay,
    Sustain,
    Release,
}

/// The two interchangeable curve families.
#[derive(Clone, Copy, Debug, PartialEq, Eq, Structural)]
pub enum CurveType {
    Exponential,
    Linear,
}

/// Default attack time of a fresh voice: 10 ms.
pub const DEFAULT_ATTACK_US: u64 = 10_000;

/// Default decay time of a fresh voice: 50 ms.
pub const DEFAULT_DECAY_US: u64 = 50_000;

/// Default sustain level of a fresh voice: 0.7 of full scale.
pub const DEFAULT_SUSTAIN: u64 = 700_000;

/// Default release time of a fresh voice: 100 ms.
pub const DEFAULT_RELEASE_US: u64 = 100_000;

/// The time box of a stage: `ceil(time * sample_rate)` with the time given
/// in microseconds. A time of zero yields a box of zero samples, that is an
/// effectively instantaneous stage.
pub open spec fn spec_samples(time_us: int, sr: int) -> int {
    (time_us * sr + 999_999) / 1_000_000
}

/// The one-pole coefficient for a stage time-boxed to `n` samples, derived
/// from the stage rate `x = 5/n` (five time constants per stage) through a
/// low-order rational approximation of `1 - exp(-x)`, namely
/// `1 - 1/(1 + x + x*x/2)`, carried out in fixed point. The stage is exactly
/// time-boxed regardless, so the coefficient only shapes the approach.
pub open spec fn spec_alpha(n: int) -> int {
    if n <= 0 {
        UNIT as int
    } else {
        let x = 5 * (UNIT as int) / n;
        let denom = (UNIT as int) + x + x * x / (2 * (UNIT as int));
        (UNIT as int) - (UNIT as int) * (UNIT as int) / denom
    }
}

proof fn lemma_alpha_bounds(n: int)
    ensures
        0 <= spec_alpha(n) <= UNIT,
{
    if n > 0 {
        let u = UNIT as int;
        let x = 5 * u / n;
        lemma_div_pos_is_pos(5 * u, n);
        lemma_div_is_ordered_by_denominator(5 * u, 1, n);
        assert(x <= 5 * u);
        lemma_mul_upper_bound(x, 5 * u, x, 5 * u);
        lemma_div_pos_is_pos(x * x, 2 * u);
        let denom = u + x + x * x / (2 * u);
        assert(denom >= u);
        lemma_div_pos_is_pos(u * u, denom);
        lemma_div_is_ordered_by_denominator(u * u, u, denom);
        lemma_div_multiples_vanish(u, u);
    }
}

/// The envelope generator. `level` is the current output, a fixed-point
/// fraction; it is only ever mutated inside `step`, `reset` and the `Idle`
/// snap, never by the parameter setters.
#[derive(Clone, Copy, Debug)]
pub struct Adsr {
    pub state: EnvState,
    pub curve: CurveType,
    /// Current output level, in `[0, UNIT]`.
    pub level: u64,
    /// Sustain level, in `[0, UNIT]`.
    pub sustain: u64,
    /// Stage times, in microseconds.
    pub attack_us: u64,
    pub decay_us: u64,
    pub release_us: u64,
    /// Sample rate, in hertz.
    pub sample_rate: u32,
    /// Derived time boxes, in samples.
    pub attack_samples: u64,
    pub decay_samples: u64,
    pub release_samples: u64,
    /// Derived one-pole coefficients, in `[0, UNIT]`.
    pub attack_alpha: u64,
    pub decay_alpha: u64,
    pub release_alpha: u64,
    /// Samples elapsed in the current stage.
    pub elapsed: u64,
    /// Level captured when `release` was called, the release reference.
    pub release_start: u64,
}

impl Adsr {
    /// Well-formedness: every fraction within full scale, every time box
    /// within the machine limits, and an idle envelope is silent.
    pub open spec fn wf(self) -> bool {
        &&& self.level <= UNIT
        &&& self.sustain <= UNIT
        &&& self.release_start <= UNIT
        &&& self.attack_alpha <= UNIT
        &&& self.decay_alpha <= UNIT
        &&& self.release_alpha <= UNIT
        &&& self.attack_samples <= SAMPLES_MAX
        &&& self.decay_samples <= SAMPLES_MAX
        &&& self.release_samples <= SAMPLES_MAX
        &&& self.elapsed <= SAMPLES_MAX
        &&& self.attack_us <= TIME_US_MAX
        &&& self.decay_us <= TIME_US_MAX
        &&& self.release_us <= TIME_US_MAX
        &&& 1 <= self.sample_rate <= SR_MAX
        &&& (self.state == EnvState::Idle ==> self.level == 0)
    }

    /// The level after one attack update (before any boundary snap).
    pub open spec fn attack_next_level(self) -> int {
        match self.curve {
            CurveType::Exponential => self.level + spec_scale(
                UNIT - self.level,
                self.attack_alpha as int,
            ),
            CurveType::Linear => {
                let n = if self.attack_samples == 0 {
                    1int
                } else {
                    self.attack_samples as int
                };
                let inc = (UNIT as int) / n;
                if self.level + inc >= UNIT {
                    UNIT as int
                } else {
                    self.level + inc
                }
            },
        }
    }

    /// The level after one decay update: one step toward the sustain level.
    pub open spec fn decay_next_level(self) -> int {
        match self.curve {
            CurveType::Exponential => if self.level >= self.sustain {
                self.level - spec_scale(self.level - self.sustain, self.decay_alpha as int)
            } else {
                self.level + spec_scale(self.sustain - self.level, self.decay_alpha as int)
            },
            CurveType::Linear => {
                let n = if self.decay_samples == 0 {
                    1int
                } else {
                    self.decay_samples as int
                };
                let dec = (UNIT - self.sustain) / n;
                if self.level > self.sustain {
                    if self.level - dec <= self.sustain {
                        self.sustain as int
                    } else {
                        self.level - dec
                    }
                } else {
                    self.level as int
                }
            },
        }
    }

    /// The level after one release update (before the epsilon cut-off).
    pub open spec fn release_next_level(self) -> int {
        match self.curve {
            CurveType::Exponential => self.level - spec_scale(
                self.level as int,
                self.release_alpha as int,
            ),
            CurveType::Linear => {
                let n = if self.release_samples == 0 {
                    1int
                } else {
                    self.release_samples as int
                };
                let dec = (self.release_start as int) / n;
                if self.level <= dec {
                    0int
                } else {
                    self.level - dec
                }
            },
        }
    }

    /// One sample of the state machine. Attack and decay snap exactly to
    /// their target once their time box is reached; release snaps to zero
    /// at its time box or as soon as the level falls below `EPSILON`,
    /// whichever comes first.
    pub open spec fn spec_step(self) -> Adsr {
        match self.state {
            EnvState::Idle => Adsr { level: 0, ..self },
            EnvState::Attack => {
                let el = self.elapsed + 1;
                if el >= self.attack_samples {
                    Adsr { state: EnvState::Decay, level: UNIT, elapsed: 0, ..self }
                } else {
                    Adsr {
                        level: self.attack_next_level() as u64,
                        elapsed: el as u64,
                        ..self
                    }
                }
            },
            EnvState::Decay => {
                let el = self.elapsed + 1;
                if el >= self.decay_samples {
                    Adsr { state: EnvState::Sustain, level: self.sustain, elapsed: 0, ..self }
                } else {
                    Adsr {
                        level: self.decay_next_level() as u64,
                        elapsed: el as u64,
                        ..self
                    }
                }
            },
            EnvState::Sustain => Adsr { level: self.sustain, ..self },
            EnvState::Release => {
                let el = self.elapsed + 1;
                if el >= self.release_samples {
                    Adsr { state: EnvState::Idle, level: 0, elapsed: 0, ..self }
                } else {
                    let lv = self.release_next_level();
                    if lv < EPSILON {
                        Adsr { state: EnvState::Idle, level: 0, elapsed: 0, ..self }
                    } else {
                        Adsr { level: lv as u64, elapsed: el as u64, ..self }
                    }
                }
            },
        }
    }

    /// What `trigger` does: move to attack, restart the stage clock, and
    /// keep the current level, so a retrigger proceeds from where the
    /// envelope stands.
    pub open spec fn spec_trigger(self) -> Adsr {
        Adsr { state: EnvState::Attack, elapsed: 0, ..self }
    }

    /// What `release` does: from any stage but idle, capture the current
    /// level as the release reference and move to release; a no-op when
    /// already idle.
    pub open spec fn spec_release(self) -> Adsr {
        if self.state == EnvState::Idle {
            self
        } else {
            Adsr { state: EnvState::Release, elapsed: 0, release_start: self.level, ..self }
        }
    }

    /// Whether two envelopes agree on everything but the stage, the level
    /// and the stage clock. Stepping never touches these fields.
    pub open spec fn same_params(self, other: Adsr) -> bool {
        &&& self.curve == other.curve
        &&& self.sustain == other.sustain
        &&& self.attack_us == other.attack_us
        &&& self.decay_us == other.decay_us
        &&& self.release_us == other.release_us
        &&& self.sample_rate == other.sample_rate
        &&& self.attack_samples == other.attack_samples
        &&& self.decay_samples == other.decay_samples
        &&& self.release_samples == other.release_samples
        &&& self.attack_alpha == other.attack_alpha
        &&& self.decay_alpha == other.decay_alpha
        &&& self.release_alpha == other.release_alpha
        &&& self.release_start == other.release_start
    }

    /// Idle with the level effectively silent.
    pub open spec fn spec_is_finished(self) -> bool {
        self.state == EnvState::Idle && self.level < EPSILON
    }

    /// A fresh, idle envelope with the given parameters.
    pub fn new(
        attack_us: u64,
        decay_us: u64,
        sustain: u64,
        release_us: u64,
        sample_rate: u32,
        curve: CurveType,
    ) -> (env: Adsr)
        requires
            attack_us <= TIME_US_MAX,
            decay_us <= TIME_US_MAX,
            release_us <= TIME_US_MAX,
            sustain <= UNIT,
            1 <= sample_rate <= SR_MAX,
        ensures
            env.wf(),
            env.state == EnvState::Idle,
            env.level == 0,
            env.elapsed == 0,
            env.release_start == 0,
            env.curve == curve,
            env.sustain == sustain,
            env.attack_us == attack_us,
            env.decay_us == decay_us,
            env.release_us == release_us,
            env.sample_rate == sample_rate,
            env.attack_samples == spec_samples(attack_us as int, sample_rate as int),
            env.decay_samples == spec_samples(decay_us as int, sample_rate as int),
            env.release_samples == spec_samples(release_us as int, sample_rate as int),
            env.attack_alpha == spec_alpha(env.attack_samples as int),
            env.decay_alpha == spec_alpha(env.decay_samples as int),
            env.release_alpha == spec_alpha(env.release_samples as int),
    {
        let attack_samples = compute_samples(attack_us, sample_rate);
        let decay_samples = compute_samples(decay_us, sample_rate);
        let release_samples = compute_samples(release_us, sample_rate);
        Adsr {
            state: EnvState::Idle,
            curve,
            level: 0,
            sustain,
            attack_us,
            decay_us,
            release_us,
            sample_rate,
            attack_samples,
            decay_samples,
            release_samples,
            attack_alpha: compute_alpha(attack_samples),
            decay_alpha: compute_alpha(decay_samples),
            release_alpha: compute_alpha(release_samples),
            elapsed: 0,
            release_start: 0,
        }
    }

    /// Move to attack and restart the stage clock. The level is kept, not
    /// reset: a retrigger mid-stage proceeds from the current level.
    pub fn trigger(&mut self)
        requires
            old(self).wf(),
        ensures
            final(self).wf(),
            *final(self) == old(self).spec_trigger(),
            final(self).level == old(self).level,
    {
        self.state = EnvState::Attack;
        self.elapsed = 0;
    }

    /// Capture the current level as the release reference and move to
    /// release; a no-op when already idle.
    pub fn release(&mut self)
        requires
            old(self).wf(),
        ensures
            final(self).wf(),
            *final(self) == old(self).spec_release(),
    {
        if !matches!(self.state, EnvState::Idle) {
            self.release_start = self.level;
            self.state = EnvState::Release;
            self.elapsed = 0;
        }
    }

    /// Hard reset: idle, silent, stage clock zeroed. Parameters are kept.
    pub fn reset(&mut self)
        requires
            old(self).wf(),
        ensures
            final(self).wf(),
            *final(self) == (Adsr {
                state: EnvState::Idle,
                level: 0,
                elapsed: 0,
                release_start: 0,
                ..*old(self)
            }),
    {
        self.state = EnvState::Idle;
        self.level = 0;
        self.elapsed = 0;
        self.release_start = 0;
    }

    /// Advance one sample and return the new level.
    pub fn step(&mut self) -> (level: u64)
        requires
            old(self).wf(),
        ensures
            final(self).wf(),
            *final(self) == old(self).spec_step(),
            level == final(self).level,
    {
        match self.state {
            EnvState::Idle => {
                self.level = 0;
            },
            EnvState::Attack => {
                let el = self.elapsed + 1;
                if el >= self.attack_samples {
                    self.state = EnvState::Decay;
                    self.level = UNIT;
                    self.elapsed = 0;
                } else {
                    match self.curve {
                        CurveType::Exponential => {
                            let gap = UNIT - self.level;
                            let d = scale(gap, self.attack_alpha);
                            proof {
                                lemma_scale_le(gap as int, self.attack_alpha as int);
                            }
                            self.level = self.level + d;
                        },
                        CurveType::Linear => {
                            let inc = UNIT / self.attack_samples;
                            if self.level + inc >= UNIT {
                                self.level = UNIT;
                            } else {
                                self.level = self.level + inc;
                            }
                        },
                    }
                    self.elapsed = el;
                }
            },
            EnvState::Decay => {
                let el = self.elapsed + 1;
                if el >= self.decay_samples {
                    self.state = EnvState::Sustain;
                    self.level = self.sustain;
                    self.elapsed = 0;
                } else {
                    match self.curve {
                        CurveType::Exponential => {
                            if self.level >= self.sustain {
                                let gap = self.level - self.sustain;
                                let d = scale(gap, self.decay_alpha);
                                proof {
                                    lemma_scale_le(gap as int, self.decay_alpha as int);
                                }
                                self.level = self.level - d;
                            } else {
                                let gap = self.sustain - self.level;
                                let d = scale(gap, self.decay_alpha);
                                proof {
                                    lemma_scale_le(gap as int, self.decay_alpha as int);
                                }
                                self.level = self.level + d;
                            }
                        },
                        CurveType::Linear => {
                            let dec = (UNIT - self.sustain) / self.decay_samples;
                            if self.level > self.sustain {
                                if self.level <= self.sustain + dec {
                                    self.level = self.sustain;
                                } else {
                                    self.level = self.level - dec;
                                }
                            }
                        },
                    }
                    self.elapsed = el;
                }
            },
            EnvState::Sustain => {
                self.level = self.sustain;
            },
            EnvState::Release => {
                let el = self.elapsed + 1;
                if el >= self.release_samples {
                    self.state = EnvState::Idle;
                    self.level = 0;
                    self.elapsed = 0;
                } else {
                    let lv = match self.curve {
                        CurveType::Exponential => {
                            let d = scale(self.level, self.release_alpha);
                            proof {
                                lemma_scale_le(self.level as int, self.release_alpha as int);
                            }
                            self.level - d
                        },
                        CurveType::Linear => {
                            let dec = self.release_start / self.release_samples;
                            if self.level <= dec {
                                0
                            } else {
                                self.level - dec
                            }
                        },
                    };
                    if lv < EPSILON {
                        self.state = EnvState::Idle;
                        self.level = 0;
                        self.elapsed = 0;
                    } else {
                        self.level = lv;
                        self.elapsed = el;
                    }
                }
            },
        }
        self.level
    }

    /// Update the attack time and recompute what derives from it. Neither
    /// the stage, the level nor the stage clock changes.
    pub fn set_attack_time_us(&mut self, time_us: u64)
        requires
            old(self).wf(),
            time_us <= TIME_US_MAX,
        ensures
            final(self).wf(),
            *final(self) == (Adsr {
                attack_us: time_us,
                attack_samples: spec_samples(time_us as int, old(self).sample_rate as int) as u64,
                attack_alpha: spec_alpha(
                    spec_samples(time_us as int, old(self).sample_rate as int),
                ) as u64,
                ..*old(self)
            }),
    {
        self.attack_us = time_us;
        self.attack_samples = compute_samples(time_us, self.sample_rate);
        self.attack_alpha = compute_alpha(self.attack_samples);
    }

    /// Update the decay time and recompute what derives from it.
    pub fn set_decay_time_us(&mut self, time_us: u64)
        requires
            old(self).wf(),
            time_us <= TIME_US_MAX,
        ensures
            final(self).wf(),
            *final(self) == (Adsr {
                decay_us: time_us,
                decay_samples: spec_samples(time_us as int, old(self).sample_rate as int) as u64,
                decay_alpha: spec_alpha(
                    spec_samples(time_us as int, old(self).sample_rate as int),
                ) as u64,
                ..*old(self)
            }),
    {
        self.decay_us = time_us;
        self.decay_samples = compute_samples(time_us, self.sample_rate);
        self.decay_alpha = compute_alpha(self.decay_samples);
    }

    /// Update the release time and recompute what derives from it.
    pub fn set_release_time_us(&mut self, time_us: u64)
        requires
            old(self).wf(),
            time_us <= TIME_US_MAX,
        ensures
            final(self).wf(),
            *final(self) == (Adsr {
                release_us: time_us,
                release_samples: spec_samples(time_us as int, old(self).sample_rate as int) as u64,
                release_alpha: spec_alpha(
                    spec_samples(time_us as int, old(self).sample_rate as int),
                ) as u64,
                ..*old(self)
            }),
    {
        self.release_us = time_us;
        self.release_samples = compute_samples(time_us, self.sample_rate);
        self.release_alpha = compute_alpha(self.release_samples);
    }

    /// Update the sustain level. Neither the stage nor the level changes.
    pub fn set_sustain_level(&mut self, sustain: u64)
        requires
            old(self).wf(),
            sustain <= UNIT,
        ensures
            final(self).wf(),
            *final(self) == (Adsr { sustain, ..*old(self) }),
    {
        self.sustain = sustain;
    }

    /// Update the sample rate and recompute every derived time box and
    /// coefficient. Neither the stage, the level nor the stage clock changes.
    pub fn set_sample_rate(&mut self, sample_rate: u32)
        requires
            old(self).wf(),
            1 <= sample_rate <= SR_MAX,
        ensures
            final(self).wf(),
            final(self).state == old(self).state,
            final(self).level == old(self).level,
            final(self).elapsed == old(self).elapsed,
            final(self).sample_rate == sample_rate,
            final(self).attack_samples == spec_samples(
                old(self).attack_us as int,
                sample_rate as int,
            ),
            final(self).decay_samples == spec_samples(
                old(self).decay_us as int,
                sample_rate as int,
            ),
            final(self).release_samples == spec_samples(
                old(self).release_us as int,
                sample_rate as int,
            ),
            final(self).attack_alpha == spec_alpha(final(self).attack_samples as int),
            final(self).decay_alpha == spec_alpha(final(self).decay_samples as int),
            final(self).release_alpha == spec_alpha(final(self).release_samples as int),
            final(self).curve == old(self).curve,
            final(self).sustain == old(self).sustain,
            final(self).release_start == old(self).release_start,
            final(self).attack_us == old(self).attack_us,
            final(self).decay_us == old(self).decay_us,
            final(self).release_us == old(self).release_us,
    {
        self.sample_rate = sample_rate;
        self.attack_samples = compute_samples(self.attack_us, sample_rate);
        self.decay_samples = compute_samples(self.decay_us, sample_rate);
        self.release_samples = compute_samples(self.release_us, sample_rate);
        self.attack_alpha = compute_alpha(self.attack_samples);
        self.decay_alpha = compute_alpha(self.decay_samples);
        self.release_alpha = compute_alpha(self.release_samples);
    }

    /// Switch the curve family. Neither the stage nor the level changes.
    pub fn set_curve_type(&mut self, curve: CurveType)
        requires
            old(self).wf(),
        ensures
            final(self).wf(),
            *final(self) == (Adsr { curve, ..*old(self) }),
    {
        self.curve = curve;
    }

    /// Whether the envelope is idle.
    pub fn is_idle(&self) -> (r: bool)
        ensures
            r == (self.state == EnvState::Idle),
    {
        matches!(self.state, EnvState::Idle)
    }

    /// Whether the envelope is idle and effectively silent.
    pub fn is_finished(&self) -> (r: bool)
        ensures
            r == self.spec_is_finished(),
    {
        matches!(self.state, EnvState::Idle) && self.level < EPSILON
    }

    /// The current level, without advancing the envelope.
    pub fn get_level(&self) -> (r: u64)
        ensures
            r == self.level,
    {
        self.level
    }
}

/// Parameters for the closed-form envelope evaluator: stage time boxes in
/// samples and a sustain level in fixed point.
#[derive(Clone, Copy, Debug, PartialEq, Eq, Structural)]
pub struct EnvelopeParams {
    pub attack: u64,
    pub decay: u64,
    pub sustain: u64,
    pub release: u64,
}

impl EnvelopeParams {
    pub open spec fn wf(self) -> bool {
        &&& self.attack <= SAMPLES_MAX
        &&& self.decay <= SAMPLES_MAX
        &&& self.release <= SAMPLES_MAX
        &&& self.sustain <= UNIT
    }
}

/// The closed-form level of a linear-curve envelope `n` samples after a
/// trigger from silence, before any release. Each stage occupies its time
/// box, at least one sample: the attack ramps from zero and snaps to full
/// scale, the decay ramps down and snaps to the sustain level.
pub open spec fn spec_pre_release(n: int, p: EnvelopeParams) -> int {
    let a = if p.attack == 0 {
        1int
    } else {
        p.attack as int
    };
    let d = if p.decay == 0 {
        1int
    } else {
        p.decay as int
    };
    if n < a {
        if p.attack == 0 {
            0
        } else {
            n * ((UNIT as int) / (p.attack as int))
        }
    } else {
        let m = n - a;
        if m == 0 {
            UNIT as int
        } else if m < d {
            (UNIT as int) - m * (((UNIT - p.sustain) as int) / (p.decay as int))
        } else {
            p.sustain as int
        }
    }
}

/// The closed-form level `m` samples into a linear release that started at
/// level `start`, with the silence cut-off applied.
pub open spec fn spec_release_level(start: int, m: int, release: int) -> int {
    let r = if release == 0 {
        1int
    } else {
        release
    };
    if m <= 0 {
        start
    } else if m >= r {
        0
    } else {
        let lv = start - m * (start / release);
        if lv < EPSILON {
            0
        } else {
            lv
        }
    }
}

/// The closed-form amplitude of a linear-curve envelope `n` samples after
/// its trigger, given an optional note-off time in samples since the
/// trigger.
pub open spec fn spec_value_at(n: int, note_off: Option<int>, p: EnvelopeParams) -> int {
    match note_off {
        Some(off) => if n >= off {
            spec_release_level(spec_pre_release(off, p), n - off, p.release as int)
        } else {
            spec_pre_release(n, p)
        },
        None => spec_pre_release(n, p),
    }
}

/// Whether the closed-form envelope has finished `n` samples after its
/// trigger: a release happened and its time box has fully elapsed.
pub open spec fn spec_env_finished(n: int, note_off: Option<int>, p: EnvelopeParams) -> bool {
    match note_off {
        Some(off) => n >= off + p.release,
        None => false,
    }
}

fn pre_release_value(n: u64, params: &EnvelopeParams) -> (level: u64)
    requires
        params.wf(),
    ensures
        level == spec_pre_release(n as int, *params),
        level <= UNIT,
{
    let a = if params.attack == 0 {
        1
    } else {
        params.attack
    };
    let d = if params.decay == 0 {
        1
    } else {
        params.decay
    };
    if n < a {
        if params.attack == 0 {
            0
        } else {
            let inc = UNIT / params.attack;
            proof {
                lemma_div_pos_is_pos(UNIT as int, params.attack as int);
                lemma_mul_upper_bound(n as int, params.attack as int - 1, inc as int, UNIT as int);
                lemma_mul_inequality(n as int, params.attack as int, inc as int);
                vstd::arithmetic::div_mod::lemma_fundamental_div_mod(
                    UNIT as int,
                    params.attack as int,
                );
                vstd::arithmetic::div_mod::lemma_mod_bound(UNIT as int, params.attack as int);
                assert(params.attack as int * inc as int == inc as int * params.attack as int)
                    by (nonlinear_arith);
            }
            n * inc
        }
    } else {
        let m = n - a;
        if m == 0 {
            UNIT
        } else if m < d {
            let dec = (UNIT - params.sustain) / params.decay;
            proof {
                lemma_div_pos_is_pos((UNIT - params.sustain) as int, params.decay as int);
                lemma_mul_upper_bound(
                    m as int,
                    params.decay as int - 1,
                    dec as int,
                    UNIT as int,
                );
                lemma_mul_inequality(m as int, params.decay as int, dec as int);
                vstd::arithmetic::div_mod::lemma_fundamental_div_mod(
                    (UNIT - params.sustain) as int,
                    params.decay as int,
                );
                vstd::arithmetic::div_mod::lemma_mod_bound(
                    (UNIT - params.sustain) as int,
                    params.decay as int,
                );
                assert(params.decay as int * dec as int == dec as int * params.decay as int)
                    by (nonlinear_arith);
            }
            UNIT - m * dec
        } else {
            params.sustain
        }
    }
}

fn release_value(start: u64, m: u64, release: u64) -> (level: u64)
    requires
        start <= UNIT,
        release <= SAMPLES_MAX,
    ensures
        level == spec_release_level(start as int, m as int, release as int),
        level <= UNIT,
{
    let r = if release == 0 {
        1
    } else {
        release
    };
    if m == 0 {
        start
    } else if m >= r {
        0
    } else {
        let dec = start / release;
        proof {
            lemma_div_pos_is_pos(start as int, release as int);
            lemma_div_is_ordered(start as int, UNIT as int, release as int);
            lemma_div_is_ordered_by_denominator(start as int, 1, release as int);
            lemma_mul_upper_bound(m as int, SAMPLES_MAX as int, dec as int, UNIT as int);
        }
        let prod = m * dec;
        let lv = if prod >= start {
            0
        } else {
            start - prod
        };
        if lv < EPSILON {
            0
        } else {
            lv
        }
    }
}

/// Compute the linear-curve envelope's amplitude `n_since_on` samples after
/// its trigger, given an optional note-off time (in samples since the
/// trigger). This closed form serves offline, random-access evaluation such
/// as preview rendering; the streaming render loop uses the stepwise
/// machine, and the two are never mixed inside one voice.
pub fn value_at(n_since_on: u64, note_off: Option<u64>, params: &EnvelopeParams) -> (level: u64)
    requires
        params.wf(),
    ensures
        level == spec_value_at(
            n_since_on as int,
            match note_off {
                Some(o) => Some(o as int),
                None => None,
            },
            *params,
        ),
        level <= UNIT,
{
    match note_off {
        Some(off) => {
            if n_since_on >= off {
                let start = pre_release_value(off, params);
                release_value(start, n_since_on - off, params.release)
            } else {
                pre_release_value(n_since_on, params)
            }
        },
        None => pre_release_value(n_since_on, params),
    }
}

/// Whether the closed-form envelope has effectively finished `n_since_on`
/// samples after its trigger.
pub fn is_finished(n_since_on: u64, note_off: Option<u64>, params: &EnvelopeParams) -> (r: bool)
    requires
        params.wf(),
    ensures
        r == spec_env_finished(
            n_since_on as int,
            match note_off {
                Some(o) => Some(o as int),
                None => None,
            },
            *params,
        ),
{
    match note_off {
        Some(off) => n_since_on >= off && n_since_on - off >= params.release,
        None => false,
    }
}

/// The time box of a stage, computed from a time in microseconds and a
/// sample rate in hertz.
pub fn compute_samples(time_us: u64, sr: u32) -> (n: u64)
    requires
        time_us <= TIME_US_MAX,
        1 <= sr <= SR_MAX,
    ensures
        n == spec_samples(time_us as int, sr as int),
        n <= SAMPLES_MAX,
{
    proof {
        lemma_mul_upper_bound(time_us as int, TIME_US_MAX as int, sr as int, SR_MAX as int);
        lemma_div_pos_is_pos(time_us as int * sr as int + 999_999, 1_000_000);
        lemma_div_is_ordered(
            time_us as int * sr as int + 999_999,
            10_000_000_000_000_999_999int,
            1_000_000,
        );
        assert(10_000_000_000_000_999_999int / 1_000_000 == 10_000_000_000_000int);
    }
    (time_us * (sr as u64) + 999_999) / 1_000_000
}

/// The one-pole coefficient for a stage time-boxed to `n` samples.
pub fn compute_alpha(n: u64) -> (a: u64)
    ensures
        a == spec_alpha(n as int),
        a <= UNIT,
{
    proof {
        lemma_alpha_bounds(n as int);
    }
    if n == 0 {
        UNIT
    } else {
        let x = (5 * UNIT) / n;
        proof {
            lemma_div_pos_is_pos(5 * UNIT as int, n as int);
            lemma_div_is_ordered_by_denominator(5 * UNIT as int, 1, n as int);
            lemma_mul_upper_bound(x as int, 5 * UNIT as int, x as int, 5 * UNIT as int);
            lemma_div_pos_is_pos(x as int * x as int, 2 * UNIT as int);
            lemma_div_is_ordered(
                x as int * x as int,
                25_000_000_000_000,
                2 * UNIT as int,
            );
        }
        let denom = UNIT + x + (x * x) / (2 * UNIT);
        proof {
            lemma_div_pos_is_pos(UNIT as int * UNIT as int, denom as int);
            lemma_div_is_ordered_by_denominator(UNIT as int * UNIT as int, UNIT as int, denom as int);
            lemma_div_multiples_vanish(UNIT as int, UNIT as int);
        }
        UNIT - (UNIT * UNIT) / denom
    }
}

} // verus!

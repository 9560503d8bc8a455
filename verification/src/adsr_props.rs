//! The laws of the envelope machine: each stage ends exactly on its time
//! box, sustain holds, release always reaches silence, and a retrigger
//! proceeds from the current level.

use vstd::prelude::*;

verus! {

use crate::adsr::{
    spec_pre_release, spec_release_level, spec_value_at, Adsr, CurveType, EnvState,
    EnvelopeParams,
};
use crate::fixed::{lemma_scale_le, EPSILON, SAMPLES_MAX, UNIT};
use vstd::arithmetic::div_mod::{
    lemma_div_pos_is_pos, lemma_fundamental_div_mod, lemma_mod_bound,
};
use vstd::arithmetic::mul::lemma_mul_inequality;

/// The envelope after `n` samples of stepping.
pub open spec fn stepped(e: Adsr, n: nat) -> Adsr
    decreases n,
{
    if n == 0 {
        e
    } else {
        stepped(e, (n - 1) as nat).spec_step()
    }
}

/// One step keeps the envelope well formed and never touches the
/// parameters.
pub proof fn lemma_step_wf(e: Adsr)
    requires
        e.wf(),
    ensures
        e.spec_step().wf(),
        e.spec_step().same_params(e),
{
    match e.state {
        EnvState::Idle => {},
        EnvState::Attack => {
            if e.elapsed + 1 >= e.attack_samples {
            } else {
                match e.curve {
                    crate::adsr::CurveType::Exponential => {
                        lemma_scale_le(UNIT - e.level, e.attack_alpha as int);
                    },
                    crate::adsr::CurveType::Linear => {
                        let n = if e.attack_samples == 0 {
                            1int
                        } else {
                            e.attack_samples as int
                        };
                        lemma_div_pos_is_pos(UNIT as int, n);
                    },
                }
            }
        },
        EnvState::Decay => {
            if e.elapsed + 1 >= e.decay_samples {
            } else {
                match e.curve {
                    crate::adsr::CurveType::Exponential => {
                        if e.level >= e.sustain {
                            lemma_scale_le(e.level - e.sustain, e.decay_alpha as int);
                        } else {
                            lemma_scale_le(e.sustain - e.level, e.decay_alpha as int);
                        }
                    },
                    crate::adsr::CurveType::Linear => {
                        let n = if e.decay_samples == 0 {
                            1int
                        } else {
                            e.decay_samples as int
                        };
                        lemma_div_pos_is_pos(UNIT - e.sustain, n);
                    },
                }
            }
        },
        EnvState::Sustain => {},
        EnvState::Release => {
            if e.elapsed + 1 >= e.release_samples {
            } else {
                match e.curve {
                    crate::adsr::CurveType::Exponential => {
                        lemma_scale_le(e.level as int, e.release_alpha as int);
                    },
                    crate::adsr::CurveType::Linear => {
                        let n = if e.release_samples == 0 {
                            1int
                        } else {
                            e.release_samples as int
                        };
                        lemma_div_pos_is_pos(e.release_start as int, n);
                    },
                }
            }
        },
    }
}

/// Within a stage the level moves monotonically, boundary snaps included:
/// attack never lowers it, release never raises it, and decay never moves
/// it below the sustain level nor raises it while above.
pub proof fn lemma_step_monotone(e: Adsr)
    requires
        e.wf(),
    ensures
        e.state == EnvState::Attack ==> e.spec_step().level >= e.level,
        e.state == EnvState::Release ==> e.spec_step().level <= e.level,
        e.state == EnvState::Decay && e.level >= e.sustain ==> e.sustain <= e.spec_step().level
            <= e.level,
{
    lemma_step_wf(e);
    match e.state {
        EnvState::Attack => {
            if e.elapsed + 1 >= e.attack_samples {
            } else {
                match e.curve {
                    crate::adsr::CurveType::Exponential => {
                        lemma_scale_le(UNIT - e.level, e.attack_alpha as int);
                    },
                    crate::adsr::CurveType::Linear => {
                        let n = if e.attack_samples == 0 {
                            1int
                        } else {
                            e.attack_samples as int
                        };
                        lemma_div_pos_is_pos(UNIT as int, n);
                    },
                }
            }
        },
        EnvState::Decay => {
            if e.elapsed + 1 >= e.decay_samples {
            } else {
                match e.curve {
                    crate::adsr::CurveType::Exponential => {
                        if e.level >= e.sustain {
                            lemma_scale_le(e.level - e.sustain, e.decay_alpha as int);
                        }
                    },
                    crate::adsr::CurveType::Linear => {
                        let n = if e.decay_samples == 0 {
                            1int
                        } else {
                            e.decay_samples as int
                        };
                        lemma_div_pos_is_pos(UNIT - e.sustain, n);
                    },
                }
            }
        },
        EnvState::Release => {
            if e.elapsed + 1 >= e.release_samples {
            } else {
                match e.curve {
                    crate::adsr::CurveType::Exponential => {
                        lemma_scale_le(e.level as int, e.release_alpha as int);
                    },
                    crate::adsr::CurveType::Linear => {},
                }
            }
        },
        _ => {},
    }
}

/// Stepping keeps the envelope well formed, over any number of samples.
pub proof fn lemma_stepped_wf(e: Adsr, n: nat)
    requires
        e.wf(),
    ensures
        stepped(e, n).wf(),
        stepped(e, n).same_params(e),
    decreases n,
{
    if n > 0 {
        lemma_stepped_wf(e, (n - 1) as nat);
        lemma_step_wf(stepped(e, (n - 1) as nat));
    }
}

/// Stepping `m + n` samples is stepping `m`, then `n`.
pub proof fn lemma_stepped_add(e: Adsr, m: nat, n: nat)
    ensures
        stepped(e, m + n) == stepped(stepped(e, m), n),
    decreases n,
{
    if n > 0 {
        lemma_stepped_add(e, m, (n - 1) as nat);
        assert(stepped(e, m + n) == stepped(e, (m + n - 1) as nat).spec_step());
    }
}

/// While the attack time box has not been reached, the envelope stays in
/// attack and its stage clock counts the steps taken.
proof fn lemma_attack_progress(e: Adsr, k: nat)
    requires
        e.wf(),
        e.state == EnvState::Attack,
        e.elapsed == 0,
        k < e.attack_samples,
    ensures
        stepped(e, k).wf(),
        stepped(e, k).state == EnvState::Attack,
        stepped(e, k).elapsed == k,
        stepped(e, k).same_params(e),
    decreases k,
{
    if k > 0 {
        lemma_attack_progress(e, (k - 1) as nat);
        lemma_step_wf(stepped(e, (k - 1) as nat));
    }
}

/// From the start of attack, after exactly the attack time box of steps the
/// level is full scale and the stage is decay, with a fresh stage clock.
pub proof fn lemma_attack_completes(e: Adsr)
    requires
        e.wf(),
        e.state == EnvState::Attack,
        e.elapsed == 0,
        e.attack_samples >= 1,
    ensures
        stepped(e, e.attack_samples as nat).wf(),
        stepped(e, e.attack_samples as nat).state == EnvState::Decay,
        stepped(e, e.attack_samples as nat).level == UNIT,
        stepped(e, e.attack_samples as nat).elapsed == 0,
        stepped(e, e.attack_samples as nat).same_params(e),
{
    let n = e.attack_samples as nat;
    lemma_attack_progress(e, (n - 1) as nat);
    lemma_step_wf(stepped(e, (n - 1) as nat));
    assert(stepped(e, n) == stepped(e, (n - 1) as nat).spec_step());
}

/// While the decay time box has not been reached, the envelope stays in
/// decay and its stage clock counts the steps taken.
proof fn lemma_decay_progress(e: Adsr, k: nat)
    requires
        e.wf(),
        e.state == EnvState::Decay,
        e.elapsed == 0,
        k < e.decay_samples,
    ensures
        stepped(e, k).wf(),
        stepped(e, k).state == EnvState::Decay,
        stepped(e, k).elapsed == k,
        stepped(e, k).same_params(e),
    decreases k,
{
    if k > 0 {
        lemma_decay_progress(e, (k - 1) as nat);
        lemma_step_wf(stepped(e, (k - 1) as nat));
    }
}

/// From the start of decay, after exactly the decay time box of steps the
/// level is exactly the sustain level and the stage is sustain.
pub proof fn lemma_decay_completes(e: Adsr)
    requires
        e.wf(),
        e.state == EnvState::Decay,
        e.elapsed == 0,
        e.decay_samples >= 1,
    ensures
        stepped(e, e.decay_samples as nat).wf(),
        stepped(e, e.decay_samples as nat).state == EnvState::Sustain,
        stepped(e, e.decay_samples as nat).level == e.sustain,
        stepped(e, e.decay_samples as nat).elapsed == 0,
        stepped(e, e.decay_samples as nat).same_params(e),
{
    let n = e.decay_samples as nat;
    lemma_decay_progress(e, (n - 1) as nat);
    lemma_step_wf(stepped(e, (n - 1) as nat));
    assert(stepped(e, n) == stepped(e, (n - 1) as nat).spec_step());
}

/// Triggered from idle, the envelope reaches full scale after the attack
/// time box and the sustain level after the decay time box on top of it.
pub proof fn lemma_attack_then_decay(e: Adsr)
    requires
        e.wf(),
        e.state == EnvState::Attack,
        e.elapsed == 0,
        e.attack_samples >= 1,
        e.decay_samples >= 1,
    ensures
        stepped(e, (e.attack_samples + e.decay_samples) as nat).state == EnvState::Sustain,
        stepped(e, (e.attack_samples + e.decay_samples) as nat).level == e.sustain,
{
    lemma_attack_completes(e);
    let mid = stepped(e, e.attack_samples as nat);
    lemma_decay_completes(mid);
    lemma_stepped_add(e, e.attack_samples as nat, e.decay_samples as nat);
}

/// Sustain holds the level constant for arbitrarily many further steps.
pub proof fn lemma_sustain_holds(e: Adsr, k: nat)
    requires
        e.wf(),
        e.state == EnvState::Sustain,
        e.level == e.sustain,
    ensures
        stepped(e, k) == e,
    decreases k,
{
    if k > 0 {
        lemma_sustain_holds(e, (k - 1) as nat);
        assert(e.spec_step() == e);
    }
}

/// Until its time box is reached, a releasing envelope is either still in
/// release with its stage clock counting the steps, or already idle and
/// silent (the epsilon cut-off fired).
proof fn lemma_release_progress(e: Adsr, k: nat)
    requires
        e.wf(),
        e.state == EnvState::Release,
        e.elapsed == 0,
        k < e.release_samples,
    ensures
        stepped(e, k).wf(),
        stepped(e, k).same_params(e),
        (stepped(e, k).state == EnvState::Release && stepped(e, k).elapsed == k) || (stepped(
            e,
            k,
        ).state == EnvState::Idle && stepped(e, k).level == 0),
    decreases k,
{
    if k > 0 {
        lemma_release_progress(e, (k - 1) as nat);
        lemma_step_wf(stepped(e, (k - 1) as nat));
    }
}

/// From the start of release, after at most the release time box of steps
/// the envelope is idle and exactly silent; the epsilon cut-off can only
/// make it idle earlier, never later.
pub proof fn lemma_release_completes(e: Adsr)
    requires
        e.wf(),
        e.state == EnvState::Release,
        e.elapsed == 0,
        e.release_samples >= 1,
    ensures
        stepped(e, e.release_samples as nat).wf(),
        stepped(e, e.release_samples as nat).state == EnvState::Idle,
        stepped(e, e.release_samples as nat).level == 0,
        stepped(e, e.release_samples as nat).same_params(e),
{
    let n = e.release_samples as nat;
    lemma_release_progress(e, (n - 1) as nat);
    lemma_step_wf(stepped(e, (n - 1) as nat));
    assert(stepped(e, n) == stepped(e, (n - 1) as nat).spec_step());
}

/// As soon as a release update would fall below the silence threshold, the
/// very next step goes idle and exactly silent.
pub proof fn lemma_release_epsilon_cutoff(e: Adsr)
    requires
        e.wf(),
        e.state == EnvState::Release,
        e.release_next_level() < EPSILON,
    ensures
        e.spec_step().state == EnvState::Idle,
        e.spec_step().level == 0,
{
}

/// `release` moves to release from any stage but idle, and is a no-op when
/// idle.
pub proof fn lemma_release_total(e: Adsr)
    requires
        e.wf(),
    ensures
        e.state != EnvState::Idle ==> e.spec_release().state == EnvState::Release
            && e.spec_release().release_start == e.level && e.spec_release().elapsed == 0,
        e.state == EnvState::Idle ==> e.spec_release() == e,
{
}

/// A linear-curve envelope freshly triggered from silence whose stage
/// time boxes and sustain level are exactly the closed form's parameters.
pub open spec fn tracks_params(e: Adsr, p: EnvelopeParams) -> bool {
    &&& e.wf()
    &&& p.wf()
    &&& e.curve == CurveType::Linear
    &&& e.state == EnvState::Attack
    &&& e.elapsed == 0
    &&& e.level == 0
    &&& e.attack_samples == p.attack
    &&& e.decay_samples == p.decay
    &&& e.release_samples == p.release
    &&& e.sustain == p.sustain
}

/// Before any release, the machine walks exactly the closed form's
/// pre-release trajectory: a linear ramp through attack, the snap to full
/// scale, a linear ramp through decay, the snap to sustain.
proof fn lemma_pre_release_shape(e: Adsr, p: EnvelopeParams, n: nat)
    requires
        tracks_params(e, p),
    ensures
        ({
            let s = stepped(e, n);
            let a = if p.attack == 0 {
                1int
            } else {
                p.attack as int
            };
            let d = if p.decay == 0 {
                1int
            } else {
                p.decay as int
            };
            &&& s.wf()
            &&& s.same_params(e)
            &&& s.level == spec_pre_release(n as int, p)
            &&& (n < a ==> s.state == EnvState::Attack && s.elapsed == n)
            &&& (a <= n < a + d ==> s.state == EnvState::Decay && s.elapsed == n - a)
            &&& (n >= a + d ==> s.state == EnvState::Sustain)
        }),
    decreases n,
{
    let a = if p.attack == 0 {
        1int
    } else {
        p.attack as int
    };
    let d = if p.decay == 0 {
        1int
    } else {
        p.decay as int
    };
    if n > 0 {
        lemma_pre_release_shape(e, p, (n - 1) as nat);
        let t = stepped(e, (n - 1) as nat);
        lemma_step_wf(t);
        assert(stepped(e, n) == t.spec_step());
        if n - 1 < a {
            if n >= a {
                // The snap step into decay: the stage clock reaches the
                // attack time box (immediately, for a zero attack time).
                assert(t.elapsed + 1 >= e.attack_samples);
            } else {
                // Still ramping: the increment can never reach full scale
                // before the time box does.
                let inc = (UNIT as int) / (p.attack as int);
                lemma_div_pos_is_pos(UNIT as int, p.attack as int);
                lemma_fundamental_div_mod(UNIT as int, p.attack as int);
                lemma_mod_bound(UNIT as int, p.attack as int);
                assert((p.attack as int) * inc <= UNIT);
                lemma_mul_inequality(n as int, a - 1, inc);
                assert((a - 1) * inc == a * inc - inc) by (nonlinear_arith);
                assert((n - 1) * inc + inc == n * inc) by (nonlinear_arith);
                if inc == 0 {
                    assert(n as int * inc == 0) by (nonlinear_arith)
                        requires
                            inc == 0,
                    ;
                }
                assert(n * inc < UNIT);
                assert(t.level == (n - 1) * inc);
            }
        } else if n - 1 < a + d {
            if n >= a + d {
                // The snap step into sustain.
                assert(t.elapsed + 1 >= e.decay_samples);
            } else {
                // Still ramping down: the decrement keeps the level
                // strictly above the sustain level until the time box.
                let m = n - a;
                let dec = ((UNIT - p.sustain) as int) / (p.decay as int);
                lemma_div_pos_is_pos((UNIT - p.sustain) as int, p.decay as int);
                lemma_fundamental_div_mod((UNIT - p.sustain) as int, p.decay as int);
                lemma_mod_bound((UNIT - p.sustain) as int, p.decay as int);
                assert((p.decay as int) * dec <= UNIT - p.sustain);
                lemma_mul_inequality(m, d - 1, dec);
                assert((d - 1) * dec == d * dec - dec) by (nonlinear_arith);
                assert((m - 1) * dec + dec == m * dec) by (nonlinear_arith);
                assert(0 * dec == 0) by (nonlinear_arith);
                assert(t.level == UNIT - (m - 1) * dec);
                if dec == 0 {
                    assert(m * dec == 0 && (m - 1) * dec == 0) by (nonlinear_arith)
                        requires
                            dec == 0,
                    ;
                } else {
                    assert(m * dec <= UNIT - p.sustain - dec);
                    assert(t.level - dec > p.sustain);
                }
            }
        } else {
            // Sustain holds.
        }
    }
}

/// From the start of a linear release, the machine walks exactly the
/// closed form's release trajectory, going idle at the silence cut-off or
/// at the time box, whichever comes first.
proof fn lemma_release_shape(e: Adsr, m: nat)
    requires
        e.wf(),
        e.curve == CurveType::Linear,
        e.state == EnvState::Release,
        e.elapsed == 0,
        e.release_start == e.level,
    ensures
        ({
            let s = stepped(e, m);
            let start = e.level as int;
            let rel = e.release_samples as int;
            &&& s.wf()
            &&& s.same_params(e)
            &&& s.level == spec_release_level(start, m as int, rel)
            &&& (s.state == EnvState::Release || (s.state == EnvState::Idle && s.level == 0))
            &&& (s.state == EnvState::Release ==> s.elapsed == m && s.release_start == e.level
                && (m > 0 ==> (m as int) < rel && s.level == start - (m as int) * (start / rel)
                && s.level >= EPSILON))
        }),
    decreases m,
{
    let start = e.level as int;
    let rel = e.release_samples as int;
    if m > 0 {
        lemma_release_shape(e, (m - 1) as nat);
        let t = stepped(e, (m - 1) as nat);
        lemma_step_wf(t);
        assert(stepped(e, m) == t.spec_step());
        if t.state == EnvState::Idle {
            // Already cut off: the closed form stays at zero too, since
            // the trajectory is non-increasing.
            assert(spec_release_level(start, (m - 1) as int, rel) == 0);
            if m < rel {
                let dec = start / rel;
                lemma_div_pos_is_pos(start, rel);
                lemma_mul_inequality((m - 1) as int, m as int, dec);
                assert(spec_release_level(start, m as int, rel) == 0);
            }
        } else {
            // Still releasing after m-1 steps.
            let dec = start / rel;
            if t.elapsed + 1 >= e.release_samples {
                // The time box snaps to silence, and the closed form is
                // zero at and beyond it.
            } else {
                // rel >= 2 here, so the division is sound.
                lemma_div_pos_is_pos(start, rel);
                assert(0 * dec == 0) by (nonlinear_arith);
                assert(t.level == start - ((m - 1) as int) * dec);
                assert(((m - 1) as int) * dec + dec == (m as int) * dec) by (nonlinear_arith);
            }
        }
    }
}

/// The closed-form evaluator and the stepwise machine agree on the linear
/// curve, before any release: after `n` steps of a freshly triggered
/// envelope the level is exactly what the closed form gives.
pub proof fn lemma_value_at_matches_machine(e: Adsr, p: EnvelopeParams, n: nat)
    requires
        tracks_params(e, p),
    ensures
        stepped(e, n).level == spec_value_at(n as int, None, p),
{
    lemma_pre_release_shape(e, p, n);
}

/// The closed-form evaluator and the stepwise machine agree on the linear
/// curve across a release: stepping `off` samples, releasing, and stepping
/// the remaining `n - off` samples lands exactly on the closed form's
/// value for a note-off at `off`.
pub proof fn lemma_value_at_matches_machine_with_release(
    e: Adsr,
    p: EnvelopeParams,
    n: nat,
    off: nat,
)
    requires
        tracks_params(e, p),
        off <= n,
    ensures
        stepped(stepped(e, off).spec_release(), (n - off) as nat).level == spec_value_at(
            n as int,
            Some(off as int),
            p,
        ),
{
    lemma_pre_release_shape(e, p, off);
    let s = stepped(e, off);
    let rel = s.spec_release();
    assert(s.state != EnvState::Idle);
    lemma_release_shape(rel, (n - off) as nat);
}

/// A retrigger restarts attack from the current level, not from zero, in
/// either curve family.
pub proof fn lemma_trigger_keeps_level(e: Adsr)
    requires
        e.wf(),
    ensures
        e.spec_trigger().state == EnvState::Attack,
        e.spec_trigger().level == e.level,
        e.spec_trigger().elapsed == 0,
        e.spec_trigger().same_params(e),
{
}

} // verus!

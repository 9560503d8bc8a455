use harmonic_nxo::adsr::{is_finished, value_at, Adsr, CurveType, EnvState, EnvelopeParams};
use harmonic_nxo::fixed::UNIT;

const SR: u32 = 44100;

fn fresh(curve: CurveType) -> Adsr {
    // 10 ms attack, 50 ms decay, 0.7 sustain, 100 ms release at 44.1 kHz:
    // 441 / 2205 / 4410 samples.
    Adsr::new(10_000, 50_000, 700_000, 100_000, SR, curve)
}

#[test]
fn attack_reaches_full_scale_exactly_linear() {
    let mut env = fresh(CurveType::Linear);
    env.trigger();
    for _ in 0..441 {
        env.step();
    }
    assert_eq!(env.get_level(), UNIT);
    assert_eq!(env.state, EnvState::Decay);
}

#[test]
fn attack_reaches_full_scale_exactly_exponential() {
    let mut env = fresh(CurveType::Exponential);
    env.trigger();
    for _ in 0..440 {
        env.step();
        assert!(env.state == EnvState::Attack);
        assert!(env.get_level() < UNIT);
    }
    env.step();
    assert_eq!(env.get_level(), UNIT);
    assert_eq!(env.state, EnvState::Decay);
}

#[test]
fn decay_reaches_sustain_exactly() {
    let mut env = fresh(CurveType::Exponential);
    env.trigger();
    for _ in 0..441 {
        env.step();
    }
    for _ in 0..2205 {
        env.step();
    }
    assert_eq!(env.get_level(), 700_000);
    assert_eq!(env.state, EnvState::Sustain);
}

#[test]
fn sustain_holds_level_constant() {
    let mut env = fresh(CurveType::Linear);
    env.trigger();
    for _ in 0..(441 + 2205) {
        env.step();
    }
    assert_eq!(env.state, EnvState::Sustain);
    for _ in 0..10_000 {
        assert_eq!(env.step(), 700_000);
    }
    assert_eq!(env.state, EnvState::Sustain);
}

#[test]
fn release_reaches_silence_after_its_time_box() {
    let mut env = fresh(CurveType::Exponential);
    env.trigger();
    for _ in 0..(441 + 2205) {
        env.step();
    }
    env.release();
    assert_eq!(env.state, EnvState::Release);
    for _ in 0..4410 {
        env.step();
    }
    assert_eq!(env.get_level(), 0);
    assert_eq!(env.state, EnvState::Idle);
    assert!(env.is_finished());
}

#[test]
fn release_works_from_mid_attack() {
    let mut env = fresh(CurveType::Linear);
    env.trigger();
    for _ in 0..10 {
        env.step();
    }
    assert_eq!(env.state, EnvState::Attack);
    env.release();
    assert_eq!(env.state, EnvState::Release);
    for _ in 0..4410 {
        env.step();
    }
    assert_eq!(env.get_level(), 0);
    assert_eq!(env.state, EnvState::Idle);
}

#[test]
fn release_on_idle_is_a_no_op() {
    let mut env = fresh(CurveType::Linear);
    env.release();
    assert_eq!(env.state, EnvState::Idle);
    assert_eq!(env.get_level(), 0);
}

#[test]
fn release_cuts_off_below_epsilon() {
    // A sustain level below the silence threshold: the very first release
    // step snaps straight to idle.
    let mut env = Adsr::new(10_000, 50_000, 5, 100_000, SR, CurveType::Exponential);
    env.trigger();
    for _ in 0..(441 + 2205) {
        env.step();
    }
    assert_eq!(env.get_level(), 5);
    env.release();
    env.step();
    assert_eq!(env.state, EnvState::Idle);
    assert_eq!(env.get_level(), 0);
}

#[test]
fn retrigger_resumes_from_current_level() {
    let mut env = fresh(CurveType::Exponential);
    env.trigger();
    for _ in 0..100 {
        env.step();
    }
    let mid = env.get_level();
    assert!(mid > 0 && mid < UNIT);
    env.trigger();
    assert_eq!(env.get_level(), mid);
    assert_eq!(env.state, EnvState::Attack);
    let after = env.step();
    assert!(after >= mid);
}

#[test]
fn zero_attack_time_is_instantaneous() {
    let mut env = Adsr::new(0, 50_000, 700_000, 100_000, SR, CurveType::Linear);
    env.trigger();
    env.step();
    assert_eq!(env.get_level(), UNIT);
    assert_eq!(env.state, EnvState::Decay);
}

#[test]
fn setters_keep_state_and_level() {
    let mut env = fresh(CurveType::Exponential);
    env.trigger();
    for _ in 0..100 {
        env.step();
    }
    let level = env.get_level();
    let state = env.state;
    env.set_attack_time_us(20_000);
    env.set_decay_time_us(30_000);
    env.set_release_time_us(40_000);
    env.set_sustain_level(600_000);
    env.set_sample_rate(48_000);
    env.set_curve_type(CurveType::Linear);
    assert_eq!(env.get_level(), level);
    assert_eq!(env.state, state);
    assert_eq!(env.attack_samples, 960);
    assert_eq!(env.decay_samples, 1440);
    assert_eq!(env.release_samples, 1920);
}

#[test]
fn reset_goes_idle_and_silent() {
    let mut env = fresh(CurveType::Linear);
    env.trigger();
    for _ in 0..500 {
        env.step();
    }
    env.reset();
    assert_eq!(env.state, EnvState::Idle);
    assert_eq!(env.get_level(), 0);
    assert!(env.is_idle());
}

#[test]
fn value_at_linear_formula_exact_values() {
    let p = EnvelopeParams { attack: 100, decay: 100, sustain: 500_000, release: 100 };
    assert_eq!(value_at(0, None, &p), 0);
    assert_eq!(value_at(50, None, &p), 500_000);
    assert_eq!(value_at(100, None, &p), UNIT);
    assert_eq!(value_at(150, None, &p), 750_000);
    assert_eq!(value_at(200, None, &p), 500_000);
    assert_eq!(value_at(100_000, None, &p), 500_000);
}

#[test]
fn value_at_release_branch() {
    let p = EnvelopeParams { attack: 100, decay: 100, sustain: 500_000, release: 100 };
    // Before the note-off time the release is ignored.
    assert_eq!(value_at(50, Some(250), &p), 500_000);
    // Release from sustain: 5000 per sample.
    assert_eq!(value_at(300, Some(250), &p), 250_000);
    assert_eq!(value_at(349, Some(250), &p), 5_000);
    assert_eq!(value_at(350, Some(250), &p), 0);
    assert_eq!(value_at(10_000, Some(250), &p), 0);
}

#[test]
fn is_finished_only_after_release_elapses() {
    let p = EnvelopeParams { attack: 100, decay: 100, sustain: 500_000, release: 100 };
    assert!(!is_finished(1_000_000, None, &p));
    assert!(!is_finished(349, Some(250), &p));
    assert!(is_finished(350, Some(250), &p));
}

#[test]
fn closed_form_agrees_with_stepping_linear() {
    // 100-sample stages at 1 kHz so the closed form's time boxes match the
    // machine's exactly.
    let p = EnvelopeParams { attack: 100, decay: 100, sustain: 500_000, release: 100 };
    let mut env = Adsr::new(100_000, 100_000, 500_000, 100_000, 1000, CurveType::Linear);
    assert_eq!(env.attack_samples, 100);
    env.trigger();
    for n in 1..=250u64 {
        let stepped = env.step();
        assert_eq!(stepped, value_at(n, None, &p), "pre-release sample {}", n);
    }
    env.release();
    for m in 1..=120u64 {
        let stepped = env.step();
        assert_eq!(stepped, value_at(250 + m, Some(250), &p), "release sample {}", m);
    }
}

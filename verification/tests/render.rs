use harmonic_nxo::adsr::EnvState;
use harmonic_nxo::fixed::UNIT;
use harmonic_nxo::pool::VoicePool;
use harmonic_nxo::render::{process_block, NoteEvent};
use harmonic_nxo::voice::{midi_note_to_freq_millihz, sine_fp, Voice};

const SR: u32 = 44100;

#[test]
fn sine_hits_its_extremes_exactly() {
    assert_eq!(sine_fp(0), 0);
    assert_eq!(sine_fp(250_000), 1_000_000);
    assert_eq!(sine_fp(500_000), 0);
    assert_eq!(sine_fp(750_000), -1_000_000);
    assert_eq!(sine_fp(125_000), 750_000);
    assert_eq!(sine_fp(875_000), -750_000);
}

#[test]
fn note_frequencies_follow_equal_temperament() {
    // The 440 Hz reference, middle C, and the extremes of the note range.
    assert_eq!(midi_note_to_freq_millihz(69), 440_000);
    assert_eq!(midi_note_to_freq_millihz(60), 261_632);
    assert_eq!(midi_note_to_freq_millihz(0), 8_176);
    assert_eq!(midi_note_to_freq_millihz(127), 12_544_000);
    // One octave is an exact doubling.
    assert_eq!(midi_note_to_freq_millihz(81), 880_000);
}

#[test]
fn idle_voice_contributes_exact_silence() {
    let mut v = Voice::new(SR);
    assert!(v.is_released_and_done());
    for _ in 0..100 {
        assert_eq!(v.next_sample(), 0);
    }
}

#[test]
fn trigger_sets_the_oscillator_increment() {
    let mut v = Voice::new(SR);
    v.trigger(69, 1_000_000, 7);
    assert_eq!(v.note_id, 69);
    assert_eq!(v.start_ts, 7);
    // 440 Hz at 44.1 kHz: 440000 * UNIT / 44_100_000.
    assert_eq!(v.phase_inc, 9_977);
    assert!(!v.is_released_and_done());
}

#[test]
fn end_to_end_block_shapes_and_rings_out() {
    let mut pool = VoicePool::new(SR, 16);
    let events = vec![
        NoteEvent::NoteOn { note: 60, velocity: UNIT, frame_offset: 0 },
        NoteEvent::NoteOn { note: 64, velocity: UNIT, frame_offset: 10 },
        NoteEvent::NoteOff { note: 60, frame_offset: 20 },
        NoteEvent::NoteOff { note: 64, frame_offset: 30 },
    ];
    let gains = vec![UNIT; 64];
    let out = process_block(&mut pool, &events, 64, 2, &gains);
    // One sample per channel per frame.
    assert_eq!(out.len(), 64 * 2);
    // The mono mixdown is duplicated across both channels.
    for f in 0..64 {
        assert_eq!(out[2 * f], out[2 * f + 1]);
    }
    // Sounding voices make the block audibly non-zero.
    assert!(out.iter().any(|&s| s != 0));
    // Both releases are running by the end of the block.
    assert_eq!(pool.voices[0].env.state, EnvState::Release);
    assert_eq!(pool.voices[1].env.state, EnvState::Release);
    // Well after the 100 ms release time the output is exact silence.
    let tail_gains = vec![UNIT; 8192];
    let tail = process_block(&mut pool, &Vec::new(), 8192, 2, &tail_gains);
    assert_eq!(tail.len(), 8192 * 2);
    assert_eq!(tail[2 * 8191], 0);
    assert_eq!(tail[2 * 8191 + 1], 0);
    assert!(pool.voices[0].is_released_and_done());
    assert!(pool.voices[1].is_released_and_done());
}

#[test]
fn events_at_one_frame_apply_in_arrival_order() {
    let mut pool = VoicePool::new(SR, 16);
    let events = vec![
        NoteEvent::NoteOn { note: 60, velocity: UNIT, frame_offset: 5 },
        NoteEvent::NoteOff { note: 60, frame_offset: 5 },
    ];
    let gains = vec![UNIT; 8];
    process_block(&mut pool, &events, 8, 1, &gains);
    // The note-on landed first, so the note-off found the voice and
    // released it at level zero; the silence cut-off then made it idle on
    // the very next sample. Had the note-off been applied first it would
    // have been a no-op and the voice would still be mid-attack.
    assert_eq!(pool.voices[0].env.state, EnvState::Idle);
    assert!(pool.voices[0].is_released_and_done());
}

#[test]
fn zero_gain_silences_the_block() {
    let mut pool = VoicePool::new(SR, 16);
    let events = vec![NoteEvent::NoteOn { note: 60, velocity: UNIT, frame_offset: 0 }];
    let gains = vec![0u64; 32];
    let out = process_block(&mut pool, &events, 32, 2, &gains);
    assert!(out.iter().all(|&s| s == 0));
    // The voice still advanced: the envelope is mid-attack.
    assert_eq!(pool.voices[0].env.state, EnvState::Attack);
    assert!(pool.voices[0].get_amplitude() > 0);
}

#[test]
fn empty_block_produces_no_output() {
    let mut pool = VoicePool::new(SR, 16);
    let out = process_block(&mut pool, &Vec::new(), 0, 2, &Vec::new());
    assert_eq!(out.len(), 0);
}

#[test]
fn block_advances_the_sample_clock_once_per_frame() {
    let mut pool = VoicePool::new(SR, 16);
    let gains = vec![UNIT; 48];
    process_block(&mut pool, &Vec::new(), 48, 2, &gains);
    assert_eq!(pool.ts, 48);
}

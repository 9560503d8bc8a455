use harmonic_nxo::adsr::EnvState;
use harmonic_nxo::pool::VoicePool;

const SR: u32 = 44100;

#[test]
fn pool_never_exceeds_capacity() {
    let mut pool = VoicePool::new(SR, 4);
    for note in 40..90u8 {
        pool.on_note_on(note, 1_000_000);
        assert!(pool.voice_count() <= 4);
    }
    assert_eq!(pool.voice_count(), 4);
}

#[test]
fn voices_grow_lazily_up_to_capacity() {
    let mut pool = VoicePool::new(SR, 8);
    assert_eq!(pool.voice_count(), 0);
    pool.on_note_on(60, 1_000_000);
    assert_eq!(pool.voice_count(), 1);
    pool.on_note_on(64, 1_000_000);
    assert_eq!(pool.voice_count(), 2);
    assert_eq!(pool.note_index(60), Some(0));
    assert_eq!(pool.note_index(64), Some(1));
}

#[test]
fn steal_takes_the_quietest_voice() {
    let mut pool = VoicePool::new(SR, 2);
    pool.on_note_on(60, 1_000_000);
    pool.on_note_on(64, 1_000_000);
    // Two voices with deliberately distinct, known levels.
    pool.voices[0].env.level = 300_000;
    pool.voices[1].env.level = 100_000;
    pool.on_note_on(70, 1_000_000);
    // The quieter voice (index 1) was reclaimed; its previous owner lost
    // its mapping.
    assert_eq!(pool.voice_count(), 2);
    assert_eq!(pool.note_index(70), Some(1));
    assert_eq!(pool.note_index(64), None);
    assert_eq!(pool.note_index(60), Some(0));
    assert_eq!(pool.voices[1].note_id, 70);
}

#[test]
fn steal_tie_breaks_to_the_lowest_index() {
    let mut pool = VoicePool::new(SR, 2);
    pool.on_note_on(60, 1_000_000);
    pool.on_note_on(64, 1_000_000);
    pool.voices[0].env.level = 200_000;
    pool.voices[1].env.level = 200_000;
    pool.on_note_on(70, 1_000_000);
    assert_eq!(pool.note_index(70), Some(0));
    assert_eq!(pool.note_index(60), None);
    assert_eq!(pool.note_index(64), Some(1));
}

#[test]
fn note_off_on_unknown_note_changes_nothing() {
    let mut pool = VoicePool::new(SR, 4);
    pool.on_note_on(60, 1_000_000);
    let ts = pool.ts;
    let queue_before = pool.queue.clone();
    pool.on_note_off(99);
    assert_eq!(pool.voice_count(), 1);
    assert_eq!(pool.note_index(60), Some(0));
    assert_eq!(pool.voices[0].env.state, EnvState::Attack);
    assert_eq!(pool.ts, ts);
    assert_eq!(pool.queue, queue_before);
}

#[test]
fn note_off_on_empty_pool_does_not_fail() {
    let mut pool = VoicePool::new(SR, 4);
    pool.on_note_off(0);
    pool.on_note_off(127);
    assert_eq!(pool.voice_count(), 0);
}

#[test]
fn note_off_releases_the_mapped_voice_and_keeps_the_mapping() {
    let mut pool = VoicePool::new(SR, 4);
    pool.on_note_on(60, 1_000_000);
    pool.on_note_off(60);
    assert_eq!(pool.voices[0].env.state, EnvState::Release);
    // The mapping stays until a later note-on's reclamation pass.
    assert_eq!(pool.note_index(60), Some(0));
    // A second note-off for the same note must not fail either.
    pool.on_note_off(60);
    assert_eq!(pool.voices[0].env.state, EnvState::Release);
}

#[test]
fn repeated_note_on_maps_to_the_most_recent_trigger() {
    let mut pool = VoicePool::new(SR, 4);
    pool.on_note_on(60, 1_000_000);
    assert_eq!(pool.note_index(60), Some(0));
    pool.on_note_on(60, 1_000_000);
    // The second trigger took a fresh voice; the mapping follows it.
    assert_eq!(pool.voice_count(), 2);
    assert_eq!(pool.note_index(60), Some(1));
    assert_eq!(pool.voices[1].note_id, 60);
}

#[test]
fn finished_voices_are_reclaimed_lazily() {
    let mut pool = VoicePool::new(SR, 4);
    pool.on_note_on(60, 1_000_000);
    // Ring the voice out completely.
    pool.voices[0].env.state = EnvState::Idle;
    pool.voices[0].env.level = 0;
    pool.on_note_on(64, 1_000_000);
    // The stale mapping is gone, but the voice array never shrinks.
    assert_eq!(pool.note_index(60), None);
    assert_eq!(pool.note_index(64), Some(1));
    assert_eq!(pool.voice_count(), 2);
}

#[test]
fn queue_tracks_most_recently_used_order() {
    let mut pool = VoicePool::new(SR, 2);
    pool.on_note_on(60, 1_000_000);
    pool.on_note_on(64, 1_000_000);
    assert_eq!(pool.queue, vec![0, 1]);
    // Stealing voice 0 moves it to the back of the allocation-order queue.
    pool.voices[0].env.level = 100_000;
    pool.voices[1].env.level = 200_000;
    pool.on_note_on(70, 1_000_000);
    assert_eq!(pool.queue, vec![1, 0]);
}

use furiri::engine::{
    Furiri, NoteEvent, TimedEvent, BEND_SCALE, MAX_VOICES, PITCH_RANGE, SUSTAIN_CONTROLLER,
};
use furiri::envelope::{Envelope, Level, LEVEL_ONE};

fn env(attack: u32, decay: u32, sustain: u32, release: u32) -> Envelope {
    Envelope { attack, decay, sustain, release }
}

fn run(engine: &mut Furiri, samples: usize, increment: u32, e: &Envelope) {
    for _ in 0..samples {
        for i in 0..engine.voice_count() {
            engine.advance_voice(i, increment, e);
        }
    }
}

fn same(a: Level, num: u128, den: u128) -> bool {
    a.num * den == num * a.den
}

#[test]
fn new_engine_is_silent() {
    let engine = Furiri::new();
    assert_eq!(engine.voice_count(), 0);
    assert!(!engine.sustain_pedal);
    assert_eq!(engine.bend_semitones(), (0, BEND_SCALE));
}

#[test]
fn note_on_starts_a_fresh_voice() {
    let mut engine = Furiri::new();
    engine.note_on(60, 100);
    let v = engine.voice(0);
    assert_eq!(v.note, 60);
    assert_eq!(v.velocity, 100);
    assert_eq!(v.phase, 0);
    assert_eq!(v.samples_since_event, 0);
    assert!(!v.off && !v.sustaining);
}

#[test]
fn full_registry_steals_the_oldest_voice() {
    let mut engine = Furiri::new();
    for k in 0..MAX_VOICES {
        engine.note_on(k as u8, 1);
    }
    assert_eq!(engine.voice_count(), MAX_VOICES);
    engine.note_on(100, 2);
    assert_eq!(engine.voice_count(), MAX_VOICES);
    assert_eq!(engine.voice(0).note, 1);
    assert_eq!(engine.voice(MAX_VOICES - 2).note, (MAX_VOICES - 1) as u8);
    assert_eq!(engine.voice(MAX_VOICES - 1).note, 100);
    engine.note_on(101, 2);
    assert_eq!(engine.voice_count(), MAX_VOICES);
    assert_eq!(engine.voice(0).note, 2);
}

#[test]
fn release_during_attack_keeps_the_present_level() {
    let e = env(480, 0, LEVEL_ONE, 480);
    let mut engine = Furiri::new();
    engine.note_on(69, 127);
    run(&mut engine, 120, 1000, &e);
    engine.note_off(69, &e);
    let v = engine.voice(0);
    assert!(v.off);
    assert_eq!(v.samples_since_event, 0);
    assert!(same(v.release_level, 1, 4));
    assert!(same(v.level(&e), 1, 4));
    // Half way through the release the level has halved.
    run(&mut engine, 240, 1000, &e);
    assert!(same(engine.voice(0).level(&e), 1, 8));
}

#[test]
fn note_off_touches_only_its_note() {
    let e = env(10, 10, LEVEL_ONE, 10);
    let mut engine = Furiri::new();
    engine.note_on(60, 1);
    engine.note_on(62, 1);
    engine.note_on(60, 1);
    engine.note_off(60, &e);
    assert!(engine.voice(0).off);
    assert!(!engine.voice(1).off);
    assert!(engine.voice(2).off);
}

#[test]
fn finished_voice_is_pruned_exactly_at_release_length() {
    let e = env(0, 0, LEVEL_ONE, 100);
    let mut engine = Furiri::new();
    engine.note_on(60, 1);
    engine.note_on(61, 1);
    engine.note_off(60, &e);
    run(&mut engine, 99, 7, &e);
    engine.prune(&e);
    assert_eq!(engine.voice_count(), 2);
    run(&mut engine, 1, 7, &e);
    engine.prune(&e);
    assert_eq!(engine.voice_count(), 1);
    assert_eq!(engine.voice(0).note, 61);
    // A held voice is never pruned, however long it sounds.
    run(&mut engine, 10_000, 7, &e);
    engine.prune(&e);
    assert_eq!(engine.voice_count(), 1);
}

#[test]
fn pedal_defers_release_until_lifted() {
    let e = env(100, 100, LEVEL_ONE / 2, 50);
    let mut engine = Furiri::new();
    engine.note_on(60, 1);
    engine.note_on(64, 1);
    engine.set_sustain_pedal(true, &e);
    run(&mut engine, 50, 3, &e);
    engine.note_off(60, &e);
    engine.note_off(64, &e);
    assert!(!engine.voice(0).off && engine.voice(0).sustaining);
    assert!(!engine.voice(1).off && engine.voice(1).sustaining);
    assert_eq!(engine.voice(0).samples_since_event, 50);
    // The voices keep moving through their stages while they wait.
    run(&mut engine, 100, 3, &e);
    engine.set_sustain_pedal(false, &e);
    for i in 0..2 {
        let v = engine.voice(i);
        assert!(v.off && !v.sustaining);
        assert_eq!(v.samples_since_event, 0);
        // 150 samples in: half way through the decay, 1 - 0.5 * 0.5.
        assert!(same(v.release_level, 3, 4));
    }
}

#[test]
fn pedal_does_not_touch_other_voices() {
    let e = env(10, 10, LEVEL_ONE, 30);
    let mut engine = Furiri::new();
    engine.note_on(60, 1);
    engine.note_on(62, 1);
    engine.note_off(62, &e);
    run(&mut engine, 5, 3, &e);
    engine.set_sustain_pedal(true, &e);
    engine.set_sustain_pedal(false, &e);
    assert!(!engine.voice(0).off);
    assert!(engine.voice(1).off);
    assert_eq!(engine.voice(1).samples_since_event, 5);
}

#[test]
fn control_change_drives_the_pedal() {
    let e = env(10, 10, LEVEL_ONE, 30);
    let mut engine = Furiri::new();
    engine.handle_event(NoteEvent::ControlChange { controller: SUSTAIN_CONTROLLER, value: 64 }, &e);
    assert!(engine.sustain_pedal);
    engine.handle_event(NoteEvent::ControlChange { controller: 7, value: 0 }, &e);
    assert!(engine.sustain_pedal);
    engine.handle_event(NoteEvent::ControlChange { controller: SUSTAIN_CONTROLLER, value: 63 }, &e);
    assert!(!engine.sustain_pedal);
}

#[test]
fn pitch_wheel_sets_the_bend() {
    let e = env(10, 10, LEVEL_ONE, 30);
    let mut engine = Furiri::new();
    engine.handle_event(NoteEvent::PitchBend { amount: 4096 }, &e);
    assert_eq!(engine.pitch_bend, 4096);
    assert_eq!(engine.bend_semitones(), (PITCH_RANGE * 4096, BEND_SCALE));
    engine.handle_event(NoteEvent::PitchBend { amount: -8192 }, &e);
    assert_eq!(engine.bend_semitones(), (-2 * 8192, 8192));
}

#[test]
fn due_events_apply_up_to_their_sample() {
    let e = env(10, 10, LEVEL_ONE, 30);
    let mut engine = Furiri::new();
    let events = vec![
        TimedEvent { timing: 0, event: NoteEvent::NoteOn { note: 60, velocity: 1 } },
        TimedEvent { timing: 0, event: NoteEvent::NoteOn { note: 62, velocity: 1 } },
        TimedEvent { timing: 3, event: NoteEvent::NoteOff { note: 60 } },
        TimedEvent { timing: 5, event: NoteEvent::NoteOn { note: 64, velocity: 1 } },
    ];
    let mut next = engine.apply_due_events(&events, 0, 0, &e);
    assert_eq!(next, 2);
    assert_eq!(engine.voice_count(), 2);
    next = engine.apply_due_events(&events, next, 2, &e);
    assert_eq!(next, 2);
    assert!(!engine.voice(0).off);
    next = engine.apply_due_events(&events, next, 3, &e);
    assert_eq!(next, 3);
    assert!(engine.voice(0).off);
    next = engine.apply_due_events(&events, next, 9, &e);
    assert_eq!(next, 4);
    assert_eq!(engine.voice_count(), 3);
    assert_eq!(engine.apply_due_events(&events, next, 10, &e), 4);
}

#[test]
fn phase_wraps_into_the_unit_interval() {
    let e = env(10, 10, LEVEL_ONE, 30);
    let mut engine = Furiri::new();
    engine.note_on(60, 1);
    engine.advance_voice(0, u32::MAX, &e);
    assert_eq!(engine.voice(0).phase, u32::MAX);
    engine.advance_voice(0, 2, &e);
    assert_eq!(engine.voice(0).phase, 1);
    assert_eq!(engine.voice(0).samples_since_event, 2);
}

#[test]
fn block_with_one_note_ramps_over_the_attack() {
    // 48 kHz, 10 ms attack and release, no decay, full sustain; one note at offset 0.
    let e = env(480, 0, LEVEL_ONE, 480);
    let increment: u32 = 39_370_534; // 440 / 48000 of a cycle, in 2^-32 steps
    let mut engine = Furiri::new();
    let events = vec![TimedEvent { timing: 0, event: NoteEvent::NoteOn { note: 69, velocity: 127 } }];
    let mut next = 0usize;
    for s in 0..480u32 {
        next = engine.apply_due_events(&events, next, s, &e);
        assert_eq!(engine.voice_count(), 1);
        let level = engine.advance_voice(0, increment, &e);
        assert!(same(level, s as u128 + 1, 480));
        assert_eq!(engine.voice(0).phase, increment.wrapping_mul(s + 1));
    }
    engine.prune(&e);
    assert_eq!(engine.voice_count(), 1);
    assert!(same(engine.voice(0).level(&e), 1, 1));
}

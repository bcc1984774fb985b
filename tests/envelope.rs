use furiri::envelope::{held_level, released_level, Envelope, Level, LEVEL_ONE};

fn env(attack: u32, decay: u32, sustain: u32, release: u32) -> Envelope {
    Envelope { attack, decay, sustain, release }
}

fn same(a: Level, num: u128, den: u128) -> bool {
    a.num * den == num * a.den
}

#[test]
fn attack_ramps_up_linearly() {
    let e = env(480, 0, LEVEL_ONE, 480);
    assert_eq!(held_level(&e, 0), Level { num: 0, den: 480 });
    assert_eq!(held_level(&e, 120), Level { num: 120, den: 480 });
    assert_eq!(held_level(&e, 480), Level { num: 480, den: 480 });
}

#[test]
fn empty_attack_starts_at_full_amplitude() {
    let e = env(0, 100, LEVEL_ONE / 2, 10);
    assert_eq!(held_level(&e, 0), Level { num: 1, den: 1 });
}

#[test]
fn decay_falls_to_sustain() {
    let e = env(100, 200, LEVEL_ONE / 4, 10);
    assert!(same(held_level(&e, 100), 1, 1));
    // Halfway through the decay: 1 - 0.75 * 0.5.
    assert!(same(held_level(&e, 200), 5, 8));
    assert!(same(held_level(&e, 300), 1, 4));
    assert!(same(held_level(&e, 301), 1, 4));
    assert!(same(held_level(&e, 1_000_000), 1, 4));
}

#[test]
fn empty_decay_jumps_to_sustain() {
    let e = env(10, 0, LEVEL_ONE / 2, 10);
    assert!(same(held_level(&e, 10), 1, 1));
    assert!(same(held_level(&e, 11), 1, 2));
}

#[test]
fn stage_boundaries_have_no_jump() {
    let e = env(1000, 1000, LEVEL_ONE / 2, 10);
    let a = held_level(&e, 999);
    let b = held_level(&e, 1000);
    let c = held_level(&e, 1001);
    // Each step is at most 1/1000 of full scale.
    let diff = |x: Level, y: Level| {
        let l = x.num as i128 * y.den as i128;
        let r = y.num as i128 * x.den as i128;
        ((l - r).abs() * 1000) <= (x.den as i128 * y.den as i128)
    };
    assert!(diff(a, b));
    assert!(diff(b, c));
    assert!(diff(held_level(&e, 1999), held_level(&e, 2000)));
    assert!(diff(held_level(&e, 2000), held_level(&e, 2001)));
}

#[test]
fn release_ramps_down_from_start() {
    let e = env(10, 10, LEVEL_ONE, 400);
    let start = Level { num: 1, den: 4 };
    assert!(same(released_level(start, &e, 0), 1, 4));
    assert!(same(released_level(start, &e, 200), 1, 8));
    assert_eq!(released_level(start, &e, 400), Level { num: 0, den: 1 });
    assert_eq!(released_level(start, &e, 5000), Level { num: 0, den: 1 });
}

#[test]
fn empty_release_is_silent_at_once() {
    let e = env(10, 10, LEVEL_ONE, 0);
    assert_eq!(released_level(Level { num: 1, den: 1 }, &e, 0), Level { num: 0, den: 1 });
}

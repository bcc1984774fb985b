use furiri::tuning::{degree_ratio, interval, split_offset, Interval, Tuning};

fn ratio(i: Interval) -> (u64, u64) {
    match i {
        Interval::Rational { num, den } => (num, den),
        Interval::Tempered { .. } => panic!("expected an exact ratio"),
    }
}

#[test]
fn split_offset_floors_negative_offsets() {
    assert_eq!(split_offset(0), (0, 0));
    assert_eq!(split_offset(13), (1, 1));
    assert_eq!(split_offset(-1), (-1, 11));
    assert_eq!(split_offset(-12), (-1, 0));
    assert_eq!(split_offset(-13), (-2, 11));
    assert_eq!(split_offset(127), (10, 7));
    assert_eq!(split_offset(-127), (-11, 5));
}

#[test]
fn degree_tables() {
    assert_eq!(degree_ratio(Tuning::Just, 0), (1, 1));
    assert_eq!(degree_ratio(Tuning::Just, 6), (45, 32));
    assert_eq!(degree_ratio(Tuning::Just, 11), (15, 8));
    assert_eq!(degree_ratio(Tuning::Pythagorean, 1), (256, 243));
    assert_eq!(degree_ratio(Tuning::Pythagorean, 6), (729, 512));
    assert_eq!(degree_ratio(Tuning::Pythagorean, 11), (243, 128));
}

#[test]
fn base_note_is_unison_in_every_tuning() {
    for base in [0u8, 60, 69, 127] {
        assert_eq!(interval(Tuning::Equal, base, base), Interval::Tempered { semitones: 0 });
        assert_eq!(ratio(interval(Tuning::Just, base, base)), (1, 1));
        assert_eq!(ratio(interval(Tuning::Pythagorean, base, base)), (1, 1));
    }
}

#[test]
fn equal_temperament_gives_the_semitone_distance() {
    assert_eq!(interval(Tuning::Equal, 81, 69), Interval::Tempered { semitones: 12 });
    assert_eq!(interval(Tuning::Equal, 0, 127), Interval::Tempered { semitones: -127 });
}

#[test]
fn table_tunings_shift_by_octaves() {
    assert_eq!(ratio(interval(Tuning::Just, 76, 69)), (3, 2));
    assert_eq!(ratio(interval(Tuning::Just, 81, 69)), (2, 1));
    assert_eq!(ratio(interval(Tuning::Just, 88, 69)), (6, 2));
    assert_eq!(ratio(interval(Tuning::Just, 58, 69)), (16, 30));
    assert_eq!(ratio(interval(Tuning::Pythagorean, 57, 69)), (1, 2));
    assert_eq!(ratio(interval(Tuning::Pythagorean, 73, 69)), (81, 64));
    assert_eq!(ratio(interval(Tuning::Pythagorean, 0, 127)), (4, 3 * 2048));
}

#[test]
fn frequency_rises_with_the_note() {
    for tuning in [Tuning::Just, Tuning::Pythagorean] {
        for base in [0u8, 69, 127] {
            for note in 0u8..127 {
                let (n1, d1) = ratio(interval(tuning, note, base));
                let (n2, d2) = ratio(interval(tuning, note + 1, base));
                assert!((n1 as u128) * (d2 as u128) < (n2 as u128) * (d1 as u128));
            }
        }
    }
    for note in 0u8..127 {
        let lo = interval(Tuning::Equal, note, 60);
        let hi = interval(Tuning::Equal, note + 1, 60);
        match (lo, hi) {
            (Interval::Tempered { semitones: a }, Interval::Tempered { semitones: b }) => {
                assert!(a < b)
            }
            _ => panic!("expected tempered intervals"),
        }
    }
}

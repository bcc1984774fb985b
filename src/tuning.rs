use vstd::prelude::*;

verus! {

/// The rule that maps a distance in semitones from the base note to a frequency ratio.
#[derive(Clone, Copy, Debug, PartialEq, Eq, Structural)]
pub enum Tuning {
    /// Twelve equal semitones per octave: the ratio is `2^(offset / 12)`.
    Equal,
    /// Just intonation, relative to the base note.
    Just,
    /// Pythagorean tuning, relative to the base note.
    Pythagorean,
}

/// The frequency ratio of a note to the base note.
///
/// Equal temperament has irrational ratios, so it is given by its exponent: the ratio is
/// `2^(semitones / 12)`. The other tunings give an exact fraction `num / den`.
#[derive(Clone, Copy, Debug, PartialEq, Eq, Structural)]
pub enum Interval {
    Tempered { semitones: i32 },
    Rational { num: u64, den: u64 },
}

/// Just intonation ratio of each scale degree, as `(numerator, denominator)`.
pub open spec fn just_ratio_spec(degree: int) -> (int, int) {
    if degree == 0 { (1, 1) }
    else if degree == 1 { (16, 15) }
    else if degree == 2 { (9, 8) }
    else if degree == 3 { (6, 5) }
    else if degree == 4 { (5, 4) }
    else if degree == 5 { (4, 3) }
    else if degree == 6 { (45, 32) }
    else if degree == 7 { (3, 2) }
    else if degree == 8 { (8, 5) }
    else if degree == 9 { (5, 3) }
    else if degree == 10 { (16, 9) }
    else { (15, 8) }
}

/// Pythagorean ratio of each scale degree, as `(numerator, denominator)`.
pub open spec fn pythagorean_ratio_spec(degree: int) -> (int, int) {
    if degree == 0 { (1, 1) }
    else if degree == 1 { (256, 243) }
    else if degree == 2 { (9, 8) }
    else if degree == 3 { (32, 27) }
    else if degree == 4 { (81, 64) }
    else if degree == 5 { (4, 3) }
    else if degree == 6 { (729, 512) }
    else if degree == 7 { (3, 2) }
    else if degree == 8 { (128, 81) }
    else if degree == 9 { (27, 16) }
    else if degree == 10 { (16, 9) }
    else { (243, 128) }
}

/// The ratio of a scale degree (0 to 11) under a tuning with a fixed table.
pub open spec fn degree_ratio_spec(tuning: Tuning, degree: int) -> (int, int) {
    if tuning == Tuning::Just {
        just_ratio_spec(degree)
    } else {
        pythagorean_ratio_spec(degree)
    }
}

pub open spec fn pow2(e: nat) -> int
    decreases e,
{
    if e == 0 { 1 } else { 2 * pow2((e - 1) as nat) }
}

/// Octave of a signed semitone offset, rounded towards minus infinity.
pub open spec fn octave_of(offset: int) -> int {
    offset / 12
}

/// Pitch class of a signed semitone offset, always in 0..12.
pub open spec fn degree_of(offset: int) -> int {
    offset % 12
}

/// The exact ratio `2^octave * table[degree]` of a tuning with a fixed table, as a fraction.
pub open spec fn table_interval(tuning: Tuning, offset: int) -> (int, int) {
    let r = degree_ratio_spec(tuning, degree_of(offset));
    let o = octave_of(offset);
    if o >= 0 {
        (r.0 * pow2(o as nat), r.1)
    } else {
        (r.0, r.1 * pow2((-o) as nat))
    }
}

/// The interval of `note` above (or below) `base_note` under `tuning`.
pub open spec fn interval_spec(tuning: Tuning, note: int, base_note: int) -> Interval {
    let offset = note - base_note;
    if tuning == Tuning::Equal {
        Interval::Tempered { semitones: offset as i32 }
    } else {
        let f = table_interval(tuning, offset);
        Interval::Rational { num: f.0 as u64, den: f.1 as u64 }
    }
}

/// Splits a signed semitone offset into an octave and a pitch class, with floored division.
pub fn split_offset(offset: i32) -> (r: (i32, u8))
    ensures
        r.0 == octave_of(offset as int),
        r.1 as int == degree_of(offset as int),
        0 <= r.1 < 12,
        offset == 12 * r.0 + r.1,
{
    let d: i32 = offset % 12;
    let q: i32 = offset / 12;
    if d < 0 {
        assert(offset as int == 12 * (q as int - 1) + (d as int + 12));
        assert(octave_of(offset as int) == q - 1 && degree_of(offset as int) == d + 12) by {
            vstd::arithmetic::div_mod::lemma_fundamental_div_mod_converse(
                offset as int, 12, q as int - 1, d as int + 12);
        }
        (q - 1, (d + 12) as u8)
    } else {
        assert(octave_of(offset as int) == q && degree_of(offset as int) == d) by {
            vstd::arithmetic::div_mod::lemma_fundamental_div_mod_converse(
                offset as int, 12, q as int, d as int);
        }
        (q, d as u8)
    }
}

/// The table entry of a scale degree under a tuning with a fixed table.
pub fn degree_ratio(tuning: Tuning, degree: u8) -> (r: (u64, u64))
    requires
        tuning != Tuning::Equal,
        degree < 12,
    ensures
        (r.0 as int, r.1 as int) == degree_ratio_spec(tuning, degree as int),
{
    match tuning {
        Tuning::Just => {
            match degree {
                0 => (1, 1),
                1 => (16, 15),
                2 => (9, 8),
                3 => (6, 5),
                4 => (5, 4),
                5 => (4, 3),
                6 => (45, 32),
                7 => (3, 2),
                8 => (8, 5),
                9 => (5, 3),
                10 => (16, 9),
                _ => (15, 8),
            }
        },
        _ => {
            match degree {
                0 => (1, 1),
                1 => (256, 243),
                2 => (9, 8),
                3 => (32, 27),
                4 => (81, 64),
                5 => (4, 3),
                6 => (729, 512),
                7 => (3, 2),
                8 => (128, 81),
                9 => (27, 16),
                10 => (16, 9),
                _ => (243, 128),
            }
        },
    }
}

/// `2^e` for the octave shifts that a note offset can need.
fn pow2_exec(e: u32) -> (r: u64)
    requires
        e <= 24,
    ensures
        r as int == pow2(e as nat),
        1 <= r <= 16777216,
{
    let mut r: u64 = 1;
    let mut i: u32 = 0;
    proof {
        reveal_with_fuel(pow2, 25);
        lemma_pow2_monotone(0, 24);
    }
    while i < e
        invariant
            i <= e <= 24,
            r as int == pow2(i as nat),
            1 <= r <= pow2(i as nat) <= pow2(24),
        decreases e - i,
    {
        proof {
            lemma_pow2_monotone((i + 1) as nat, 24);
            reveal_with_fuel(pow2, 25);
        }
        r = r * 2;
        i = i + 1;
    }
    r
}

pub proof fn lemma_pow2_positive(e: nat)
    ensures
        pow2(e) >= 1,
    decreases e,
{
    if e > 0 {
        lemma_pow2_positive((e - 1) as nat);
    }
}

pub proof fn lemma_pow2_monotone(a: nat, b: nat)
    requires
        a <= b,
    ensures
        pow2(a) <= pow2(b),
    decreases b,
{
    lemma_pow2_positive(b);
    if a < b {
        lemma_pow2_monotone(a, (b - 1) as nat);
    }
}

/// The interval from `base_note` to `note` under `tuning`.
///
/// Equal temperament yields the signed semitone distance itself; Just and Pythagorean
/// tuning yield the exact fraction `2^octave * table[degree]`, where the octave and the
/// degree come from floored division of the distance by 12.
pub fn interval(tuning: Tuning, note: u8, base_note: u8) -> (r: Interval)
    ensures
        r == interval_spec(tuning, note as int, base_note as int),
        r matches Interval::Rational { num, den } ==> (num as int, den as int) == table_interval(
            tuning,
            note - base_note,
        ) && den > 0,
{
    let offset: i32 = note as i32 - base_note as i32;
    match tuning {
        Tuning::Equal => Interval::Tempered { semitones: offset },
        _ => {
            let (octave, degree) = split_offset(offset);
            let (n, d) = degree_ratio(tuning, degree);
            assert(n <= 729 && 1 <= d <= 512) by {
                reveal_with_fuel(just_ratio_spec, 1);
            }
            if octave >= 0 {
                let p = pow2_exec(octave as u32);
                assert(n * p <= 729 * 16777216) by (nonlinear_arith)
                    requires
                        n <= 729,
                        p <= 16777216,
                ;
                Interval::Rational { num: n * p, den: d }
            } else {
                let p = pow2_exec((-octave) as u32);
                assert(d * p <= 512 * 16777216 && d * p >= 1) by (nonlinear_arith)
                    requires
                        1 <= d <= 512,
                        1 <= p <= 16777216,
                ;
                Interval::Rational { num: n, den: d * p }
            }
        },
    }
}


/// `a` is a strictly lower pitch ratio than `b`: tempered intervals compare by exponent,
/// exact ones as fractions.
pub open spec fn interval_less(a: Interval, b: Interval) -> bool {
    match (a, b) {
        (Interval::Tempered { semitones: x }, Interval::Tempered { semitones: y }) => x < y,
        (Interval::Rational { num: n1, den: d1 }, Interval::Rational { num: n2, den: d2 }) => n1
            * d2 < n2 * d1,
        _ => false,
    }
}

/// The ratio 1: the note sounds at the base pitch.
pub open spec fn is_unison(i: Interval) -> bool {
    match i {
        Interval::Tempered { semitones } => semitones == 0,
        Interval::Rational { num, den } => num == den && den > 0,
    }
}

proof fn lemma_scaled_less(a: int, b: int, c: int, d: int, p: int)
    requires
        a * d < c * b,
        p >= 1,
    ensures
        (a * p) * d < (c * p) * b,
        a * (d * p) < c * (b * p),
{
    assert((a * p) * d < (c * p) * b) by (nonlinear_arith)
        requires
            a * d < c * b,
            p >= 1,
    ;
    assert(a * (d * p) < c * (b * p)) by (nonlinear_arith)
        requires
            a * d < c * b,
            p >= 1,
    ;
}

proof fn lemma_fraction_less_trans(a: int, b: int, c: int, d: int, e: int, f: int)
    requires
        b > 0,
        d > 0,
        f > 0,
        a * d < c * b,
        c * f < e * d,
    ensures
        a * f < e * b,
{
    assert(a * f < e * b) by (nonlinear_arith)
        requires
            b > 0,
            d > 0,
            f > 0,
            a * d < c * b,
            c * f < e * d,
    ;
}

proof fn lemma_table_interval_bounds(tuning: Tuning, k: int)
    requires
        tuning != Tuning::Equal,
    ensures
        table_interval(tuning, k).0 >= 1,
        table_interval(tuning, k).1 >= 1,
        0 <= degree_of(k) < 12,
        k == 12 * octave_of(k) + degree_of(k),
{
    vstd::arithmetic::div_mod::lemma_fundamental_div_mod(k, 12);
    let o = octave_of(k);
    let r = degree_ratio_spec(tuning, degree_of(k));
    assert(r.0 >= 1 && r.1 >= 1);
    if o >= 0 {
        lemma_pow2_positive(o as nat);
        assert(r.0 * pow2(o as nat) >= 1) by (nonlinear_arith)
            requires
                r.0 >= 1,
                pow2(o as nat) >= 1,
        ;
    } else {
        lemma_pow2_positive((-o) as nat);
        assert(r.1 * pow2((-o) as nat) >= 1) by (nonlinear_arith)
            requires
                r.1 >= 1,
                pow2((-o) as nat) >= 1,
        ;
    }
}

proof fn lemma_degree_step(tuning: Tuning, g: int)
    requires
        0 <= g < 11,
    ensures
        degree_ratio_spec(tuning, g).0 * degree_ratio_spec(tuning, g + 1).1 < degree_ratio_spec(
            tuning,
            g + 1,
        ).0 * degree_ratio_spec(tuning, g).1,
{
    if tuning == Tuning::Just {
        lemma_just_step(g);
    } else {
        lemma_pythagorean_step(g);
    }
}

proof fn lemma_just_step(g: int)
    requires
        0 <= g < 11,
    ensures
        just_ratio_spec(g).0 * just_ratio_spec(g + 1).1 < just_ratio_spec(g + 1).0
            * just_ratio_spec(g).1,
{
    let r = just_ratio_spec(g);
    let s = just_ratio_spec(g + 1);
    if g == 0 {
        assert(r.0 * s.1 < s.0 * r.1);
    } else if g == 1 {
        assert(r.0 * s.1 < s.0 * r.1);
    } else if g == 2 {
        assert(r.0 * s.1 < s.0 * r.1);
    } else if g == 3 {
        assert(r.0 * s.1 < s.0 * r.1);
    } else if g == 4 {
        assert(r.0 * s.1 < s.0 * r.1);
    } else if g == 5 {
        assert(r.0 * s.1 < s.0 * r.1);
    } else if g == 6 {
        assert(r.0 * s.1 < s.0 * r.1);
    } else if g == 7 {
        assert(r.0 * s.1 < s.0 * r.1);
    } else if g == 8 {
        assert(r.0 * s.1 < s.0 * r.1);
    } else if g == 9 {
        assert(r.0 * s.1 < s.0 * r.1);
    } else if g == 10 {
        assert(r.0 * s.1 < s.0 * r.1);
    }
}

proof fn lemma_pythagorean_step(g: int)
    requires
        0 <= g < 11,
    ensures
        pythagorean_ratio_spec(g).0 * pythagorean_ratio_spec(g + 1).1
            < pythagorean_ratio_spec(g + 1).0 * pythagorean_ratio_spec(g).1,
{
    let r = pythagorean_ratio_spec(g);
    let s = pythagorean_ratio_spec(g + 1);
    if g == 0 {
        assert(r.0 * s.1 < s.0 * r.1);
    } else if g == 1 {
        assert(r.0 * s.1 < s.0 * r.1);
    } else if g == 2 {
        assert(r.0 * s.1 < s.0 * r.1);
    } else if g == 3 {
        assert(r.0 * s.1 < s.0 * r.1);
    } else if g == 4 {
        assert(r.0 * s.1 < s.0 * r.1);
    } else if g == 5 {
        assert(r.0 * s.1 < s.0 * r.1);
    } else if g == 6 {
        assert(r.0 * s.1 < s.0 * r.1);
    } else if g == 7 {
        assert(r.0 * s.1 < s.0 * r.1);
    } else if g == 8 {
        assert(r.0 * s.1 < s.0 * r.1);
    } else if g == 9 {
        assert(r.0 * s.1 < s.0 * r.1);
    } else if g == 10 {
        assert(r.0 * s.1 < s.0 * r.1);
    }
}

/// One semitone up is a strictly higher ratio.
proof fn lemma_table_step(tuning: Tuning, k: int)
    requires
        tuning != Tuning::Equal,
    ensures
        table_interval(tuning, k).0 * table_interval(tuning, k + 1).1 < table_interval(
            tuning,
            k + 1,
        ).0 * table_interval(tuning, k).1,
{
    lemma_table_interval_bounds(tuning, k);
    let o = octave_of(k);
    let g = degree_of(k);
    let r = degree_ratio_spec(tuning, g);
    let lo = table_interval(tuning, k);
    let hi = table_interval(tuning, k + 1);
    if g < 11 {
        vstd::arithmetic::div_mod::lemma_fundamental_div_mod_converse(k + 1, 12, o, g + 1);
        let s = degree_ratio_spec(tuning, g + 1);
        lemma_degree_step(tuning, g);
        assert(octave_of(k + 1) == o && degree_of(k + 1) == g + 1);
        if o >= 0 {
            lemma_pow2_positive(o as nat);
            lemma_scaled_less(r.0, r.1, s.0, s.1, pow2(o as nat));
            assert(lo == (r.0 * pow2(o as nat), r.1));
            assert(hi == (s.0 * pow2(o as nat), s.1));
        } else {
            lemma_pow2_positive((-o) as nat);
            lemma_scaled_less(r.0, r.1, s.0, s.1, pow2((-o) as nat));
        }
    } else {
        vstd::arithmetic::div_mod::lemma_fundamental_div_mod_converse(k + 1, 12, o + 1, 0);
        assert(r.0 < 2 * r.1);
        assert(octave_of(k + 1) == o + 1);
        assert(degree_of(k + 1) == 0);
        assert(degree_ratio_spec(tuning, 0) == (1int, 1int));
        if o >= 0 {
            let p = pow2(o as nat);
            lemma_pow2_positive(o as nat);
            assert(lo == (r.0 * p, r.1));
            assert(hi == (2 * p, 1int));
            assert(lo.0 * hi.1 < hi.0 * lo.1) by (nonlinear_arith)
                requires
                    lo == (r.0 * p, r.1),
                    hi == (2 * p, 1int),
                    r.0 < 2 * r.1,
                    p >= 1,
            ;
        } else if o == -1 {
            assert(pow2(1) == 2) by {
                reveal_with_fuel(pow2, 2);
            }
            assert(lo == (r.0, r.1 * 2));
            assert(hi == (1int, 1int));
        } else {
            let p = pow2((-(o + 1)) as nat);
            lemma_pow2_positive((-(o + 1)) as nat);
            assert(pow2((-o) as nat) == 2 * p);
            assert(lo == (r.0, r.1 * (2 * p)));
            assert(hi.0 == 1 && hi.1 == 1 * p);
            assert(lo.0 * hi.1 < hi.0 * lo.1) by (nonlinear_arith)
                requires
                    lo == (r.0, r.1 * (2 * p)),
                    hi.0 == 1 && hi.1 == 1 * p,
                    r.0 < 2 * r.1,
                    p >= 1,
            ;
        }
    }
}

proof fn lemma_table_increasing(tuning: Tuning, a: int, b: int)
    requires
        tuning != Tuning::Equal,
        a < b,
    ensures
        table_interval(tuning, a).0 * table_interval(tuning, b).1 < table_interval(tuning, b).0
            * table_interval(tuning, a).1,
    decreases b - a,
{
    lemma_table_step(tuning, b - 1);
    if a < b - 1 {
        lemma_table_increasing(tuning, a, b - 1);
        lemma_table_interval_bounds(tuning, a);
        lemma_table_interval_bounds(tuning, b - 1);
        lemma_table_interval_bounds(tuning, b);
        let x = table_interval(tuning, a);
        let y = table_interval(tuning, b - 1);
        let z = table_interval(tuning, b);
        lemma_fraction_less_trans(x.0, x.1, y.0, y.1, z.0, z.1);
    }
}

/// The table fraction of an offset between two notes fits in the integers `interval` returns.
proof fn lemma_table_interval_fits(tuning: Tuning, k: int)
    requires
        tuning != Tuning::Equal,
        -255 <= k <= 255,
    ensures
        1 <= table_interval(tuning, k).0 <= 729 * 16777216,
        1 <= table_interval(tuning, k).1 <= 512 * 16777216,
{
    lemma_table_interval_bounds(tuning, k);
    let o = octave_of(k);
    let r = degree_ratio_spec(tuning, degree_of(k));
    assert(r.0 <= 729 && r.1 <= 512);
    assert(-22 <= o <= 21);
    reveal_with_fuel(pow2, 25);
    if o >= 0 {
        lemma_pow2_monotone(o as nat, 24);
        assert(r.0 * pow2(o as nat) <= 729 * 16777216) by (nonlinear_arith)
            requires
                1 <= r.0 <= 729,
                pow2(o as nat) <= 16777216,
        ;
    } else {
        lemma_pow2_monotone((-o) as nat, 24);
        assert(r.1 * pow2((-o) as nat) <= 512 * 16777216) by (nonlinear_arith)
            requires
                1 <= r.1 <= 512,
                pow2((-o) as nat) <= 16777216,
        ;
    }
}

/// Pitch rises strictly with the note: under every tuning, for one base note, a higher note
/// has a strictly higher frequency ratio.
pub proof fn lemma_interval_increasing(tuning: Tuning, low: u8, high: u8, base_note: u8)
    requires
        low < high,
    ensures
        interval_less(
            interval_spec(tuning, low as int, base_note as int),
            interval_spec(tuning, high as int, base_note as int),
        ),
{
    if tuning != Tuning::Equal {
        let a = low - base_note;
        let b = high - base_note;
        lemma_table_increasing(tuning, a, b);
        lemma_table_interval_fits(tuning, a);
        lemma_table_interval_fits(tuning, b);
        let x = table_interval(tuning, a);
        let z = table_interval(tuning, b);
        assert(x.0 * z.1 <= 729 * 16777216 * (512 * 16777216)) by (nonlinear_arith)
            requires
                1 <= x.0 <= 729 * 16777216,
                1 <= z.1 <= 512 * 16777216,
        ;
        assert(z.0 * x.1 <= 729 * 16777216 * (512 * 16777216)) by (nonlinear_arith)
            requires
                1 <= z.0 <= 729 * 16777216,
                1 <= x.1 <= 512 * 16777216,
        ;
    }
}

/// The base note sounds at exactly the base pitch under every tuning.
pub proof fn lemma_base_note_unison(tuning: Tuning, base_note: u8)
    ensures
        is_unison(interval_spec(tuning, base_note as int, base_note as int)),
{
    assert(octave_of(0) == 0 && degree_of(0) == 0);
}

} // verus!

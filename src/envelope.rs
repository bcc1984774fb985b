use vstd::math::abs;
use vstd::prelude::*;

verus! {

/// Full scale of the sustain level: a sustain of `LEVEL_ONE` holds the peak amplitude.
pub const LEVEL_ONE: u32 = 65536;

/// Largest denominator of an amplitude taken before release: `LEVEL_ONE * u32::MAX` fits.
pub const HELD_DEN_MAX: u128 = 0x1_0000_0000_0000;

/// ADSR envelope shape. Attack, decay and release are lengths in samples; sustain is a
/// level in `0..=LEVEL_ONE`, where `LEVEL_ONE` stands for full amplitude.
#[derive(Clone, Copy, Debug, PartialEq, Eq, Structural)]
pub struct Envelope {
    pub attack: u32,
    pub decay: u32,
    pub sustain: u32,
    pub release: u32,
}

impl Envelope {
    pub open spec fn wf(&self) -> bool {
        self.sustain <= LEVEL_ONE
    }
}

/// An amplitude multiplier held exactly as the fraction `num / den`.
#[derive(Clone, Copy, Debug, PartialEq, Eq, Structural)]
pub struct Level {
    pub num: u128,
    pub den: u128,
}

impl View for Level {
    type V = (int, int);

    open spec fn view(&self) -> (int, int) {
        (self.num as int, self.den as int)
    }
}

impl Level {
    /// A level in `[0, 1]` whose denominator is small enough to be scaled by a release length.
    pub open spec fn held_wf(&self) -> bool {
        0 < self.den <= HELD_DEN_MAX && self.num <= self.den
    }
}

/// Two fractions with positive denominators stand for the same number.
pub open spec fn same_value(x: (int, int), y: (int, int)) -> bool {
    x.0 * y.1 == y.0 * x.1
}

/// The linear rise from 0 to 1 over the attack, extended to every time.
pub open spec fn attack_ramp(env: Envelope, t: int) -> (int, int) {
    (t, env.attack as int)
}

/// The linear fall from 1 to the sustain level over the decay, extended to every time.
pub open spec fn decay_ramp(env: Envelope, t: int) -> (int, int) {
    let d = env.decay as int;
    (LEVEL_ONE * d - (LEVEL_ONE - env.sustain) * (t - env.attack), LEVEL_ONE * d)
}

/// Amplitude of a voice that has not been released, `t` samples after its note-on.
///
/// Attack for `t <= attack` (full amplitude at once when the attack is empty), then decay
/// while `t <= attack + decay`, then the sustain level.
pub open spec fn held_level_spec(env: Envelope, t: int) -> (int, int) {
    let a = env.attack as int;
    if t <= a {
        if a == 0 {
            (1, 1)
        } else {
            attack_ramp(env, t)
        }
    } else if t <= a + env.decay {
        decay_ramp(env, t)
    } else {
        (env.sustain as int, LEVEL_ONE as int)
    }
}

/// Amplitude of a released voice, `t` samples after release began at level `start`: a
/// linear fall to 0 over the release length, and 0 from then on.
pub open spec fn released_level_spec(start: (int, int), env: Envelope, t: int) -> (int, int) {
    let r = env.release as int;
    if t >= r {
        (0, 1)
    } else {
        (start.0 * (r - t), start.1 * r)
    }
}

/// Amplitude before release, `t` samples after the note-on.
pub fn held_level(env: &Envelope, t: u64) -> (r: Level)
    requires
        env.wf(),
    ensures
        r@ == held_level_spec(*env, t as int),
        r.held_wf(),
{
    let a: u64 = env.attack as u64;
    let d: u64 = env.decay as u64;
    if t <= a {
        if a == 0 {
            Level { num: 1, den: 1 }
        } else {
            Level { num: t as u128, den: a as u128 }
        }
    } else if t <= a + d {
        let one: u128 = LEVEL_ONE as u128;
        let fall: u128 = (LEVEL_ONE - env.sustain) as u128;
        let den: u128 = one * d as u128;
        let step: u128 = (t - a) as u128;
        assert(fall * step <= den) by (nonlinear_arith)
            requires
                fall <= one,
                step <= d,
                den == one * d,
        ;
        assert(den <= HELD_DEN_MAX) by (nonlinear_arith)
            requires
                one == 65536,
                d <= 0xffff_ffff,
                den == one * d,
        ;
        Level { num: den - fall * step, den }
    } else {
        Level { num: env.sustain as u128, den: LEVEL_ONE as u128 }
    }
}

/// Amplitude after release, `t` samples after release began at level `start`.
pub fn released_level(start: Level, env: &Envelope, t: u64) -> (r: Level)
    requires
        start.held_wf(),
    ensures
        r@ == released_level_spec(start@, *env, t as int),
        0 < r.den,
        r.num <= r.den,
{
    let rel: u64 = env.release as u64;
    if t >= rel {
        Level { num: 0, den: 1 }
    } else {
        let left: u128 = (rel - t) as u128;
        assert(start.num * left <= start.den * rel && start.den * rel <= HELD_DEN_MAX * 0xffff_ffff
            && 0 < start.den * rel) by (nonlinear_arith)
            requires
                start.num <= start.den,
                0 < start.den <= HELD_DEN_MAX,
                0 < left <= rel,
                rel <= 0xffff_ffff,
        ;
        Level { num: start.num * left, den: start.den * rel as u128 }
    }
}

/// Every amplitude before release lies in `[0, 1]`, with a denominator of at most
/// `HELD_DEN_MAX`.
pub proof fn lemma_held_level_bounds(env: Envelope, t: int)
    requires
        env.wf(),
        t >= 0,
    ensures
        0 <= held_level_spec(env, t).0 <= held_level_spec(env, t).1,
        0 < held_level_spec(env, t).1 <= HELD_DEN_MAX,
{
    let a = env.attack as int;
    let d = env.decay as int;
    let u = LEVEL_ONE as int;
    let f = u - env.sustain;
    if a < t <= a + d {
        assert(0 <= f * (t - a) <= u * d && u * d <= HELD_DEN_MAX) by (nonlinear_arith)
            requires
                0 <= f <= u,
                0 < t - a <= d,
                d <= 0xffff_ffff,
                u == 65536,
        ;
    }
}

/// The envelope has no jump where its stages meet: at the end of the attack the attack and
/// decay ramps both give full amplitude, the next sample follows the decay ramp, and at the
/// end of the decay the decay ramp gives exactly the sustain level that follows.
pub proof fn lemma_envelope_stage_boundaries(env: Envelope)
    requires
        env.wf(),
        env.attack > 0,
        env.decay > 0,
    ensures
        same_value(held_level_spec(env, env.attack as int), (1, 1)),
        same_value(attack_ramp(env, env.attack as int), decay_ramp(env, env.attack as int)),
        held_level_spec(env, env.attack + 1) == decay_ramp(env, env.attack + 1),
        held_level_spec(env, env.attack + env.decay) == decay_ramp(env, env.attack + env.decay),
        same_value(
            held_level_spec(env, env.attack + env.decay),
            held_level_spec(env, env.attack + env.decay + 1),
        ),
{
    let a = env.attack as int;
    let d = env.decay as int;
    let s = env.sustain as int;
    assert(a * (LEVEL_ONE * d) == (LEVEL_ONE * d) * a) by (nonlinear_arith);
    assert((LEVEL_ONE * d - (LEVEL_ONE - s) * d) * LEVEL_ONE == s * (LEVEL_ONE * d))
        by (nonlinear_arith);
}

/// Between two consecutive samples the amplitude before release moves by at most
/// `1 / min(attack, decay)`: the finer a given envelope is sampled, the smaller each step.
pub proof fn lemma_envelope_step_bounded(env: Envelope, t: int)
    requires
        env.wf(),
        env.attack > 0,
        env.decay > 0,
        t >= 0,
    ensures
        ({
            let x = held_level_spec(env, t);
            let y = held_level_spec(env, t + 1);
            let m = if env.attack <= env.decay { env.attack as int } else { env.decay as int };
            m * abs(x.0 * y.1 - y.0 * x.1) <= x.1 * y.1
        }),
{
    let a = env.attack as int;
    let d = env.decay as int;
    let s = env.sustain as int;
    let u = LEVEL_ONE as int;
    let m = if env.attack <= env.decay { a } else { d };
    let x = held_level_spec(env, t);
    let y = held_level_spec(env, t + 1);
    if t + 1 <= a {
        assert(x.0 * y.1 - y.0 * x.1 == -a) by (nonlinear_arith)
            requires
                x == (t, a),
                y == (t + 1, a),
        ;
        assert(m * a <= a * a) by (nonlinear_arith)
            requires
                0 < m <= a,
        ;
        assert(x.1 * y.1 == a * a);
        assert(m * abs(x.0 * y.1 - y.0 * x.1) <= x.1 * y.1);
    } else if t == a {
        let n = u * d - (u - s);
        assert(y.0 == n) by (nonlinear_arith)
            requires
                y.0 == u * d - (u - s) * (t + 1 - a),
                t == a,
                n == u * d - (u - s),
        ;
        assert(x.0 * y.1 - y.0 * x.1 == a * (u - s)) by (nonlinear_arith)
            requires
                x == (a, a),
                y == (n, u * d),
                n == u * d - (u - s),
        ;
        assert(m * (a * (u - s)) <= a * (u * d)) by (nonlinear_arith)
            requires
                0 < m <= d,
                0 <= u - s <= u,
                a > 0,
        ;
        assert(a * (u - s) >= 0) by (nonlinear_arith)
            requires
                0 <= u - s,
                a > 0,
        ;
        assert(m * abs(x.0 * y.1 - y.0 * x.1) <= x.1 * y.1);
    } else if t + 1 <= a + d {
        let n = u * d - (u - s) * (t - a);
        assert(y.0 == n - (u - s)) by (nonlinear_arith)
            requires
                y.0 == u * d - (u - s) * (t + 1 - a),
                n == u * d - (u - s) * (t - a),
        ;
        assert(x.0 * y.1 - y.0 * x.1 == (u - s) * (u * d)) by (nonlinear_arith)
            requires
                x == (n, u * d),
                y == (n - (u - s), u * d),
        ;
        assert(m * ((u - s) * (u * d)) <= (u * d) * (u * d)) by (nonlinear_arith)
            requires
                0 < m <= d,
                0 <= u - s <= u,
                d > 0,
                u > 0,
        ;
        assert((u - s) * (u * d) >= 0) by (nonlinear_arith)
            requires
                0 <= u - s,
                d > 0,
                u > 0,
        ;
        assert(m * abs(x.0 * y.1 - y.0 * x.1) <= x.1 * y.1);
    } else if t == a + d {
        assert(x.0 * y.1 - y.0 * x.1 == 0) by (nonlinear_arith)
            requires
                x == (u * d - (u - s) * d, u * d),
                y == (s, u),
        ;
        assert(x.1 * y.1 >= 0) by (nonlinear_arith)
            requires
                x.1 == u * d,
                y.1 == u,
                d > 0,
                u > 0,
        ;
        assert(m * abs(x.0 * y.1 - y.0 * x.1) == 0) by (nonlinear_arith)
            requires
                x.0 * y.1 - y.0 * x.1 == 0,
        ;
    } else {
        assert(x == (s, u) && y == (s, u));
        assert(x.1 * y.1 >= 0) by (nonlinear_arith)
            requires
                x.1 == u,
                y.1 == u,
        ;
        assert(m * abs(x.0 * y.1 - y.0 * x.1) == 0) by (nonlinear_arith)
            requires
                x.0 == y.0,
                x.1 == y.1,
        ;
    }
}

} // verus!

use crate::envelope::{
    held_level, held_level_spec, lemma_held_level_bounds, released_level, released_level_spec,
    same_value, Envelope, Level,
};
use vstd::prelude::*;

verus! {

/// Most voices that sound at once; a note-on beyond this steals the oldest voice.
pub const MAX_VOICES: usize = 64;

/// Controller number of the sustain pedal.
pub const SUSTAIN_CONTROLLER: u8 = 64;

/// Lowest controller value (of 0 to 127) at which the sustain pedal counts as held.
pub const PEDAL_DOWN_MIN: u8 = 64;

/// Width of the pitch wheel in semitones, each way.
pub const PITCH_RANGE: i32 = 2;

/// Pitch wheel deflection that stands for a full `PITCH_RANGE`.
pub const BEND_SCALE: i32 = 8192;

/// One sounding or releasing note.
///
/// `phase` is the oscillator phase as a fraction of `2^32`, so it always lies in `[0, 1)`.
/// `samples_since_event` counts the samples rendered since the note-on or since release
/// began. `release_level` is the amplitude that the voice had when release began.
#[derive(Clone, Copy, Debug, PartialEq, Eq, Structural)]
pub struct Voice {
    pub note: u8,
    pub velocity: u8,
    pub phase: u32,
    pub samples_since_event: u64,
    pub release_level: Level,
    pub off: bool,
    pub sustaining: bool,
}

impl Voice {
    /// A voice waits for the pedal only while it has not been released.
    pub open spec fn wf(&self) -> bool {
        self.release_level.held_wf() && (self.sustaining ==> !self.off)
    }
}

/// An event of a block, in the form the engine acts on.
///
/// `PitchBend` carries the wheel deflection from its centre, `-BEND_SCALE..BEND_SCALE`;
/// `ControlChange` carries a controller number and a value of 0 to 127.
#[derive(Clone, Copy, Debug, PartialEq, Eq, Structural)]
pub enum NoteEvent {
    NoteOn { note: u8, velocity: u8 },
    NoteOff { note: u8 },
    PitchBend { amount: i16 },
    ControlChange { controller: u8, value: u8 },
}

/// An event with its sample offset inside the block.
#[derive(Clone, Copy, Debug, PartialEq, Eq, Structural)]
pub struct TimedEvent {
    pub timing: u32,
    pub event: NoteEvent,
}

/// The voice engine: the live voices in allocation order, the pitch wheel and the pedal.
pub struct Furiri {
    pub voices: Vec<Voice>,
    pub pitch_bend: i16,
    pub sustain_pedal: bool,
}

/// What a `Furiri` holds, as mathematical values.
pub struct EngineState {
    pub voices: Seq<Voice>,
    pub pitch_bend: i16,
    pub sustain_pedal: bool,
}

impl View for Furiri {
    type V = EngineState;

    open spec fn view(&self) -> EngineState {
        EngineState {
            voices: self.voices@,
            pitch_bend: self.pitch_bend,
            sustain_pedal: self.sustain_pedal,
        }
    }
}

impl EngineState {
    pub open spec fn wf(&self) -> bool {
        &&& self.voices.len() <= MAX_VOICES
        &&& forall|i: int| 0 <= i < self.voices.len() ==> (#[trigger] self.voices[i]).wf()
    }
}

/// The amplitude of a voice at its current sample count.
pub open spec fn voice_level_spec(v: Voice, env: Envelope) -> (int, int) {
    if v.off {
        released_level_spec(v.release_level@, env, v.samples_since_event as int)
    } else {
        held_level_spec(env, v.samples_since_event as int)
    }
}

/// A fresh voice: phase 0, no samples yet, not released.
pub open spec fn new_voice(note: u8, velocity: u8) -> Voice {
    Voice {
        note,
        velocity,
        phase: 0,
        samples_since_event: 0,
        release_level: Level { num: 0, den: 1 },
        off: false,
        sustaining: false,
    }
}

/// The voice as release begins: its present amplitude is kept as the start of the release
/// ramp, and its sample count starts again.
pub open spec fn released(v: Voice, env: Envelope) -> Voice {
    let h = held_level_spec(env, v.samples_since_event as int);
    Voice {
        release_level: Level { num: h.0 as u128, den: h.1 as u128 },
        off: true,
        sustaining: false,
        samples_since_event: 0,
        ..v
    }
}

/// A note-on: the new voice goes last, after the oldest voice leaves if all are in use.
pub open spec fn note_on_voices(vs: Seq<Voice>, note: u8, velocity: u8) -> Seq<Voice> {
    let kept = if vs.len() >= MAX_VOICES {
        vs.drop_first()
    } else {
        vs
    };
    kept.push(new_voice(note, velocity))
}

/// A note-off on one voice: a sounding voice of that note waits for the pedal while it is
/// held, and is released otherwise. Voices already releasing are left alone.
pub open spec fn note_off_voice(v: Voice, note: u8, pedal: bool, env: Envelope) -> Voice {
    if v.note == note && !v.off {
        if pedal {
            Voice { sustaining: true, ..v }
        } else {
            released(v, env)
        }
    } else {
        v
    }
}

pub open spec fn note_off_voices(vs: Seq<Voice>, note: u8, pedal: bool, env: Envelope) -> Seq<
    Voice,
> {
    Seq::new(vs.len(), |i: int| note_off_voice(vs[i], note, pedal, env))
}

/// Lifting the pedal releases each voice that was waiting for it.
pub open spec fn pedal_up_voice(v: Voice, env: Envelope) -> Voice {
    if v.sustaining {
        released(v, env)
    } else {
        v
    }
}

pub open spec fn pedal_up_voices(vs: Seq<Voice>, env: Envelope) -> Seq<Voice> {
    Seq::new(vs.len(), |i: int| pedal_up_voice(vs[i], env))
}

/// The state after one event.
pub open spec fn apply_event(s: EngineState, e: NoteEvent, env: Envelope) -> EngineState {
    match e {
        NoteEvent::NoteOn { note, velocity } => EngineState {
            voices: note_on_voices(s.voices, note, velocity),
            ..s
        },
        NoteEvent::NoteOff { note } => EngineState {
            voices: note_off_voices(s.voices, note, s.sustain_pedal, env),
            ..s
        },
        NoteEvent::PitchBend { amount } => EngineState { pitch_bend: amount, ..s },
        NoteEvent::ControlChange { controller, value } => {
            if controller == SUSTAIN_CONTROLLER {
                if value >= PEDAL_DOWN_MIN {
                    EngineState { sustain_pedal: true, ..s }
                } else {
                    EngineState {
                        voices: pedal_up_voices(s.voices, env),
                        sustain_pedal: false,
                        ..s
                    }
                }
            } else {
                s
            }
        },
    }
}

/// The state after a run of events, applied in order.
pub open spec fn apply_events(s: EngineState, es: Seq<TimedEvent>, env: Envelope) -> EngineState
    decreases es.len(),
{
    if es.len() == 0 {
        s
    } else {
        apply_event(apply_events(s, es.drop_last(), env), es.last().event, env)
    }
}

/// The voice after one rendered sample: the phase moves on by `increment / 2^32`, wrapping
/// past 1, and one more sample has passed (the count stops at its largest value).
pub open spec fn advanced(v: Voice, increment: u32) -> Voice {
    Voice {
        phase: ((v.phase + increment) % 0x1_0000_0000) as u32,
        samples_since_event: if v.samples_since_event < u64::MAX {
            (v.samples_since_event + 1) as u64
        } else {
            v.samples_since_event
        },
        ..v
    }
}

/// A released voice whose release ramp has run its full length.
pub open spec fn finished(v: Voice, env: Envelope) -> bool {
    v.off && v.samples_since_event >= env.release
}

pub open spec fn audible_voices(vs: Seq<Voice>, env: Envelope) -> Seq<Voice> {
    vs.filter(|v: Voice| !finished(v, env))
}

impl Voice {
    /// The amplitude of this voice now.
    pub fn level(&self, env: &Envelope) -> (r: Level)
        requires
            self.wf(),
            env.wf(),
        ensures
            r@ == voice_level_spec(*self, *env),
            0 < r.den,
            r.num <= r.den,
    {
        if self.off {
            released_level(self.release_level, env, self.samples_since_event)
        } else {
            held_level(env, self.samples_since_event)
        }
    }

    /// Begins release from the present amplitude.
    fn release(&mut self, env: &Envelope)
        requires
            old(self).wf(),
            env.wf(),
        ensures
            *final(self) == released(*old(self), *env),
            final(self).wf(),
    {
        let h = held_level(env, self.samples_since_event);
        self.release_level = h;
        self.off = true;
        self.sustaining = false;
        self.samples_since_event = 0;
    }
}


impl Furiri {
    /// An engine with no voices, the pitch wheel centred and the pedal up.
    pub fn new() -> (r: Furiri)
        ensures
            r@.voices.len() == 0,
            r@.pitch_bend == 0,
            !r@.sustain_pedal,
            r@.wf(),
    {
        Furiri { voices: Vec::with_capacity(MAX_VOICES), pitch_bend: 0, sustain_pedal: false }
    }

    pub fn voice_count(&self) -> (r: usize)
        ensures
            r == self@.voices.len(),
    {
        self.voices.len()
    }

    pub fn voice(&self, i: usize) -> (r: Voice)
        requires
            i < self@.voices.len(),
        ensures
            r == self@.voices[i as int],
    {
        self.voices[i]
    }

    /// Starts a voice for `note`. With `MAX_VOICES` voices already live, the oldest one is
    /// dropped first, whatever it is doing.
    pub fn note_on(&mut self, note: u8, velocity: u8)
        requires
            old(self)@.wf(),
        ensures
            final(self)@ == (EngineState {
                voices: note_on_voices(old(self)@.voices, note, velocity),
                ..old(self)@
            }),
            final(self)@.wf(),
    {
        if self.voices.len() >= MAX_VOICES {
            self.voices.remove(0);
        }
        let v = Voice {
            note,
            velocity,
            phase: 0,
            samples_since_event: 0,
            release_level: Level { num: 0, den: 1 },
            off: false,
            sustaining: false,
        };
        self.voices.push(v);
        proof {
            let vs = final(self)@.voices;
            assert(vs =~= note_on_voices(old(self)@.voices, note, velocity));
            assert forall|i: int| 0 <= i < vs.len() implies (#[trigger] vs[i]).wf() by {
                if i < vs.len() - 1 {
                    if old(self)@.voices.len() >= MAX_VOICES {
                        assert(vs[i] == old(self)@.voices[i + 1]);
                    } else {
                        assert(vs[i] == old(self)@.voices[i]);
                    }
                }
            }
        }
    }

    /// A note-off for `note`: while the pedal is held each sounding voice of that note is
    /// marked to wait for it; otherwise each one is released from its present amplitude.
    pub fn note_off(&mut self, note: u8, env: &Envelope)
        requires
            old(self)@.wf(),
            env.wf(),
        ensures
            final(self)@ == (EngineState {
                voices: note_off_voices(old(self)@.voices, note, old(self)@.sustain_pedal, *env),
                ..old(self)@
            }),
            final(self)@.wf(),
    {
        let ghost old_voices = self.voices@;
        let n = self.voices.len();
        let mut i: usize = 0;
        while i < n
            invariant
                n == self.voices.len() == old_voices.len(),
                i <= n,
                self.pitch_bend == old(self).pitch_bend,
                self.sustain_pedal == old(self).sustain_pedal,
                env.wf(),
                old(self)@.wf(),
                old_voices == old(self)@.voices,
                forall|j: int|
                    0 <= j < i ==> self.voices@[j] == note_off_voice(
                        old_voices[j],
                        note,
                        self.sustain_pedal,
                        *env,
                    ),
                forall|j: int| i <= j < n ==> self.voices@[j] == old_voices[j],
                forall|j: int| 0 <= j < n ==> (#[trigger] self.voices@[j]).wf(),
            decreases n - i,
        {
            let mut v = self.voices[i];
            if v.note == note && !v.off {
                if self.sustain_pedal {
                    v.sustaining = true;
                } else {
                    v.release(env);
                }
                self.voices.set(i, v);
            }
            i = i + 1;
        }
        proof {
            assert(self.voices@ =~= note_off_voices(old_voices, note, self.sustain_pedal, *env));
        }
    }

    /// Sets the pedal. Lifting it releases every voice that was waiting for it, each from
    /// its own present amplitude.
    pub fn set_sustain_pedal(&mut self, down: bool, env: &Envelope)
        requires
            old(self)@.wf(),
            env.wf(),
        ensures
            final(self)@ == (if down {
                EngineState { sustain_pedal: true, ..old(self)@ }
            } else {
                EngineState {
                    voices: pedal_up_voices(old(self)@.voices, *env),
                    sustain_pedal: false,
                    ..old(self)@
                }
            }),
            final(self)@.wf(),
    {
        self.sustain_pedal = down;
        if !down {
            let ghost old_voices = self.voices@;
            let n = self.voices.len();
            let mut i: usize = 0;
            while i < n
                invariant
                    n == self.voices.len() == old_voices.len(),
                    i <= n,
                    self.pitch_bend == old(self).pitch_bend,
                    !self.sustain_pedal,
                    env.wf(),
                    old(self)@.wf(),
                    old_voices == old(self)@.voices,
                    forall|j: int|
                        0 <= j < i ==> self.voices@[j] == pedal_up_voice(old_voices[j], *env),
                    forall|j: int| i <= j < n ==> self.voices@[j] == old_voices[j],
                    forall|j: int| 0 <= j < n ==> (#[trigger] self.voices@[j]).wf(),
                decreases n - i,
            {
                let mut v = self.voices[i];
                if v.sustaining {
                    v.release(env);
                    self.voices.set(i, v);
                }
                i = i + 1;
            }
            proof {
                assert(self.voices@ =~= pedal_up_voices(old_voices, *env));
            }
        }
    }

    /// Applies, in order from `start`, every event timed at or before `sample`, and returns
    /// the index of the first event left for a later sample (or the number of events).
    pub fn apply_due_events(
        &mut self,
        events: &Vec<TimedEvent>,
        start: usize,
        sample: u32,
        env: &Envelope,
    ) -> (next: usize)
        requires
            old(self)@.wf(),
            env.wf(),
            start <= events.len(),
        ensures
            start <= next <= events.len(),
            forall|k: int| start <= k < next ==> (#[trigger] events@[k]).timing <= sample,
            next == events.len() || events@[next as int].timing > sample,
            final(self)@ == apply_events(
                old(self)@,
                events@.subrange(start as int, next as int),
                *env,
            ),
            final(self)@.wf(),
    {
        let mut i: usize = start;
        while i < events.len() && events[i].timing <= sample
            invariant
                start <= i <= events.len(),
                env.wf(),
                self@.wf(),
                forall|k: int| start <= k < i ==> (#[trigger] events@[k]).timing <= sample,
                self@ == apply_events(old(self)@, events@.subrange(start as int, i as int), *env),
            decreases events.len() - i,
        {
            let e = events[i].event;
            self.handle_event(e, env);
            proof {
                let done = events@.subrange(start as int, i + 1);
                assert(done.drop_last() =~= events@.subrange(start as int, i as int));
            }
            i = i + 1;
        }
        i
    }

    /// Renders one sample of voice `i`: moves its phase on by `increment / 2^32`, counts the
    /// sample, and returns the voice's amplitude at the new count.
    pub fn advance_voice(&mut self, i: usize, increment: u32, env: &Envelope) -> (r: Level)
        requires
            old(self)@.wf(),
            env.wf(),
            i < old(self)@.voices.len(),
        ensures
            final(self)@ == (EngineState {
                voices: old(self)@.voices.update(
                    i as int,
                    advanced(old(self)@.voices[i as int], increment),
                ),
                ..old(self)@
            }),
            r@ == voice_level_spec(final(self)@.voices[i as int], *env),
            0 < r.den,
            r.num <= r.den,
            final(self)@.wf(),
    {
        let mut v = self.voices[i];
        v.phase = v.phase.wrapping_add(increment);
        v.samples_since_event = v.samples_since_event.saturating_add(1);
        self.voices.set(i, v);
        proof {
            assert(self.voices@[i as int] == advanced(old(self)@.voices[i as int], increment));
            assert forall|j: int| 0 <= j < self.voices@.len() implies (
            #[trigger] self.voices@[j]).wf() by {
                if j != i {
                    assert(self.voices@[j] == old(self)@.voices[j]);
                }
            }
        }
        v.level(env)
    }

    /// Drops every voice whose release has run its full length, keeping the order of the
    /// others.
    pub fn prune(&mut self, env: &Envelope)
        requires
            old(self)@.wf(),
        ensures
            final(self)@ == (EngineState {
                voices: audible_voices(old(self)@.voices, *env),
                ..old(self)@
            }),
            final(self)@.wf(),
    {
        let ghost old_voices = self.voices@;
        let mut kept: Vec<Voice> = Vec::with_capacity(MAX_VOICES);
        let n = self.voices.len();
        let mut i: usize = 0;
        while i < n
            invariant
                n == self.voices.len() == old_voices.len(),
                i <= n,
                self.voices@ == old_voices,
                old(self)@.wf(),
                old_voices == old(self)@.voices,
                kept@ == old_voices.subrange(0, i as int).filter(|v: Voice| !finished(v, *env)),
                kept@.len() <= i,
                forall|j: int| 0 <= j < kept@.len() ==> (#[trigger] kept@[j]).wf(),
            decreases n - i,
        {
            let v = self.voices[i];
            proof {
                let taken = old_voices.subrange(0, i + 1);
                assert(taken.drop_last() =~= old_voices.subrange(0, i as int));
                reveal(Seq::filter);
                assert(old(self)@.voices[i as int].wf());
            }
            if !(v.off && v.samples_since_event >= env.release as u64) {
                kept.push(v);
            }
            i = i + 1;
        }
        proof {
            assert(old_voices.subrange(0, n as int) =~= old_voices);
        }
        self.voices = kept;
    }

    /// The pitch wheel's bend in semitones, as the fraction `(numerator, denominator)`.
    pub fn bend_semitones(&self) -> (r: (i32, i32))
        ensures
            r.0 == PITCH_RANGE * self.pitch_bend,
            r.1 == BEND_SCALE,
    {
        (PITCH_RANGE * self.pitch_bend as i32, BEND_SCALE)
    }

    /// Acts on one event.
    pub fn handle_event(&mut self, event: NoteEvent, env: &Envelope)
        requires
            old(self)@.wf(),
            env.wf(),
        ensures
            final(self)@ == apply_event(old(self)@, event, *env),
            final(self)@.wf(),
    {
        match event {
            NoteEvent::NoteOn { note, velocity } => self.note_on(note, velocity),
            NoteEvent::NoteOff { note } => self.note_off(note, env),
            NoteEvent::PitchBend { amount } => {
                self.pitch_bend = amount;
            },
            NoteEvent::ControlChange { controller, value } => {
                if controller == SUSTAIN_CONTROLLER {
                    self.set_sustain_pedal(value >= PEDAL_DOWN_MIN, env);
                }
            },
        }
    }
}


/// Release begins at the amplitude the voice had: the kept level is the level of the voice
/// just before, whatever stage it was in, and (for a release of any length) the release
/// ramp starts from that very value.
pub proof fn lemma_release_starts_at_present_level(v: Voice, env: Envelope)
    requires
        v.wf(),
        !v.off,
        env.wf(),
    ensures
        released(v, env).release_level@ == voice_level_spec(v, env),
        released(v, env).wf(),
        env.release > 0 ==> same_value(
            voice_level_spec(released(v, env), env),
            voice_level_spec(v, env),
        ),
{
    let h = held_level_spec(env, v.samples_since_event as int);
    lemma_held_level_bounds(env, v.samples_since_event as int);
    let r = env.release as int;
    if r > 0 {
        assert(h.0 * r * h.1 == h.0 * (h.1 * r)) by (nonlinear_arith);
    }
}

/// With the pedal held, a note-off releases nothing: every voice keeps its stage and its
/// sample count, and the sounding voices of that note are marked to wait for the pedal.
pub proof fn lemma_note_off_deferred_by_pedal(s: EngineState, note: u8, env: Envelope)
    requires
        s.wf(),
        s.sustain_pedal,
    ensures
        ({
            let t = apply_event(s, NoteEvent::NoteOff { note }, env);
            &&& t.voices.len() == s.voices.len()
            &&& forall|i: int|
                0 <= i < s.voices.len() ==> {
                    &&& (#[trigger] t.voices[i]).off == s.voices[i].off
                    &&& t.voices[i].samples_since_event == s.voices[i].samples_since_event
                    &&& t.voices[i].release_level == s.voices[i].release_level
                    &&& (s.voices[i].note == note && !s.voices[i].off ==> t.voices[i].sustaining)
                }
        }),
{
}

/// Lifting the pedal releases, at once, every voice that was waiting for it, each from its
/// own amplitude at that moment; it leaves every other voice as it was.
pub proof fn lemma_pedal_up_releases_waiting(s: EngineState, value: u8, env: Envelope)
    requires
        s.wf(),
        env.wf(),
        value < PEDAL_DOWN_MIN,
    ensures
        ({
            let t = apply_event(
                s,
                NoteEvent::ControlChange { controller: SUSTAIN_CONTROLLER, value },
                env,
            );
            &&& !t.sustain_pedal
            &&& t.voices.len() == s.voices.len()
            &&& forall|i: int|
                0 <= i < s.voices.len() ==> if s.voices[i].sustaining {
                    &&& (#[trigger] t.voices[i]).off
                    &&& t.voices[i].samples_since_event == 0
                    &&& t.voices[i].release_level@ == voice_level_spec(s.voices[i], env)
                } else {
                    t.voices[i] == s.voices[i]
                }
        }),
{
    let t = apply_event(s, NoteEvent::ControlChange { controller: SUSTAIN_CONTROLLER, value }, env);
    assert forall|i: int| 0 <= i < s.voices.len() && s.voices[i].sustaining implies (
    #[trigger] t.voices[i]).release_level@ == voice_level_spec(s.voices[i], env) by {
        assert(s.voices[i].wf());
        lemma_release_starts_at_present_level(s.voices[i], env);
    }
}

/// Voice stealing: with every voice in use, a note-on drops exactly the voice that was
/// started first, keeps the others in order, and adds the new voice last.
pub proof fn lemma_note_on_steals_oldest(s: EngineState, note: u8, velocity: u8, env: Envelope)
    requires
        s.wf(),
        s.voices.len() == MAX_VOICES,
    ensures
        ({
            let t = apply_event(s, NoteEvent::NoteOn { note, velocity }, env);
            &&& t.voices.len() == MAX_VOICES
            &&& t.voices == s.voices.subrange(1, MAX_VOICES as int).push(new_voice(note, velocity))
        }),
{
    assert(s.voices.drop_first() =~= s.voices.subrange(1, MAX_VOICES as int));
}


/// Pruning removes a voice exactly when its release has run its full length: no kept voice
/// has finished, and every voice that has not finished (still sounding, or released fewer
/// than `release` samples ago) is kept.
pub proof fn lemma_prune_removes_only_finished(vs: Seq<Voice>, env: Envelope)
    ensures
        audible_voices(vs, env).len() <= vs.len(),
        forall|j: int|
            0 <= j < audible_voices(vs, env).len() ==> !finished(
                #[trigger] audible_voices(vs, env)[j],
                env,
            ),
        forall|i: int|
            0 <= i < vs.len() && !finished(vs[i], env) ==> audible_voices(vs, env).contains(
                #[trigger] vs[i],
            ),
{
    broadcast use vstd::seq_lib::group_filter_ensures;

    let pred = |v: Voice| !finished(v, env);
    assert forall|j: int| 0 <= j < audible_voices(vs, env).len() implies !finished(
        #[trigger] audible_voices(vs, env)[j],
        env,
    ) by {
        assert(pred(vs.filter(pred)[j]));
    }
    assert forall|i: int| 0 <= i < vs.len() && !finished(vs[i], env) implies audible_voices(
        vs,
        env,
    ).contains(#[trigger] vs[i]) by {
        assert(pred(vs[i]));
    }
}

/// No run of events takes the engine past `MAX_VOICES` voices or breaks its invariant.
pub proof fn lemma_events_keep_voice_bound(s: EngineState, es: Seq<TimedEvent>, env: Envelope)
    requires
        s.wf(),
        env.wf(),
    ensures
        apply_events(s, es, env).wf(),
        apply_events(s, es, env).voices.len() <= MAX_VOICES,
    decreases es.len(),
{
    if es.len() > 0 {
        lemma_events_keep_voice_bound(s, es.drop_last(), env);
        lemma_event_keeps_wf(apply_events(s, es.drop_last(), env), es.last().event, env);
    }
}

proof fn lemma_event_keeps_wf(s: EngineState, e: NoteEvent, env: Envelope)
    requires
        s.wf(),
        env.wf(),
    ensures
        apply_event(s, e, env).wf(),
{
    let t = apply_event(s, e, env);
    assert forall|i: int| 0 <= i < t.voices.len() implies (#[trigger] t.voices[i]).wf() by {
        match e {
            NoteEvent::NoteOn { note, velocity } => {
                if i < t.voices.len() - 1 {
                    if s.voices.len() >= MAX_VOICES {
                        assert(t.voices[i] == s.voices[i + 1]);
                    } else {
                        assert(t.voices[i] == s.voices[i]);
                    }
                }
            },
            _ => {
                assert(s.voices[i].wf());
                lemma_held_level_bounds(env, s.voices[i].samples_since_event as int);
            },
        }
    }
}

} // verus!

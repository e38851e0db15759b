//! A voice: one note's envelope, run as a producer that emits sample chunks.
//!
//! The producer is a state machine. Its driver asks it for the next action
//! with the time elapsed since the note started; the session answers with a
//! chunk of samples to emit, a time to wait for, or the end of its output.
//! Attack and decay are emitted at once; sustain is emitted one timed chunk
//! at a time until a release is requested; release is emitted once, after
//! which the output closes.

use crate::envelope::{
    advance_phase, cycle_pos, is_segment, render_segment, samples_for, samples_in, Segment,
    UNITY_GAIN,
};
use vstd::prelude::*;

verus! {

/// What a control message asks for.
#[derive(Copy, Clone, Debug, PartialEq, Eq, Structural)]
pub enum ControlOp {
    Play,
    Sustain,
}

/// A control message: an operation and the chunk size it applies to.
pub struct Control {
    operation: ControlOp,
    chunk_size: u32,
}

impl Control {
    pub fn new(operation: ControlOp, chunk_size: u32) -> (r: Control)
        ensures
            r.op() == operation,
            r.chunk_size() == chunk_size,
    {
        Control { operation, chunk_size }
    }

    pub closed spec fn op(&self) -> ControlOp {
        self.operation
    }

    pub closed spec fn chunk_size(&self) -> u32 {
        self.chunk_size
    }

    pub fn get_op(&self) -> (r: ControlOp)
        ensures
            r == self.op(),
    {
        self.operation
    }

    pub fn get_chunk_size(&self) -> (r: u32)
        ensures
            r == self.chunk_size(),
    {
        self.chunk_size
    }
}

/// Length of one sustain chunk, in nanoseconds.
pub const CHUNK_NANOS: u64 = 10000000;

/// Samples in one sustain chunk.
pub const CHUNK_SAMPLES: usize = 480;

/// Why a voice could not start.
#[derive(Copy, Clone, Debug, PartialEq, Eq, Structural)]
pub enum VoiceError {
    /// The cycle table has fewer than two samples.
    DegenerateCycle,
}

/// Envelope parameters shared by the voices of one instrument.
pub struct Voice {
    attack_nanos: u64,
    decay_nanos: u64,
    sustain: u64,
    release_nanos: u64,
}

/// The stage a voice session is in.
#[derive(Copy, Clone, Debug, PartialEq, Eq, Structural)]
pub enum Stage {
    Attack,
    Decay,
    Sustain,
    Release,
    Terminated,
}

/// What the driver of a session is to do next.
pub enum Action {
    /// Emit these samples, in order, then ask again.
    Emit(Vec<i32>),
    /// Ask again once this many nanoseconds have passed since the note started.
    WaitUntil(u64),
    /// The output is complete: close it.
    Close,
}

/// The state of a voice session.
pub struct SessionView {
    pub cycle: Seq<i32>,
    pub attack: nat,
    pub decay: nat,
    pub sustain: nat,
    pub release: nat,
    pub stage: Stage,
    pub phase: nat,
    pub released: bool,
    pub next_chunk_at: nat,
}

impl SessionView {
    pub open spec fn wf(&self) -> bool {
        &&& self.cycle.len() >= 2
        &&& self.phase < self.cycle.len()
        &&& self.sustain <= UNITY_GAIN
    }

    /// The same state with a release requested.
    pub open spec fn with_release(self) -> SessionView {
        SessionView { released: true, ..self }
    }

    /// The state after a segment of `count` samples, entering `stage`.
    pub open spec fn after(self, count: nat, stage: Stage) -> SessionView {
        SessionView {
            stage,
            phase: cycle_pos(self.phase as int, count as int, self.cycle.len() as int) as nat,
            ..self
        }
    }

    /// The state after one step of the producer at time `now`.
    pub open spec fn next(self, now: int) -> SessionView {
        match self.stage {
            Stage::Attack => self.after(self.attack, Stage::Decay),
            Stage::Decay => self.after(self.decay, Stage::Sustain),
            Stage::Sustain => if self.released {
                self.after(self.release, Stage::Release)
            } else if now >= self.next_chunk_at {
                SessionView {
                    next_chunk_at: sat_add(self.next_chunk_at as int, CHUNK_NANOS as int) as nat,
                    ..self.after(CHUNK_SAMPLES as nat, Stage::Sustain)
                }
            } else {
                self
            },
            Stage::Release | Stage::Terminated => SessionView { stage: Stage::Terminated, ..self },
        }
    }

    /// The state after one step at each of `times`, in order.
    pub open spec fn run(self, times: Seq<int>) -> SessionView
        decreases times.len(),
    {
        if times.len() == 0 {
            self
        } else {
            self.next(times[0]).run(times.drop_first())
        }
    }

    /// How many samples one step of the producer at time `now` emits.
    pub open spec fn out_len(self, now: int) -> nat {
        match self.stage {
            Stage::Attack => self.attack,
            Stage::Decay => self.decay,
            Stage::Sustain => if self.released {
                self.release
            } else if now >= self.next_chunk_at {
                CHUNK_SAMPLES as nat
            } else {
                0
            },
            Stage::Release | Stage::Terminated => 0,
        }
    }

    /// How many samples steps at each of `times`, in order, emit together.
    pub open spec fn run_len(self, times: Seq<int>) -> nat
        decreases times.len(),
    {
        if times.len() == 0 {
            0
        } else {
            self.out_len(times[0]) + self.next(times[0]).run_len(times.drop_first())
        }
    }

    /// Whether `out` is the segment `seg` of `count` samples from the current phase.
    pub open spec fn emits(self, out: Seq<i32>, seg: Segment, count: nat) -> bool {
        is_segment(out, self.cycle, self.phase as int, seg, count as int, self.sustain as int)
    }
}

/// One note's producer: its cycle table, envelope and progress.
pub struct VoiceSession {
    cycle: Vec<i32>,
    attack: usize,
    decay: usize,
    sustain: u64,
    release: usize,
    stage: Stage,
    phase: usize,
    released: bool,
    next_chunk_at: u64,
}

impl View for VoiceSession {
    type V = SessionView;

    closed spec fn view(&self) -> SessionView {
        SessionView {
            cycle: self.cycle@,
            attack: self.attack as nat,
            decay: self.decay as nat,
            sustain: self.sustain as nat,
            release: self.release as nat,
            stage: self.stage,
            phase: self.phase as nat,
            released: self.released,
            next_chunk_at: self.next_chunk_at as nat,
        }
    }
}

/// `a + b`, or `u64::MAX` where the sum does not fit.
pub open spec fn sat_add(a: int, b: int) -> int {
    if a + b > u64::MAX { u64::MAX as int } else { a + b }
}

fn saturating_sum(a: u64, b: u64) -> (r: u64)
    ensures
        r == sat_add(a as int, b as int),
{
    if a > u64::MAX - b { u64::MAX } else { a + b }
}

impl Voice {
    pub closed spec fn attack_nanos(&self) -> u64 {
        self.attack_nanos
    }

    pub closed spec fn decay_nanos(&self) -> u64 {
        self.decay_nanos
    }

    pub closed spec fn sustain(&self) -> u64 {
        self.sustain
    }

    pub closed spec fn release_nanos(&self) -> u64 {
        self.release_nanos
    }

    /// Whether each phase's sample count fits in memory indices.
    pub open spec fn fits(&self) -> bool {
        &&& samples_in(self.attack_nanos() as int) <= usize::MAX
        &&& samples_in(self.decay_nanos() as int) <= usize::MAX
        &&& samples_in(self.release_nanos() as int) <= usize::MAX
        &&& self.sustain() <= UNITY_GAIN
    }

    /// Envelope parameters: attack, decay and release durations in
    /// nanoseconds, and the sustain level as a fraction of `UNITY_GAIN`.
    pub fn new(attack: u64, decay: u64, sustain: u64, release: u64) -> (r: Voice)
        requires
            sustain <= UNITY_GAIN,
            samples_in(attack as int) <= usize::MAX,
            samples_in(decay as int) <= usize::MAX,
            samples_in(release as int) <= usize::MAX,
        ensures
            r.attack_nanos() == attack,
            r.decay_nanos() == decay,
            r.sustain() == sustain,
            r.release_nanos() == release,
            r.fits(),
    {
        Voice { attack_nanos: attack, decay_nanos: decay, sustain, release_nanos: release }
    }

    /// Starts a voice over one cycle of its tone. A cycle of fewer than two
    /// samples cannot be played and is refused.
    pub fn press(&self, cycle: Vec<i32>) -> (r: Result<VoiceSession, VoiceError>)
        requires
            self.fits(),
        ensures
            r is Err <==> cycle@.len() < 2,
            r is Err ==> r->Err_0 == VoiceError::DegenerateCycle,
            r is Ok ==> r->Ok_0@ == (SessionView {
                cycle: cycle@,
                attack: samples_in(self.attack_nanos() as int) as nat,
                decay: samples_in(self.decay_nanos() as int) as nat,
                sustain: self.sustain() as nat,
                release: samples_in(self.release_nanos() as int) as nat,
                stage: Stage::Attack,
                phase: 0,
                released: false,
                next_chunk_at: sat_add(self.attack_nanos() as int, self.decay_nanos() as int) as nat,
            }),
            r is Ok ==> r->Ok_0@.wf(),
    {
        if cycle.len() < 2 {
            return Err(VoiceError::DegenerateCycle);
        }
        let attack = samples_for(self.attack_nanos) as usize;
        let decay = samples_for(self.decay_nanos) as usize;
        let release = samples_for(self.release_nanos) as usize;
        let next_chunk_at = saturating_sum(self.attack_nanos, self.decay_nanos);
        Ok(VoiceSession {
            cycle,
            attack,
            decay,
            sustain: self.sustain,
            release,
            stage: Stage::Attack,
            phase: 0,
            released: false,
            next_chunk_at,
        })
    }
}

impl VoiceSession {
    /// The stage the session is in.
    pub fn stage(&self) -> (r: Stage)
        ensures
            r == self@.stage,
    {
        self.stage
    }

    /// Records a release request. Requests after the first change nothing.
    pub fn request_release(&mut self)
        ensures
            final(self)@ == old(self)@.with_release(),
    {
        self.released = true;
    }

    fn emit_segment(&mut self, seg: Segment, count: usize, next: Stage) -> (r: Vec<i32>)
        requires
            old(self)@.wf(),
        ensures
            old(self)@.emits(r@, seg, count as nat),
            final(self)@ == old(self)@.after(count as nat, next),
            final(self)@.wf(),
    {
        let out = render_segment(&self.cycle, self.phase, seg, count, self.sustain);
        self.phase = advance_phase(self.phase, count, self.cycle.len());
        self.stage = next;
        out
    }

    /// The next action of the producer, `now` nanoseconds after the note started.
    pub fn step(&mut self, now: u64) -> (r: Action)
        requires
            old(self)@.wf(),
        ensures
            final(self)@.wf(),
            final(self)@ == old(self)@.next(now as int),
            r matches Action::Emit(out) ==> out@.len() == old(self)@.out_len(now as int),
            !(r is Emit) ==> old(self)@.out_len(now as int) == 0,
            ({
                let s = old(self)@;
                match s.stage {
                    Stage::Attack => r matches Action::Emit(out) && s.emits(out@, Segment::Attack, s.attack),
                    Stage::Decay => r matches Action::Emit(out) && s.emits(out@, Segment::Decay, s.decay),
                    Stage::Sustain => if s.released {
                        r matches Action::Emit(out) && s.emits(out@, Segment::Release, s.release)
                    } else if now >= s.next_chunk_at {
                        r matches Action::Emit(out) && s.emits(out@, Segment::Sustain, CHUNK_SAMPLES as nat)
                    } else {
                        r == Action::WaitUntil(s.next_chunk_at as u64)
                    },
                    Stage::Release | Stage::Terminated => r is Close,
                }
            }),
    {
        match self.stage {
            Stage::Attack => {
                let count = self.attack;
                Action::Emit(self.emit_segment(Segment::Attack, count, Stage::Decay))
            },
            Stage::Decay => {
                let count = self.decay;
                Action::Emit(self.emit_segment(Segment::Decay, count, Stage::Sustain))
            },
            Stage::Sustain => {
                if self.released {
                    let count = self.release;
                    Action::Emit(self.emit_segment(Segment::Release, count, Stage::Release))
                } else if now >= self.next_chunk_at {
                    let out = self.emit_segment(Segment::Sustain, CHUNK_SAMPLES, Stage::Sustain);
                    self.next_chunk_at = saturating_sum(self.next_chunk_at, CHUNK_NANOS);
                    Action::Emit(out)
                } else {
                    Action::WaitUntil(self.next_chunk_at)
                }
            },
            Stage::Release | Stage::Terminated => {
                self.stage = Stage::Terminated;
                Action::Close
            },
        }
    }
}

/// A note that is held, not released, stays in sustain however many steps
/// its producer takes and whenever it takes them.
pub proof fn lemma_held_note_sustains(s: SessionView, times: Seq<int>)
    requires
        s.stage == Stage::Sustain,
        !s.released,
    ensures
        s.run(times).stage == Stage::Sustain,
        !s.run(times).released,
    decreases times.len(),
{
    if times.len() > 0 {
        lemma_held_note_sustains(s.next(times[0]), times.drop_first());
    }
}

/// A terminated session stays terminated and emits nothing more.
proof fn lemma_terminated_silent(s: SessionView, times: Seq<int>)
    requires
        s.stage == Stage::Terminated,
    ensures
        s.run(times).stage == Stage::Terminated,
        s.run_len(times) == 0,
    decreases times.len(),
{
    if times.len() > 0 {
        lemma_terminated_silent(s.next(times[0]), times.drop_first());
    }
}

/// A note released during sustain enters release at its next step and
/// terminates at the step after; from the release on it emits exactly the
/// release segment's samples, however many steps follow.
pub proof fn lemma_release_ends_note(s: SessionView, times: Seq<int>)
    requires
        s.stage == Stage::Sustain,
        s.released,
        times.len() >= 2,
    ensures
        s.next(times[0]).stage == Stage::Release,
        s.run(times).stage == Stage::Terminated,
        s.run_len(times) == s.release,
{
    let s1 = s.next(times[0]);
    let rest = times.drop_first();
    let s2 = s1.next(rest[0]);
    lemma_terminated_silent(s2, rest.drop_first());
    assert(s1.run(rest) == s2.run(rest.drop_first()));
    assert(s1.run_len(rest) == s2.run_len(rest.drop_first()));
    assert(s.run(times) == s1.run(rest));
    assert(s.run_len(times) == s.release + s1.run_len(rest));
}

/// A second release request leaves the session as the first one left it, so
/// every later step, and all it emits, is the same.
pub proof fn lemma_release_idempotent(s: SessionView, times: Seq<int>)
    ensures
        s.with_release().with_release() == s.with_release(),
        s.with_release().with_release().run(times) == s.with_release().run(times),
{
}

} // verus!

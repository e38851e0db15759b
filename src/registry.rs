//! The voice registry: the notes that sound, their output streams and their
//! release triggers, and the mixer that pulls one frame from every stream on
//! each audio tick.
//!
//! Each pressed note gets a fresh identifier, so a voice that was replaced by
//! a second press of its note can close without taking the new voice's
//! release trigger with it.

use crate::scale::Note;
use crossbeam_channel::{Receiver, Sender, TryRecvError};
use vstd::prelude::*;

verus! {

#[verifier::external_type_specification]
#[verifier::external_body]
#[verifier::reject_recursive_types(T)]
pub struct ExReceiver<T>(Receiver<T>);

#[verifier::external_type_specification]
#[verifier::external_body]
#[verifier::reject_recursive_types(T)]
pub struct ExSender<T>(Sender<T>);

/// What one non-blocking read of a voice's output stream gave.
#[derive(Copy, Clone, Debug, PartialEq, Eq, Structural)]
pub enum Pull {
    /// A sample was ready.
    Frame(i32),
    /// The producer has not caught up yet.
    Empty,
    /// The producer finished and the stream is drained.
    Closed,
}

/// Relies on `crossbeam_channel::Receiver::try_recv`, which never blocks:
/// it hands out the next message, or reports the channel empty, or empty and
/// disconnected. Which one depends on the producer thread, so nothing is
/// promised of the outcome.
#[verifier::external_body]
fn try_pull(stream: &Receiver<i32>) -> (r: Pull) {
    match stream.try_recv() {
        Ok(sample) => Pull::Frame(sample),
        Err(TryRecvError::Empty) => Pull::Empty,
        Err(TryRecvError::Disconnected) => Pull::Closed,
    }
}

/// Relies on `crossbeam_channel::Sender::try_send`, which never blocks: it
/// sends at once or fails because the channel is full or disconnected. A
/// full trigger already holds a pending release and a disconnected one
/// belongs to a producer that has finished, so either failure is ignored.
#[verifier::external_body]
fn send_trigger(trigger: &Sender<u8>, value: u8) {
    let _ = trigger.try_send(value);
}

/// A sounding voice: its note and the identifier it was given when pressed.
pub type VoiceKey = (Note, u64);

/// Why a note could not be registered.
#[derive(Copy, Clone, Debug, PartialEq, Eq, Structural)]
pub enum RegistryError {
    /// Every voice identifier has been handed out.
    IdsExhausted,
}

/// The registry as the contracts see it.
pub struct RegistryView {
    /// The voices whose streams are read, in order of pressing.
    pub active: Seq<VoiceKey>,
    /// The voices whose release trigger is held, at most one per note.
    pub held: Seq<VoiceKey>,
    /// The identifier the next pressed note gets.
    pub next_id: nat,
    /// The voices whose release trigger was signalled, in order.
    pub signalled: Seq<VoiceKey>,
    /// Every frame mixed by a tick, in order.
    pub frames_read: Seq<FrameRead>,
}

/// One mixed frame: the voices read, in order, and what each read gave.
pub struct FrameRead {
    pub voices: Seq<VoiceKey>,
    pub pulls: Seq<Pull>,
}

/// The voices still active after a frame.
pub open spec fn frame_after(fr: FrameRead) -> Seq<VoiceKey> {
    kept(fr.voices, fr.pulls, fr.pulls.len() as int)
}

/// Whether `reads` are frames in which each voice active at the frame is
/// read once, in order, starting from the voices `first` and ending with the
/// voices `last` active.
pub open spec fn reads_chain(reads: Seq<FrameRead>, first: Seq<VoiceKey>, last: Seq<VoiceKey>) -> bool {
    &&& forall|f: int| 0 <= f < reads.len() ==> (#[trigger] reads[f]).voices.len() == reads[f].pulls.len()
    &&& forall|f: int|
        0 <= f < reads.len() ==> (#[trigger] reads[f]).voices == if f == 0 {
            first
        } else {
            frame_after(reads[f - 1])
        }
    &&& last == if reads.len() == 0 {
        first
    } else {
        frame_after(reads[reads.len() - 1])
    }
}

/// Whether one of `reads` found the stream of voice `k` closed.
pub open spec fn closed_in_reads(reads: Seq<FrameRead>, k: VoiceKey) -> bool {
    exists|f: int|
        0 <= f < reads.len() && closed_among(
            (#[trigger] reads[f]).voices,
            reads[f].pulls,
            reads[f].pulls.len() as int,
            k,
        )
}

impl RegistryView {
    pub open spec fn wf(&self) -> bool {
        &&& forall|i: int, j: int|
            0 <= i < j < self.held.len() ==> #[trigger] self.held[i].0 != #[trigger] self.held[j].0
        &&& forall|i: int, j: int|
            0 <= i < j < self.active.len() ==> #[trigger] self.active[i] != #[trigger] self.active[j]
        &&& forall|i: int| 0 <= i < self.active.len() ==> #[trigger] self.active[i].1 < self.next_id
        &&& forall|i: int| 0 <= i < self.held.len() ==> #[trigger] self.held[i].1 < self.next_id
    }

    /// Whether a release trigger is held for `note`.
    pub open spec fn holds(&self, note: Note) -> bool {
        exists|i: int| 0 <= i < self.held.len() && #[trigger] self.held[i].0 == note
    }
}

/// `t` without its entry for `note`, if it has one.
pub open spec fn without_note(t: Seq<VoiceKey>, note: Note) -> Seq<VoiceKey> {
    if exists|i: int| 0 <= i < t.len() && #[trigger] t[i].0 == note {
        t.remove(choose|i: int| 0 <= i < t.len() && #[trigger] t[i].0 == note)
    } else {
        t
    }
}

/// The sum of the frames among the first `n` pulls; empty and closed ones add silence.
pub open spec fn pull_sum(p: Seq<Pull>, n: int) -> int
    decreases n,
{
    if n <= 0 {
        0
    } else {
        pull_sum(p, n - 1) + match p[n - 1] {
            Pull::Frame(x) => x as int,
            _ => 0,
        }
    }
}

/// The first `n` voices of `a`, without those whose pull in `p` found the stream closed.
pub open spec fn kept(a: Seq<VoiceKey>, p: Seq<Pull>, n: int) -> Seq<VoiceKey>
    decreases n,
{
    if n <= 0 {
        seq![]
    } else if p[n - 1] is Closed {
        kept(a, p, n - 1)
    } else {
        kept(a, p, n - 1).push(a[n - 1])
    }
}

/// Whether a pull among the first `n` found the stream of voice `k` closed.
pub open spec fn closed_among(a: Seq<VoiceKey>, p: Seq<Pull>, n: int, k: VoiceKey) -> bool {
    exists|i: int| 0 <= i < n && p[i] is Closed && #[trigger] a[i] == k
}

proof fn lemma_pull_sum_bound(p: Seq<Pull>, n: int)
    requires
        0 <= n <= p.len(),
    ensures
        -0x80000000 * n <= pull_sum(p, n) <= 0x7fffffff * n,
    decreases n,
{
    if n > 0 {
        lemma_pull_sum_bound(p, n - 1);
    }
}

proof fn lemma_kept_len(a: Seq<VoiceKey>, p: Seq<Pull>, n: int)
    requires
        0 <= n,
    ensures
        kept(a, p, n).len() <= n,
    decreases n,
{
    if n > 0 {
        lemma_kept_len(a, p, n - 1);
    }
}

proof fn lemma_kept_from(a: Seq<VoiceKey>, p: Seq<Pull>, n: int)
    requires
        0 <= n <= a.len(),
    ensures
        forall|x: VoiceKey| kept(a, p, n).contains(x) ==>
            exists|i: int| 0 <= i < n && !(p[i] is Closed) && #[trigger] a[i] == x,
    decreases n,
{
    if n > 0 {
        lemma_kept_from(a, p, n - 1);
        assert forall|x: VoiceKey| kept(a, p, n).contains(x) implies
            exists|i: int| 0 <= i < n && !(p[i] is Closed) && #[trigger] a[i] == x by {
            if p[n - 1] is Closed || x != a[n - 1] {
                let j = kept(a, p, n).index_of(x);
                assert(kept(a, p, n - 1)[j] == x);
                assert(kept(a, p, n - 1).contains(x));
            } else {
                assert(a[n - 1] == x);
            }
        }
    }
}

/// Eviction: once a voice's stream is found closed, the voice is no longer
/// among those that later ticks read.
pub proof fn lemma_closed_voice_evicted(a: Seq<VoiceKey>, p: Seq<Pull>, i: int)
    requires
        p.len() == a.len(),
        0 <= i < a.len(),
        p[i] is Closed,
        forall|x: int, y: int| 0 <= x < y < a.len() ==> #[trigger] a[x] != #[trigger] a[y],
    ensures
        !kept(a, p, a.len() as int).contains(a[i]),
{
    lemma_kept_from(a, p, a.len() as int);
    if kept(a, p, a.len() as int).contains(a[i]) {
        let j = choose|j: int| 0 <= j < a.len() && !(p[j] is Closed) && #[trigger] a[j] == a[i];
        assert(j != i);
        if j < i {
            assert(a[j] != a[i]);
        } else {
            assert(a[i] != a[j]);
        }
    }
}

/// Mixing is additive: the mix of two groups of voices pulled side by side
/// is the sum of the mixes of each group on its own.
pub proof fn lemma_mix_superposition(p: Seq<Pull>, q: Seq<Pull>)
    ensures
        pull_sum(p + q, (p + q).len() as int) == pull_sum(p, p.len() as int) + pull_sum(q, q.len() as int),
    decreases q.len(),
{
    if q.len() > 0 {
        let q1 = q.drop_last();
        lemma_mix_superposition(p, q1);
        assert((p + q).drop_last() =~= p + q1);
        lemma_pull_sum_prefix(p + q, (p + q).len() - 1);
        lemma_pull_sum_prefix(q, q.len() - 1);
    }
}

/// The sum of the first `n` pulls depends on those pulls alone.
proof fn lemma_pull_sum_prefix(p: Seq<Pull>, n: int)
    requires
        0 <= n <= p.len(),
    ensures
        pull_sum(p, n) == pull_sum(p.subrange(0, n), n),
    decreases n,
{
    if n > 0 {
        lemma_pull_sum_prefix(p, n - 1);
        lemma_pull_sum_prefix(p.subrange(0, n), n - 1);
        assert(p.subrange(0, n).subrange(0, n - 1) =~= p.subrange(0, n - 1));
    }
}

/// Logging one more frame, read from the voices active after the last one.
proof fn lemma_reads_push(log: Seq<FrameRead>, fr: FrameRead, first: Seq<VoiceKey>, last: Seq<VoiceKey>)
    requires
        reads_chain(log, first, last),
        fr.voices == last,
        fr.voices.len() == fr.pulls.len(),
    ensures
        reads_chain(log.push(fr), first, frame_after(fr)),
        forall|x: VoiceKey| #[trigger] closed_in_reads(log.push(fr), x) <==>
            closed_in_reads(log, x) || closed_among(fr.voices, fr.pulls, fr.pulls.len() as int, x),
{
    let log2 = log.push(fr);
    assert forall|f: int| 0 <= f < log2.len() implies (#[trigger] log2[f]).voices == if f == 0 {
        first
    } else {
        frame_after(log2[f - 1])
    } by {
        if f < log.len() {
            assert(log2[f] == log[f]);
            if f > 0 {
                assert(log2[f - 1] == log[f - 1]);
            }
        } else if f > 0 {
            assert(log2[f - 1] == log[f - 1]);
        }
    }
    assert forall|f: int| 0 <= f < log2.len() implies (#[trigger] log2[f]).voices.len() == log2[f].pulls.len() by {
        if f < log.len() {
            assert(log2[f] == log[f]);
        }
    }
    assert forall|x: VoiceKey| #[trigger] closed_in_reads(log2, x) <==>
        closed_in_reads(log, x) || closed_among(fr.voices, fr.pulls, fr.pulls.len() as int, x) by {
        if closed_in_reads(log2, x) {
            let w = choose|w: int| 0 <= w < log2.len() && closed_among(
                (#[trigger] log2[w]).voices, log2[w].pulls, log2[w].pulls.len() as int, x);
            if w < log.len() {
                assert(log2[w] == log[w]);
            }
        }
        if closed_in_reads(log, x) {
            let w = choose|w: int| 0 <= w < log.len() && closed_among(
                (#[trigger] log[w]).voices, log[w].pulls, log[w].pulls.len() as int, x);
            assert(log2[w] == log[w]);
        }
        if closed_among(fr.voices, fr.pulls, fr.pulls.len() as int, x) {
            assert(log2[log.len() as int] == fr);
        }
    }
}

proof fn lemma_remove_unique(t: Seq<VoiceKey>, k: int)
    requires
        0 <= k < t.len(),
        forall|i: int, j: int| 0 <= i < j < t.len() ==> #[trigger] t[i].0 != #[trigger] t[j].0,
    ensures
        forall|x: VoiceKey| #[trigger] t.remove(k).contains(x) <==> t.contains(x) && x != t[k],
        forall|i: int, j: int|
            0 <= i < j < t.remove(k).len() ==> #[trigger] t.remove(k)[i].0 != #[trigger] t.remove(k)[j].0,
{
    let r = t.remove(k);
    assert forall|x: VoiceKey| #[trigger] r.contains(x) <==> t.contains(x) && x != t[k] by {
        if r.contains(x) {
            let j = r.index_of(x);
            if j < k {
                assert(t[j] == x);
                assert(t[j].0 != t[k].0);
            } else {
                assert(t[j + 1] == x);
                assert(t[k].0 != t[j + 1].0);
            }
        }
        if t.contains(x) && x != t[k] {
            let j = t.index_of(x);
            if j < k {
                assert(r[j] == x);
            } else {
                assert(r[j - 1] == x);
            }
        }
    }
    assert forall|i: int, j: int| 0 <= i < j < r.len() implies #[trigger] r[i].0 != #[trigger] r[j].0 by {
        let ii = if i < k { i } else { i + 1 };
        let jj = if j < k { j } else { j + 1 };
        assert(r[i] == t[ii]);
        assert(r[j] == t[jj]);
    }
}

/// The voices that sound, their streams and their release triggers.
pub struct VoiceRegistry {
    active: Vec<VoiceKey>,
    streams: Vec<Receiver<i32>>,
    held: Vec<VoiceKey>,
    triggers: Vec<Sender<u8>>,
    next_id: u64,
    signalled: Ghost<Seq<VoiceKey>>,
    frames_read: Ghost<Seq<FrameRead>>,
}

impl View for VoiceRegistry {
    type V = RegistryView;

    closed spec fn view(&self) -> RegistryView {
        RegistryView {
            active: self.active@,
            held: self.held@,
            next_id: self.next_id as nat,
            signalled: self.signalled@,
            frames_read: self.frames_read@,
        }
    }
}

impl VoiceRegistry {
    pub closed spec fn inv(&self) -> bool {
        &&& self@.wf()
        &&& self.active.len() == self.streams.len()
        &&& self.held.len() == self.triggers.len()
    }

    /// An empty registry.
    pub fn new() -> (r: VoiceRegistry)
        ensures
            r.inv(),
            r@.wf(),
            r@.active.len() == 0,
            r@.held.len() == 0,
            r@.next_id == 0,
            r@.signalled.len() == 0,
            r@.frames_read.len() == 0,
    {
        VoiceRegistry {
            active: Vec::new(),
            streams: Vec::new(),
            held: Vec::new(),
            triggers: Vec::new(),
            next_id: 0,
            signalled: Ghost(Seq::empty()),
            frames_read: Ghost(Seq::empty()),
        }
    }

    /// The position of the release entry for `note`, if one is held.
    fn find_held(&self, note: Note) -> (r: Option<usize>)
        requires
            self.inv(),
        ensures
            r is Some <==> self@.holds(note),
            r matches Some(i) ==> i < self@.held.len() && self@.held[i as int].0 == note,
    {
        let mut i: usize = 0;
        while i < self.held.len()
            invariant
                i <= self.held.len(),
                forall|j: int| 0 <= j < i ==> #[trigger] self.held@[j].0 != note,
            decreases self.held.len() - i,
        {
            if self.held[i].0 == note {
                return Some(i);
            }
            i = i + 1;
        }
        None
    }

    /// The position of the release entry of voice `key`, if one is held.
    fn find_key(&self, key: VoiceKey) -> (r: Option<usize>)
        requires
            self.inv(),
        ensures
            r is None ==> !self@.held.contains(key),
            r matches Some(i) ==> i < self@.held.len() && self@.held[i as int] == key,
    {
        let mut i: usize = 0;
        while i < self.held.len()
            invariant
                i <= self.held.len(),
                forall|j: int| 0 <= j < i ==> #[trigger] self.held@[j] != key,
            decreases self.held.len() - i,
        {
            if self.held[i].0 == key.0 && self.held[i].1 == key.1 {
                return Some(i);
            }
            i = i + 1;
        }
        None
    }

    /// Registers a pressed note with the output stream and release trigger of
    /// its new voice. A voice already held for the note loses its release
    /// trigger, and so plays out on its own, but its stream is still read.
    pub fn note_on(&mut self, note: Note, stream: Receiver<i32>, trigger: Sender<u8>) -> (r: Result<u64, RegistryError>)
        requires
            old(self).inv(),
        ensures
            final(self).inv(),
            final(self)@.wf(),
            r is Err <==> old(self)@.next_id == u64::MAX,
            r is Err ==> final(self)@ == old(self)@,
            r matches Ok(id) ==> {
                &&& id == old(self)@.next_id
                &&& final(self)@.active == old(self)@.active.push((note, id))
                &&& final(self)@.held == without_note(old(self)@.held, note).push((note, id))
                &&& final(self)@.next_id == id + 1
                &&& final(self)@.signalled == old(self)@.signalled
                &&& final(self)@.frames_read == old(self)@.frames_read
                &&& final(self)@.held.contains((note, id))
                &&& forall|i: int|
                    0 <= i < final(self)@.held.len() && #[trigger] final(self)@.held[i].0 == note
                        ==> final(self)@.held[i] == (note, id)
            },
    {
        if self.next_id == u64::MAX {
            return Err(RegistryError::IdsExhausted);
        }
        let id = self.next_id;
        let ghost old_held = self@.held;
        let ghost old_active = self@.active;
        match self.find_held(note) {
            Some(i) => {
                proof { lemma_remove_unique(old_held, i as int); }
                self.held.remove(i);
                let _ = self.triggers.remove(i);
                assert(without_note(old_held, note) == old_held.remove(i as int)) by {
                    let c = choose|j: int| 0 <= j < old_held.len() && #[trigger] old_held[j].0 == note;
                    if c != i as int {
                        if c < i { assert(old_held[c].0 != old_held[i as int].0); }
                        else { assert(old_held[i as int].0 != old_held[c].0); }
                    }
                }
                assert forall|j: int| 0 <= j < self.held@.len() implies #[trigger] self.held@[j].0 != note by {
                    assert(self.held@.contains(self.held@[j]));
                    let jj = if j < i { j } else { j + 1 };
                    assert(self.held@[j] == old_held[jj]);
                    if jj < i { assert(old_held[jj].0 != old_held[i as int].0); }
                    else { assert(old_held[i as int].0 != old_held[jj].0); }
                }
            },
            None => {
                assert(without_note(old_held, note) == old_held);
            },
        }
        let ghost mid = self.held@;
        self.held.push((note, id));
        self.triggers.push(trigger);
        self.active.push((note, id));
        self.streams.push(stream);
        self.next_id = id + 1;
        assert(self.held@[self.held@.len() - 1] == (note, id));
        assert forall|i: int| 0 <= i < mid.len() implies #[trigger] mid[i].1 < id by {
            assert(old_held.contains(mid[i]));
        }
        assert forall|x: int, y: int| 0 <= x < y < self.held@.len() implies
            #[trigger] self.held@[x].0 != #[trigger] self.held@[y].0 by {
            if y == mid.len() {
                assert(mid[x].0 != note);
            } else {
                assert(mid[x].0 != mid[y].0);
            }
        }
        assert forall|i: int|
            0 <= i < self.held@.len() && #[trigger] self.held@[i].0 == note implies self.held@[i] == (note, id) by {
            if i < mid.len() {
                assert(self.held@[i] == mid[i]);
            }
        }
        assert forall|x: int, y: int| 0 <= x < y < self.active@.len() implies
            #[trigger] self.active@[x] != #[trigger] self.active@[y] by {
            assert(self.active@[x] == old_active[x]);
            if y == self.active@.len() - 1 {
                assert(old_active[x].1 < id);
            } else {
                assert(self.active@[y] == old_active[y]);
                assert(old_active[x] != old_active[y]);
            }
        }
        Ok(id)
    }

    /// Signals the release trigger of the voice held for `note`, if any, and
    /// returns that voice. A note that is not held is no error; a voice
    /// signalled before is signalled again, which changes nothing for it.
    pub fn note_off(&mut self, note: Note) -> (r: Option<VoiceKey>)
        requires
            old(self).inv(),
        ensures
            final(self).inv(),
            final(self)@.wf(),
            r is Some <==> old(self)@.holds(note),
            r matches Some(k) ==> {
                &&& k.0 == note
                &&& old(self)@.held.contains(k)
                &&& final(self)@ == (RegistryView { signalled: old(self)@.signalled.push(k), ..old(self)@ })
            },
            r is None ==> final(self)@ == old(self)@,
    {
        match self.find_held(note) {
            Some(i) => {
                send_trigger(&self.triggers[i], 0);
                let key = self.held[i];
                self.signalled = Ghost(self.signalled@.push(key));
                assert(self@.held[i as int] == key);
                Some(key)
            },
            None => None,
        }
    }

    /// The notes of the voices whose streams are read, in order of pressing.
    pub fn active_notes(&self) -> (r: Vec<Note>)
        ensures
            r@ == self@.active.map_values(|k: VoiceKey| k.0),
    {
        let mut r: Vec<Note> = Vec::new();
        let mut i: usize = 0;
        while i < self.active.len()
            invariant
                i <= self.active.len(),
                r@ == self@.active.subrange(0, i as int).map_values(|k: VoiceKey| k.0),
            decreases self.active.len() - i,
        {
            r.push(self.active[i].0);
            i = i + 1;
            assert(r@ =~= self@.active.subrange(0, i as int).map_values(|k: VoiceKey| k.0));
        }
        assert(self@.active.subrange(0, i as int) =~= self@.active);
        r
    }

    /// The notes whose release trigger is held.
    pub fn held_notes(&self) -> (r: Vec<Note>)
        ensures
            r@ == self@.held.map_values(|k: VoiceKey| k.0),
    {
        let mut r: Vec<Note> = Vec::new();
        let mut i: usize = 0;
        while i < self.held.len()
            invariant
                i <= self.held.len(),
                r@ == self@.held.subrange(0, i as int).map_values(|k: VoiceKey| k.0),
            decreases self.held.len() - i,
        {
            r.push(self.held[i].0);
            i = i + 1;
            assert(r@ =~= self@.held.subrange(0, i as int).map_values(|k: VoiceKey| k.0));
        }
        assert(self@.held.subrange(0, i as int) =~= self@.held);
        r
    }

    /// One frame: one pull from each active voice's stream, in order, then
    /// the mix of what came back, logged as a frame read.
    fn tick_frame(&mut self) -> (v: i128)
        requires
            old(self).inv(),
        ensures
            final(self).inv(),
            final(self)@.wf(),
            final(self)@.next_id == old(self)@.next_id,
            final(self)@.signalled == old(self)@.signalled,
            final(self)@.frames_read.len() == old(self)@.frames_read.len() + 1,
            final(self)@.frames_read.subrange(0, old(self)@.frames_read.len() as int) == old(self)@.frames_read,
            ({
                let fr = final(self)@.frames_read.last();
                &&& fr.voices == old(self)@.active
                &&& fr.voices.len() == fr.pulls.len()
                &&& v == pull_sum(fr.pulls, fr.pulls.len() as int)
                &&& final(self)@.active == frame_after(fr)
                &&& forall|k: VoiceKey| #[trigger] final(self)@.held.contains(k) <==>
                    old(self)@.held.contains(k) && !closed_among(fr.voices, fr.pulls, fr.pulls.len() as int, k)
                &&& fr.pulls.len() == 0 ==> final(self)@.held == old(self)@.held
            }),
    {
        let mut pulls: Vec<Pull> = Vec::new();
        let mut k: usize = 0;
        while k < self.streams.len()
            invariant
                self.inv(),
                k <= self.streams.len(),
                pulls@.len() == k,
            decreases self.streams.len() - k,
        {
            pulls.push(try_pull(&self.streams[k]));
            k = k + 1;
        }
        let ghost fr = FrameRead { voices: self@.active, pulls: pulls@ };
        let v = self.mix(&pulls);
        self.frames_read = Ghost(self.frames_read@.push(fr));
        assert(self@.frames_read.subrange(0, self@.frames_read.len() - 1) =~= old(self)@.frames_read);
        v
    }

    /// One audio tick of `frames` frames: each frame pulls once, without
    /// blocking, from the stream of every voice active at that frame, in
    /// order, and mixes what came back; closed voices are evicted before the
    /// next frame. Each frame read is logged with what its pulls gave.
    pub fn tick(&mut self, frames: usize) -> (r: Vec<i128>)
        requires
            old(self).inv(),
        ensures
            final(self).inv(),
            final(self)@.wf(),
            r@.len() == frames,
            final(self)@.next_id == old(self)@.next_id,
            final(self)@.signalled == old(self)@.signalled,
            final(self)@.frames_read.len() == old(self)@.frames_read.len() + frames,
            final(self)@.frames_read.subrange(0, old(self)@.frames_read.len() as int) == old(self)@.frames_read,
            ({
                let reads = final(self)@.frames_read.subrange(
                    old(self)@.frames_read.len() as int,
                    final(self)@.frames_read.len() as int,
                );
                &&& reads_chain(reads, old(self)@.active, final(self)@.active)
                &&& forall|f: int|
                    0 <= f < frames ==> #[trigger] r@[f] == pull_sum(reads[f].pulls, reads[f].pulls.len() as int)
                &&& forall|k: VoiceKey| #[trigger] final(self)@.held.contains(k) <==>
                    old(self)@.held.contains(k) && !closed_in_reads(reads, k)
            }),
            old(self)@.active.len() == 0 ==> final(self)@.active == old(self)@.active
                && final(self)@.held == old(self)@.held
                && forall|f: int| 0 <= f < frames ==> #[trigger] r@[f] == 0,
    {
        let ghost start = self@.frames_read.len();
        let mut out: Vec<i128> = Vec::new();
        let mut f: usize = 0;
        while f < frames
            invariant
                self.inv(),
                f <= frames,
                out@.len() == f,
                self@.next_id == old(self)@.next_id,
                self@.signalled == old(self)@.signalled,
                start == old(self)@.frames_read.len(),
                self@.frames_read.len() == start + f,
                self@.frames_read.subrange(0, start as int) == old(self)@.frames_read,
                reads_chain(self@.frames_read.subrange(start as int, start + f), old(self)@.active, self@.active),
                forall|g: int| 0 <= g < f ==> #[trigger] out@[g] == pull_sum(
                    self@.frames_read[start + g].pulls,
                    self@.frames_read[start + g].pulls.len() as int,
                ),
                forall|k: VoiceKey| #[trigger] self@.held.contains(k) <==>
                    old(self)@.held.contains(k) && !closed_in_reads(
                        self@.frames_read.subrange(start as int, start + f), k),
                old(self)@.active.len() == 0 ==> self@.active == old(self)@.active
                    && self@.held == old(self)@.held
                    && forall|g: int| 0 <= g < f ==> #[trigger] out@[g] == 0,
            decreases frames - f,
        {
            let ghost log = self@.frames_read.subrange(start as int, start + f);
            let ghost before = self@;
            let v = self.tick_frame();
            proof {
                let fr = self@.frames_read.last();
                assert(self@.frames_read.subrange(start as int, start + f + 1) =~= log.push(fr)) by {
                    assert(before.frames_read =~= self@.frames_read.subrange(0, start + f));
                }
                assert(self@.frames_read.subrange(0, start as int) =~= before.frames_read.subrange(0, start as int));
                lemma_reads_push(log, fr, old(self)@.active, before.active);
                assert forall|g: int| 0 <= g < f implies #[trigger] self@.frames_read[start + g]
                    == before.frames_read[start + g] by {
                    assert(before.frames_read =~= self@.frames_read.subrange(0, start + f));
                }
                if old(self)@.active.len() == 0 {
                    assert(fr.pulls.len() == 0);
                    assert(self@.active =~= old(self)@.active);
                }
            }
            out.push(v);
            f = f + 1;
        }
        proof {
            assert(self@.frames_read.subrange(start as int, start + f) =~= self@.frames_read.subrange(
                old(self)@.frames_read.len() as int,
                self@.frames_read.len() as int,
            ));
        }
        out
    }

    /// Mixes one frame: `pulls` holds what each active voice's stream gave,
    /// in order. The result is the sum of the frames, with no gain
    /// compensation; voices whose stream was closed are evicted, and their
    /// release triggers dropped.
    pub fn mix(&mut self, pulls: &Vec<Pull>) -> (r: i128)
        requires
            old(self).inv(),
            pulls@.len() == old(self)@.active.len(),
        ensures
            final(self).inv(),
            final(self)@.wf(),
            r == pull_sum(pulls@, pulls@.len() as int),
            final(self)@.active.len() <= old(self)@.active.len(),
            final(self)@.signalled == old(self)@.signalled,
            final(self)@.frames_read == old(self)@.frames_read,
            (forall|i: int| 0 <= i < pulls@.len() ==> !(#[trigger] pulls@[i] is Closed))
                ==> final(self)@.held == old(self)@.held,
            forall|i: int| 0 <= i < pulls@.len() && #[trigger] pulls@[i] is Closed ==> {
                &&& !final(self)@.active.contains(old(self)@.active[i])
                &&& !final(self)@.held.contains(old(self)@.active[i])
            },
            final(self)@.active == kept(old(self)@.active, pulls@, pulls@.len() as int),
            forall|k: VoiceKey| #[trigger] final(self)@.held.contains(k) <==>
                old(self)@.held.contains(k) && !closed_among(old(self)@.active, pulls@, pulls@.len() as int, k),
            final(self)@.next_id == old(self)@.next_id,
    {
        let ghost a = self@.active;
        let ghost t0 = self@.held;
        let n = pulls.len();
        let mut acc: i128 = 0;
        let mut i: usize = 0;
        let mut j: usize = 0;
        while j < n
            invariant
                n == pulls@.len(),
                n == a.len(),
                j <= n,
                self.inv(),
                self.next_id == old(self).next_id,
                self.signalled == old(self).signalled,
                self.frames_read == old(self).frames_read,
                acc == pull_sum(pulls@, j as int),
                i == kept(a, pulls@, j as int).len(),
                self@.active == kept(a, pulls@, j as int) + a.subrange(j as int, n as int),
                forall|k: VoiceKey| #[trigger] self@.held.contains(k) <==>
                    t0.contains(k) && !closed_among(a, pulls@, j as int, k),
                (forall|w: int| 0 <= w < j ==> !(#[trigger] pulls@[w] is Closed)) ==> self@.held == t0,
            decreases n - j,
        {
            proof {
                lemma_pull_sum_bound(pulls@, j as int);
                lemma_kept_len(a, pulls@, j as int);
            }
            let ghost before = self@.active;
            let ghost tb = self@.held;
            assert(before[i as int] == a[j as int]);
            match pulls[j] {
                Pull::Frame(x) => {
                    acc = acc + x as i128;
                    i = i + 1;
                },
                Pull::Empty => {
                    i = i + 1;
                },
                Pull::Closed => {
                    let key = self.active[i];
                    proof {
                        assert forall|x: int, y: int| 0 <= x < y < before.remove(i as int).len() implies
                            #[trigger] before.remove(i as int)[x] != #[trigger] before.remove(i as int)[y] by {
                            let xx = if x < i { x } else { x + 1 };
                            let yy = if y < i { y } else { y + 1 };
                            assert(before.remove(i as int)[x] == before[xx]);
                            assert(before.remove(i as int)[y] == before[yy]);
                        }
                        assert forall|x: int| 0 <= x < before.remove(i as int).len() implies
                            #[trigger] before.remove(i as int)[x].1 < self.next_id by {
                            let xx = if x < i { x } else { x + 1 };
                            assert(before.remove(i as int)[x] == before[xx]);
                        }
                    }
                    self.active.remove(i);
                    let _ = self.streams.remove(i);
                    let found = self.find_key(key);
                    if let Some(t) = found {
                        proof { lemma_remove_unique(tb, t as int); }
                        self.held.remove(t);
                        let _ = self.triggers.remove(t);
                        proof {
                            assert forall|x: int| 0 <= x < self@.held.len() implies
                                #[trigger] self@.held[x].1 < self.next_id by {
                                assert(self@.held.contains(self@.held[x]));
                                assert(tb.contains(self@.held[x]));
                            }
                        }
                    } else {
                        assert(!tb.contains(key));
                    }
                },
            }
            proof {
                assert(pulls@[j as int] is Closed ==> kept(a, pulls@, j + 1) == kept(a, pulls@, j as int));
                assert(!(pulls@[j as int] is Closed) ==> kept(a, pulls@, j + 1) == kept(a, pulls@, j as int).push(a[j as int]));
                assert(self@.active =~= kept(a, pulls@, j + 1) + a.subrange(j + 1, n as int));
                assert forall|k: VoiceKey| closed_among(a, pulls@, j + 1, k) <==>
                    closed_among(a, pulls@, j as int, k) || (pulls@[j as int] is Closed && a[j as int] == k) by {
                    if closed_among(a, pulls@, j + 1, k) && !closed_among(a, pulls@, j as int, k) {
                        let w = choose|w: int| 0 <= w < j + 1 && pulls@[w] is Closed && #[trigger] a[w] == k;
                        assert(w == j);
                    }
                    if pulls@[j as int] is Closed && a[j as int] == k {
                        assert(0 <= j < j + 1 && pulls@[j as int] is Closed && a[j as int] == k);
                    }
                }
            }
            j = j + 1;
        }
        assert(a.subrange(n as int, n as int) =~= Seq::<VoiceKey>::empty());
        assert(self@.active =~= kept(a, pulls@, n as int));
        proof { lemma_kept_len(a, pulls@, n as int); }
        assert forall|w: int| 0 <= w < pulls@.len() && #[trigger] pulls@[w] is Closed implies {
            &&& !self@.active.contains(a[w])
            &&& !self@.held.contains(a[w])
        } by {
            lemma_closed_voice_evicted(a, pulls@, w);
            assert(closed_among(a, pulls@, n as int, a[w]));
        }
        acc
    }
}

} // verus!

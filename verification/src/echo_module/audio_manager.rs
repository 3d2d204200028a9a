use crate::clock::{nanos_between, waited_at_least};
use crate::echo_module::detector::{frame_size_at, vad_decision};
use crate::echo_module::web_rtc_vad::WebRtcVadFacade;
use std::time::Instant;
use uuid::Uuid;
use crate::samples::{append_copies, copy_samples};
use vstd::prelude::*;

verus! {

/// How long a silence must last before speech that follows goes into a new
/// chunk, in milliseconds, until it is set otherwise.
pub const DEFAULT_SILENCE_DURATION_MS: u64 = 1000;

/// A fresh random chunk identifier: `Uuid::new_v4`, as its 128-bit value.
/// It is random, so nothing is claimed of it.
#[verifier::external_body]
fn new_chunk_id() -> (id: u128) {
    Uuid::new_v4().as_u128()
}

/// What an `AudioChunkProcessor` holds: the gathered chunks of speech, each
/// under its identifier; the identifier of the chunk being gathered; the clock
/// reading (nanoseconds since the processor was created) of the last speech;
/// the silence threshold; whether any audio was ever gathered; and of its
/// detector, the sample rate, the mode number and the frames it classified.
#[verifier::ext_equal]
pub struct ChunkStoreView<T> {
    pub chunks: Seq<(u128, Seq<T>)>,
    pub current_id: u128,
    pub last_silence_ns: u128,
    pub silence_duration_ms: u64,
    pub has_new_audio: bool,
    pub vad_rate_hz: int,
    pub vad_mode_number: int,
    pub vad_history: Seq<(int, int, Seq<i16>)>,
}

/// The state after the detector classified `frame`: the frame joins what it
/// classified, with its rate and mode number; nothing else changes.
pub open spec fn classified<T>(s: ChunkStoreView<T>, frame: Seq<i16>) -> ChunkStoreView<T> {
    ChunkStoreView {
        vad_history: s.vad_history.push((s.vad_rate_hz, s.vad_mode_number, frame)),
        ..s
    }
}

/// No identifier occurs twice.
pub open spec fn ids_unique<T>(chunks: Seq<(u128, Seq<T>)>) -> bool {
    forall|i: int, j: int|
        0 <= i < chunks.len() && 0 <= j < chunks.len() && i != j ==> #[trigger] chunks[i].0
            != #[trigger] chunks[j].0
}

pub open spec fn has_id<T>(chunks: Seq<(u128, Seq<T>)>, id: u128) -> bool {
    exists|i: int| 0 <= i < chunks.len() && #[trigger] chunks[i].0 == id
}

/// The position of `id` among the chunks, if it is there.
pub open spec fn position_of<T>(chunks: Seq<(u128, Seq<T>)>, id: u128) -> int {
    choose|i: int| 0 <= i < chunks.len() && #[trigger] chunks[i].0 == id
}

/// The chunks after appending `audio` to the chunk under `id`, which is
/// created at the end when there is none.
pub open spec fn extended<T>(chunks: Seq<(u128, Seq<T>)>, id: u128, audio: Seq<T>) -> Seq<
    (u128, Seq<T>),
> {
    if has_id(chunks, id) {
        let i = position_of(chunks, id);
        chunks.update(i, (id, chunks[i].1 + audio))
    } else {
        chunks.push((id, audio))
    }
}

/// The chunks after keeping only the one under `id`, if there is one.
pub open spec fn kept_only<T>(chunks: Seq<(u128, Seq<T>)>, id: u128) -> Seq<(u128, Seq<T>)> {
    if has_id(chunks, id) {
        seq![chunks[position_of(chunks, id)]]
    } else {
        seq![]
    }
}

/// The state after one chunk of audio heard at clock reading `now`, with
/// `fresh_id` the identifier drawn for a new chunk. Speech is appended to the
/// current chunk and restarts the silence clock. Silent audio is dropped; once
/// the silence has lasted at least the threshold and the current chunk holds
/// audio, the next speech goes into a new chunk under `fresh_id`.
pub open spec fn step<T>(
    s: ChunkStoreView<T>,
    chunk: Seq<T>,
    speech: bool,
    now: u128,
    fresh_id: u128,
) -> ChunkStoreView<T> {
    if speech {
        ChunkStoreView {
            chunks: extended(s.chunks, s.current_id, chunk),
            last_silence_ns: now,
            has_new_audio: true,
            ..s
        }
    } else if nanos_between(s.last_silence_ns, now) >= s.silence_duration_ms as int * 1_000_000
        && has_id(s.chunks, s.current_id) {
        ChunkStoreView { current_id: fresh_id, ..s }
    } else {
        s
    }
}

/// Speech files its audio under the current identifier and restarts the
/// silence clock; a new identifier is taken only after a silence of at least
/// the threshold since that speech: after a speech chunk heard at `t1`, a
/// silent chunk heard at `t2` changes nothing when less than the threshold
/// passed, and switches to `fresh_id` (keeping the chunks) when at least the
/// threshold passed.
pub proof fn lemma_new_chunk_after_silence<T>(
    s: ChunkStoreView<T>,
    spoken: Seq<T>,
    t1: u128,
    id1: u128,
    silent: Seq<T>,
    t2: u128,
    fresh_id: u128,
)
    requires
        ids_unique(s.chunks),
    ensures
        step(s, spoken, true, t1, id1).last_silence_ns == t1,
        step(s, spoken, true, t1, id1).current_id == s.current_id,
        nanos_between(t1, t2) < s.silence_duration_ms as int * 1_000_000 ==> step(
            step(s, spoken, true, t1, id1),
            silent,
            false,
            t2,
            fresh_id,
        ) == step(s, spoken, true, t1, id1),
        nanos_between(t1, t2) >= s.silence_duration_ms as int * 1_000_000 ==> ({
            let a = step(s, spoken, true, t1, id1);
            let b = step(a, silent, false, t2, fresh_id);
            b.current_id == fresh_id && b.chunks == a.chunks
        }),
{
    lemma_extended(s.chunks, s.current_id, spoken);
}

/// One call that changes or reads an `AudioChunkProcessor`, as its effect on
/// the view: a chunk taken with a verdict, clock reading and fresh identifier,
/// after the detector classified a frame when there is one (`process_chunk`)
/// and without (`process_chunk_at`); audio
/// appended to the current chunk (`create_or_extend`); a new silence threshold;
/// all but the current chunk dropped (`clear_current_audio`); or a read that
/// changes nothing (`get_current_audio`, `has_new_audio`, `get_frame_size`).
pub enum StoreOp<T> {
    Process {
        frame: Option<Seq<i16>>,
        chunk: Seq<T>,
        speech: bool,
        now: u128,
        fresh_id: u128,
    },
    Extend { audio: Seq<T> },
    SetThreshold { millis: u64 },
    Clear,
    Read,
}

/// The state after one call.
pub open spec fn apply_op<T>(s: ChunkStoreView<T>, op: StoreOp<T>) -> ChunkStoreView<T> {
    match op {
        StoreOp::Process { frame, chunk, speech, now, fresh_id } => step(
            match frame {
                Some(f) => classified(s, f),
                None => s,
            },
            chunk,
            speech,
            now,
            fresh_id,
        ),
        StoreOp::Extend { audio } => ChunkStoreView {
            chunks: extended(s.chunks, s.current_id, audio),
            has_new_audio: true,
            ..s
        },
        StoreOp::SetThreshold { millis } => ChunkStoreView { silence_duration_ms: millis, ..s },
        StoreOp::Clear => ChunkStoreView { chunks: kept_only(s.chunks, s.current_id), ..s },
        StoreOp::Read => s,
    }
}

/// The state after a sequence of calls, in order.
pub open spec fn apply_ops<T>(s: ChunkStoreView<T>, ops: Seq<StoreOp<T>>) -> ChunkStoreView<T>
    decreases ops.len(),
{
    if ops.len() == 0 {
        s
    } else {
        apply_op(apply_ops(s, ops.drop_last()), ops.last())
    }
}

/// Whether a call gathers audio: appending, or taking a chunk judged speech.
pub open spec fn gathers_audio<T>(op: StoreOp<T>) -> bool {
    match op {
        StoreOp::Process { speech, .. } => speech,
        StoreOp::Extend { .. } => true,
        _ => false,
    }
}

/// Once audio was gathered the flag stays set, and only gathering sets it:
/// after any sequence of calls, `has_new_audio` holds exactly when it held
/// before or some call gathered audio. In particular, from a new processor it
/// holds exactly when some call gathered audio; clearing and reading never
/// reset it.
pub proof fn lemma_has_new_audio<T>(s: ChunkStoreView<T>, ops: Seq<StoreOp<T>>)
    ensures
        apply_ops(s, ops).has_new_audio == (s.has_new_audio || exists|k: int|
            0 <= k < ops.len() && gathers_audio(#[trigger] ops[k])),
    decreases ops.len(),
{
    if ops.len() > 0 {
        let before = ops.drop_last();
        lemma_has_new_audio(s, before);
        let last = ops.len() - 1;
        if exists|k: int| 0 <= k < before.len() && gathers_audio(#[trigger] before[k]) {
            let k = choose|k: int| 0 <= k < before.len() && gathers_audio(#[trigger] before[k]);
            assert(ops[k] == before[k]);
        }
        if exists|k: int| 0 <= k < ops.len() && gathers_audio(#[trigger] ops[k]) {
            let k = choose|k: int| 0 <= k < ops.len() && gathers_audio(#[trigger] ops[k]);
            if k < last {
                assert(before[k] == ops[k]);
            }
        }
        assert(gathers_audio(ops[last]) ==> exists|k: int| 0 <= k < ops.len() && gathers_audio(
            #[trigger] ops[k],
        ));
    }
}

pub open spec fn entries_view<T>(v: Seq<(u128, Vec<T>)>) -> Seq<(u128, Seq<T>)> {
    v.map_values(|e: (u128, Vec<T>)| (e.0, e.1@))
}

proof fn lemma_position<T>(chunks: Seq<(u128, Seq<T>)>, i: int)
    requires
        ids_unique(chunks),
        0 <= i < chunks.len(),
    ensures
        has_id(chunks, chunks[i].0),
        position_of(chunks, chunks[i].0) == i,
{
    let id = chunks[i].0;
    assert(has_id(chunks, id));
    let j = position_of(chunks, id);
    assert(chunks[j].0 == id);
}

/// Appending keeps identifiers unique; the chunk under `id` afterwards is the
/// one before (or nothing) followed by `audio`, and every other chunk is as it was.
pub proof fn lemma_extended<T>(chunks: Seq<(u128, Seq<T>)>, id: u128, audio: Seq<T>)
    requires
        ids_unique(chunks),
    ensures
        ids_unique(extended(chunks, id, audio)),
        has_id(extended(chunks, id, audio), id),
        extended(chunks, id, audio)[position_of(extended(chunks, id, audio), id)].1 == (if has_id(
            chunks,
            id,
        ) {
            chunks[position_of(chunks, id)].1
        } else {
            Seq::<T>::empty()
        }) + audio,
        forall|k: u128|
            k != id ==> (has_id(extended(chunks, id, audio), k) <==> has_id(chunks, k)),
        forall|i: int|
            0 <= i < chunks.len() && chunks[i].0 != id ==> #[trigger] extended(chunks, id, audio)[i]
                == chunks[i],
{
    let e = extended(chunks, id, audio);
    if has_id(chunks, id) {
        let i = position_of(chunks, id);
        assert(e[i].0 == id);
        assert forall|a: int, b: int| 0 <= a < e.len() && 0 <= b < e.len() && a != b implies #[trigger] e[a].0
            != #[trigger] e[b].0 by {
            assert(e[a].0 == chunks[a].0);
            assert(e[b].0 == chunks[b].0);
        }
        lemma_position(e, i);
        assert forall|k: u128| k != id implies (has_id(e, k) <==> has_id(chunks, k)) by {
            if has_id(chunks, k) {
                let j = position_of(chunks, k);
                assert(e[j].0 == k);
            }
            if has_id(e, k) {
                let j = position_of(e, k);
                assert(chunks[j].0 == k);
            }
        }
    } else {
        let i = chunks.len() as int;
        assert(e[i].0 == id);
        assert forall|a: int, b: int| 0 <= a < e.len() && 0 <= b < e.len() && a != b implies #[trigger] e[a].0
            != #[trigger] e[b].0 by {
            if a < i && b < i {
                assert(e[a].0 == chunks[a].0);
                assert(e[b].0 == chunks[b].0);
            } else if a < i {
                assert(e[a].0 == chunks[a].0);
            } else {
                assert(e[b].0 == chunks[b].0);
            }
        }
        lemma_position(e, i);
        assert forall|k: u128| k != id implies (has_id(e, k) <==> has_id(chunks, k)) by {
            if has_id(chunks, k) {
                let j = position_of(chunks, k);
                assert(e[j].0 == k);
            }
            if has_id(e, k) {
                let j = position_of(e, k);
                assert(j < i);
                assert(chunks[j].0 == k);
            }
        }
    }
}

/// After the chunks were handed out, clearing keeps at most one chunk, the
/// one being gathered, with its audio intact.
pub proof fn lemma_kept_only<T>(chunks: Seq<(u128, Seq<T>)>, id: u128)
    requires
        ids_unique(chunks),
    ensures
        ids_unique(kept_only(chunks, id)),
        kept_only(chunks, id).len() <= 1,
        forall|i: int| 0 <= i < kept_only(chunks, id).len() ==> #[trigger] kept_only(chunks, id)[i].0 == id,
        has_id(chunks, id) ==> kept_only(chunks, id) == seq![(id, chunks[position_of(chunks, id)].1)],
{
    if has_id(chunks, id) {
        let i = position_of(chunks, id);
        assert(chunks[i].0 == id);
        assert(chunks[i] == (id, chunks[i].1));
    }
}

/// The gathered chunks, each under its identifier; no identifier occurs twice.
struct ChunkList<T> {
    entries: Vec<(u128, Vec<T>)>,
}

impl<T> ChunkList<T> {
    #[verifier::type_invariant]
    spec fn ids_are_unique(self) -> bool {
        ids_unique(entries_view(self.entries@))
    }

    spec fn spec_chunks(&self) -> Seq<(u128, Seq<T>)> {
        entries_view(self.entries@)
    }
}

impl<T: Copy> ChunkList<T> {
    fn new() -> (c: Self)
        ensures
            c.spec_chunks() == Seq::<(u128, Seq<T>)>::empty(),
    {
        let c = ChunkList { entries: Vec::new() };
        assert(c.spec_chunks() =~= Seq::<(u128, Seq<T>)>::empty());
        c
    }

    /// The position of the chunk under `id`, if there is one.
    fn find(&self, id: u128) -> (r: Option<usize>)
        ensures
            ids_unique(self.spec_chunks()),
            r is Some <==> has_id(self.spec_chunks(), id),
            r matches Some(i) ==> i < self.spec_chunks().len() && i == position_of(
                self.spec_chunks(),
                id,
            ),
    {
        proof {
            use_type_invariant(self);
        }
        let mut i: usize = 0;
        while i < self.entries.len()
            invariant
                i <= self.entries@.len(),
                ids_unique(self.spec_chunks()),
                forall|j: int| 0 <= j < i ==> self.entries@[j].0 != id,
            decreases self.entries@.len() - i,
        {
            if self.entries[i].0 == id {
                proof {
                    lemma_position(self.spec_chunks(), i as int);
                }
                return Some(i);
            }
            i = i + 1;
        }
        assert(!has_id(self.spec_chunks(), id));
        None
    }

    /// Appends copies of `audio` to the chunk under `id`, creating it at the
    /// end when there is none.
    fn extend(&mut self, id: u128, audio: &[T])
        ensures
            final(self).spec_chunks() == extended(old(self).spec_chunks(), id, audio@),
    {
        let ghost c0 = self.spec_chunks();
        let found = self.find(id);
        let mut entries: Vec<(u128, Vec<T>)> = Vec::new();
        std::mem::swap(&mut entries, &mut self.entries);
        assert(entries_view(entries@) == c0);
        match found {
            Some(i) => {
                let (key, mut samples) = entries.remove(i);
                append_copies(&mut samples, audio);
                entries.insert(i, (key, samples));
                assert(entries_view(entries@) =~= c0.update(i as int, (id, c0[i as int].1 + audio@)));
                assert forall|a: int, b: int|
                    0 <= a < entries_view(entries@).len() && 0 <= b < entries_view(entries@).len()
                        && a != b implies #[trigger] entries_view(entries@)[a].0
                    != #[trigger] entries_view(entries@)[b].0 by {
                    assert(entries_view(entries@)[a].0 == c0[a].0);
                    assert(entries_view(entries@)[b].0 == c0[b].0);
                }
            },
            None => {
                let mut samples: Vec<T> = Vec::new();
                append_copies(&mut samples, audio);
                entries.push((id, samples));
                assert(entries_view(entries@) =~= c0.push((id, audio@)));
                proof {
                    lemma_extended(c0, id, audio@);
                }
            },
        }
        self.entries = entries;
    }

    /// Keeps only the chunk under `id`, if there is one.
    fn keep_only(&mut self, id: u128)
        ensures
            final(self).spec_chunks() == kept_only(old(self).spec_chunks(), id),
    {
        let ghost c0 = self.spec_chunks();
        match self.find(id) {
            Some(i) => {
                let mut entries: Vec<(u128, Vec<T>)> = Vec::new();
                std::mem::swap(&mut entries, &mut self.entries);
                assert(entries_view(entries@) == c0);
                let entry = entries.remove(i);
                let mut kept: Vec<(u128, Vec<T>)> = Vec::new();
                kept.push(entry);
                assert(entries_view(kept@) =~= seq![c0[i as int]]);
                proof {
                    lemma_kept_only(c0, id);
                }
                self.entries = kept;
            },
            None => {
                self.entries = Vec::new();
                assert(self.spec_chunks() =~= Seq::<(u128, Seq<T>)>::empty());
            },
        }
    }

    /// Copies of all chunks, each under its identifier.
    fn copy_all(&self) -> (out: Vec<(u128, Vec<T>)>)
        ensures
            entries_view(out@) == self.spec_chunks(),
            ids_unique(self.spec_chunks()),
    {
        proof {
            use_type_invariant(self);
        }
        let mut out: Vec<(u128, Vec<T>)> = Vec::new();
        let mut i: usize = 0;
        while i < self.entries.len()
            invariant
                i <= self.entries@.len(),
                entries_view(out@) == entries_view(self.entries@).take(i as int),
            decreases self.entries@.len() - i,
        {
            let samples = copy_samples(&self.entries[i].1);
            let ghost before = entries_view(out@);
            out.push((self.entries[i].0, samples));
            assert(entries_view(out@) =~= before.push(entries_view(self.entries@)[i as int]));
            assert(entries_view(out@) =~= entries_view(self.entries@).take(i + 1));
            i = i + 1;
        }
        assert(entries_view(self.entries@).take(i as int) =~= entries_view(self.entries@));
        out
    }
}

/// Gathers speech into chunks, each under a random identifier; speech after a
/// long enough silence starts a new chunk.
pub struct AudioChunkProcessor<T> {
    vad: WebRtcVadFacade,
    current_chunk_id: u128,
    output_chunks: ChunkList<T>,
    origin: Instant,
    last_silence_ns: u128,
    silence_duration_ms: u64,
    has_new_audio: bool,
}

impl<T> View for AudioChunkProcessor<T> {
    type V = ChunkStoreView<T>;

    closed spec fn view(&self) -> ChunkStoreView<T> {
        ChunkStoreView {
            chunks: self.output_chunks.spec_chunks(),
            current_id: self.current_chunk_id,
            last_silence_ns: self.last_silence_ns,
            silence_duration_ms: self.silence_duration_ms,
            has_new_audio: self.has_new_audio,
            vad_rate_hz: self.vad.spec_rate_hz(),
            vad_mode_number: self.vad.spec_mode_number(),
            vad_history: self.vad.spec_history(),
        }
    }
}

impl<T: Copy> AudioChunkProcessor<T> {
    /// A processor around `vad` with no chunks, a fresh identifier for the
    /// first chunk, and a silence threshold of one second.
    pub fn new(vad: WebRtcVadFacade) -> (p: Self)
        ensures
            p@.vad_rate_hz == vad.spec_rate_hz(),
            p@.vad_mode_number == vad.spec_mode_number(),
            p@.vad_history == vad.spec_history(),
            p@.chunks == Seq::<(u128, Seq<T>)>::empty(),
            p@.last_silence_ns == 0,
            p@.silence_duration_ms == DEFAULT_SILENCE_DURATION_MS,
            !p@.has_new_audio,
    {
        let p = AudioChunkProcessor {
            vad,
            current_chunk_id: new_chunk_id(),
            output_chunks: ChunkList::new(),
            origin: Instant::now(),
            last_silence_ns: 0,
            silence_duration_ms: DEFAULT_SILENCE_DURATION_MS,
            has_new_audio: false,
        };
        assert(p@.chunks =~= Seq::<(u128, Seq<T>)>::empty());
        p
    }

    /// Appends copies of `audio` to the current chunk, creating it at the end
    /// when there is none, and notes that there is new audio.
    pub fn create_or_extend(&mut self, audio: &[T])
        ensures
            final(self)@ == (ChunkStoreView {
                chunks: extended(old(self)@.chunks, old(self)@.current_id, audio@),
                has_new_audio: true,
                ..old(self)@
            }),
    {
        self.output_chunks.extend(self.current_chunk_id, audio);
        self.has_new_audio = true;
        assert(self@ =~= (ChunkStoreView {
            chunks: extended(old(self)@.chunks, old(self)@.current_id, audio@),
            has_new_audio: true,
            ..old(self)@
        }));
    }

    /// Takes one chunk of audio heard at clock reading `now_ns` (nanoseconds
    /// since the processor was created); `is_speech` is the detector's verdict
    /// and `fresh_id` the identifier to use should a new chunk start.
    pub fn process_chunk_at(
        &mut self,
        audio_chunk: Vec<T>,
        is_speech: bool,
        now_ns: u128,
        fresh_id: u128,
    )
        ensures
            final(self)@ == step(old(self)@, audio_chunk@, is_speech, now_ns, fresh_id),
    {
        if is_speech {
            self.create_or_extend(audio_chunk.as_slice());
            self.last_silence_ns = now_ns;
        } else if waited_at_least(self.last_silence_ns, now_ns, self.silence_duration_ms)
            && self.output_chunks.find(self.current_chunk_id).is_some() {
            self.current_chunk_id = fresh_id;
        }
        assert(self@ =~= step(old(self)@, audio_chunk@, is_speech, now_ns, fresh_id));
    }

    /// Takes one chunk of audio heard now. `speech_frame` is the frame the
    /// detector classifies: the chunk's first 1440 samples as 16-bit samples,
    /// which is 30 ms only when the detector works at 48 kHz, so it must; and
    /// the chunk holds at least that many samples. The detector classifies the
    /// frame, and its verdict, the one `vad_decision` names, is returned; the
    /// chunk is then taken as `process_chunk_at` says, with that verdict and a
    /// reading of the monotonic clock; a random identifier is drawn only when a
    /// new chunk starts.
    pub fn process_chunk(&mut self, audio_chunk: Vec<T>, speech_frame: &[i16]) -> (speech: bool)
        requires
            old(self)@.vad_rate_hz == 48000,
            speech_frame@.len() == 1440,
            audio_chunk@.len() >= speech_frame@.len(),
        ensures
            speech == vad_decision(
                old(self)@.vad_history,
                old(self)@.vad_rate_hz,
                old(self)@.vad_mode_number,
                speech_frame@,
            ),
            exists|now: u128, fresh_id: u128|
                final(self)@ == step(
                    classified(old(self)@, speech_frame@),
                    audio_chunk@,
                    speech,
                    now,
                    fresh_id,
                ),
    {
        let is_speech = match self.vad.is_speech(speech_frame) {
            Ok(verdict) => verdict,
            Err(_) => {
                proof {
                    assert(false);
                }
                false
            },
        };
        assert(self@ =~= classified(old(self)@, speech_frame@));
        let now = self.origin.elapsed().as_nanos();
        let starts_new_chunk = !is_speech && waited_at_least(
            self.last_silence_ns,
            now,
            self.silence_duration_ms,
        ) && self.output_chunks.find(self.current_chunk_id).is_some();
        let fresh_id = if starts_new_chunk {
            new_chunk_id()
        } else {
            self.current_chunk_id
        };
        self.process_chunk_at(audio_chunk, is_speech, now, fresh_id);
        is_speech
    }

    /// Sets the silence threshold, in milliseconds.
    pub fn set_silence_duration_threshold(&mut self, millis: u64)
        ensures
            final(self)@ == (ChunkStoreView { silence_duration_ms: millis, ..old(self)@ }),
    {
        self.silence_duration_ms = millis;
    }

    /// Copies of all chunks, each under its identifier.
    pub fn get_current_audio(&mut self) -> (chunks: Vec<(u128, Vec<T>)>)
        ensures
            final(self)@ == old(self)@,
            entries_view(chunks@) == old(self)@.chunks,
            ids_unique(old(self)@.chunks),
    {
        self.output_chunks.copy_all()
    }

    /// The identifier of the chunk being gathered.
    pub fn current_chunk_id(&self) -> (id: u128)
        ensures
            id == self@.current_id,
    {
        self.current_chunk_id
    }

    /// Whether any audio was ever gathered.
    pub fn has_new_audio(&self) -> (b: bool)
        ensures
            b == self@.has_new_audio,
    {
        self.has_new_audio
    }

    /// Drops every chunk but the current one.
    pub fn clear_current_audio(&mut self)
        ensures
            final(self)@ == (ChunkStoreView {
                chunks: kept_only(old(self)@.chunks, old(self)@.current_id),
                ..old(self)@
            }),
    {
        self.output_chunks.keep_only(self.current_chunk_id);
        assert(self@ =~= (ChunkStoreView {
            chunks: kept_only(old(self)@.chunks, old(self)@.current_id),
            ..old(self)@
        }));
    }

    /// The frame size the detector expects: 30 ms at its sample rate.
    pub fn get_frame_size(&mut self) -> (n: usize)
        ensures
            n == frame_size_at(old(self)@.vad_rate_hz),
            final(self)@ == old(self)@,
    {
        self.vad.calculate_expected_frame_size()
    }
}

} // verus!

use crate::clock::{nanos_between, waited_at_least};
use std::time::Instant;
use vstd::prelude::*;

verus! {

/// How long a silence must last before the speech gathered so far is closed
/// off as one chunk, in milliseconds.
pub const SILENCE_DURATION_MS: u64 = 1000;

/// The frame size the processor is configured with.
pub const FRAME_SIZE: usize = 512;

/// What an `AudioChunkProcessor` holds: the closed chunks, the chunk being
/// gathered, and the clock readings (nanoseconds since the processor was
/// created) that decide when a silence is long enough.
#[verifier::ext_equal]
pub struct ChunkerView<T> {
    pub outputs: Seq<Seq<T>>,
    pub current: Seq<T>,
    pub last_speech_ns: u128,
    pub silence_start_ns: Option<u128>,
    pub silence_duration_ms: u64,
}

/// The state after one chunk of audio, heard at clock reading `now`.
/// Speech is appended and ends any silence. A silent chunk starts the silence
/// clock if it is not running; when the silence has lasted at least the
/// threshold, the chunk gathered so far (if any) is closed off and the silence
/// clock stops. Silent audio is appended too, after that decision.
pub open spec fn step<T>(s: ChunkerView<T>, chunk: Seq<T>, speech: bool, now: u128) -> ChunkerView<T> {
    if speech {
        ChunkerView {
            current: s.current + chunk,
            last_speech_ns: now,
            silence_start_ns: None,
            ..s
        }
    } else {
        let start = match s.silence_start_ns {
            Some(t) => t,
            None => now,
        };
        if nanos_between(start, now) >= s.silence_duration_ms as int * 1_000_000 {
            ChunkerView {
                outputs: if s.current.len() > 0 {
                    s.outputs.push(s.current)
                } else {
                    s.outputs
                },
                current: chunk,
                silence_start_ns: None,
                ..s
            }
        } else {
            ChunkerView { current: s.current + chunk, silence_start_ns: Some(start), ..s }
        }
    }
}

/// Speech stops the silence clock, so a segment is cut only after an
/// uninterrupted run of silent chunks spanning the threshold: after a speech
/// chunk at `t1`, the next silent chunk (at `t2`) starts the clock and, with a
/// threshold above zero, cuts nothing; a further silent chunk at `t3` cuts the
/// segment (speech and first silence included) exactly when at least the
/// threshold passed from `t2` to `t3`.
pub proof fn lemma_silence_run_cuts_segments<T>(
    s: ChunkerView<T>,
    spoken: Seq<T>,
    t1: u128,
    quiet: Seq<T>,
    t2: u128,
    later: Seq<T>,
    t3: u128,
)
    requires
        s.silence_duration_ms > 0,
    ensures
        step(s, spoken, true, t1).silence_start_ns == None::<u128>,
        step(s, spoken, true, t1).current == s.current + spoken,
        step(s, spoken, true, t1).outputs == s.outputs,
        ({
            let b = step(step(s, spoken, true, t1), quiet, false, t2);
            &&& b.outputs == s.outputs
            &&& b.current == s.current + spoken + quiet
            &&& b.silence_start_ns == Some(t2)
        }),
        nanos_between(t2, t3) < s.silence_duration_ms as int * 1_000_000 ==> ({
            let c = step(step(step(s, spoken, true, t1), quiet, false, t2), later, false, t3);
            c.outputs == s.outputs && c.current == s.current + spoken + quiet + later
        }),
        nanos_between(t2, t3) >= s.silence_duration_ms as int * 1_000_000 && (s.current + spoken
            + quiet).len() > 0 ==> ({
            let c = step(step(step(s, spoken, true, t1), quiet, false, t2), later, false, t3);
            c.outputs == s.outputs.push(s.current + spoken + quiet) && c.current == later
        }),
{
    let b = step(step(s, spoken, true, t1), quiet, false, t2);
    assert(b.current =~= s.current + spoken + quiet);
    assert(step(b, later, false, t3).current =~= (if nanos_between(t2, t3)
        >= s.silence_duration_ms as int * 1_000_000 {
        later
    } else {
        s.current + spoken + quiet + later
    }));
}

/// Every closed chunk holds some audio.
pub open spec fn outputs_nonempty<T>(outputs: Seq<Seq<T>>) -> bool {
    forall|i: int| 0 <= i < outputs.len() ==> (#[trigger] outputs[i]).len() > 0
}

/// All audio held, in order: the closed chunks, then the open one.
pub open spec fn held<T>(s: ChunkerView<T>) -> Seq<T> {
    s.outputs.flatten() + s.current
}

/// The chunks `finalize` hands out from state `s`.
pub open spec fn finalized<T>(s: ChunkerView<T>) -> Seq<Seq<T>> {
    if s.current.len() > 0 {
        s.outputs.push(s.current)
    } else {
        s.outputs
    }
}

/// The state after a run of chunks, each with its speech decision and clock reading.
pub open spec fn run<T>(s: ChunkerView<T>, chunks: Seq<(Seq<T>, bool, u128)>) -> ChunkerView<T>
    decreases chunks.len(),
{
    if chunks.len() == 0 {
        s
    } else {
        let (c, speech, now) = chunks.last();
        step(run(s, chunks.drop_last()), c, speech, now)
    }
}

/// The audio of a run of chunks, in order.
pub open spec fn audio_of<T>(chunks: Seq<(Seq<T>, bool, u128)>) -> Seq<T>
    decreases chunks.len(),
{
    if chunks.len() == 0 {
        seq![]
    } else {
        audio_of(chunks.drop_last()) + chunks.last().0
    }
}

/// One chunk neither loses nor reorders audio: afterwards the audio held is
/// the audio held before, followed by the chunk; and no closed chunk is empty.
pub proof fn lemma_step_keeps_audio<T>(s: ChunkerView<T>, chunk: Seq<T>, speech: bool, now: u128)
    requires
        outputs_nonempty(s.outputs),
    ensures
        held(step(s, chunk, speech, now)) == held(s) + chunk,
        outputs_nonempty(step(s, chunk, speech, now).outputs),
{
    broadcast use Seq::lemma_flatten_push;

    let t = step(s, chunk, speech, now);
    if !speech && s.current.len() > 0 && t.outputs.len() > s.outputs.len() {
        assert(t.outputs =~= s.outputs.push(s.current));
    }
    assert(held(t) =~= held(s) + chunk);
}

/// `finalize` hands out exactly the audio held, in order, in non-empty chunks.
pub proof fn lemma_finalize_hands_out_all<T>(s: ChunkerView<T>)
    requires
        outputs_nonempty(s.outputs),
    ensures
        finalized(s).flatten() == held(s),
        outputs_nonempty(finalized(s)),
{
    broadcast use Seq::lemma_flatten_push;

    assert(finalized(s).flatten() =~= held(s));
}

/// Handing out the closed chunks loses nothing and keeps the order: the
/// audio handed out, followed by the audio still held, is all the audio held
/// before.
pub proof fn lemma_hand_out_closed_keeps_audio<T>(s: ChunkerView<T>)
    ensures
        s.outputs.flatten() + held(ChunkerView { outputs: Seq::<Seq<T>>::empty(), ..s }) == held(s),
{
    assert(Seq::<Seq<T>>::empty().flatten() == Seq::<T>::empty());
    assert(Seq::<T>::empty() + s.current =~= s.current);
}

/// Whatever the speech decisions and clock readings, a run of chunks followed
/// by `finalize` hands out all the audio held before and all the audio fed in,
/// in the order it came.
pub proof fn lemma_run_then_finalize<T>(s: ChunkerView<T>, chunks: Seq<(Seq<T>, bool, u128)>)
    requires
        outputs_nonempty(s.outputs),
    ensures
        outputs_nonempty(run(s, chunks).outputs),
        finalized(run(s, chunks)).flatten() == held(s) + audio_of(chunks),
    decreases chunks.len(),
{
    if chunks.len() == 0 {
        lemma_finalize_hands_out_all(s);
        assert(held(s) + audio_of(chunks) =~= held(s));
    } else {
        let prev = chunks.drop_last();
        lemma_run_then_finalize(s, prev);
        let r = run(s, prev);
        lemma_finalize_hands_out_all(r);
        let (c, speech, now) = chunks.last();
        lemma_step_keeps_audio(r, c, speech, now);
        lemma_finalize_hands_out_all(run(s, chunks));
        assert(held(s) + audio_of(chunks) =~= held(s) + audio_of(prev) + c);
    }
}

/// Gathers audio into chunks of speech separated by silences of at least a
/// second.
pub struct AudioChunkProcessor<T> {
    output_chunks: Vec<Vec<T>>,
    current_chunk: Vec<T>,
    origin: Instant,
    last_speech_ns: u128,
    silence_start_ns: Option<u128>,
    silence_duration_ms: u64,
    frame_size: usize,
    sample_rate: u32,
}

impl<T> View for AudioChunkProcessor<T> {
    type V = ChunkerView<T>;

    closed spec fn view(&self) -> ChunkerView<T> {
        ChunkerView {
            outputs: self.output_chunks@.map_values(|c: Vec<T>| c@),
            current: self.current_chunk@,
            last_speech_ns: self.last_speech_ns,
            silence_start_ns: self.silence_start_ns,
            silence_duration_ms: self.silence_duration_ms,
        }
    }
}

impl<T> AudioChunkProcessor<T> {
    /// No closed chunk is empty.
    #[verifier::type_invariant]
    spec fn closed_chunks_nonempty(self) -> bool {
        outputs_nonempty(self@.outputs)
    }

    pub closed spec fn spec_sample_rate(&self) -> u32 {
        self.sample_rate
    }

    /// A processor with nothing gathered, no silence running, and a silence
    /// threshold of one second.
    pub fn new(sample_rate: u32) -> (p: Self)
        ensures
            p@.outputs == Seq::<Seq<T>>::empty(),
            p@.current == Seq::<T>::empty(),
            p@.silence_start_ns == None::<u128>,
            p@.silence_duration_ms == SILENCE_DURATION_MS,
            p.spec_sample_rate() == sample_rate,
    {
        let p = AudioChunkProcessor {
            output_chunks: Vec::new(),
            current_chunk: Vec::new(),
            origin: Instant::now(),
            last_speech_ns: 0,
            silence_start_ns: None,
            silence_duration_ms: SILENCE_DURATION_MS,
            frame_size: FRAME_SIZE,
            sample_rate,
        };
        assert(p@.outputs =~= Seq::<Seq<T>>::empty());
        p
    }

    /// Closes off the open chunk, if it holds audio.
    fn close_current(&mut self)
        ensures
            final(self)@ == (ChunkerView {
                outputs: if old(self)@.current.len() > 0 {
                    old(self)@.outputs.push(old(self)@.current)
                } else {
                    old(self)@.outputs
                },
                current: Seq::<T>::empty(),
                ..old(self)@
            }),
    {
        proof {
            use_type_invariant(&*self);
        }
        if self.current_chunk.len() > 0 {
            let mut closed: Vec<T> = Vec::new();
            std::mem::swap(&mut closed, &mut self.current_chunk);
            let mut outputs: Vec<Vec<T>> = Vec::new();
            std::mem::swap(&mut outputs, &mut self.output_chunks);
            let ghost before = outputs@;
            outputs.push(closed);
            assert(outputs@.map_values(|c: Vec<T>| c@) =~= before.map_values(|c: Vec<T>| c@).push(
                old(self)@.current,
            ));
            self.output_chunks = outputs;
        }
        assert(self@ =~= (ChunkerView {
            outputs: if old(self)@.current.len() > 0 {
                old(self)@.outputs.push(old(self)@.current)
            } else {
                old(self)@.outputs
            },
            current: Seq::<T>::empty(),
            ..old(self)@
        }));
    }

    /// Moves `audio` to the end of the open chunk.
    fn append_to_current(&mut self, audio: &mut Vec<T>)
        ensures
            final(self)@ == (ChunkerView { current: old(self)@.current + old(audio)@, ..old(self)@ }),
            final(audio)@ == Seq::<T>::empty(),
    {
        proof {
            use_type_invariant(&*self);
        }
        let mut current: Vec<T> = Vec::new();
        std::mem::swap(&mut current, &mut self.current_chunk);
        current.append(audio);
        self.current_chunk = current;
        assert(self@ =~= (ChunkerView { current: old(self)@.current + old(audio)@, ..old(self)@ }));
    }

    /// Takes one chunk of audio heard at clock reading `now_ns` (nanoseconds
    /// since the processor was created); `is_speech` tells whether its energy
    /// is above the silence threshold.
    pub fn process_chunk_at(&mut self, audio_chunk: Vec<T>, is_speech: bool, now_ns: u128)
        ensures
            final(self)@ == step(old(self)@, audio_chunk@, is_speech, now_ns),
    {
        proof {
            use_type_invariant(&*self);
        }
        let mut audio_chunk = audio_chunk;
        let ghost chunk = audio_chunk@;
        if is_speech {
            self.last_speech_ns = now_ns;
            self.silence_start_ns = None;
            self.append_to_current(&mut audio_chunk);
        } else {
            let start = match self.silence_start_ns {
                Some(t) => t,
                None => now_ns,
            };
            self.silence_start_ns = Some(start);
            if waited_at_least(start, now_ns, self.silence_duration_ms) {
                self.close_current();
                self.silence_start_ns = None;
            }
            self.append_to_current(&mut audio_chunk);
            assert(self.current_chunk@ =~= (if nanos_between(start, now_ns)
                >= self.silence_duration_ms as int * 1_000_000 {
                chunk
            } else {
                old(self)@.current + chunk
            }));
        }
        assert(self@ =~= step(old(self)@, chunk, is_speech, now_ns));
    }

    /// Takes one chunk of audio heard now; `is_speech` tells whether its energy
    /// is above the silence threshold. The clock reading is taken from the
    /// monotonic clock.
    pub fn process_chunk(&mut self, audio_chunk: Vec<T>, is_speech: bool)
        ensures
            exists|now: u128| final(self)@ == step(old(self)@, audio_chunk@, is_speech, now),
    {
        let now = self.origin.elapsed().as_nanos();
        self.process_chunk_at(audio_chunk, is_speech, now);
    }

    /// Hands out every closed chunk, oldest first, leaving none behind; the
    /// chunk being gathered stays.
    pub fn get_current_audio(&mut self) -> (chunks: Vec<Vec<T>>)
        ensures
            chunks@.map_values(|c: Vec<T>| c@) == old(self)@.outputs,
            outputs_nonempty(old(self)@.outputs),
            final(self)@ == (ChunkerView { outputs: Seq::<Seq<T>>::empty(), ..old(self)@ }),
    {
        proof {
            use_type_invariant(&*self);
        }
        let mut chunks: Vec<Vec<T>> = Vec::new();
        std::mem::swap(&mut chunks, &mut self.output_chunks);
        assert(self@.outputs =~= Seq::<Seq<T>>::empty());
        assert(self@ =~= (ChunkerView { outputs: Seq::<Seq<T>>::empty(), ..old(self)@ }));
        chunks
    }

    /// Closes off the open chunk, if it holds audio, and hands out every closed
    /// chunk, oldest first, leaving none behind.
    pub fn finalize(&mut self) -> (chunks: Vec<Vec<T>>)
        ensures
            chunks@.map_values(|c: Vec<T>| c@) == finalized(old(self)@),
            outputs_nonempty(old(self)@.outputs),
            outputs_nonempty(finalized(old(self)@)),
            final(self)@ == (ChunkerView {
                outputs: Seq::<Seq<T>>::empty(),
                current: Seq::<T>::empty(),
                ..old(self)@
            }),
    {
        proof {
            use_type_invariant(&*self);
            lemma_finalize_hands_out_all(old(self)@);
        }
        self.close_current();
        let mut chunks: Vec<Vec<T>> = Vec::new();
        std::mem::swap(&mut chunks, &mut self.output_chunks);
        assert(self@.outputs =~= Seq::<Seq<T>>::empty());
        assert(self@ =~= (ChunkerView {
            outputs: Seq::<Seq<T>>::empty(),
            current: Seq::<T>::empty(),
            ..old(self)@
        }));
        chunks
    }
}

} // verus!

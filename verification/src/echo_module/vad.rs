use crate::clock::{nanos_between, waited_at_least};
use std::time::Instant;
use vstd::prelude::*;

verus! {

/// How long a silence must last before the speech gathered so far is closed
/// off as one chunk, in milliseconds.
pub const SILENCE_DURATION_MS: u64 = 1000;

/// What an `AudioChunkProcessor` holds: the closed chunks not yet handed out,
/// the chunk being gathered, and the clock reading (nanoseconds since the
/// processor was created) of the last speech.
#[verifier::ext_equal]
pub struct SpeechChunksView<T> {
    pub outputs: Seq<Seq<T>>,
    pub current: Seq<T>,
    pub last_silence_ns: u128,
    pub silence_duration_ms: u64,
}

/// The state after one chunk of audio, heard at clock reading `now`.
/// Speech is appended to the open chunk and restarts the silence clock.
/// Silent audio is dropped; once the silence has lasted at least the
/// threshold, an open chunk that holds audio is closed off.
pub open spec fn step<T>(s: SpeechChunksView<T>, chunk: Seq<T>, speech: bool, now: u128) -> SpeechChunksView<T> {
    if speech {
        SpeechChunksView { current: s.current + chunk, last_silence_ns: now, ..s }
    } else if nanos_between(s.last_silence_ns, now) >= s.silence_duration_ms as int * 1_000_000
        && s.current.len() > 0 {
        SpeechChunksView { outputs: s.outputs.push(s.current), current: seq![], ..s }
    } else {
        s
    }
}

/// Speech restarts the silence clock, and only a long enough silence since
/// the last speech closes the open chunk: after a speech chunk heard at `t1`,
/// a silent chunk heard at `t2` changes nothing when less than the threshold
/// passed from `t1` to `t2`, and closes off the open chunk (with the speech
/// just added) when at least the threshold passed.
pub proof fn lemma_silence_counts_from_last_speech<T>(
    s: SpeechChunksView<T>,
    spoken: Seq<T>,
    t1: u128,
    silent: Seq<T>,
    t2: u128,
)
    ensures
        step(s, spoken, true, t1).last_silence_ns == t1,
        step(s, spoken, true, t1).current == s.current + spoken,
        step(s, spoken, true, t1).outputs == s.outputs,
        nanos_between(t1, t2) < s.silence_duration_ms as int * 1_000_000 ==> step(
            step(s, spoken, true, t1),
            silent,
            false,
            t2,
        ) == step(s, spoken, true, t1),
        nanos_between(t1, t2) >= s.silence_duration_ms as int * 1_000_000 && (s.current
            + spoken).len() > 0 ==> ({
            let b = step(step(s, spoken, true, t1), silent, false, t2);
            b.outputs == s.outputs.push(s.current + spoken) && b.current == Seq::<T>::empty()
        }),
{
}

/// All audio held, in order: the closed chunks, then the open one.
pub open spec fn held<T>(s: SpeechChunksView<T>) -> Seq<T> {
    s.outputs.flatten() + s.current
}

/// One chunk loses no speech and keeps no silence: afterwards the audio held is
/// the audio held before, followed by the chunk if it is speech.
pub proof fn lemma_step_keeps_speech<T>(
    s: SpeechChunksView<T>,
    chunk: Seq<T>,
    speech: bool,
    now: u128,
)
    ensures
        held(step(s, chunk, speech, now)) == held(s) + (if speech {
            chunk
        } else {
            Seq::<T>::empty()
        }),
{
    broadcast use Seq::lemma_flatten_push;

    assert(held(step(s, chunk, speech, now)) =~= held(s) + (if speech {
        chunk
    } else {
        Seq::<T>::empty()
    }));
}

/// The state after a run of chunks, each with its speech decision and clock reading.
pub open spec fn run<T>(s: SpeechChunksView<T>, chunks: Seq<(Seq<T>, bool, u128)>) -> SpeechChunksView<T>
    decreases chunks.len(),
{
    if chunks.len() == 0 {
        s
    } else {
        let (c, speech, now) = chunks.last();
        step(run(s, chunks.drop_last()), c, speech, now)
    }
}

/// The speech of a run of chunks, in order.
pub open spec fn speech_of<T>(chunks: Seq<(Seq<T>, bool, u128)>) -> Seq<T>
    decreases chunks.len(),
{
    if chunks.len() == 0 {
        seq![]
    } else {
        speech_of(chunks.drop_last()) + (if chunks.last().1 {
            chunks.last().0
        } else {
            Seq::<T>::empty()
        })
    }
}

/// Whatever the clock readings, after a run of chunks the audio held is the
/// audio held before followed by all the speech of the run, in order, and
/// nothing of the silent chunks.
pub proof fn lemma_run_keeps_speech<T>(s: SpeechChunksView<T>, chunks: Seq<(Seq<T>, bool, u128)>)
    ensures
        held(run(s, chunks)) == held(s) + speech_of(chunks),
    decreases chunks.len(),
{
    if chunks.len() == 0 {
        assert(held(s) + speech_of(chunks) =~= held(s));
    } else {
        let prev = chunks.drop_last();
        lemma_run_keeps_speech(s, prev);
        let (c, speech, now) = chunks.last();
        lemma_step_keeps_speech(run(s, prev), c, speech, now);
        assert(held(s) + speech_of(chunks) =~= held(s) + speech_of(prev) + (if speech {
            c
        } else {
            Seq::<T>::empty()
        }));
    }
}

/// Gathers speech into chunks separated by silences of at least a second and
/// drops the silent audio.
pub struct AudioChunkProcessor<T> {
    output_chunks: Vec<Vec<T>>,
    current_chunk: Vec<T>,
    origin: Instant,
    last_silence_ns: u128,
    silence_duration_ms: u64,
}

impl<T> View for AudioChunkProcessor<T> {
    type V = SpeechChunksView<T>;

    closed spec fn view(&self) -> SpeechChunksView<T> {
        SpeechChunksView {
            outputs: self.output_chunks@.map_values(|c: Vec<T>| c@),
            current: self.current_chunk@,
            last_silence_ns: self.last_silence_ns,
            silence_duration_ms: self.silence_duration_ms,
        }
    }
}

impl<T> AudioChunkProcessor<T> {
    /// A processor with nothing gathered and a silence threshold of one second.
    pub fn new() -> (p: Self)
        ensures
            p@.outputs == Seq::<Seq<T>>::empty(),
            p@.current == Seq::<T>::empty(),
            p@.last_silence_ns == 0,
            p@.silence_duration_ms == SILENCE_DURATION_MS,
    {
        let p = AudioChunkProcessor {
            output_chunks: Vec::new(),
            current_chunk: Vec::new(),
            origin: Instant::now(),
            last_silence_ns: 0,
            silence_duration_ms: SILENCE_DURATION_MS,
        };
        assert(p@.outputs =~= Seq::<Seq<T>>::empty());
        p
    }

    /// Takes one chunk of audio heard at clock reading `now_ns` (nanoseconds
    /// since the processor was created); `is_speech` tells whether its energy
    /// is above the silence threshold.
    pub fn process_chunk_at(&mut self, audio_chunk: Vec<T>, is_speech: bool, now_ns: u128)
        ensures
            final(self)@ == step(old(self)@, audio_chunk@, is_speech, now_ns),
    {
        let mut audio_chunk = audio_chunk;
        let ghost chunk = audio_chunk@;
        if is_speech {
            self.current_chunk.append(&mut audio_chunk);
            self.last_silence_ns = now_ns;
        } else if waited_at_least(self.last_silence_ns, now_ns, self.silence_duration_ms)
            && self.current_chunk.len() > 0 {
            let mut closed: Vec<T> = Vec::new();
            std::mem::swap(&mut closed, &mut self.current_chunk);
            let ghost before = self.output_chunks@;
            self.output_chunks.push(closed);
            assert(self.output_chunks@.map_values(|c: Vec<T>| c@) =~= before.map_values(
                |c: Vec<T>| c@,
            ).push(old(self)@.current));
        }
        assert(self@ =~= step(old(self)@, chunk, is_speech, now_ns));
    }

    /// Takes one chunk of audio heard now; `is_speech` tells whether its energy
    /// is above the silence threshold. The clock reading is taken from the
    /// monotonic clock.
    pub fn process_chunk(&mut self, audio_chunk: Vec<T>, is_speech: bool)
        ensures
            exists|now: u128| final(self)@ == step(old(self)@, audio_chunk@, is_speech, now),
    {
        let now = self.origin.elapsed().as_nanos();
        self.process_chunk_at(audio_chunk, is_speech, now);
    }

    /// Hands out the closed chunks, oldest first, and forgets them; the open
    /// chunk stays.
    pub fn get_current_audio(&mut self) -> (chunks: Vec<Vec<T>>)
        ensures
            chunks@.map_values(|c: Vec<T>| c@) == old(self)@.outputs,
            final(self)@ == (SpeechChunksView { outputs: Seq::<Seq<T>>::empty(), ..old(self)@ }),
    {
        let mut chunks: Vec<Vec<T>> = Vec::new();
        std::mem::swap(&mut chunks, &mut self.output_chunks);
        assert(self@ =~= (SpeechChunksView { outputs: Seq::<Seq<T>>::empty(), ..old(self)@ }));
        chunks
    }
}

} // verus!

use crate::samples::append_copies;
use vstd::prelude::*;

verus! {

/// What the transcriber reports of one segment: its token ids, its text, and
/// whether the speaker changes after it.
pub struct Segment {
    pub tokens: Vec<i32>,
    pub text: String,
    pub speaker_turn_next: bool,
}

/// The marker written into a transcript where the speaker changes.
pub open spec fn speaker_change_marker() -> Seq<char> {
    "[Speaker Change]"@
}

/// The transcript of a list of segments: each text, followed by the marker
/// where the speaker changes after it.
pub open spec fn transcript_of(segments: Seq<Segment>) -> Seq<char>
    decreases segments.len(),
{
    if segments.len() == 0 {
        seq![]
    } else {
        let s = segments.last();
        transcript_of(segments.drop_last()) + s.text@ + (if s.speaker_turn_next {
            speaker_change_marker()
        } else {
            Seq::<char>::empty()
        })
    }
}

/// One segment's own part of a transcript: its text, then the marker exactly
/// when the speaker changes after it.
pub proof fn lemma_transcript_of_one(s: Segment)
    ensures
        transcript_of(seq![s]) == s.text@ + (if s.speaker_turn_next {
            speaker_change_marker()
        } else {
            Seq::<char>::empty()
        }),
{
    let one = seq![s];
    assert(one.drop_last() =~= Seq::<Segment>::empty());
    assert(transcript_of(Seq::<Segment>::empty()) == Seq::<char>::empty());
    assert(one.last() == s);
    assert(transcript_of(one) == transcript_of(one.drop_last()) + s.text@ + (if s.speaker_turn_next {
        speaker_change_marker()
    } else {
        Seq::<char>::empty()
    }));
    assert(Seq::<char>::empty() + s.text@ =~= s.text@);
}

/// The transcript of two runs of segments is the transcript of the first
/// followed by that of the second: what a segment contributes does not depend
/// on the segments around it.
pub proof fn lemma_transcript_of_concat(a: Seq<Segment>, b: Seq<Segment>)
    ensures
        transcript_of(a + b) == transcript_of(a) + transcript_of(b),
    decreases b.len(),
{
    if b.len() == 0 {
        assert(a + b =~= a);
        assert(transcript_of(a) + transcript_of(b) =~= transcript_of(a));
    } else {
        lemma_transcript_of_concat(a, b.drop_last());
        assert((a + b).drop_last() =~= a + b.drop_last());
        assert((a + b).last() == b.last());
    }
}

/// All token ids of a list of segments, in order.
pub open spec fn tokens_of(segments: Seq<Segment>) -> Seq<i32>
    decreases segments.len(),
{
    if segments.len() == 0 {
        seq![]
    } else {
        tokens_of(segments.drop_last()) + segments.last().tokens@
    }
}

/// The prompt for the next run: the text of the last segment, or the current
/// prompt when there are no segments.
pub open spec fn next_prompt(prompt: Seq<char>, segments: Seq<Segment>) -> Seq<char> {
    if segments.len() == 0 {
        prompt
    } else {
        segments.last().text@
    }
}

/// Writes the transcript of `segments`, adds their token ids to `tokens`, and
/// makes the last segment's text the prompt for the next run.
pub fn assemble_transcript(
    segments: &Vec<Segment>,
    tokens: &mut Vec<i32>,
    initial_prompt: &mut String,
) -> (transcript: String)
    ensures
        transcript@ == transcript_of(segments@),
        final(tokens)@ == old(tokens)@ + tokens_of(segments@),
        final(initial_prompt)@ == next_prompt(old(initial_prompt)@, segments@),
{
    let ghost t0 = tokens@;
    let ghost p0 = initial_prompt@;
    let mut transcript = String::new();
    let mut i: usize = 0;
    assert(segments@.take(0) =~= Seq::<Segment>::empty());
    assert(t0 + tokens_of(segments@.take(0)) =~= t0);
    while i < segments.len()
        invariant
            i <= segments@.len(),
            transcript@ == transcript_of(segments@.take(i as int)),
            tokens@ == t0 + tokens_of(segments@.take(i as int)),
            initial_prompt@ == next_prompt(p0, segments@.take(i as int)),
        decreases segments@.len() - i,
    {
        let segment = &segments[i];
        append_copies(tokens, segment.tokens.as_slice());
        transcript.append(segment.text.as_str());
        if segment.speaker_turn_next {
            transcript.append("[Speaker Change]");
        }
        *initial_prompt = segment.text.clone();
        proof {
            let next = segments@.take(i + 1);
            assert(next.drop_last() =~= segments@.take(i as int));
            assert(next.last() == segments@[i as int]);
            assert(tokens@ =~= t0 + tokens_of(next));
            assert(transcript@ =~= transcript_of(next));
        }
        i = i + 1;
    }
    assert(segments@.take(i as int) =~= segments@);
    transcript
}

} // verus!

use crate::text::{join_strings, joined};
use vstd::prelude::*;

verus! {

/// An error with its message.
pub struct CustomError {
    pub message: String,
}

/// The answer to a transcription: the text of all segments.
pub struct TranscribeResponse {
    pub transcription: String,
}

/// The transcription of a list of segment texts: joined with single spaces.
pub fn response_from_segments(segments: &Vec<String>) -> (r: TranscribeResponse)
    ensures
        r.transcription@ == joined(segments@.map_values(|s: String| s@), " "@),
{
    TranscribeResponse { transcription: join_strings(segments, " ") }
}

} // verus!

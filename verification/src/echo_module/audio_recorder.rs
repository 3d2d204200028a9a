use crate::samples::append_copies;
use vstd::prelude::*;

verus! {

/// The message for a start while a recording runs.
pub open spec fn already_running_message() -> Seq<char> {
    "recorder already running"@
}

/// The message for a stop while no recording runs.
pub open spec fn already_stopped_message() -> Seq<char> {
    "Recording is already stopped."@
}

/// Whether a start request is accepted while `recording` tells whether a
/// recording runs.
pub open spec fn start_accepted(recording: bool) -> bool {
    !recording
}

/// Whether a stop request is accepted while `recording` tells whether a
/// recording runs.
pub open spec fn stop_accepted(recording: bool) -> bool {
    recording
}

/// Whether a recording runs after `requests` (each `true` for a start and
/// `false` for a stop) reached a recorder in state `recording`: every request
/// leaves the state it asks for, accepted or not.
pub open spec fn state_after(recording: bool, requests: Seq<bool>) -> bool {
    if requests.len() == 0 {
        recording
    } else {
        requests.last()
    }
}

/// Whether a start (`true`) or stop (`false`) request is accepted in state
/// `recording`.
pub open spec fn request_accepted(recording: bool, start: bool) -> bool {
    if start {
        start_accepted(recording)
    } else {
        stop_accepted(recording)
    }
}

/// The accepted ones among `requests`, in order, from state `recording`.
pub open spec fn accepted_requests(recording: bool, requests: Seq<bool>) -> Seq<bool>
    decreases requests.len(),
{
    if requests.len() == 0 {
        seq![]
    } else {
        let before = requests.drop_last();
        let earlier = accepted_requests(recording, before);
        if request_accepted(state_after(recording, before), requests.last()) {
            earlier.push(requests.last())
        } else {
            earlier
        }
    }
}

/// Start and stop alternate: from a recorder that is not recording, whatever
/// requests arrive, the accepted ones are a start, a stop, a start, and so on;
/// and a recording runs exactly when an odd number of them were accepted.
pub proof fn lemma_accepted_requests_alternate(requests: Seq<bool>)
    ensures
        forall|k: int|
            0 <= k < accepted_requests(false, requests).len() ==> #[trigger] accepted_requests(
                false,
                requests,
            )[k] == (k % 2 == 0),
        state_after(false, requests) == (accepted_requests(false, requests).len() % 2 == 1),
    decreases requests.len(),
{
    if requests.len() > 0 {
        lemma_accepted_requests_alternate(requests.drop_last());
    }
}

/// Whether a recording runs; decides what `start` and `stop` requests do.
pub struct AudioRecorder {
    recording: bool,
}

impl AudioRecorder {
    pub closed spec fn is_recording_spec(&self) -> bool {
        self.recording
    }

    /// No recording runs.
    pub fn new() -> (r: Self)
        ensures
            !r.is_recording_spec(),
    {
        AudioRecorder { recording: false }
    }

    /// Whether a recording runs.
    pub fn is_recording(&self) -> (b: bool)
        ensures
            b == self.is_recording_spec(),
    {
        self.recording
    }

    /// A start request: refused with "recorder already running" while a
    /// recording runs; otherwise the recording counts as running from now on
    /// and the caller starts it.
    pub fn start(&mut self) -> (r: Result<(), String>)
        ensures
            r is Ok <==> start_accepted(old(self).is_recording_spec()),
            r matches Err(e) ==> e@ == already_running_message(),
            final(self).is_recording_spec(),
    {
        if self.recording {
            return Err(String::from_str("recorder already running"));
        }
        self.recording = true;
        Ok(())
    }

    /// A stop request: refused with "Recording is already stopped." while no
    /// recording runs; otherwise the recording counts as stopped from now on,
    /// and the recording loop ends at its next turn.
    pub fn stop(&mut self) -> (r: Result<(), String>)
        ensures
            r is Ok <==> stop_accepted(old(self).is_recording_spec()),
            r matches Err(e) ==> e@ == already_stopped_message(),
            !final(self).is_recording_spec(),
    {
        if !self.recording {
            return Err(String::from_str("Recording is already stopped."));
        }
        self.recording = false;
        Ok(())
    }

    /// Gathers incoming audio in `buffer`; once it holds at least a frame, all
    /// of it is handed out for processing and the buffer starts empty again.
    pub fn buffer_audio<T: Copy>(buffer: &mut Vec<T>, audio_data: &[T], frame_size: usize) -> (frame: Option<Vec<T>>)
        ensures
            old(buffer)@.len() + audio_data@.len() >= frame_size ==> (frame matches Some(f) && f@
                == old(buffer)@ + audio_data@ && final(buffer)@ == Seq::<T>::empty()),
            old(buffer)@.len() + audio_data@.len() < frame_size ==> (frame is None
                && final(buffer)@ == old(buffer)@ + audio_data@),
    {
        append_copies(buffer, audio_data);
        if buffer.len() >= frame_size {
            let mut frame: Vec<T> = Vec::new();
            std::mem::swap(&mut frame, buffer);
            Some(frame)
        } else {
            None
        }
    }

    /// Whether the gathered chunks go out for transcription now: only when no
    /// transcription runs and audio was gathered.
    pub fn should_dispatch(transcribing: bool, has_new_audio: bool) -> (b: bool)
        ensures
            b == (!transcribing && has_new_audio),
    {
        !transcribing && has_new_audio
    }
}

} // verus!

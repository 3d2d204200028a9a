use vstd::prelude::*;

verus! {

/// Whether a recording runs; decides what `start` and `stop` requests do.
pub struct AudioRecorder {
    recording: bool,
}

impl AudioRecorder {
    pub closed spec fn is_recording_spec(&self) -> bool {
        self.recording
    }

    /// No recording runs.
    pub fn new() -> (r: Self)
        ensures
            !r.is_recording_spec(),
    {
        AudioRecorder { recording: false }
    }

    /// Whether a recording runs.
    pub fn is_recording(&self) -> (b: bool)
        ensures
            b == self.is_recording_spec(),
    {
        self.recording
    }

    /// A start request. Returns whether the caller must start the recording
    /// task: only when none runs. Either way a recording runs afterwards.
    pub fn start(&mut self) -> (spawn: bool)
        ensures
            spawn == !old(self).is_recording_spec(),
            final(self).is_recording_spec(),
    {
        if self.recording {
            return false;
        }
        self.recording = true;
        true
    }

    /// A stop request. Returns whether a recording was running; either way
    /// none runs afterwards, and the recording loop ends at its next turn.
    pub fn stop(&mut self) -> (was_running: bool)
        ensures
            was_running == old(self).is_recording_spec(),
            !final(self).is_recording_spec(),
    {
        if !self.recording {
            return false;
        }
        self.recording = false;
        true
    }
}

} // verus!

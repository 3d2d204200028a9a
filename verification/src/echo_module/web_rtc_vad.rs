use crate::echo_module::detector::{
    frame_length_valid, frame_size_at, sample_rate_from_hz, supported_rate, vad_decision, Detector,
    KnownRate,
};
use crate::text::{decimal, decimal_string};
use vstd::prelude::*;
use webrtc_vad::VadMode;

verus! {

/// The message given for a frame of `len` samples when `expected` were due.
pub open spec fn frame_size_message(expected: nat, len: nat) -> Seq<char> {
    "Invalid frame size. Expected "@ + decimal(expected) + ", got "@ + decimal(len)
}

/// A simplified facade for the webrtc-vad detector: frames of 30 ms at the
/// facade's sample rate, and errors as messages.
pub struct WebRtcVadFacade {
    vad: Detector,
    sample_rate: KnownRate,
}

impl WebRtcVadFacade {
    /// The sample rate, in Hz, the detector was set to.
    pub closed spec fn spec_rate_hz(&self) -> int {
        self.vad.spec_rate()
    }

    /// The mode the detector was last set to.
    pub closed spec fn spec_mode(&self) -> Option<VadMode> {
        self.vad.spec_mode()
    }

    /// The number of the detector's mode (0 for `Quality` up to 3).
    pub closed spec fn spec_mode_number(&self) -> int {
        self.vad.spec_mode_number()
    }

    /// The frames the detector classified, each with its rate and mode number.
    pub closed spec fn spec_history(&self) -> Seq<(int, int, Seq<i16>)> {
        self.vad.spec_history()
    }

    /// A detector set to `sample_rate` Hz and `mode`; fails with "Invalid
    /// sample rate" unless the rate is 8000, 16000, 32000 or 48000 Hz.
    pub fn new(sample_rate: i32, mode: VadMode) -> (r: Result<Self, String>)
        ensures
            r is Ok <==> supported_rate(sample_rate as int),
            r matches Ok(f) ==> f.spec_rate_hz() == sample_rate && f.spec_mode() == Some(mode)
                && f.spec_history() == Seq::<(int, int, Seq<i16>)>::empty(),
            r matches Err(e) ==> e@ == "Invalid sample rate"@,
    {
        let sample_rate_enum = sample_rate_from_hz(sample_rate)?;
        let mut vad = Detector::new();
        vad.set_sample_rate(sample_rate_enum);
        vad.set_mode(mode);
        let sample_rate_again = sample_rate_from_hz(sample_rate)?;
        Ok(WebRtcVadFacade { vad, sample_rate: sample_rate_again })
    }

    /// Classifies one frame of 16-bit samples. A frame whose length is not the
    /// expected frame size (30 ms at the detector's rate) is refused, without
    /// consulting the detector, with a message that gives both lengths. A frame
    /// of that size is handed to the detector, which always classifies it: the
    /// verdict is the one `vad_decision` names, and the frame joins what the
    /// detector classified.
    pub fn is_speech(&mut self, frame: &[i16]) -> (r: Result<bool, String>)
        ensures
            frame@.len() != frame_size_at(old(self).spec_rate_hz()) ==> (r matches Err(e)
                && e@ == frame_size_message(
                frame_size_at(old(self).spec_rate_hz()) as nat,
                frame@.len(),
            ) && *final(self) == *old(self)),
            frame@.len() == frame_size_at(old(self).spec_rate_hz()) ==> (r == Ok::<bool, String>(
                vad_decision(
                    old(self).spec_history(),
                    old(self).spec_rate_hz(),
                    old(self).spec_mode_number(),
                    frame@,
                ),
            ) && final(self).spec_history() == old(self).spec_history().push(
                (old(self).spec_rate_hz(), old(self).spec_mode_number(), frame@),
            )),
            final(self).spec_rate_hz() == old(self).spec_rate_hz(),
            final(self).spec_mode() == old(self).spec_mode(),
            final(self).spec_mode_number() == old(self).spec_mode_number(),
    {
        let expected_frame_size = self.calculate_expected_frame_size();
        if frame.len() != expected_frame_size {
            let mut msg = String::from_str("Invalid frame size. Expected ");
            let expected = decimal_string(expected_frame_size);
            msg.append(expected.as_str());
            msg.append(", got ");
            let got = decimal_string(frame.len());
            msg.append(got.as_str());
            return Err(msg);
        }
        proof {
            let hz = self.spec_rate_hz();
            assert(frame_length_valid(frame_size_at(hz), hz) && frame_size_at(hz) > 0);
        }
        match self.vad.is_voice_segment(frame) {
            Ok(is_speech) => Ok(is_speech),
            Err(()) => Err(String::from_str("Invalid frame length")),
        }
    }

    /// The frame size the facade expects: 30 ms at its sample rate (240, 480,
    /// 960 or 1440 samples at 8, 16, 32 or 48 kHz).
    pub fn calculate_expected_frame_size(&self) -> (n: usize)
        ensures
            n == frame_size_at(self.spec_rate_hz()),
            supported_rate(self.spec_rate_hz()),
    {
        self.vad.frame_size()
    }

    /// Sets the aggressiveness mode of the detector.
    pub fn set_mode(&mut self, mode: VadMode)
        ensures
            final(self).spec_mode() == Some(mode),
            0 <= final(self).spec_mode_number() <= 3,
            final(self).spec_rate_hz() == old(self).spec_rate_hz(),
            final(self).spec_history() == old(self).spec_history(),
    {
        self.vad.set_mode(mode);
    }
}

} // verus!

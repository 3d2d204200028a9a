use vstd::prelude::*;
use webrtc_vad::{SampleRate, Vad, VadMode};

verus! {

/// A voice activity detector of the webrtc-vad crate; its state is opaque.
#[verifier::external_type_specification]
#[verifier::external_body]
pub struct ExVad(Vad);

/// The aggressiveness modes of the webrtc-vad crate.
#[verifier::external_type_specification]
#[verifier::external_body]
pub struct ExVadMode(VadMode);

/// The sample rates the webrtc-vad crate accepts.
#[verifier::external_type_specification]
#[verifier::external_body]
pub struct ExSampleRate(SampleRate);

/// The sample rates, in Hz, that the detector accepts.
pub open spec fn supported_rate(hz: int) -> bool {
    hz == 8000 || hz == 16000 || hz == 32000 || hz == 48000
}

/// Whether a frame of `len` samples lasts 10, 20 or 30 ms at `rate_hz`: the
/// frames the detector classifies.
pub open spec fn frame_length_valid(len: int, rate_hz: int) -> bool {
    let per_ms = rate_hz / 1000;
    len == 10 * per_ms || len == 20 * per_ms || len == 30 * per_ms
}

/// The frame length, in samples, of 30 ms at `rate_hz`.
pub open spec fn frame_size_at(rate_hz: int) -> int {
    rate_hz * 30 / 1000
}

/// The verdict libfvad gives on `frame` at `rate_hz` in mode number `mode`
/// (0 for `Quality` up to 3 for `VeryAggressive`), from a detector that has
/// classified `history` since it was created: `fvad_process` is a function of
/// these alone.
pub uninterp spec fn vad_decision(
    history: Seq<(int, int, Seq<i16>)>,
    rate_hz: int,
    mode: int,
    frame: Seq<i16>,
) -> bool;

/// A sample rate of the webrtc-vad crate together with its value in Hz.
pub struct KnownRate {
    rate: SampleRate,
    hz: i32,
}

impl KnownRate {
    /// The rate in Hz.
    pub closed spec fn spec_hz(&self) -> int {
        self.hz as int
    }
}

/// `<SampleRate as TryFrom<i32>>::try_from`: succeeds exactly for 8000, 16000,
/// 32000 and 48000 Hz, giving the rate of that many Hz, and fails otherwise
/// with the message "Invalid sample rate", here turned into a `String`.
#[verifier::external_body]
pub fn sample_rate_from_hz(hz: i32) -> (r: Result<KnownRate, String>)
    ensures
        r is Ok <==> supported_rate(hz as int),
        r matches Ok(k) ==> k.spec_hz() == hz,
        r matches Err(e) ==> e@ == "Invalid sample rate"@,
{
    match SampleRate::try_from(hz) {
        Ok(rate) => Ok(KnownRate { rate, hz }),
        Err(e) => Err(e.to_string()),
    }
}

/// A sample rate the detector accepts.
struct SupportedRate {
    hz: i32,
}

impl SupportedRate {
    #[verifier::type_invariant]
    spec fn is_supported(self) -> bool {
        supported_rate(self.hz as int)
    }
}

/// The detector of the webrtc-vad crate, with the rate and mode it was last
/// set to and the frames it classified. Only the methods below, which make the
/// calls into the crate, change the detector or what is recorded of it.
pub struct Detector {
    vad: Vad,
    rate: SupportedRate,
    mode: Ghost<Option<VadMode>>,
    mode_number: Ghost<int>,
    history: Ghost<Seq<(int, int, Seq<i16>)>>,
}

impl Detector {
    /// The sample rate, in Hz, the detector works at.
    pub closed spec fn spec_rate(&self) -> int {
        self.rate.hz as int
    }

    /// The mode the detector was last set to; `None` while it has the mode
    /// `Vad::new` gives it (`Quality`).
    pub closed spec fn spec_mode(&self) -> Option<VadMode> {
        self.mode@
    }

    /// The number of the mode the detector has: 0 for `Quality`, 1 for
    /// `LowBitrate`, 2 for `Aggressive`, 3 for `VeryAggressive`.
    pub closed spec fn spec_mode_number(&self) -> int {
        self.mode_number@
    }

    /// The frames the detector classified since it was created, in order.
    pub closed spec fn spec_history(&self) -> Seq<(int, int, Seq<i16>)> {
        self.history@
    }

    /// `Vad::new`: a fresh detector at 8000 Hz in its default mode, `Quality`
    /// (number 0), that has classified nothing (the crate's documentation and
    /// source say so). It panics only when allocation fails.
    #[verifier::external_body]
    pub fn new() -> (d: Self)
        ensures
            d.spec_rate() == 8000,
            d.spec_mode() == None::<VadMode>,
            d.spec_mode_number() == 0,
            d.spec_history() == Seq::<(int, int, Seq<i16>)>::empty(),
    {
        Detector {
            vad: Vad::new(),
            rate: SupportedRate { hz: 8000 },
            mode: Ghost(None),
            mode_number: Ghost(0),
            history: Ghost(Seq::empty()),
        }
    }

    /// `Vad::set_sample_rate`: the detector works at `rate` from now on; its
    /// mode stays. The crate's assertion holds for every `SampleRate`.
    #[verifier::external_body]
    pub fn set_sample_rate(&mut self, rate: KnownRate)
        requires
            supported_rate(rate.spec_hz()),
        ensures
            final(self).spec_rate() == rate.spec_hz(),
            final(self).spec_mode() == old(self).spec_mode(),
            final(self).spec_mode_number() == old(self).spec_mode_number(),
            final(self).spec_history() == old(self).spec_history(),
    {
        self.vad.set_sample_rate(rate.rate);
        self.rate = SupportedRate { hz: rate.hz };
    }

    /// `Vad::set_mode`: the detector has `mode` from now on, and its number is
    /// recorded; its rate and what it classified stay. The crate's assertion
    /// holds for every `VadMode`.
    #[verifier::external_body]
    pub fn set_mode(&mut self, mode: VadMode)
        ensures
            final(self).spec_mode() == Some(mode),
            0 <= final(self).spec_mode_number() <= 3,
            final(self).spec_rate() == old(self).spec_rate(),
            final(self).spec_history() == old(self).spec_history(),
    {
        let number: i32 = match &mode {
            VadMode::Quality => 0,
            VadMode::LowBitrate => 1,
            VadMode::Aggressive => 2,
            VadMode::VeryAggressive => 3,
        };
        let recorded: Ghost<Option<VadMode>> = Ghost(Some(mode));
        self.vad.set_mode(mode);
        self.mode = recorded;
        self.mode_number = Ghost(number as int);
    }

    /// `Vad::is_voice_segment`: classifies one frame. It reads the first
    /// sample, so the frame must not be empty. It succeeds exactly when the
    /// frame lasts 10, 20 or 30 ms at the detector's rate (libfvad's
    /// `fvad_process`), with the verdict `vad_decision` names for what the
    /// detector classified before, its rate, its mode and the frame; the frame
    /// then joins what it classified. A refused frame changes nothing.
    #[verifier::external_body]
    pub fn is_voice_segment(&mut self, buffer: &[i16]) -> (r: Result<bool, ()>)
        requires
            buffer@.len() > 0,
        ensures
            r is Ok <==> frame_length_valid(buffer@.len() as int, old(self).spec_rate()),
            r matches Ok(v) ==> v == vad_decision(
                old(self).spec_history(),
                old(self).spec_rate(),
                old(self).spec_mode_number(),
                buffer@,
            ),
            r is Ok ==> final(self).spec_history() == old(self).spec_history().push(
                (old(self).spec_rate(), old(self).spec_mode_number(), buffer@),
            ),
            r is Err ==> final(self).spec_history() == old(self).spec_history(),
            final(self).spec_rate() == old(self).spec_rate(),
            final(self).spec_mode() == old(self).spec_mode(),
            final(self).spec_mode_number() == old(self).spec_mode_number(),
    {
        let r = self.vad.is_voice_segment(buffer);
        if r.is_ok() {
            self.history = Ghost(self.history@.push((self.rate.hz as int, self.mode_number@, buffer@)));
        }
        r
    }

    /// The frame of 30 ms at the detector's rate, in samples.
    pub fn frame_size(&self) -> (n: usize)
        ensures
            n == frame_size_at(self.spec_rate()),
            supported_rate(self.spec_rate()),
    {
        proof {
            use_type_invariant(&self.rate);
        }
        let hz = self.rate.hz as usize;
        hz * 30 / 1000
    }
}

} // verus!

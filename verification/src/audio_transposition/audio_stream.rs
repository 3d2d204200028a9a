use crate::samples::append_copies;
use crate::text::{contains_seq, text_contains};
use vstd::prelude::*;

verus! {

/// Audio is sent on once more than this many samples are gathered: five
/// seconds at 48 kHz.
pub const BLOCK_SAMPLES: usize = 48000 * 5;

/// Gathers the samples of one capture period into `buf`. Once the buffer holds
/// more than `BLOCK_SAMPLES` samples, all of them are handed out as one block
/// and the buffer starts empty again.
pub fn collect_block<T: Copy>(buf: &mut Vec<T>, input: &[T]) -> (block: Option<Vec<T>>)
    ensures
        old(buf)@.len() + input@.len() > BLOCK_SAMPLES ==> (block matches Some(b) && b@
            == old(buf)@ + input@ && final(buf)@ == Seq::<T>::empty()),
        old(buf)@.len() + input@.len() <= BLOCK_SAMPLES ==> (block is None && final(buf)@
            == old(buf)@ + input@),
{
    append_copies(buf, input);
    if buf.len() > BLOCK_SAMPLES {
        let mut block: Vec<T> = Vec::new();
        std::mem::swap(&mut block, buf);
        Some(block)
    } else {
        None
    }
}

/// How many of the most recent samples are kept as context for the next
/// transcription.
pub const RECENT_SAMPLES: usize = 6000;

/// Keeps only the last `RECENT_SAMPLES` samples of `buf`, when it holds more.
pub fn trim_to_recent<T: Copy>(buf: &mut Vec<T>)
    ensures
        old(buf)@.len() > RECENT_SAMPLES ==> final(buf)@ == old(buf)@.subrange(
            old(buf)@.len() - RECENT_SAMPLES,
            old(buf)@.len() as int,
        ),
        old(buf)@.len() <= RECENT_SAMPLES ==> final(buf)@ == old(buf)@,
{
    let len = buf.len();
    if len > RECENT_SAMPLES {
        let mut recent: Vec<T> = Vec::new();
        let mut i: usize = len - RECENT_SAMPLES;
        while i < len
            invariant
                len == buf@.len(),
                len > RECENT_SAMPLES,
                len - RECENT_SAMPLES <= i <= len,
                recent@ == buf@.subrange(len - RECENT_SAMPLES, i as int),
            decreases len - i,
        {
            recent.push(buf[i]);
            assert(buf@.subrange(len - RECENT_SAMPLES, i + 1) =~= buf@.subrange(
                len - RECENT_SAMPLES,
                i as int,
            ).push(buf@[i as int]));
            i = i + 1;
        }
        *buf = recent;
    }
}

/// Whether the capture connects to the port named `port`: every port but
/// those whose name contains "input".
pub fn should_connect(port: &str) -> (b: bool)
    ensures
        b == !contains_seq(port@, "input"@),
{
    !text_contains(port, "input")
}

/// How the channels of a WAV file become mono audio.
#[derive(Clone, Copy, Debug, PartialEq, Eq, Structural)]
pub enum ChannelLayout {
    /// One channel: taken as it is.
    Mono,
    /// Two channels: mixed down to one.
    Stereo,
}

/// The layout of a WAV file with `channels` channels: one or two are
/// accepted; more (or none) are refused with ">2 channels unsupported".
pub fn channel_layout(channels: u16) -> (r: Result<ChannelLayout, String>)
    ensures
        channels == 1 ==> r == Ok::<ChannelLayout, String>(ChannelLayout::Mono),
        channels == 2 ==> r == Ok::<ChannelLayout, String>(ChannelLayout::Stereo),
        channels != 1 && channels != 2 ==> (r matches Err(e) && e@ == ">2 channels unsupported"@),
{
    if channels == 2 {
        Ok(ChannelLayout::Stereo)
    } else if channels != 1 {
        Err(String::from_str(">2 channels unsupported"))
    } else {
        Ok(ChannelLayout::Mono)
    }
}

/// Transcription takes 16 kHz audio: any other sample rate is refused with
/// "sample rate must be 16KHz".
pub fn check_sample_rate(sample_rate: u32) -> (r: Result<(), String>)
    ensures
        r is Ok <==> sample_rate == 16000,
        r matches Err(e) ==> e@ == "sample rate must be 16KHz"@,
{
    if sample_rate != 16000 {
        return Err(String::from_str("sample rate must be 16KHz"));
    }
    Ok(())
}

} // verus!

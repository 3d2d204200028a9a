use echo::echo_module::audio_manager::AudioChunkProcessor as IdChunkProcessor;
use echo::echo_module::audio_recorder::AudioRecorder;
use echo::echo_module::audio_transcription_controller::response_from_segments;
use echo::echo_module::util::Timer as NamedTimer;
use echo::echo_module::vad::AudioChunkProcessor as SpeechChunkProcessor;
use echo::echo_module::web_rtc_vad::WebRtcVadFacade;
use echo::jack_wrapper::audio_recorder::AudioRecorder as FlagRecorder;
use echo::jack_wrapper::vad::AudioChunkProcessor as Segmenter;
use echo::timer::Timer;
use echo::audio_transposition::audio_stream::{
    channel_layout, check_sample_rate, collect_block, should_connect, trim_to_recent, ChannelLayout, BLOCK_SAMPLES,
    RECENT_SAMPLES,
};
use echo::audio_transposition::model::{assemble_transcript, Segment};
use webrtc_vad::VadMode;

const SECOND: u128 = 1_000_000_000;

#[test]
fn timers_measure() {
    let mut t = Timer::new();
    t.reset();
    let _ = t.elapsed();
    let named = NamedTimer::new("loop".to_string());
    assert_eq!(named.name(), "loop");
    let _ = named.elapsed();
}

#[test]
fn speech_chunks_close_after_a_second_of_silence() {
    let mut p: SpeechChunkProcessor<i32> = SpeechChunkProcessor::new();
    p.process_chunk_at(vec![1, 2], true, 0);
    p.process_chunk_at(vec![0, 0], false, SECOND / 2);
    assert!(p.get_current_audio().is_empty());
    p.process_chunk_at(vec![3], true, SECOND / 2);
    p.process_chunk_at(vec![0], false, SECOND / 2 + SECOND);
    assert_eq!(p.get_current_audio(), vec![vec![1, 2, 3]]);
    assert!(p.get_current_audio().is_empty());
}

#[test]
fn speech_chunks_silence_without_speech_closes_nothing() {
    let mut p: SpeechChunkProcessor<i32> = SpeechChunkProcessor::new();
    p.process_chunk_at(vec![0], false, 5 * SECOND);
    assert!(p.get_current_audio().is_empty());
    p.process_chunk(vec![4, 5], true);
    p.process_chunk(vec![0], false);
}

#[test]
fn segmenter_keeps_all_audio() {
    let mut p: Segmenter<i32> = Segmenter::new(16000);
    p.process_chunk_at(vec![1, 2], true, 0);
    p.process_chunk_at(vec![0], false, SECOND);
    p.process_chunk_at(vec![0], false, SECOND + SECOND / 2);
    p.process_chunk_at(vec![9], false, 2 * SECOND);
    p.process_chunk_at(vec![7], true, 3 * SECOND);
    assert_eq!(p.finalize(), vec![vec![1, 2, 0, 0], vec![9, 7]]);
    assert!(p.finalize().is_empty());
}

#[test]
fn segmenter_first_silent_chunk_starts_the_clock() {
    let mut p: Segmenter<i32> = Segmenter::new(48000);
    p.process_chunk_at(vec![1], true, 0);
    // The silence clock starts here, so nothing closes at once.
    p.process_chunk_at(vec![0], false, 10 * SECOND);
    p.process_chunk_at(vec![0], false, 11 * SECOND);
    assert_eq!(p.finalize(), vec![vec![1, 0], vec![0]]);
    p.process_chunk(vec![5], true);
    assert_eq!(p.finalize(), vec![vec![5]]);
}

#[test]
fn vad_facade_rejects_unsupported_rates() {
    match WebRtcVadFacade::new(44100, VadMode::Quality) {
        Err(e) => assert_eq!(e, "Invalid sample rate"),
        Ok(_) => panic!("44100 Hz must be refused"),
    }
    for rate in [8000, 16000, 32000, 48000] {
        assert!(WebRtcVadFacade::new(rate, VadMode::Aggressive).is_ok());
    }
}

#[test]
fn vad_facade_checks_the_frame_size() {
    let mut vad = WebRtcVadFacade::new(48000, VadMode::Quality).unwrap();
    assert_eq!(vad.calculate_expected_frame_size(), 1440);
    let err = vad.is_speech(&vec![0i16; 1441]).unwrap_err();
    assert_eq!(err, "Invalid frame size. Expected 1440, got 1441");
    assert_eq!(vad.is_speech(&vec![0i16; 1440]), Ok(false));
    vad.set_mode(VadMode::VeryAggressive);
    assert!(vad.is_speech(&vec![0i16; 1440]).is_ok());
}

/// The detector takes 16-bit samples; floating-point audio in [-1, 1] is
/// scaled to that range and clipped, as the audio pipeline does.
fn float_to_i16(input: &[f32]) -> Vec<i16> {
    input.iter().map(|x| (x * 32767.0).clamp(-32768.0, 32767.0) as i16).collect()
}

#[test]
fn test_vad_facade() {
    let sample_rate = 16000;
    let mode = VadMode::Quality;
    let mut vad_facade = WebRtcVadFacade::new(sample_rate, mode).unwrap();

    let frame_size = vad_facade.calculate_expected_frame_size();
    let mut frame = vec![0f32; frame_size];

    // Simulate some speech (a simple sine wave)
    for i in 0..frame_size {
        frame[i] = (i as f32 * 2.0 * std::f32::consts::PI * 440.0 / sample_rate as f32).sin() * 1000.0;
    }

    let result = vad_facade.is_speech(&float_to_i16(&frame)).unwrap();

    // A sine wave need not count as speech; the call must succeed either way.
    assert!(result || !result);

    // Test invalid frame size.
    let invalid_frame = vec![0f32; frame_size + 1];
    let invalid_result = vad_facade.is_speech(&float_to_i16(&invalid_frame));
    assert!(invalid_result.is_err());
}

#[test]
fn vad_facade_frame_is_thirty_milliseconds_at_its_rate() {
    for (rate, size) in [(8000, 240usize), (16000, 480), (32000, 960), (48000, 1440)] {
        let mut vad = WebRtcVadFacade::new(rate, VadMode::Quality).unwrap();
        assert_eq!(vad.calculate_expected_frame_size(), size);
        assert_eq!(vad.is_speech(&vec![0i16; size]), Ok(false));
        let err = vad.is_speech(&vec![0i16; size - 1]).unwrap_err();
        assert_eq!(err, format!("Invalid frame size. Expected {}, got {}", size, size - 1));
    }
}

fn id_processor() -> IdChunkProcessor<i32> {
    IdChunkProcessor::new(WebRtcVadFacade::new(48000, VadMode::Quality).unwrap())
}

#[test]
fn id_chunks_gather_speech_under_one_identifier() {
    let mut p = id_processor();
    assert!(!p.has_new_audio());
    assert_eq!(p.get_frame_size(), 1440);
    p.process_chunk_at(vec![1, 2], true, 0, 77);
    p.process_chunk_at(vec![0], false, SECOND / 2, 77);
    p.process_chunk_at(vec![3], true, SECOND / 2, 77);
    assert!(p.has_new_audio());
    let chunks = p.get_current_audio();
    assert_eq!(chunks.len(), 1);
    assert_eq!(chunks[0].1, vec![1, 2, 3]);
}

#[test]
fn id_chunks_start_anew_after_silence() {
    let mut p = id_processor();
    p.process_chunk_at(vec![1], true, 0, 10);
    p.process_chunk_at(vec![0], false, 2 * SECOND, 42);
    let first = p.get_current_audio()[0].0;
    // The current identifier is no longer among the chunks: no new one is drawn.
    p.process_chunk_at(vec![0], false, 3 * SECOND, 99);
    p.process_chunk_at(vec![2], true, 3 * SECOND, 0);
    let chunks = p.get_current_audio();
    assert_eq!(chunks, vec![(first, vec![1]), (42, vec![2])]);
    p.clear_current_audio();
    assert_eq!(p.get_current_audio(), vec![(42, vec![2])]);
    // Once set, the flag stays set.
    assert!(p.has_new_audio());
}

#[test]
fn id_chunks_threshold_can_be_changed() {
    let mut p = id_processor();
    p.set_silence_duration_threshold(2000);
    p.process_chunk_at(vec![1], true, 0, 0);
    p.process_chunk_at(vec![0], false, SECOND + SECOND / 2, 5);
    p.process_chunk_at(vec![2], true, SECOND + SECOND / 2, 5);
    assert_eq!(p.get_current_audio().len(), 1);
}

#[test]
fn id_chunks_classify_frames_with_the_detector() {
    let mut p = id_processor();
    // A silent frame is no speech: nothing is gathered.
    assert!(!p.process_chunk(vec![0; 1440], &[0i16; 1440]));
    assert!(p.get_current_audio().is_empty());
    assert!(!p.has_new_audio());
    let mut q: IdChunkProcessor<i32> =
        IdChunkProcessor::new(WebRtcVadFacade::new(16000, VadMode::Quality).unwrap());
    assert_eq!(q.get_frame_size(), 480);
    let id = p.current_chunk_id();
    assert!(!p.process_chunk(vec![0; 2000], &[0i16; 1440]));
    assert_eq!(p.current_chunk_id(), id);
}

#[test]
fn id_chunks_clear_without_current_chunk() {
    let mut p = id_processor();
    p.clear_current_audio();
    assert!(p.get_current_audio().is_empty());
}

#[test]
fn recorder_start_and_stop_alternate() {
    let mut r = AudioRecorder::new();
    assert!(!r.is_recording());
    assert_eq!(r.stop(), Err("Recording is already stopped.".to_string()));
    assert_eq!(r.start(), Ok(()));
    assert!(r.is_recording());
    assert_eq!(r.start(), Err("recorder already running".to_string()));
    assert_eq!(r.stop(), Ok(()));
    assert!(!r.is_recording());
}

#[test]
fn recorder_buffers_until_a_frame() {
    let mut buffer: Vec<i32> = Vec::new();
    assert_eq!(AudioRecorder::buffer_audio(&mut buffer, &[1, 2], 3), None);
    assert_eq!(buffer, vec![1, 2]);
    assert_eq!(AudioRecorder::buffer_audio(&mut buffer, &[3, 4], 3), Some(vec![1, 2, 3, 4]));
    assert!(buffer.is_empty());
    assert!(AudioRecorder::should_dispatch(false, true));
    assert!(!AudioRecorder::should_dispatch(true, true));
    assert!(!AudioRecorder::should_dispatch(false, false));
}

#[test]
fn flag_recorder_spawns_once() {
    let mut r = FlagRecorder::new();
    assert!(!r.stop());
    assert!(r.start());
    assert!(!r.start());
    assert!(r.is_recording());
    assert!(r.stop());
    assert!(!r.is_recording());
}

#[test]
fn blocks_are_sent_when_longer_than_five_seconds() {
    let mut buf: Vec<i16> = Vec::new();
    let period = vec![1i16; 1024];
    let mut sent = 0;
    let mut total = 0;
    for _ in 0..300 {
        total += period.len();
        if let Some(block) = collect_block(&mut buf, &period) {
            assert!(block.len() > BLOCK_SAMPLES);
            sent += block.len();
        }
    }
    assert_eq!(sent + buf.len(), total);
    assert_eq!(BLOCK_SAMPLES, 240000);
}

#[test]
fn recent_window_keeps_the_last_samples() {
    let mut buf: Vec<u32> = (0..10000).collect();
    trim_to_recent(&mut buf);
    assert_eq!(buf.len(), RECENT_SAMPLES);
    assert_eq!(buf[0], 4000);
    let mut short: Vec<u32> = vec![1, 2, 3];
    trim_to_recent(&mut short);
    assert_eq!(short, vec![1, 2, 3]);
}

#[test]
fn transcript_marks_speaker_changes() {
    let segments = vec![
        Segment { tokens: vec![1, 2], text: "Hi".to_string(), speaker_turn_next: true },
        Segment { tokens: vec![3], text: " there".to_string(), speaker_turn_next: false },
    ];
    let mut tokens = vec![0];
    let mut prompt = "old".to_string();
    let transcript = assemble_transcript(&segments, &mut tokens, &mut prompt);
    assert_eq!(transcript, "Hi[Speaker Change] there");
    assert_eq!(tokens, vec![0, 1, 2, 3]);
    assert_eq!(prompt, " there");
    let transcript = assemble_transcript(&Vec::new(), &mut tokens, &mut prompt);
    assert_eq!(transcript, "");
    assert_eq!(prompt, " there");
}

#[test]
fn responses_join_segments_with_spaces() {
    let r = response_from_segments(&vec!["Hello".to_string(), "world".to_string()]);
    assert_eq!(r.transcription, "Hello world");
    let r = echo::jack_wrapper::api::response_from_segments(&vec![]);
    assert_eq!(r.transcription, "");
}

#[test]
fn segmenter_hands_out_everything_in_order() {
    let mut p: Segmenter<u32> = Segmenter::new(16000);
    let mut fed: Vec<u32> = Vec::new();
    let mut out: Vec<u32> = Vec::new();
    for k in 0..40u32 {
        let chunk = vec![k, k + 100];
        fed.extend(chunk.iter().copied());
        p.process_chunk_at(chunk, k % 3 == 0, (k as u128) * SECOND / 3);
        if k % 7 == 0 {
            for c in p.finalize() {
                assert!(!c.is_empty());
                out.extend(c);
            }
        }
    }
    for c in p.finalize() {
        out.extend(c);
    }
    assert_eq!(out, fed);
}

#[test]
fn speech_chunks_keep_exactly_the_speech() {
    let mut p: SpeechChunkProcessor<u32> = SpeechChunkProcessor::new();
    let mut speech: Vec<u32> = Vec::new();
    let mut out: Vec<u32> = Vec::new();
    for k in 0..30u32 {
        let loud = k % 4 != 0;
        let chunk = vec![k];
        if loud {
            speech.push(k);
        }
        p.process_chunk_at(chunk, loud, (k as u128) * SECOND);
        for c in p.get_current_audio() {
            out.extend(c);
        }
    }
    // One more long silence closes the open chunk.
    p.process_chunk_at(vec![0], false, 100 * SECOND);
    for c in p.get_current_audio() {
        out.extend(c);
    }
    assert_eq!(out, speech);
}

#[test]
fn segmenter_hands_out_closed_chunks_and_keeps_the_open_one() {
    let mut p: Segmenter<i32> = Segmenter::new(16000);
    p.process_chunk_at(vec![1, 2], true, 0);
    p.process_chunk_at(vec![0], false, SECOND);
    p.process_chunk_at(vec![9], false, 2 * SECOND + 1);
    assert_eq!(p.get_current_audio(), vec![vec![1, 2, 0]]);
    assert!(p.get_current_audio().is_empty());
    p.process_chunk_at(vec![4], true, 3 * SECOND);
    assert_eq!(p.finalize(), vec![vec![9, 4]]);
}

#[test]
fn id_chunks_flag_is_set_only_by_gathering() {
    let mut p = id_processor();
    p.process_chunk_at(vec![0], false, 0, 1);
    p.clear_current_audio();
    let _ = p.get_current_audio();
    assert!(!p.has_new_audio());
    p.create_or_extend(&[5]);
    assert!(p.has_new_audio());
    p.clear_current_audio();
    assert!(p.has_new_audio());
}

#[test]
fn recorder_accepts_alternating_requests() {
    let mut r = AudioRecorder::new();
    let mut accepted = Vec::new();
    for start in [false, true, true, false, false, true] {
        let ok = if start { r.start().is_ok() } else { r.stop().is_ok() };
        if ok {
            accepted.push(start);
        }
    }
    assert_eq!(accepted, vec![true, false, true]);
    assert!(r.is_recording());
}

#[test]
fn capture_skips_input_ports() {
    assert!(!should_connect("system:playback_input_1"));
    assert!(!should_connect("input"));
    assert!(should_connect("system:capture_1"));
    assert!(should_connect("inpu"));
    assert!(should_connect(""));
}

#[test]
fn wav_files_must_be_mono_or_stereo_at_16_khz() {
    assert_eq!(channel_layout(1), Ok(ChannelLayout::Mono));
    assert_eq!(channel_layout(2), Ok(ChannelLayout::Stereo));
    assert_eq!(channel_layout(3), Err(">2 channels unsupported".to_string()));
    assert_eq!(channel_layout(0), Err(">2 channels unsupported".to_string()));
    assert_eq!(check_sample_rate(16000), Ok(()));
    assert_eq!(check_sample_rate(44100), Err("sample rate must be 16KHz".to_string()));
}

#[test]
fn vad_facade_mode_changes_keep_classifying() {
    for mode in [VadMode::Quality, VadMode::LowBitrate, VadMode::Aggressive, VadMode::VeryAggressive] {
        let mut vad = WebRtcVadFacade::new(32000, mode).unwrap();
        assert!(vad.is_speech(&vec![0i16; 960]).is_ok());
        vad.set_mode(VadMode::VeryAggressive);
        assert!(vad.is_speech(&vec![0i16; 960]).is_ok());
        assert_eq!(vad.calculate_expected_frame_size(), 960);
    }
}

fn tone(len: usize, k: usize) -> Vec<i16> {
    (0..len)
        .map(|i| {
            let phase = (i * (k + 3)) % 64;
            let amp = ((k % 5) * 4000) as i32;
            (if phase < 32 { amp } else { -amp }) as i16
        })
        .collect()
}

#[test]
fn vad_facade_verdicts_are_the_detectors() {
    let mut facade = WebRtcVadFacade::new(48000, VadMode::Aggressive).unwrap();
    let mut direct = webrtc_vad::Vad::new_with_rate_and_mode(webrtc_vad::SampleRate::Rate48kHz, VadMode::Aggressive);
    for k in 0..40 {
        let frame = tone(1440, k);
        assert_eq!(facade.is_speech(&frame).unwrap(), direct.is_voice_segment(&frame).unwrap());
    }
}

#[test]
fn id_chunks_verdicts_are_the_detectors() {
    let mut p: IdChunkProcessor<i16> =
        IdChunkProcessor::new(WebRtcVadFacade::new(48000, VadMode::Quality).unwrap());
    let mut direct = webrtc_vad::Vad::new_with_rate_and_mode(webrtc_vad::SampleRate::Rate48kHz, VadMode::Quality);
    let mut gathered: Vec<i16> = Vec::new();
    for k in 0..40 {
        let frame = tone(1440, k);
        let speech = p.process_chunk(frame.clone(), &frame);
        assert_eq!(speech, direct.is_voice_segment(&frame).unwrap());
        if speech {
            gathered.extend(frame.iter().copied());
        }
    }
    let total: usize = p.get_current_audio().iter().map(|(_, c)| c.len()).sum();
    assert_eq!(total, gathered.len());
}

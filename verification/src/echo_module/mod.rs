pub mod audio_manager;
pub mod audio_recorder;
pub mod audio_transcription_controller;
pub mod detector;
pub mod util;
pub mod vad;
pub mod web_rtc_vad;

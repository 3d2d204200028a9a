pub mod api;
pub mod audio_recorder;
pub mod vad;

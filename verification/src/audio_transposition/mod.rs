pub mod api;
pub mod audio_stream;
pub mod model;

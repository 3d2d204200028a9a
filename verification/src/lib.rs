pub mod audio_transposition;
pub mod clock;
pub mod echo_module;
pub mod jack_wrapper;
pub mod querybuilder;
pub mod samples;
pub mod text;
pub mod timer;
pub mod token_manager;

# echo

Live speech transcription with voice activity detection, as a library whose
logic is verified with Verus, and the programs around it.

## Layout

- `src/` — the verified library.
  - `querybuilder` — splits transcribed text into questions and sentences and
    hands each out for printing once.
  - `token_manager` — the token ids gathered from transcription segments.
  - `timer`, `echo_module::util` — timers on the monotonic clock.
  - `echo_module` — speech chunking: an energy-driven chunker (`vad`), a
    chunker that files speech under random identifiers and asks the WebRTC
    voice activity detector (`audio_manager`, `web_rtc_vad`, with the
    detector and the rate and mode it was set to in `detector`), the recorder's
    start/stop decisions and frame buffering (`audio_recorder`), and the
    transcription response (`audio_transcription_controller`).
  - `jack_wrapper` — a chunker that keeps all audio and cuts it at long
    silences (`vad`), the recorder's start/stop decisions, and responses.
  - `audio_transposition` — decoding of base64 PCM requests (`api`), capture
    blocks, the ports and WAV files accepted, and the recent-audio window
    (`audio_stream`), and transcript
    assembly from segments (`model`).
  - `clock`, `samples`, `text` — the monotonic clock, sample copies, and
    decimal numbers and joined strings.
- `tests/` — tests of the library.
- `app/` — the programs: the command line, the web service, the Node
  modules, JACK capture, whisper transcription, and the floating-point audio
  work (energy, conversion to 16-bit samples, resampling).

Samples are a type parameter in the library, so the chunkers hold whatever
sample type the programs use; the speech decisions that depend on sample
values are made by the programs and handed in.

# VATSIM Live Transcriber

A Windows desktop tool that captures an output device through WASAPI
loopback, detects radio transmissions locally, streams them to the OpenAI
Realtime transcription service, and shows each transmission next to a
digit-normalized form (`one one eight decimal five zero five` becomes
`118.505`). Every transmission is kept as a mono 24 kHz WAV file and every
finished transcript is appended to a plain-text log.

## Layout

- `src/` is the library, written in Verus: every function carries a
  `requires`/`ensures` contract that Verus proves.
  - `transcript/` – spoken-number normalization and the transcript variants.
  - `audio/` – channel names, device resolution, PCM16 framing, chunking,
    the voice-activity detector, WAV framing, and the reading of endpoint mix
    formats and packets.
  - `recording.rs` – numbered recordings and their binding to server items.
  - `realtime/` – the messages sent to the server, the processing of server
    events, and the session's decisions.
  - `config.rs` – keyword and prompt files.
  - `ui.rs` – what the transcript window shows.
  - `text.rs`, `text_map.rs` – character-level helpers and a small map keyed
    by text.
- `tests/` – tests of the library on concrete values.
- `app/` – the program around the library: command line, files, WASAPI
  capture, floating-point sample processing, the WebSocket session and the
  egui window.

The few calls into other crates that the library makes (`serde_json`,
`base64`, parts of `std`) go through small wrappers whose contracts are
stated from those crates' documentation and source.

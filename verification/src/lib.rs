use vstd::prelude::*;

pub mod audio;
pub mod config;
pub mod realtime;
pub mod recording;
pub mod text;
pub mod text_map;
pub mod transcript;
pub mod ui;

verus! {

/// Sample rate of every audio stream sent for transcription, in hertz.
pub const SAMPLE_RATE: u32 = 24000;

/// The WebSocket endpoint of OpenAI Realtime transcription sessions.
pub const REALTIME_URL: &'static str = "wss://api.openai.com/v1/realtime?intent=transcription";

/// The transcription model.
pub const TRANSCRIPTION_MODEL: &'static str = "gpt-live-transcribe";

/// Mono samples in each chunk handed to the voice-activity detector (100 ms).
pub const FRAMES_PER_CHUNK: usize = 2400;

/// The transcription prompt used when no prompt file is given.
pub const DEFAULT_PROMPT: &'static str = "English VATSIM air traffic control radio communications. Transcribe aviation phraseology exactly. Preserve callsigns, runway identifiers, headings, altitudes, flight levels, frequencies, squawk codes, waypoint names, registrations, and clearances. Do not invent missing speech.";

} // verus!

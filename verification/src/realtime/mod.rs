//! OpenAI Realtime transcription: the protocol's messages, the processing of
//! server events and the session's decisions.

pub mod protocol;
pub mod session;
pub mod wire;

pub use self::protocol::{session_update, ServerEventProcessor, TranscriptEvent};

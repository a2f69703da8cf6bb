//! The decisions of a running transcription session: what each message
//! from the audio capture and from the server socket leads to.

use vstd::prelude::*;
use crate::realtime::protocol::{audio_append_message, audio_append_text, audio_commit_message};
use crate::audio::flatten;
use crate::audio::vad::{chunk_bytes, rounded_chunks, vad_step, LocalVad, VadState};
use crate::text::{chars_of, decimal, decimal_chars, extend_chars, extend_str, string_of};

verus! {

/// What the audio capture hands to the session.
#[derive(Debug, Clone, PartialEq, Eq)]
pub enum AudioCommand {
    /// PCM16 audio to stream.
    Append(Vec<u8>),
    /// The current transmission has ended.
    Commit,
    /// Capture failed; the reason.
    Failed(String),
    /// Capture has stopped.
    Finished,
}

/// What the session does next.
#[derive(Debug, Clone, PartialEq, Eq)]
pub enum SessionAction {
    /// Send this text message to the server.
    Send(String),
    /// End the session normally.
    Finish,
    /// End the session with this error.
    Fail(String),
}

/// The session's response to a message from the audio capture.
pub fn audio_command_action(command: AudioCommand) -> (r: SessionAction)
    requires
        command matches AudioCommand::Append(pcm) ==> pcm@.len() <= usize::MAX / 2,
    ensures
        match command {
            AudioCommand::Append(pcm) => (r matches SessionAction::Send(m) && m@ == audio_append_text(pcm@)),
            AudioCommand::Commit => (r matches SessionAction::Send(m) && m@ == "{\"type\":\"input_audio_buffer.commit\"}"@),
            AudioCommand::Failed(reason) => (r matches SessionAction::Fail(m) && m@ == "audio capture failed: "@ + reason@),
            AudioCommand::Finished => r == SessionAction::Finish,
        },
{
    match command {
        AudioCommand::Append(pcm) => SessionAction::Send(audio_append_message(pcm.as_slice())),
        AudioCommand::Commit => SessionAction::Send(audio_commit_message()),
        AudioCommand::Failed(reason) => {
            let mut m = chars_of("audio capture failed: ");
            extend_str(&mut m, reason.as_str());
            SessionAction::Fail(string_of(&m))
        },
        AudioCommand::Finished => SessionAction::Finish,
    }
}

/// The session's response to the server closing the socket: a normal end
/// while stopping, an error naming the close code and reason otherwise.
pub fn close_action(stopping: bool, frame: Option<(u16, String)>) -> (r: SessionAction)
    ensures
        stopping ==> r == SessionAction::Finish,
        !stopping ==> (r matches SessionAction::Fail(m) && m@ == "OpenAI closed the connection: "@ + match frame {
            Some((code, reason)) => decimal(code as nat) + " "@ + reason@,
            None => "no reason supplied"@,
        }),
{
    if stopping {
        return SessionAction::Finish;
    }
    let mut m = chars_of("OpenAI closed the connection: ");
    match frame {
        Some((code, reason)) => {
            extend_chars(&mut m, &decimal_chars(code as u64));
            extend_str(&mut m, " ");
            extend_str(&mut m, reason.as_str());
        },
        None => extend_str(&mut m, "no reason supplied"),
    }
    SessionAction::Fail(string_of(&m))
}

/// What the server's socket delivers, other than a text message.
#[derive(Debug, Clone, PartialEq, Eq)]
pub enum ServerFrame {
    /// A ping with its payload.
    Ping(Vec<u8>),
    /// The server closed the socket, with its close code and reason if any.
    Close(Option<(u16, String)>),
    /// The socket failed; the error's text.
    Failed(String),
    /// The socket ended without a close frame.
    Ended,
    /// Any other frame (binary data, a pong).
    Other,
}

/// What the session does with a frame from the server.
#[derive(Debug, Clone, PartialEq, Eq)]
pub enum FrameAction {
    /// Answer a ping with a pong carrying the same payload.
    Pong(Vec<u8>),
    /// Take the next event.
    Continue,
    /// End the session with what the closing said.
    Close(SessionAction),
}

/// The session's response to a frame from the server: a ping is answered,
/// a close is judged by `close_action`, a socket error ends the session with
/// the error, the end of the stream ends it normally, and anything else is
/// ignored.
pub fn frame_action(stopping: bool, frame: ServerFrame) -> (r: FrameAction)
    ensures
        match frame {
            ServerFrame::Ping(payload) => r == FrameAction::Pong(payload),
            ServerFrame::Close(detail) => (r matches FrameAction::Close(a) && (stopping ==> a
                == SessionAction::Finish) && (!stopping ==> (a matches SessionAction::Fail(m) && m@
                == "OpenAI closed the connection: "@ + match detail {
                Some((code, reason)) => decimal(code as nat) + " "@ + reason@,
                None => "no reason supplied"@,
            }))),
            ServerFrame::Failed(error) => (r matches FrameAction::Close(SessionAction::Fail(m)) && m@
                == "OpenAI WebSocket error: "@ + error@),
            ServerFrame::Ended => r == FrameAction::Close(SessionAction::Finish),
            ServerFrame::Other => r == FrameAction::Continue,
        },
{
    match frame {
        ServerFrame::Ping(payload) => FrameAction::Pong(payload),
        ServerFrame::Close(detail) => FrameAction::Close(close_action(stopping, detail)),
        ServerFrame::Failed(error) => {
            let mut m = chars_of("OpenAI WebSocket error: ");
            extend_str(&mut m, error.as_str());
            FrameAction::Close(SessionAction::Fail(string_of(&m)))
        },
        ServerFrame::Ended => FrameAction::Close(SessionAction::Finish),
        ServerFrame::Other => FrameAction::Continue,
    }
}

/// The value of the `Authorization` header for an API key.
pub fn authorization_value(api_key: &str) -> (r: String)
    ensures
        r@ == "Bearer "@ + api_key@,
{
    let mut m = chars_of("Bearer ");
    extend_str(&mut m, api_key);
    string_of(&m)
}

/// Milliseconds of audio in each chunk that the capture hands to the
/// detector (`FRAMES_PER_CHUNK` samples at 24 kHz).
pub const CHUNK_MS: u32 = 100;

/// Milliseconds of audio before speech that are sent with a transmission.
pub const PREFIX_MS: u32 = 300;

/// What one captured chunk leads to.
#[derive(Debug, Clone, PartialEq, Eq)]
pub struct CaptureStep {
    /// Audio to stream to the server, in order.
    pub sends: Vec<Vec<u8>>,
    /// The whole audio of a transmission that ended with this chunk; it is
    /// saved as a recording before the server is told to commit the turn.
    pub finished_turn: Option<Vec<u8>>,
}

/// The audio side of a session: detects transmissions in the captured
/// chunks and gathers each transmission's audio for its recording.
#[derive(Debug)]
pub struct TurnCapture {
    vad: LocalVad,
    turn_audio: Vec<u8>,
}

proof fn lemma_flatten_push(s: Seq<Seq<u8>>, x: Seq<u8>)
    ensures
        flatten(s.push(x)) == flatten(s) + x,
    decreases s.len(),
{
    if s.len() == 0 {
        assert(s.push(x).skip(1) =~= Seq::<Seq<u8>>::empty());
        assert(flatten(s.push(x)) =~= x + flatten(Seq::<Seq<u8>>::empty()));
        assert(flatten(s) + x =~= x);
    } else {
        lemma_flatten_push(s.skip(1), x);
        assert(s.push(x).skip(1) =~= s.skip(1).push(x));
        assert(s.push(x)[0] == s[0]);
        assert(flatten(s.push(x)) =~= s[0] + (flatten(s.skip(1)) + x));
    }
}

impl TurnCapture {
    /// The detector's state.
    pub closed spec fn detector(&self) -> VadState {
        self.vad.state()
    }

    /// The audio of the current transmission so far.
    pub closed spec fn turn(&self) -> Seq<u8> {
        self.turn_audio@
    }

    pub closed spec fn wf(&self) -> bool {
        self.vad.wf()
    }

    /// A capture that ends a transmission after `silence_ms` of quiet and
    /// sends the `PREFIX_MS` of audio before speech.
    pub fn new(silence_ms: u32) -> (r: Self)
        requires
            silence_ms <= u32::MAX - CHUNK_MS / 2,
        ensures
            r.wf(),
            r.detector() == (VadState {
                required_silent: rounded_chunks(silence_ms as nat, CHUNK_MS as nat),
                prefix_capacity: rounded_chunks(PREFIX_MS as nat, CHUNK_MS as nat),
                prefix: Seq::empty(),
                active: false,
                silent_chunks: 0,
            }),
            r.turn() == Seq::<u8>::empty(),
    {
        TurnCapture { vad: LocalVad::new(silence_ms, CHUNK_MS, PREFIX_MS), turn_audio: Vec::new() }
    }

    /// Feeds one captured chunk of PCM16 audio; `speech` tells whether its
    /// energy reaches the speech threshold. The detector's released chunks
    /// are sent and added to the transmission's audio; when the detector
    /// ends the transmission, its whole audio is handed out and a new one
    /// begins.
    pub fn process(&mut self, pcm: &[u8], speech: bool) -> (r: CaptureStep)
        requires
            old(self).wf(),
        ensures
            final(self).wf(),
            ({
                let step = vad_step(old(self).detector(), pcm@, speech);
                let gathered = old(self).turn() + flatten(step.1);
                &&& final(self).detector() == step.0
                &&& chunk_bytes(r.sends@) == step.1
                &&& step.2 ==> (r.finished_turn matches Some(t) && t@ == gathered) && final(self).turn()
                    == Seq::<u8>::empty()
                &&& !step.2 ==> r.finished_turn is None && final(self).turn() == gathered
            }),
    {
        let result = self.vad.process(pcm, speech);
        let ghost released = chunk_bytes(result.chunks@);
        let ghost start = self.turn_audio@;
        let ghost detector = self.vad;
        let ghost step = vad_step(old(self).detector(), pcm@, speech);
        assert(step == (detector.state(), released, result.commit));
        let mut i: usize = 0;
        assert(released.take(0) =~= Seq::<Seq<u8>>::empty());
        assert(start + flatten(Seq::<Seq<u8>>::empty()) =~= start);
        while i < result.chunks.len()
            invariant
                i <= result.chunks@.len(),
                released == chunk_bytes(result.chunks@),
                self.turn_audio@ == start + flatten(released.take(i as int)),
                self.vad == detector,
                detector.wf(),
                start == old(self).turn(),
                step == vad_step(old(self).detector(), pcm@, speech),
                step == (detector.state(), released, result.commit),
            decreases result.chunks.len() - i,
        {
            let chunk = &result.chunks[i];
            let ghost before = self.turn_audio@;
            let mut j: usize = 0;
            while j < chunk.len()
                invariant
                    j <= chunk@.len(),
                    self.turn_audio@ == before + chunk@.take(j as int),
                    self.vad == detector,
                decreases chunk.len() - j,
            {
                self.turn_audio.push(chunk[j]);
                assert(self.turn_audio@ =~= before + chunk@.take(j + 1));
                j += 1;
            }
            assert(chunk@.take(chunk@.len() as int) =~= chunk@);
            proof {
                lemma_flatten_push(released.take(i as int), released[i as int]);
                assert(released.take(i + 1) =~= released.take(i as int).push(released[i as int]));
            }
            i += 1;
        }
        assert(released.take(result.chunks@.len() as int) =~= released);
        if result.commit {
            let mut finished: Vec<u8> = Vec::new();
            std::mem::swap(&mut finished, &mut self.turn_audio);
            CaptureStep { sends: result.chunks, finished_turn: Some(finished) }
        } else {
            CaptureStep { sends: result.chunks, finished_turn: None }
        }
    }
}

} // verus!

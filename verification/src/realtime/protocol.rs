//! The transcription session's outgoing messages and the processing of the
//! server's events into transcript rows, recordings and log entries.

use vstd::prelude::*;
use crate::realtime::wire::{
    base64_encoded, base64_standard, decode_server_message, decoded_server_message, json_quoted, json_string,
    ServerMessage, ServerMessageView,
};
use crate::recording::{bind_result, bindings_after_bind, pending_after_bind, RecordingTracker};
use crate::text::{chars_of, decimal, decimal_chars, extend_chars, extend_str, string_of, trim_chars, trimmed};
use crate::text_map::TextMap;
use crate::transcript::numbers::{normalize_spoken_numbers, normalized};
use crate::transcript::transcript_variants;
use crate::{SAMPLE_RATE, TRANSCRIPTION_MODEL};

verus! {

/// `items` joined by `,` (a JSON array's elements).
pub open spec fn comma_joined(items: Seq<Seq<char>>) -> Seq<char>
    decreases items.len(),
{
    if items.len() == 0 {
        Seq::empty()
    } else if items.len() == 1 {
        items[0]
    } else {
        comma_joined(items.drop_last()) + seq![','] + items.last()
    }
}

/// The JSON array of the string literals of `words`.
pub open spec fn json_string_array(words: Seq<Seq<char>>) -> Seq<char> {
    seq!['['] + comma_joined(words.map_values(|w: Seq<char>| json_quoted(w))) + seq![']']
}

/// The `session.update` event that configures a transcription session, in
/// compact JSON with its keys in order.
pub open spec fn session_update_text(prompt: Seq<char>, keywords: Seq<Seq<char>>, accuracy: Seq<char>) -> Seq<char> {
    "{\"session\":{\"audio\":{\"input\":{\"format\":{\"rate\":"@ + decimal(SAMPLE_RATE as nat)
        + ",\"type\":\"audio/pcm\"},\"transcription\":{\"delay\":"@ + json_quoted(accuracy) + ",\"keywords\":"@
        + json_string_array(keywords) + ",\"languages\":[\"en\"],\"model\":"@ + json_quoted(TRANSCRIPTION_MODEL@)
        + ",\"prompt\":"@ + json_quoted(prompt)
        + "},\"turn_detection\":null}},\"type\":\"transcription\"},\"type\":\"session.update\"}"@
}

/// The `session.update` event for the given prompt, keyword hints and
/// accuracy (the transcription `delay`): 24 kHz PCM input, the
/// transcription model, English, and no server-side turn detection.
pub fn session_update(prompt: &str, keywords: &[String], accuracy: &str) -> (r: String)
    ensures
        r@ == session_update_text(prompt@, keywords@.map_values(|k: String| k@), accuracy@),
{
    let ghost kw = keywords@.map_values(|k: String| k@);
    let mut out = chars_of("{\"session\":{\"audio\":{\"input\":{\"format\":{\"rate\":");
    extend_chars(&mut out, &decimal_chars(SAMPLE_RATE as u64));
    extend_str(&mut out, ",\"type\":\"audio/pcm\"},\"transcription\":{\"delay\":");
    extend_str(&mut out, json_string(accuracy).as_str());
    extend_str(&mut out, ",\"keywords\":");
    let ghost before_array = out@;
    out.push('[');
    let ghost quoted = kw.map_values(|w: Seq<char>| json_quoted(w));
    let mut i: usize = 0;
    while i < keywords.len()
        invariant
            i <= keywords@.len(),
            kw == keywords@.map_values(|k: String| k@),
            quoted == kw.map_values(|w: Seq<char>| json_quoted(w)),
            out@ == before_array + seq!['['] + comma_joined(quoted.take(i as int)),
        decreases keywords.len() - i,
    {
        if i > 0 {
            out.push(',');
        }
        extend_str(&mut out, json_string(keywords[i].as_str()).as_str());
        assert(quoted.take(i + 1).drop_last() =~= quoted.take(i as int));
        assert(quoted[i as int] == json_quoted(keywords@[i as int]@));
        if i == 0 {
            assert(quoted.take(1) =~= seq![quoted[0]]);
            assert(comma_joined(quoted.take(0)) =~= Seq::<char>::empty());
        }
        assert(out@ =~= before_array + seq!['['] + comma_joined(quoted.take(i + 1)));
        i += 1;
    }
    assert(quoted.take(keywords@.len() as int) =~= quoted);
    out.push(']');
    extend_str(&mut out, ",\"languages\":[\"en\"],\"model\":");
    extend_str(&mut out, json_string(TRANSCRIPTION_MODEL).as_str());
    extend_str(&mut out, ",\"prompt\":");
    extend_str(&mut out, json_string(prompt).as_str());
    extend_str(&mut out, "},\"turn_detection\":null}},\"type\":\"transcription\"},\"type\":\"session.update\"}");
    assert(out@ =~= session_update_text(prompt@, kw, accuracy@));
    string_of(&out)
}

/// The `input_audio_buffer.append` event carrying PCM16 audio in Base64.
pub open spec fn audio_append_text(pcm: Seq<u8>) -> Seq<char> {
    "{\"audio\":"@ + json_quoted(base64_encoded(pcm)) + ",\"type\":\"input_audio_buffer.append\"}"@
}

/// The `input_audio_buffer.append` event that streams `pcm` to the server.
pub fn audio_append_message(pcm: &[u8]) -> (r: String)
    requires
        pcm@.len() <= usize::MAX / 2,
    ensures
        r@ == audio_append_text(pcm@),
{
    let encoded = base64_standard(pcm);
    let mut out = chars_of("{\"audio\":");
    extend_str(&mut out, json_string(encoded.as_str()).as_str());
    extend_str(&mut out, ",\"type\":\"input_audio_buffer.append\"}");
    string_of(&out)
}

/// The `input_audio_buffer.commit` event that ends a transmission.
pub fn audio_commit_message() -> (r: String)
    ensures
        r@ == "{\"type\":\"input_audio_buffer.commit\"}"@,
{
    string_of(&chars_of("{\"type\":\"input_audio_buffer.commit\"}"))
}

/// What the transcript window is told.
#[derive(Debug, Clone, PartialEq, Eq)]
pub enum TranscriptEvent {
    Connected,
    Delta { item_id: String, original: String, converted: String },
    Completed { item_id: String, original: String, converted: String, audio_path: Option<String> },
    Error(String),
    Stopped,
}

/// A finished transcript to append to the transcript log.
#[derive(Debug, Clone, PartialEq, Eq)]
pub struct LogEntry {
    pub original: String,
    pub converted: String,
    pub audio_path: Option<String>,
}

/// What one server event asks of the caller: events for the transcript
/// window, in order, then at most one entry for the transcript log.
#[derive(Debug, Clone, PartialEq, Eq)]
pub struct Processed {
    pub events: Vec<TranscriptEvent>,
    pub log: Option<LogEntry>,
}

/// Why a server event ends the session.
#[derive(Debug, Clone, PartialEq, Eq)]
pub enum ProcessError {
    /// The event is not JSON; the parser's message.
    Unreadable(String),
    /// The server reported an error; its message.
    Api(String),
}

impl ProcessError {
    /// The error as a sentence.
    pub fn message(&self) -> (r: String)
        ensures
            match self {
                ProcessError::Unreadable(detail) => r@ == "the server returned an unreadable message: "@ + detail@,
                ProcessError::Api(message) => r@ == "OpenAI API error: "@ + message@,
            },
    {
        match self {
            ProcessError::Unreadable(detail) => {
                let mut m = chars_of("the server returned an unreadable message: ");
                extend_str(&mut m, detail.as_str());
                string_of(&m)
            },
            ProcessError::Api(message) => {
                let mut m = chars_of("OpenAI API error: ");
                extend_str(&mut m, message.as_str());
                string_of(&m)
            },
        }
    }
}

pub open spec fn or_empty(o: Option<Seq<char>>) -> Seq<char> {
    match o {
        Some(s) => s,
        None => Seq::empty(),
    }
}

pub open spec fn opt_path(o: Option<String>) -> Option<Seq<char>> {
    match o {
        Some(s) => Some(s@),
        None => None,
    }
}

/// What handling the server event `message` gives, from the streamed text
/// `streamed` and a tracker with recordings `pending` waiting and items
/// bound as `bindings`: the result `r`, and the streamed text and tracker
/// state after it.
pub open spec fn message_outcome(
    message: ServerMessageView,
    streamed: Map<Seq<char>, Seq<char>>,
    pending: Seq<Seq<char>>,
    bindings: Map<Seq<char>, Seq<char>>,
    r: Result<Processed, ProcessError>,
    streamed_after: Map<Seq<char>, Seq<char>>,
    pending_after: Seq<Seq<char>>,
    bindings_after: Map<Seq<char>, Seq<char>>,
) -> bool {
    let kind = or_empty(message.kind);
    let item = or_empty(message.item_id);
    if kind == "input_audio_buffer.committed"@ {
        &&& r matches Ok(p) && p.events@.len() == 0 && p.log is None
        &&& streamed_after == streamed
        &&& pending_after == pending_after_bind(pending, bindings, item)
        &&& bindings_after == bindings_after_bind(pending, bindings, item)
    } else if kind == "conversation.item.input_audio_transcription.delta"@ {
        let delta = or_empty(message.delta);
        if delta.len() == 0 {
            &&& r matches Ok(p) && p.events@.len() == 0 && p.log is None
            &&& streamed_after == streamed
            &&& pending_after == pending
            &&& bindings_after == bindings
        } else {
            let text = (if streamed.contains_key(item) {
                streamed[item]
            } else {
                Seq::empty()
            }) + delta;
            &&& r matches Ok(p) && p.log is None && p.events@.len() == 1 && (p.events@[0] matches TranscriptEvent::Delta {
                item_id,
                original,
                converted,
            } && item_id@ == item && original@ == text && converted@ == normalized(text))
            &&& streamed_after == streamed.insert(item, text)
            &&& pending_after == pending_after_bind(pending, bindings, item)
            &&& bindings_after == bindings_after_bind(pending, bindings, item)
        }
    } else if kind == "conversation.item.input_audio_transcription.completed"@ {
        let raw = trimmed(or_empty(message.transcript));
        let original = trimmed(raw);
        let audio = bind_result(pending, bindings, item);
        &&& streamed_after == streamed.remove(item)
        &&& pending_after == pending_after_bind(pending, bindings, item)
        &&& bindings_after == bindings_after_bind(pending, bindings, item).remove(item)
        &&& original.len() == 0 ==> (r matches Ok(p) && p.events@.len() == 0 && p.log is None)
        &&& original.len() > 0 ==> (r matches Ok(p) && p.events@.len() == 1 && (p.events@[0] matches TranscriptEvent::Completed {
            item_id,
            original: o,
            converted: c,
            audio_path,
        } && item_id@ == item && o@ == original && c@ == normalized(original) && opt_path(audio_path) == audio)
            && (p.log matches Some(entry) && entry.original@ == original && entry.converted@ == normalized(
            original,
        ) && opt_path(entry.audio_path) == audio))
    } else if kind == "error"@ {
        let text = match message.error_message {
            Some(m) => m,
            None => message.text,
        };
        &&& r matches Err(ProcessError::Api(m)) && m@ == text
        &&& streamed_after == streamed
        &&& pending_after == pending
        &&& bindings_after == bindings
    } else {
        &&& r matches Ok(p) && p.events@.len() == 0 && p.log is None
        &&& streamed_after == streamed
        &&& pending_after == pending
        &&& bindings_after == bindings
    }
}

/// Whether `message` is a non-empty transcription delta `delta` for the
/// item `item`.
pub open spec fn is_delta_for(message: ServerMessageView, item: Seq<char>, delta: Seq<char>) -> bool {
    &&& or_empty(message.kind) == "conversation.item.input_audio_transcription.delta"@
    &&& or_empty(message.item_id) == item
    &&& or_empty(message.delta) == delta
    &&& delta.len() > 0
}

/// Streamed deltas accumulate: for an item with no streamed text yet, two
/// deltas in a row report first the first delta, then both joined, each
/// with its digit-normalized form.
pub proof fn deltas_accumulate(
    first: ServerMessageView,
    second: ServerMessageView,
    item: Seq<char>,
    d1: Seq<char>,
    d2: Seq<char>,
    streamed0: Map<Seq<char>, Seq<char>>,
    pending0: Seq<Seq<char>>,
    bindings0: Map<Seq<char>, Seq<char>>,
    r1: Result<Processed, ProcessError>,
    streamed1: Map<Seq<char>, Seq<char>>,
    pending1: Seq<Seq<char>>,
    bindings1: Map<Seq<char>, Seq<char>>,
    r2: Result<Processed, ProcessError>,
    streamed2: Map<Seq<char>, Seq<char>>,
    pending2: Seq<Seq<char>>,
    bindings2: Map<Seq<char>, Seq<char>>,
)
    requires
        is_delta_for(first, item, d1),
        is_delta_for(second, item, d2),
        !streamed0.contains_key(item),
        message_outcome(first, streamed0, pending0, bindings0, r1, streamed1, pending1, bindings1),
        message_outcome(second, streamed1, pending1, bindings1, r2, streamed2, pending2, bindings2),
    ensures
        r1 matches Ok(p) && p.events@.len() == 1 && (p.events@[0] matches TranscriptEvent::Delta {
            original,
            converted,
            ..
        } && original@ == d1 && converted@ == normalized(d1)),
        r2 matches Ok(p) && p.events@.len() == 1 && (p.events@[0] matches TranscriptEvent::Delta {
            original,
            converted,
            ..
        } && original@ == d1 + d2 && converted@ == normalized(d1 + d2)),
        streamed2 == streamed0.insert(item, d1 + d2),
{
    reveal_strlit("conversation.item.input_audio_transcription.delta");
    reveal_strlit("input_audio_buffer.committed");
    assert("conversation.item.input_audio_transcription.delta"@[0] != "input_audio_buffer.committed"@[0]);
    assert(Seq::<char>::empty() + d1 =~= d1);
    assert(streamed1 == streamed0.insert(item, d1));
    assert(streamed1[item] == d1);
    assert(streamed0.insert(item, d1).insert(item, d1 + d2) =~= streamed0.insert(item, d1 + d2));
}

/// Turns server events into transcript rows: it gathers the streamed text
/// of each item and ties items to their recordings.
pub struct ServerEventProcessor {
    streamed_text: TextMap<String>,
}

impl ServerEventProcessor {
    /// The text streamed so far for each item still being transcribed.
    pub closed spec fn streamed(&self) -> Map<Seq<char>, Seq<char>> {
        self.streamed_text.map().map_values(|t: String| t@)
    }

    pub closed spec fn wf(&self) -> bool {
        self.streamed_text.wf()
    }

    pub fn new() -> (r: Self)
        ensures
            r.wf(),
            r.streamed() == Map::<Seq<char>, Seq<char>>::empty(),
    {
        let r = ServerEventProcessor { streamed_text: TextMap::new() };
        assert(r.streamed() =~= Map::<Seq<char>, Seq<char>>::empty());
        r
    }

    /// Handles one server event whose fields are already read.
    ///
    /// - `input_audio_buffer.committed` ties the item to the oldest waiting
    ///   recording.
    /// - A non-empty transcription `delta` does the same, adds the delta to
    ///   the item's streamed text and reports the text and its
    ///   digit-normalized form.
    /// - A transcription `completed` forgets the streamed text, reports the
    ///   trimmed final transcript with its normalized form and recording,
    ///   asks for a log entry (for a non-blank transcript), and releases the
    ///   item's recording.
    /// - `error` ends the session with the server's message.
    /// - Every other event is ignored.
    pub fn process_message(&mut self, recordings: &mut RecordingTracker, message: &ServerMessage) -> (r: Result<
        Processed,
        ProcessError,
    >)
        requires
            old(self).wf(),
            old(recordings).wf(),
        ensures
            final(self).wf(),
            final(recordings).wf(),
            final(recordings).directory() == old(recordings).directory(),
            final(recordings).session_id() == old(recordings).session_id(),
            final(recordings).count() == old(recordings).count(),
            message_outcome(
                message@,
                old(self).streamed(),
                old(recordings).pending(),
                old(recordings).bindings(),
                r,
                final(self).streamed(),
                final(recordings).pending(),
                final(recordings).bindings(),
            ),
    {
        let empty = String::new();
        let kind = match &message.kind {
            Some(k) => k,
            None => &empty,
        };
        let item_id = match &message.item_id {
            Some(i) => i,
            None => &empty,
        };
        let nothing = Processed { events: Vec::new(), log: None };
        if crate::text_map::same_text(kind.as_str(), "input_audio_buffer.committed") {
            recordings.bind(item_id.as_str());
            return Ok(nothing);
        }
        if crate::text_map::same_text(kind.as_str(), "conversation.item.input_audio_transcription.delta") {
            let delta = match &message.delta {
                Some(d) => d,
                None => &empty,
            };
            if delta.as_str().is_empty() {
                return Ok(nothing);
            }
            recordings.bind(item_id.as_str());
            let mut text = match self.streamed_text.get(item_id.as_str()) {
                Some(t) => chars_of(t.as_str()),
                None => Vec::new(),
            };
            extend_str(&mut text, delta.as_str());
            let text = string_of(&text);
            let converted = normalize_spoken_numbers(text.as_str());
            let key = string_of(&chars_of(item_id.as_str()));
            self.streamed_text.insert(key, text.clone());
            let ghost item = item_id@;
            assert(self.streamed() =~= old(self).streamed().insert(item, text@));
            let mut events = Vec::new();
            events.push(
                TranscriptEvent::Delta { item_id: string_of(&chars_of(item_id.as_str())), original: text, converted },
            );
            return Ok(Processed { events, log: None });
        }
        if crate::text_map::same_text(kind.as_str(), "conversation.item.input_audio_transcription.completed") {
            let raw_chars = match &message.transcript {
                Some(t) => chars_of(t.as_str()),
                None => Vec::new(),
            };
            let raw = string_of(&trim_chars(&raw_chars));
            self.streamed_text.remove(item_id.as_str());
            assert(self.streamed() =~= old(self).streamed().remove(item_id@));
            let audio_path = recordings.bind(item_id.as_str());
            let variants = transcript_variants(raw.as_str());
            let mut result = Processed { events: Vec::new(), log: None };
            if variants.len() == 2 {
                let original = variants[0].clone();
                let converted = variants[1].clone();
                result.events.push(
                    TranscriptEvent::Completed {
                        item_id: string_of(&chars_of(item_id.as_str())),
                        original: original.clone(),
                        converted: converted.clone(),
                        audio_path: audio_path.clone(),
                    },
                );
                result.log = Some(LogEntry { original, converted, audio_path });
            }
            recordings.finish(item_id.as_str());
            return Ok(result);
        }
        if crate::text_map::same_text(kind.as_str(), "error") {
            let text = match &message.error_message {
                Some(m) => m.clone(),
                None => message.text.clone(),
            };
            return Err(ProcessError::Api(text));
        }
        Ok(nothing)
    }

    /// Handles one server event as it arrived on the socket: unreadable
    /// text ends the session, anything else is handled by `process_message`.
    pub fn process(&mut self, recordings: &mut RecordingTracker, text: &str) -> (r: Result<Processed, ProcessError>)
        requires
            old(self).wf(),
            old(recordings).wf(),
        ensures
            final(self).wf(),
            final(recordings).wf(),
            final(recordings).directory() == old(recordings).directory(),
            final(recordings).session_id() == old(recordings).session_id(),
            final(recordings).count() == old(recordings).count(),
            match decoded_server_message(text@) {
                Ok(message) => message_outcome(
                    message,
                    old(self).streamed(),
                    old(recordings).pending(),
                    old(recordings).bindings(),
                    r,
                    final(self).streamed(),
                    final(recordings).pending(),
                    final(recordings).bindings(),
                ),
                Err(e) => {
                    &&& r matches Err(ProcessError::Unreadable(d)) && d@ == e
                    &&& final(self).streamed() == old(self).streamed()
                    &&& final(recordings).pending() == old(recordings).pending()
                    &&& final(recordings).bindings() == old(recordings).bindings()
                },
            },
    {
        match decode_server_message(text) {
            Ok(message) => self.process_message(recordings, &message),
            Err(detail) => Err(ProcessError::Unreadable(detail)),
        }
    }
}

/// The lines that the transcript log gains for one finished transcript.
pub open spec fn log_text(time: Seq<char>, original: Seq<char>, converted: Seq<char>, audio_path: Option<Seq<char>>) -> Seq<
    char,
> {
    "["@ + time + "] "@ + original + "\n"@ + "           "@ + converted + "\n"@ + match audio_path {
        Some(p) => "           [audio] "@ + p + "\n"@,
        None => Seq::empty(),
    }
}

impl LogEntry {
    /// The log lines for this entry, stamped with the wall-clock `time`.
    pub fn text(&self, time: &str) -> (r: String)
        ensures
            r@ == log_text(time@, self.original@, self.converted@, opt_path(self.audio_path)),
    {
        let mut out = chars_of("[");
        extend_str(&mut out, time);
        extend_str(&mut out, "] ");
        extend_str(&mut out, self.original.as_str());
        extend_str(&mut out, "\n");
        extend_str(&mut out, "           ");
        extend_str(&mut out, self.converted.as_str());
        extend_str(&mut out, "\n");
        match &self.audio_path {
            Some(p) => {
                extend_str(&mut out, "           [audio] ");
                extend_str(&mut out, p.as_str());
                extend_str(&mut out, "\n");
            },
            None => {},
        }
        string_of(&out)
    }
}

} // verus!

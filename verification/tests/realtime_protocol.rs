use std::path::PathBuf;

use vatsim_live_transcriber::realtime::protocol::{audio_append_message, audio_commit_message, LogEntry, ProcessError};
use vatsim_live_transcriber::realtime::session::{
    audio_command_action, authorization_value, close_action, frame_action, AudioCommand, FrameAction, ServerFrame,
    SessionAction,
};
use vatsim_live_transcriber::realtime::{session_update, ServerEventProcessor, TranscriptEvent};
use vatsim_live_transcriber::recording::RecordingTracker;
use vatsim_live_transcriber::{REALTIME_URL, SAMPLE_RATE, TRANSCRIPTION_MODEL};

/// Saves a turn whose file is written without error.
fn save(tracker: &mut RecordingTracker, pcm: &[u8]) -> Option<String> {
    let file = tracker.save_turn(pcm).unwrap()?;
    Some(tracker.turn_written(file, Ok(())).unwrap())
}

fn parse(text: &str) -> serde_json::Value {
    serde_json::from_str(text).unwrap()
}

#[test]
fn builds_transcription_session_update() {
    let update = parse(&session_update("ATC prompt", &["Speedbird".to_owned()], "high"));
    assert_eq!(update["type"], "session.update");
    assert_eq!(update["session"]["type"], "transcription");
    assert_eq!(
        update["session"]["audio"]["input"]["format"]["rate"],
        SAMPLE_RATE
    );
    assert_eq!(
        update["session"]["audio"]["input"]["transcription"]["model"],
        TRANSCRIPTION_MODEL
    );
    assert_eq!(
        update["session"]["audio"]["input"]["transcription"]["delay"],
        "high"
    );
    assert!(update["session"]["audio"]["input"]["turn_detection"].is_null());
    assert!(REALTIME_URL.contains("intent=transcription"));
}

#[test]
fn session_update_is_compact_json_with_escaped_text() {
    let text = session_update("say \"again\"\n", &["A\\B".to_owned(), "ÉCHO".to_owned()], "low");
    assert_eq!(
        text,
        "{\"session\":{\"audio\":{\"input\":{\"format\":{\"rate\":24000,\"type\":\"audio/pcm\"},\
         \"transcription\":{\"delay\":\"low\",\"keywords\":[\"A\\\\B\",\"ÉCHO\"],\"languages\":[\"en\"],\
         \"model\":\"gpt-live-transcribe\",\"prompt\":\"say \\\"again\\\"\\n\"},\"turn_detection\":null}},\
         \"type\":\"transcription\"},\"type\":\"session.update\"}"
    );
    let update = parse(&text);
    assert_eq!(update["session"]["audio"]["input"]["transcription"]["prompt"], "say \"again\"\n");
    assert_eq!(
        update["session"]["audio"]["input"]["transcription"]["keywords"],
        serde_json::Value::Array(vec!["A\\B".into(), "ÉCHO".into()])
    );
    let empty = parse(&session_update("p", &[], "medium"));
    assert_eq!(
        empty["session"]["audio"]["input"]["transcription"]["keywords"],
        serde_json::Value::Array(Vec::new())
    );
}

#[test]
fn streams_audio_as_base64_events() {
    assert_eq!(
        audio_append_message(&[0, 0, 0xff, 0x7f, 1]),
        "{\"audio\":\"AAD/fwE=\",\"type\":\"input_audio_buffer.append\"}"
    );
    assert_eq!(
        audio_append_message(&[]),
        "{\"audio\":\"\",\"type\":\"input_audio_buffer.append\"}"
    );
    assert_eq!(audio_commit_message(), "{\"type\":\"input_audio_buffer.commit\"}");
}

#[test]
fn turns_deltas_and_completion_into_gui_events_and_log() {
    let recordings_dir = PathBuf::from("session").join("audio");
    let mut tracker =
        RecordingTracker::with_session_id(recordings_dir.to_string_lossy().into_owned(), "test".to_owned());
    let recording = save(&mut tracker, &[0, 0, 1, 0]).unwrap();
    let mut processor = ServerEventProcessor::new();

    let mut events = Vec::new();
    let mut log = String::new();
    for message in [
        r#"{"type":"input_audio_buffer.committed","item_id":"turn"}"#,
        r#"{"type":"conversation.item.input_audio_transcription.delta","item_id":"turn","delta":"Speedbird "}"#,
        r#"{"type":"conversation.item.input_audio_transcription.delta","item_id":"turn","delta":"one two three"}"#,
        r#"{"type":"conversation.item.input_audio_transcription.completed","item_id":"turn","transcript":"Speedbird one two three"}"#,
    ] {
        let processed = processor.process(&mut tracker, message).unwrap();
        events.extend(processed.events);
        if let Some(entry) = processed.log {
            log.push_str(&entry.text("12:00:00"));
        }
    }

    assert_eq!(
        events[0],
        TranscriptEvent::Delta {
            item_id: "turn".to_owned(),
            original: "Speedbird ".to_owned(),
            converted: "Speedbird ".to_owned(),
        }
    );
    assert_eq!(
        events[1],
        TranscriptEvent::Delta {
            item_id: "turn".to_owned(),
            original: "Speedbird one two three".to_owned(),
            converted: "Speedbird 123".to_owned(),
        }
    );
    assert_eq!(
        events[2],
        TranscriptEvent::Completed {
            item_id: "turn".to_owned(),
            original: "Speedbird one two three".to_owned(),
            converted: "Speedbird 123".to_owned(),
            audio_path: Some(recording),
        }
    );
    assert!(log.contains("Speedbird one two three"));
    assert!(log.contains("Speedbird 123"));
    assert!(log.contains("[audio]"));
}

#[test]
fn exposes_server_error_message() {
    let mut tracker = RecordingTracker::with_session_id("audio".to_owned(), "test".to_owned());
    let mut processor = ServerEventProcessor::new();
    let error = processor
        .process(&mut tracker, r#"{"type":"error","error":{"message":"bad session"}}"#)
        .unwrap_err();
    assert!(error.message().contains("bad session"));
    assert_eq!(error, ProcessError::Api("bad session".to_owned()));
}

#[test]
fn error_without_message_reports_the_whole_event() {
    let mut tracker = RecordingTracker::with_session_id("audio".to_owned(), "test".to_owned());
    let mut processor = ServerEventProcessor::new();
    let error = processor.process(&mut tracker, r#"{"type": "error", "code": 7}"#).unwrap_err();
    assert_eq!(error, ProcessError::Api("{\"code\":7,\"type\":\"error\"}".to_owned()));
    assert_eq!(error.message(), "OpenAI API error: {\"code\":7,\"type\":\"error\"}");
}

#[test]
fn refuses_unreadable_server_text() {
    let mut tracker = RecordingTracker::with_session_id("audio".to_owned(), "test".to_owned());
    let mut processor = ServerEventProcessor::new();
    let error = processor.process(&mut tracker, "not json").unwrap_err();
    match &error {
        ProcessError::Unreadable(detail) => assert!(!detail.is_empty()),
        other => panic!("unexpected error {other:?}"),
    }
    assert!(error.message().starts_with("the server returned an unreadable message: "));
}

#[test]
fn ignores_other_events_and_empty_deltas() {
    let mut tracker = RecordingTracker::with_session_id("audio".to_owned(), "test".to_owned());
    save(&mut tracker, &[0, 0]).unwrap();
    let mut processor = ServerEventProcessor::new();
    for message in [
        r#"{"type":"session.created"}"#,
        r#"{"item_id":"x"}"#,
        r#"{"type":"conversation.item.input_audio_transcription.delta","item_id":"x","delta":""}"#,
        r#"[1, 2]"#,
    ] {
        let processed = processor.process(&mut tracker, message).unwrap();
        assert!(processed.events.is_empty());
        assert!(processed.log.is_none());
    }
    // The recording is still waiting for the first transcribed item.
    let processed = processor
        .process(
            &mut tracker,
            r#"{"type":"conversation.item.input_audio_transcription.completed","item_id":"y","transcript":"  one  "}"#,
        )
        .unwrap();
    match &processed.events[0] {
        TranscriptEvent::Completed { original, converted, audio_path, .. } => {
            assert_eq!(original, "one");
            assert_eq!(converted, "1");
            assert!(audio_path.as_deref().unwrap().ends_with("turn-test-0001.wav"));
        }
        other => panic!("unexpected event {other:?}"),
    }
}

#[test]
fn blank_completion_reports_nothing() {
    let mut tracker = RecordingTracker::with_session_id("audio".to_owned(), "test".to_owned());
    let mut processor = ServerEventProcessor::new();
    let processed = processor
        .process(
            &mut tracker,
            r#"{"type":"conversation.item.input_audio_transcription.completed","item_id":"z","transcript":"   "}"#,
        )
        .unwrap();
    assert!(processed.events.is_empty());
    assert!(processed.log.is_none());
}

#[test]
fn formats_log_entries() {
    let entry = LogEntry {
        original: "heading two seven zero".to_owned(),
        converted: "heading 270".to_owned(),
        audio_path: Some("a/turn.wav".to_owned()),
    };
    assert_eq!(
        entry.text("09:15:00"),
        "[09:15:00] heading two seven zero\n           heading 270\n           [audio] a/turn.wav\n"
    );
    let without = LogEntry { audio_path: None, ..entry };
    assert_eq!(without.text("09:15:01"), "[09:15:01] heading two seven zero\n           heading 270\n");
}

#[test]
fn decides_what_each_audio_command_sends() {
    assert_eq!(
        audio_command_action(AudioCommand::Append(vec![1, 2, 3])),
        SessionAction::Send("{\"audio\":\"AQID\",\"type\":\"input_audio_buffer.append\"}".to_owned())
    );
    assert_eq!(
        audio_command_action(AudioCommand::Commit),
        SessionAction::Send("{\"type\":\"input_audio_buffer.commit\"}".to_owned())
    );
    assert_eq!(
        audio_command_action(AudioCommand::Failed("device lost".to_owned())),
        SessionAction::Fail("audio capture failed: device lost".to_owned())
    );
    assert_eq!(audio_command_action(AudioCommand::Finished), SessionAction::Finish);
}

#[test]
fn explains_a_server_close() {
    assert_eq!(close_action(true, Some((1000, "bye".to_owned()))), SessionAction::Finish);
    assert_eq!(
        close_action(false, Some((1011, "overloaded".to_owned()))),
        SessionAction::Fail("OpenAI closed the connection: 1011 overloaded".to_owned())
    );
    assert_eq!(
        close_action(false, None),
        SessionAction::Fail("OpenAI closed the connection: no reason supplied".to_owned())
    );
    assert_eq!(authorization_value("sk-test"), "Bearer sk-test");
}

#[test]
fn answers_server_frames() {
    assert_eq!(frame_action(false, ServerFrame::Ping(vec![7, 8])), FrameAction::Pong(vec![7, 8]));
    assert_eq!(frame_action(false, ServerFrame::Other), FrameAction::Continue);
    assert_eq!(frame_action(false, ServerFrame::Ended), FrameAction::Close(SessionAction::Finish));
    assert_eq!(
        frame_action(false, ServerFrame::Failed("reset".to_owned())),
        FrameAction::Close(SessionAction::Fail("OpenAI WebSocket error: reset".to_owned()))
    );
    assert_eq!(
        frame_action(true, ServerFrame::Close(Some((1000, "bye".to_owned())))),
        FrameAction::Close(SessionAction::Finish)
    );
    assert_eq!(
        frame_action(false, ServerFrame::Close(None)),
        FrameAction::Close(SessionAction::Fail("OpenAI closed the connection: no reason supplied".to_owned()))
    );
}

use std::path::PathBuf;

use vatsim_live_transcriber::audio::{
    channel_frame_count, pcm16_le_bytes, resolve_device, select_channel, wav_file_bytes, AudioDevice, ChannelSelection, LocalVad,
    SampleChunker, WavError,
};
use vatsim_live_transcriber::config::{parse_keywords, prompt_text, KeywordError, PromptError};
use vatsim_live_transcriber::realtime::session::TurnCapture;
use vatsim_live_transcriber::recording::{RecordingError, RecordingTracker};
use vatsim_live_transcriber::transcript::{normalize_spoken_numbers, transcript_variants};
use vatsim_live_transcriber::{DEFAULT_PROMPT, FRAMES_PER_CHUNK, REALTIME_URL, SAMPLE_RATE, TRANSCRIPTION_MODEL};

/// Saves a turn whose file is written without error.
fn save(tracker: &mut RecordingTracker, pcm: &[u8]) -> Result<Option<String>, RecordingError> {
    match tracker.save_turn(pcm)? {
        None => Ok(None),
        Some(file) => tracker.turn_written(file, Ok(())).map(Some),
    }
}

/// The mean of a frame's samples.
fn average(frame: &[f32]) -> f32 {
    frame.iter().sum::<f32>() / frame.len() as f32
}

#[test]
fn selects_left_channel() {
    let stereo = [0.1, 0.8, -0.2, 0.7];
    assert_eq!(
        select_channel(&stereo, 2, ChannelSelection::Left, average).unwrap(),
        vec![0.1, -0.2]
    );
}

#[test]
fn selects_right_channel() {
    let stereo = [0.1, 0.8, -0.2, 0.7];
    assert_eq!(
        select_channel(&stereo, 2, ChannelSelection::Right, average).unwrap(),
        vec![0.8, 0.7]
    );
}

#[test]
fn mixes_channels() {
    let stereo = [0.2, 0.6, -0.6, 0.2];
    let mixed = select_channel(&stereo, 2, ChannelSelection::Mix, average).unwrap();
    assert!((mixed[0] - 0.4).abs() < 1e-6);
    assert!((mixed[1] + 0.2).abs() < 1e-6);
}

#[test]
fn selecting_a_channel_checks_the_layout() {
    assert_eq!(
        select_channel(&[1, 2, 3], 2, ChannelSelection::Left, |frame: &[i32]| frame[0]),
        Err("sample count 3 is not divisible by channel count 2".to_owned())
    );
    assert_eq!(
        select_channel(&[1, 2, 3], 1, ChannelSelection::Right, |frame: &[i32]| frame[0]),
        Err("the selected device is mono; it has no right channel".to_owned())
    );
    assert_eq!(
        select_channel(&[1, 2, 3, 4, 5, 6], 3, ChannelSelection::Mix, |frame: &[i32]| frame.iter().sum()),
        Ok(vec![6, 15])
    );
}

fn devices() -> Vec<AudioDevice> {
    vec![
        AudioDevice {
            id: "one".to_owned(),
            name: "CABLE In 16ch".to_owned(),
        },
        AudioDevice {
            id: "two".to_owned(),
            name: "Speakers".to_owned(),
        },
    ]
}

#[test]
fn writes_mono_pcm16_wav() {
    let pcm = [0x00, 0x00, 0xff, 0x7f, 0x01, 0x80];
    let wav = wav_file_bytes(&pcm).unwrap();
    assert_eq!(&wav[0..4], b"RIFF");
    assert_eq!(&wav[8..12], b"WAVE");
    assert_eq!(u16::from_le_bytes([wav[22], wav[23]]), 1);
    assert_eq!(
        u32::from_le_bytes(wav[24..28].try_into().unwrap()),
        SAMPLE_RATE
    );
    assert_eq!(u16::from_le_bytes([wav[34], wav[35]]), 16);
    assert_eq!(&wav[44..], &pcm);
}

#[test]
fn wav_header_fields_are_exact() {
    let pcm = [1u8, 2, 3, 4];
    let wav = wav_file_bytes(&pcm).unwrap();
    assert_eq!(wav.len(), 48);
    assert_eq!(u32::from_le_bytes(wav[4..8].try_into().unwrap()), 40);
    assert_eq!(&wav[12..16], b"fmt ");
    assert_eq!(u32::from_le_bytes(wav[16..20].try_into().unwrap()), 16);
    assert_eq!(u16::from_le_bytes([wav[20], wav[21]]), 1);
    assert_eq!(u32::from_le_bytes(wav[28..32].try_into().unwrap()), 48_000);
    assert_eq!(u16::from_le_bytes([wav[32], wav[33]]), 2);
    assert_eq!(&wav[36..40], b"data");
    assert_eq!(u32::from_le_bytes(wav[40..44].try_into().unwrap()), 4);
    assert_eq!(wav_file_bytes(&[]).unwrap().len(), 44);
}

#[test]
fn refuses_incomplete_pcm16_sample() {
    assert_eq!(wav_file_bytes(&[1, 2, 3]), Err(WavError::IncompleteSample));
    assert_eq!(
        WavError::IncompleteSample.message(),
        "PCM16 data must contain complete two-byte samples"
    );
    assert_eq!(WavError::TooLarge.message(), "recording is too large for WAV");
}

#[test]
fn exposes_transcription_session_constants() {
    assert_eq!(
        REALTIME_URL,
        "wss://api.openai.com/v1/realtime?intent=transcription"
    );
    assert_eq!(TRANSCRIPTION_MODEL, "gpt-live-transcribe");
    assert_eq!(FRAMES_PER_CHUNK, 2_400);
    assert!(DEFAULT_PROMPT.starts_with("English VATSIM air traffic control radio communications."));
    assert!(DEFAULT_PROMPT.ends_with("Do not invent missing speech."));
}

#[test]
fn vad_adds_prefix_and_commits_after_silence() {
    let threshold = 0.1_f32;
    let speech = |rms: f32| rms >= threshold;
    let mut vad = LocalVad::new(200, 100, 200);
    assert_eq!(vad.process(b"quiet-1", speech(0.0)).chunks, Vec::<Vec<u8>>::new());
    assert_eq!(vad.process(b"quiet-2", speech(0.0)).chunks, Vec::<Vec<u8>>::new());
    assert_eq!(
        vad.process(b"speech", speech(0.5)).chunks,
        vec![b"quiet-2".to_vec(), b"speech".to_vec()]
    );
    assert!(!vad.process(b"tail-1", speech(0.0)).commit);
    assert!(vad.process(b"tail-2", speech(0.0)).commit);
}

#[test]
fn vad_speech_resets_the_silence_count() {
    let mut vad = LocalVad::new(200, 100, 100);
    assert!(vad.process(b"a", true).chunks == vec![b"a".to_vec()]);
    let quiet = vad.process(b"b", false);
    assert_eq!(quiet.chunks, vec![b"b".to_vec()]);
    assert!(!quiet.commit);
    assert!(!vad.process(b"c", true).commit);
    assert!(!vad.process(b"d", false).commit);
    let end = vad.process(b"e", false);
    assert!(end.commit);
    assert_eq!(end.chunks, vec![b"e".to_vec()]);
    // After a commit the detector waits for speech again, with a fresh prefix.
    assert!(vad.process(b"f", false).chunks.is_empty());
    assert_eq!(vad.process(b"g", true).chunks, vec![b"g".to_vec()]);
}

#[test]
fn vad_rounds_durations_to_whole_chunks() {
    // 149 ms of silence at 100 ms chunks rounds to one chunk.
    let mut vad = LocalVad::new(149, 100, 0);
    assert_eq!(vad.process(b"x", true).chunks, vec![b"x".to_vec()]);
    assert!(vad.process(b"y", false).commit);
    // 150 ms rounds up to two chunks.
    let mut vad = LocalVad::new(150, 100, 0);
    vad.process(b"x", true);
    assert!(!vad.process(b"y", false).commit);
    assert!(vad.process(b"z", false).commit);
}

#[test]
fn normalizes_frequency() {
    assert_eq!(
        normalize_spoken_numbers("contact tower one one eight decimal five zero five, bye"),
        "contact tower 118.505, bye"
    );
}

#[test]
fn normalizes_common_atc_numbers() {
    assert_eq!(
        normalize_spoken_numbers(
            "Speedbird one two three, runway two seven left, heading two seven zero, squawk seven zero zero zero"
        ),
        "Speedbird 123, runway 27 left, heading 270, squawk 7000"
    );
}

#[test]
fn normalizes_cardinal_and_icao_words() {
    assert_eq!(
        normalize_spoken_numbers(
            "climb six thousand feet, QNH one zero one three, frequency one two tree decimal fife niner zero"
        ),
        "climb 6000 feet, QNH 1013, frequency 123.590"
    );
}

#[test]
fn normalizes_double_and_triple_digits() {
    assert_eq!(
        normalize_spoken_numbers("squawk seven double zero, triple two"),
        "squawk 700, 222"
    );
}

#[test]
fn normalizes_nineer_variant() {
    assert_eq!(
        normalize_spoken_numbers("AC nineer nineer taxi left Echo hold Echo one."),
        "AC 99 taxi left Echo hold Echo 1."
    );
}

#[test]
fn keeps_text_without_number_words() {
    let text = "Speedbird, cleared to land; wind calm!";
    assert_eq!(normalize_spoken_numbers(text), text);
    assert_eq!(normalize_spoken_numbers(""), "");
}

#[test]
fn keeps_original_above_normalized_variant() {
    assert_eq!(
        transcript_variants("Speedbird one two three"),
        vec!["Speedbird one two three", "Speedbird 123"]
    );
    assert_eq!(
        transcript_variants("No spoken numbers"),
        vec!["No spoken numbers", "No spoken numbers"]
    );
}

#[test]
fn blank_transcript_has_no_variants() {
    assert!(transcript_variants("   \t\n").is_empty());
    assert_eq!(
        transcript_variants("  runway two seven  "),
        vec!["runway two seven", "runway 27"]
    );
}

#[test]
fn loads_case_insensitive_unique_keywords() {
    let content = "Speedbird\n# comment\nspeedbird\nQNH\n";
    assert_eq!(parse_keywords(content).unwrap(), vec!["Speedbird", "QNH"]);
}

#[test]
fn refuses_keywords_with_angle_brackets() {
    let error = parse_keywords("ok\n  <bad> \nlater\n").unwrap_err();
    assert_eq!(error, KeywordError::Invalid("<bad>".to_owned()));
    assert_eq!(error.message(), "invalid keyword: \"<bad>\"");
    assert_eq!(parse_keywords("").unwrap(), Vec::<String>::new());
    assert_eq!(
        parse_keywords("  ÄRLANDA \r\närlanda\n\n").unwrap(),
        vec!["ÄRLANDA"]
    );
}

#[test]
fn loads_default_and_multiline_prompts() {
    assert_eq!(prompt_text(None).unwrap(), DEFAULT_PROMPT);
    let content = "First line\nSecond line\n";
    assert_eq!(prompt_text(Some(content)).unwrap(), "First line Second line");
}

#[test]
fn refuses_blank_prompt() {
    assert_eq!(prompt_text(Some(" \n\t\n")), Err(PromptError::Empty));
    assert_eq!(PromptError::Empty.message(), "the prompt file is empty");
}

#[test]
fn resolves_audio_device_by_number_or_unique_name() {
    let devices = devices();
    assert_eq!(resolve_device(&devices, "1").unwrap().id, "one");
    assert_eq!(resolve_device(&devices, "16CH").unwrap().id, "one");
    assert!(resolve_device(&devices, "missing").is_err());
}

#[test]
fn reports_why_no_device_was_resolved() {
    let devices = devices();
    assert_eq!(resolve_device(&devices, "+2").unwrap().id, "two");
    assert_eq!(
        resolve_device(&devices, "3").unwrap_err(),
        "device number must be between 1 and 2"
    );
    assert_eq!(
        resolve_device(&devices, "0").unwrap_err(),
        "device number must be between 1 and 2"
    );
    assert_eq!(
        resolve_device(&devices, "Missing").unwrap_err(),
        "no output device contains \"missing\""
    );
    assert_eq!(
        resolve_device(&devices, "e").unwrap_err(),
        "more than one output device contains \"e\""
    );
    assert_eq!(
        resolve_device(&[], "1").unwrap_err(),
        "no active Windows output devices were found"
    );
    let unicode = vec![AudioDevice {
        id: "x".to_owned(),
        name: "ÅLESUND Headset".to_owned(),
    }];
    assert_eq!(resolve_device(&unicode, "ålesund").unwrap().id, "x");
}

#[test]
fn parses_and_names_channels() {
    assert_eq!(ChannelSelection::parse("LEFT"), Ok(ChannelSelection::Left));
    assert_eq!(ChannelSelection::parse("Right"), Ok(ChannelSelection::Right));
    assert_eq!(ChannelSelection::parse("mix"), Ok(ChannelSelection::Mix));
    assert_eq!(
        ChannelSelection::parse("centre"),
        Err("unknown channel: centre".to_owned())
    );
    for channel in [ChannelSelection::Left, ChannelSelection::Right, ChannelSelection::Mix] {
        assert_eq!(ChannelSelection::parse(channel.as_str()), Ok(channel));
    }
}

#[test]
fn checks_interleaved_channel_layout() {
    assert_eq!(channel_frame_count(4, 2, ChannelSelection::Right), Ok(2));
    assert_eq!(
        channel_frame_count(4, 0, ChannelSelection::Left),
        Err("audio must contain at least one channel".to_owned())
    );
    assert_eq!(
        channel_frame_count(5, 2, ChannelSelection::Mix),
        Err("sample count 5 is not divisible by channel count 2".to_owned())
    );
    assert_eq!(
        channel_frame_count(3, 1, ChannelSelection::Right),
        Err("the selected device is mono; it has no right channel".to_owned())
    );
}

#[test]
fn encodes_pcm16_little_endian() {
    assert_eq!(
        pcm16_le_bytes(&[-32_767, 0, 32_767, 1]),
        vec![0x01, 0x80, 0x00, 0x00, 0xff, 0x7f, 0x01, 0x00]
    );
}

#[test]
fn frames_streaming_audio_into_chunks() {
    let mut chunker = SampleChunker::new(3).unwrap();
    assert!(chunker.push(&[1.0_f32, 2.0]).is_empty());
    assert_eq!(
        chunker.push(&[3.0, 4.0, 5.0, 6.0]),
        vec![vec![1.0, 2.0, 3.0], vec![4.0, 5.0, 6.0]]
    );
    assert!(SampleChunker::<f32>::new(0).is_err());
}

#[test]
fn chunking_keeps_every_sample_in_order() {
    let mut chunker = SampleChunker::new(4).unwrap();
    let mut out = Vec::new();
    for piece in [&[1u8, 2, 3][..], &[4, 5][..], &[6, 7, 8, 9, 10][..], &[11][..]] {
        for chunk in chunker.push(piece) {
            assert_eq!(chunk.len(), 4);
            out.extend(chunk);
        }
    }
    assert_eq!(out, vec![1, 2, 3, 4, 5, 6, 7, 8]);
    assert_eq!(chunker.push(&[12]), vec![vec![9, 10, 11, 12]]);
}

#[test]
fn records_and_binds_turns_in_order() {
    let directory = PathBuf::from("recordings");
    let mut tracker =
        RecordingTracker::with_session_id(directory.to_string_lossy().into_owned(), "test".to_owned());
    let first = save(&mut tracker, &[0, 0]).unwrap().unwrap();
    let second = save(&mut tracker, &[1, 0]).unwrap().unwrap();
    assert!(first.ends_with("turn-test-0001.wav"));
    assert!(second.ends_with("turn-test-0002.wav"));
    assert_eq!(tracker.bind("item-one"), Some(first.clone()));
    assert_eq!(tracker.bind("item-one"), Some(first.clone()));
    assert_eq!(tracker.bind("item-two"), Some(second.clone()));
    tracker.finish("item-one");
}

#[test]
fn stores_each_turn_as_a_wav_file_inside_the_directory() {
    let directory = PathBuf::from("session").join("audio");
    let dir_text = directory.to_string_lossy().into_owned();
    let mut tracker = RecordingTracker::with_session_id(dir_text, "s1".to_owned());
    let file = tracker.save_turn(&[5, 6]).unwrap().unwrap();
    assert_eq!(PathBuf::from(&file.path), directory.join("turn-s1-0001.wav"));
    assert_eq!(file.bytes, wav_file_bytes(&[5, 6]).unwrap());
    // Nothing is queued until the file is written.
    assert_eq!(tracker.bind("early"), None);
    let path = tracker.turn_written(file.clone(), Ok(())).unwrap();
    assert_eq!(path, file.path);
    assert_eq!(tracker.bind("item"), Some(path));
}

#[test]
fn saving_nothing_or_failing_queues_no_recording() {
    let mut tracker = RecordingTracker::with_session_id("unused".to_owned(), "t".to_owned());
    assert_eq!(tracker.save_turn(&[]), Ok(None));
    let file = tracker.save_turn(&[1, 2]).unwrap().unwrap();
    let failed = tracker.turn_written(file, Err("disk full".to_owned()));
    match failed {
        Err(RecordingError::Storage { path, message }) => {
            assert!(path.ends_with("turn-t-0001.wav"));
            assert_eq!(message, "disk full");
            let error = RecordingError::Storage { path: path.clone(), message };
            assert_eq!(error.message(), format!("could not save recording {path}: disk full"));
        }
        other => panic!("unexpected result {other:?}"),
    }
    match tracker.save_turn(&[1]) {
        Err(RecordingError::Wav { path, error }) => {
            assert!(path.ends_with("turn-t-0002.wav"));
            assert_eq!(error, WavError::IncompleteSample);
            let message = RecordingError::Wav { path: path.clone(), error }.message();
            assert_eq!(
                message,
                format!("could not save recording {path}: PCM16 data must contain complete two-byte samples")
            );
        }
        other => panic!("unexpected result {other:?}"),
    }
    assert_eq!(tracker.bind("item"), None);
    // The failed numbers stay used.
    assert!(save(&mut tracker, &[0, 0]).unwrap().unwrap().ends_with("turn-t-0003.wav"));
    assert_eq!(
        RecordingError::TooMany.message(),
        "too many recordings were created in one session"
    );
}

#[test]
fn bind_ignores_empty_item_and_finish_releases_binding() {
    let mut tracker = RecordingTracker::with_session_id("d".to_owned(), "x".to_owned());
    let first = save(&mut tracker, &[0, 0]).unwrap().unwrap();
    assert_eq!(tracker.bind(""), None);
    assert_eq!(tracker.bind("a"), Some(first.clone()));
    tracker.finish("a");
    assert_eq!(tracker.bind("a"), None);
}

#[test]
fn capture_streams_transmission_and_hands_out_its_audio() {
    // 100 ms of silence ends a transmission after one quiet chunk.
    let mut capture = TurnCapture::new(100);
    let idle = capture.process(&[1, 1], false);
    assert!(idle.sends.is_empty());
    assert_eq!(idle.finished_turn, None);
    let start = capture.process(&[2, 2], true);
    assert_eq!(start.sends, vec![vec![1, 1], vec![2, 2]]);
    assert_eq!(start.finished_turn, None);
    let end = capture.process(&[3, 3], false);
    assert_eq!(end.sends, vec![vec![3, 3]]);
    assert_eq!(end.finished_turn, Some(vec![1, 1, 2, 2, 3, 3]));
    // The next transmission starts from nothing.
    capture.process(&[4, 4], true);
    let next = capture.process(&[5, 5], false);
    assert_eq!(next.finished_turn, Some(vec![4, 4, 5, 5]));
}

#[test]
fn capture_sends_speech_with_the_quiet_chunks_before_it() {
    let mut capture = TurnCapture::new(500);
    for quiet in 1u8..=5 {
        assert!(capture.process(&[quiet], false).sends.is_empty());
    }
    assert_eq!(
        capture.process(&[9], true).sends,
        vec![vec![4], vec![5], vec![9]]
    );
}

#[test]
fn white_space_matches_the_unicode_property() {
    for code in 0u32..=0x3100 {
        if let Some(c) = char::from_u32(code) {
            assert_eq!(vatsim_live_transcriber::text::is_white_space(c), c.is_whitespace(), "{code:#x}");
        }
    }
    assert!(!vatsim_live_transcriber::text::is_white_space('\u{feff}'));
}

#[test]
fn recording_paths_put_one_separator_between_directory_and_name() {
    let mut tracker = RecordingTracker::with_session_id("rec/".to_owned(), "x".to_owned());
    assert_eq!(save(&mut tracker, &[0, 0]).unwrap().unwrap(), "rec/turn-x-0001.wav");
    let mut tracker = RecordingTracker::with_session_id(String::new(), "x".to_owned());
    assert_eq!(save(&mut tracker, &[0, 0]).unwrap().unwrap(), "turn-x-0001.wav");
    let mut tracker = RecordingTracker::with_session_id("rec-audio".to_owned(), "x".to_owned());
    let path = save(&mut tracker, &[0, 0]).unwrap().unwrap();
    assert_eq!(PathBuf::from(&path), PathBuf::from("rec-audio").join("turn-x-0001.wav"));
    assert_ne!(path, "rec-audioturn-x-0001.wav");
}

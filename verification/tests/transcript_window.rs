use vatsim_live_transcriber::audio::format::{
    device_format, integer_sample, packet_plan, DeviceFormat, FormatError, PacketPlan, SampleEncoding, SubFormat,
};
use vatsim_live_transcriber::audio::ChannelSelection;
use vatsim_live_transcriber::realtime::TranscriptEvent;
use vatsim_live_transcriber::ui::{check_start, initial_screen, Screen, SessionStatus, TranscriptBoard, TransmissionRow};

fn delta(item: &str, original: &str, converted: &str) -> TranscriptEvent {
    TranscriptEvent::Delta {
        item_id: item.to_owned(),
        original: original.to_owned(),
        converted: converted.to_owned(),
    }
}

fn completed(item: &str, original: &str, converted: &str, audio: Option<&str>) -> TranscriptEvent {
    TranscriptEvent::Completed {
        item_id: item.to_owned(),
        original: original.to_owned(),
        converted: converted.to_owned(),
        audio_path: audio.map(str::to_owned),
    }
}

fn row(original: &str, converted: &str, audio: Option<&str>) -> TransmissionRow {
    TransmissionRow {
        original: original.to_owned(),
        converted: converted.to_owned(),
        audio_path: audio.map(str::to_owned),
    }
}

#[test]
fn opens_transcript_only_when_fully_configured() {
    assert_eq!(initial_screen(true, true, " sk-key "), Screen::Transcript);
    assert_eq!(initial_screen(true, true, "  \t"), Screen::Setup);
    assert_eq!(initial_screen(false, true, "sk"), Screen::Setup);
    assert_eq!(initial_screen(true, false, "sk"), Screen::Setup);
}

#[test]
fn refuses_to_start_with_reasons() {
    assert_eq!(
        check_start(true, true, "sk"),
        Err("The previous session is still stopping. Try again.")
    );
    assert_eq!(check_start(false, false, "sk"), Err("No Windows output device is selected."));
    assert_eq!(
        check_start(false, true, " "),
        Err("Enter an OpenAI API key in the setup screen.")
    );
    assert_eq!(check_start(false, true, "sk"), Ok(()));
}

#[test]
fn deltas_fill_one_row_until_completion() {
    let mut board = TranscriptBoard::new();
    assert_eq!(board.status(), SessionStatus::Ready);
    assert_eq!(board.status_text(), "Ready - press Start");
    assert!(!board.apply(TranscriptEvent::Connected));
    assert_eq!(board.status(), SessionStatus::Connected);
    assert_eq!(board.status_text(), "Connected - waiting for radio audio");
    assert_eq!(board.status_color(), (34, 197, 94));

    assert!(!board.apply(delta("a", "  Speedbird ", " Speedbird ")));
    assert!(!board.apply(delta("b", "two", "2")));
    assert!(!board.apply(delta("a", "Speedbird one", "Speedbird 1")));
    assert_eq!(
        board.rows(),
        &vec![row("Speedbird one", "Speedbird 1", None), row("two", "2", None)]
    );
    assert!(!board.apply(completed("a", "Speedbird one two", "Speedbird 12", Some("a.wav"))));
    assert_eq!(board.rows()[0], row("Speedbird one two", "Speedbird 12", Some("a.wav")));
    // A completed item starts a new row when it streams again.
    assert!(!board.apply(delta("a", "again", "again")));
    assert_eq!(board.rows().len(), 3);
    assert_eq!(board.rows()[2], row("again", "again", None));
    board.clear();
    assert!(board.rows().is_empty());
    assert_eq!(board.status(), SessionStatus::Connected);
}

#[test]
fn stopping_keeps_an_error_visible() {
    let mut board = TranscriptBoard::new();
    assert!(!board.apply(TranscriptEvent::Error("boom".to_owned())));
    assert_eq!(board.status_color(), (239, 68, 68));
    assert!(board.apply(TranscriptEvent::Stopped));
    assert_eq!(board.status(), SessionStatus::Error);
    assert_eq!(board.status_text(), "boom");

    let mut board = TranscriptBoard::new();
    board.set_status(SessionStatus::Stopping, "Stopping...");
    assert_eq!(board.status_color(), (251, 191, 36));
    assert!(board.apply(TranscriptEvent::Stopped));
    assert_eq!(board.status(), SessionStatus::Ready);
    assert_eq!(board.status_text(), "Stopped - press Start to reconnect");
    assert_eq!(board.status_color(), (156, 163, 175));
    board.set_error("bad".to_owned());
    assert_eq!(board.status(), SessionStatus::Error);
    assert_eq!(board.status_text(), "bad");
}

#[test]
fn reads_endpoint_mix_formats() {
    assert_eq!(
        device_format(65534, 2, 48_000, 8, 32, SubFormat::IeeeFloat),
        Ok(DeviceFormat {
            channels: 2,
            sample_rate: 48_000,
            block_align: 8,
            bytes_per_sample: 4,
            encoding: SampleEncoding::Float32,
        })
    );
    assert_eq!(
        device_format(1, 2, 44_100, 6, 24, SubFormat::Other),
        Ok(DeviceFormat {
            channels: 2,
            sample_rate: 44_100,
            block_align: 6,
            bytes_per_sample: 3,
            encoding: SampleEncoding::Signed24,
        })
    );
    assert_eq!(device_format(3, 0, 48_000, 8, 32, SubFormat::Other), Err(FormatError::Invalid));
    assert_eq!(
        device_format(65534, 2, 48_000, 8, 32, SubFormat::Other),
        Err(FormatError::UnsupportedExtensible)
    );
    assert_eq!(device_format(2, 2, 48_000, 8, 32, SubFormat::Pcm), Err(FormatError::UnsupportedTag(2)));
    assert_eq!(device_format(3, 2, 48_000, 8, 16, SubFormat::Pcm), Err(FormatError::UnsupportedBits(16)));
    assert_eq!(device_format(1, 2, 48_000, 3, 16, SubFormat::Pcm), Err(FormatError::InvalidBlockAlign));
    assert_eq!(
        FormatError::UnsupportedTag(2).message(),
        "the selected audio device uses unsupported format tag 2"
    );
    assert_eq!(
        FormatError::UnsupportedBits(12).message(),
        "the selected audio device uses unsupported 12-bit samples"
    );
}

#[test]
fn reads_integer_samples_little_endian() {
    assert_eq!(integer_sample(SampleEncoding::Unsigned8, &[0]), -128);
    assert_eq!(integer_sample(SampleEncoding::Unsigned8, &[255]), 127);
    assert_eq!(integer_sample(SampleEncoding::Signed16, &[0xff, 0x7f]), 32_767);
    assert_eq!(integer_sample(SampleEncoding::Signed16, &[0x01, 0x80]), -32_767);
    assert_eq!(integer_sample(SampleEncoding::Signed24, &[0xff, 0xff, 0xff, 9]), -1);
    assert_eq!(integer_sample(SampleEncoding::Signed24, &[0x00, 0x00, 0x80]), -8_388_608);
    assert_eq!(integer_sample(SampleEncoding::Signed24, &[0x01, 0x02, 0x03]), 0x030201);
    assert_eq!(integer_sample(SampleEncoding::Signed32, &[0, 0, 0, 0x80]), i32::MIN);
    assert_eq!(integer_sample(SampleEncoding::Signed32, &[0xff, 0xff, 0xff, 0x7f]), i32::MAX);
}

#[test]
fn plans_how_to_read_a_packet() {
    let stereo = device_format(1, 2, 48_000, 4, 16, SubFormat::Pcm).unwrap();
    let mono = device_format(1, 1, 48_000, 2, 16, SubFormat::Pcm).unwrap();
    assert_eq!(packet_plan(&stereo, 10, false, true, ChannelSelection::Right), Ok(PacketPlan::Decode(40)));
    assert_eq!(packet_plan(&stereo, 10, true, false, ChannelSelection::Mix), Ok(PacketPlan::Silence(10)));
    assert_eq!(
        packet_plan(&mono, 10, true, true, ChannelSelection::Right),
        Err("the selected device is mono; it has no right channel".to_owned())
    );
    assert_eq!(
        packet_plan(&stereo, 10, false, false, ChannelSelection::Left),
        Err("Windows returned an empty non-silent audio buffer".to_owned())
    );
    assert_eq!(
        packet_plan(&stereo, usize::MAX, false, true, ChannelSelection::Left),
        Err("the captured audio packet is too large".to_owned())
    );
}

use openclaw_listen::audio::{
    capture_outcome, device_name, device_names, encode_wav_mono_i16, finish_capture,
    resampled_len, resampling_neighbours, wake_frame_samples, AudioError, AudioInput, DeviceChoice,
    InputRange, WakeAction, WakeEvent, WakeWait, WavStep,
};
use openclaw_listen::config::{AudioConfig, SpeechConfig};
use std::time::Duration;

fn input(device: &str) -> AudioInput {
    AudioInput::new(
        AudioConfig { input_device: device.to_string(), sample_rate_hz: 16_000, channel_count: 1 },
        SpeechConfig::standard(),
    )
}

fn names() -> Vec<Option<String>> {
    vec![
        Some("HDA Intel PCH".to_string()),
        None,
        Some("USB Microphone".to_string()),
        Some("usb microphone 2".to_string()),
    ]
}

#[test]
fn the_default_device_is_used_where_none_is_named() {
    assert!(input(" \t").uses_default_device());
    assert_eq!(input("").select_input_device(&names()).unwrap(), DeviceChoice::Default);
}

#[test]
fn a_device_is_found_by_part_of_its_name() {
    assert!(!input("usb").uses_default_device());
    assert_eq!(input(" USB mic ").select_input_device(&names()).unwrap(), DeviceChoice::Listed(2));
    assert_eq!(
        input("usb microphone 2").select_input_device(&names()).unwrap(),
        DeviceChoice::Listed(3)
    );
}

#[test]
fn an_unknown_device_is_reported_as_it_was_named() {
    let error = input(" webcam ").select_input_device(&names()).unwrap_err();
    assert_eq!(error.message(), "input device ' webcam ' was not found");
}

#[test]
fn the_first_fitting_stream_is_selected() {
    let range = |channels, low, high| InputRange {
        channels,
        min_sample_rate_hz: low,
        max_sample_rate_hz: high,
    };
    let ranges = vec![
        range(2, 8_000, 48_000),
        range(1, 44_100, 48_000),
        range(1, 16_000, 16_000),
        range(1, 8_000, 48_000),
    ];
    assert_eq!(input("").select_stream_config(&ranges), Some(2));
    assert_eq!(input("").select_stream_config(&vec![range(1, 16_001, 48_000)]), None);
    assert_eq!(input("").select_stream_config(&Vec::new()), None);
}

#[test]
fn devices_without_a_name_are_shown() {
    assert_eq!(device_name(None), "<unavailable-name>");
    assert_eq!(
        device_names(names()),
        vec!["HDA Intel PCH", "<unavailable-name>", "USB Microphone", "usb microphone 2"]
    );
}

#[test]
fn settings_are_kept() {
    let input = input("x");
    assert_eq!(input.audio().input_device, "x");
    assert_eq!(input.speech().cooldown_ms, 400);
}

#[test]
fn wake_frames_last_eighty_milliseconds() {
    assert_eq!(wake_frame_samples(16_000), 1_280);
    assert_eq!(wake_frame_samples(44_100), 3_528);
    assert_eq!(wake_frame_samples(3), 1);
}

#[test]
fn the_wait_feeds_the_sidecar_until_the_wake_word() {
    let mut wait = WakeWait::new(2);
    assert!(matches!(wait.advance(WakeEvent::Polled(false)), WakeAction::Receive));
    assert!(matches!(wait.advance(WakeEvent::Received(vec![1])), WakeAction::Poll));
    assert!(matches!(wait.advance(WakeEvent::Polled(false)), WakeAction::Receive));
    match wait.advance(WakeEvent::Received(vec![2, 3, 4, 5])) {
        WakeAction::Write(frame) => assert_eq!(frame, vec![1, 2]),
        other => panic!("{other:?}"),
    }
    assert!(matches!(wait.advance(WakeEvent::Written), WakeAction::Poll));
    match wait.advance(WakeEvent::Polled(false)) {
        WakeAction::Write(frame) => assert_eq!(frame, vec![3, 4]),
        other => panic!("{other:?}"),
    }
    assert!(matches!(wait.advance(WakeEvent::Written), WakeAction::Poll));
    assert!(matches!(wait.advance(WakeEvent::Polled(false)), WakeAction::Poll));
    assert!(matches!(wait.advance(WakeEvent::Polled(false)), WakeAction::Receive));
    assert!(matches!(wait.advance(WakeEvent::Polled(true)), WakeAction::Finish));
}

#[test]
fn resampled_lengths() {
    assert_eq!(resampled_len(0, 48_000, 16_000), 0);
    assert_eq!(resampled_len(77, 16_000, 16_000), 77);
    assert_eq!(resampled_len(48_000, 48_000, 16_000), 16_000);
    assert_eq!(resampled_len(1_001, 44_100, 16_000), 363);
    assert_eq!(resampled_len(1, 48_000, 16_000), 1);
    assert_eq!(resampled_len(10, 8_000, 16_000), 20);
}

#[test]
fn neighbours_agree_with_the_place_in_the_input() {
    for (count, from, to) in [(1_001usize, 44_100u32, 16_000u32), (10, 8_000, 16_000), (1, 48_000, 16_000)] {
        for index in 0..resampled_len(count, from, to) {
            let place = index as f64 * from as f64 / to as f64;
            let (left, right) = resampling_neighbours(index, count, from, to);
            assert_eq!(left, place.floor() as usize);
            assert_eq!(right, (left + 1).min(count - 1));
        }
    }
    assert_eq!(resampling_neighbours(19, 10, 8_000, 16_000), (9, 9));
}

#[test]
fn a_wav_file_byte_for_byte() {
    let bytes = encode_wav_mono_i16(&vec![0, 1, -1, i16::MIN, i16::MAX], 16_000).unwrap();
    let expected: Vec<u8> = [
        &b"RIFF"[..],
        &[46, 0, 0, 0],
        &b"WAVEfmt "[..],
        &[16, 0, 0, 0, 1, 0, 1, 0],
        &[0x80, 0x3e, 0, 0],
        &[0x00, 0x7d, 0, 0],
        &[2, 0, 16, 0],
        &b"data"[..],
        &[10, 0, 0, 0],
        &[0, 0, 1, 0, 0xff, 0xff, 0x00, 0x80, 0xff, 0x7f],
    ]
    .concat();
    assert_eq!(bytes, expected);
}

#[test]
fn a_wav_file_reads_back() {
    let samples = vec![5i16, -6, 700, -8000];
    let bytes = encode_wav_mono_i16(&samples, 22_050).unwrap();
    let reader = hound::WavReader::new(std::io::Cursor::new(bytes)).unwrap();
    assert_eq!(reader.spec().channels, 1);
    assert_eq!(reader.spec().sample_rate, 22_050);
    assert_eq!(reader.spec().bits_per_sample, 16);
    let read: Vec<i16> = reader.into_samples::<i16>().map(|sample| sample.unwrap()).collect();
    assert_eq!(read, samples);
}

#[test]
fn a_capture_is_finished() {
    let captured = finish_capture(&vec![1, 2], 16_000, Duration::from_micros(125)).unwrap();
    assert_eq!(captured.wav_bytes.len(), 48);
    assert_eq!(captured.sample_rate_hz, 16_000);
    assert_eq!(captured.duration, Duration::from_micros(125));
    let error = finish_capture(&Vec::new(), 0, Duration::ZERO).unwrap_err();
    assert_eq!(error.message(), "captured audio buffer was empty after resampling");
}

#[test]
fn encoding_failures_are_reported() {
    for (step, text) in [
        (WavStep::Create, "failed to create WAV writer"),
        (WavStep::Write, "failed to write WAV sample"),
        (WavStep::Finalize, "failed to finalize WAV buffer"),
    ] {
        let error = capture_outcome(Err(AudioError::Wav(step)), 1, Duration::ZERO).unwrap_err();
        assert_eq!(error.message(), text);
    }
    let captured = capture_outcome(Ok(vec![7]), 3, Duration::from_secs(2)).unwrap();
    assert_eq!(captured.wav_bytes, vec![7]);
}

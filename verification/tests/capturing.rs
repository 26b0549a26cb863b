use openclaw_listen::capture::{
    capture_limits, is_speech_countable, CaptureLimits, FrameBuffer, Segmenter, SegmenterStep,
    StopReason,
};
use openclaw_listen::config::SpeechConfig;
use openclaw_listen::level::Level;
use openclaw_listen::utterance::{CaptureAction, CaptureEvent, UtteranceCapture};

fn loud() -> Level {
    Level::from_bits(0.5f32.to_bits())
}

fn quiet() -> Level {
    Level::from_bits(0.0f32.to_bits())
}

fn small_limits() -> CaptureLimits {
    CaptureLimits {
        frame_samples: 2,
        pre_roll_samples: 4,
        start_frames: 2,
        silence_frames: 2,
        min_samples: 6,
        max_samples: 20,
    }
}

#[test]
fn default_limits_at_two_rates() {
    let speech = SpeechConfig::standard();
    assert!(is_speech_countable(&speech, 16_000));
    let limits = capture_limits(16_000, &speech);
    assert_eq!(limits.frame_samples, 320);
    assert_eq!(limits.pre_roll_samples, 4_800);
    assert_eq!(limits.start_frames, 6);
    assert_eq!(limits.silence_frames, 45);
    assert_eq!(limits.min_samples, 8_000);
    assert_eq!(limits.max_samples, 320_000);
    let limits = capture_limits(44_100, &speech);
    assert_eq!(limits.frame_samples, 882);
    assert_eq!(limits.pre_roll_samples, 13_230);
}

#[test]
fn limits_are_never_zero() {
    let speech = SpeechConfig {
        start_window_ms: 0,
        pre_roll_ms: 0,
        trailing_silence_ms: 0,
        min_utterance_ms: 0,
        max_utterance_ms: 0,
        ..SpeechConfig::standard()
    };
    let limits = capture_limits(10, &speech);
    assert_eq!(limits.frame_samples, 1);
    assert_eq!(limits.pre_roll_samples, 1);
    assert_eq!(limits.start_frames, 1);
    assert_eq!(limits.silence_frames, 1);
    assert_eq!(limits.min_samples, 1);
    assert_eq!(limits.max_samples, 1);
}

#[test]
fn partial_frames_count_as_frames() {
    let speech = SpeechConfig { start_window_ms: 121, ..SpeechConfig::standard() };
    assert_eq!(capture_limits(16_000, &speech).start_frames, 7);
}

#[test]
fn times_beyond_a_word_are_not_countable() {
    let speech = SpeechConfig { max_utterance_ms: u64::MAX, ..SpeechConfig::standard() };
    assert!(!is_speech_countable(&speech, 16_000));
}

#[test]
fn frames_come_out_whole_and_in_order() {
    let mut buffer = FrameBuffer::new(3);
    buffer.push(vec![1, 2]);
    assert!(buffer.next_frame().is_none());
    buffer.push(vec![3, 4, 5, 6, 7]);
    assert_eq!(buffer.next_frame(), Some(vec![1, 2, 3]));
    assert_eq!(buffer.next_frame(), Some(vec![4, 5, 6]));
    assert!(buffer.next_frame().is_none());
}

#[test]
fn an_utterance_from_speech_to_silence() {
    let mut segmenter = Segmenter::new(small_limits(), loud());
    assert_eq!(segmenter.accept(&vec![0, 1], quiet()), SegmenterStep::Waiting);
    assert_eq!(segmenter.accept(&vec![2, 3], loud()), SegmenterStep::Waiting);
    assert_eq!(segmenter.accept(&vec![4, 5], loud()), SegmenterStep::Started);
    assert_eq!(segmenter.accept(&vec![6, 7], quiet()), SegmenterStep::Recording);
    assert_eq!(segmenter.accept(&vec![8, 9], loud()), SegmenterStep::Recording);
    assert_eq!(segmenter.accept(&vec![10, 11], quiet()), SegmenterStep::Recording);
    assert_eq!(
        segmenter.accept(&vec![12, 13], quiet()),
        SegmenterStep::Stopped(StopReason::TrailingSilence)
    );
    // The pre-roll holds the frame that starts the utterance, which follows once more.
    assert_eq!(
        segmenter.into_captured(),
        vec![2, 3, 4, 5, 4, 5, 6, 7, 8, 9, 10, 11, 12, 13]
    );
}

#[test]
fn a_gap_restarts_the_voiced_run() {
    let mut segmenter = Segmenter::new(small_limits(), loud());
    for level in [loud(), quiet(), loud(), quiet()] {
        assert_eq!(segmenter.accept(&vec![0, 0], level), SegmenterStep::Waiting);
    }
}

#[test]
fn an_utterance_ends_at_its_maximum_length() {
    let limits = CaptureLimits { max_samples: 8, ..small_limits() };
    let mut segmenter = Segmenter::new(limits, loud());
    assert_eq!(segmenter.accept(&vec![0, 1], loud()), SegmenterStep::Waiting);
    assert_eq!(segmenter.accept(&vec![2, 3], loud()), SegmenterStep::Started);
    assert_eq!(
        segmenter.accept(&vec![4, 5], loud()),
        SegmenterStep::Stopped(StopReason::MaximumLength)
    );
}

#[test]
fn silence_does_not_end_a_short_utterance() {
    let limits = CaptureLimits { min_samples: 12, ..small_limits() };
    let mut segmenter = Segmenter::new(limits, loud());
    assert_eq!(segmenter.accept(&vec![0, 1], loud()), SegmenterStep::Waiting);
    assert_eq!(segmenter.accept(&vec![2, 3], loud()), SegmenterStep::Started);
    assert_eq!(segmenter.accept(&vec![4, 5], quiet()), SegmenterStep::Recording);
    assert_eq!(segmenter.accept(&vec![6, 7], quiet()), SegmenterStep::Recording);
    assert_eq!(
        segmenter.accept(&vec![8, 9], quiet()),
        SegmenterStep::Stopped(StopReason::TrailingSilence)
    );
}

fn capture_in_chunks(stream: &[i32], chunk: usize) -> Option<(StopReason, Vec<i32>)> {
    let mut capture = UtteranceCapture::new(small_limits(), loud());
    for part in stream.chunks(chunk) {
        let mut action = capture.advance(CaptureEvent::Received(part.to_vec()));
        while action == CaptureAction::Measure {
            let level = if capture.frame().iter().any(|sample| *sample > 0) {
                loud()
            } else {
                quiet()
            };
            action = capture.advance(CaptureEvent::Measured(level));
        }
        if let CaptureAction::Finish(reason) = action {
            return Some((reason, capture.into_samples()));
        }
    }
    None
}

#[test]
fn chunk_sizes_make_no_difference() {
    let stream = [0, 0, 5, 5, 6, 6, 7, 7, 0, 0, 0, 0, 9, 9, 9];
    let whole = capture_in_chunks(&stream, stream.len());
    assert_eq!(
        whole,
        Some((StopReason::TrailingSilence, vec![5, 5, 6, 6, 6, 6, 7, 7, 0, 0, 0, 0]))
    );
    for chunk in 1..stream.len() {
        assert_eq!(capture_in_chunks(&stream, chunk), whole);
    }
    assert_eq!(capture_in_chunks(&[0, 0, 5, 5, 0, 0], 4), None);
}

#[test]
fn a_capture_is_what_the_segmenter_makes_of_the_frames() {
    let stream = [0, 0, 5, 5, 6, 6, 7, 7, 0, 0, 0, 0, 9, 9, 9];
    let mut segmenter = Segmenter::new(small_limits(), loud());
    let mut ended = None;
    let mut used: usize = 0;
    for frame in stream.chunks_exact(2) {
        let level = if frame.iter().any(|sample| *sample > 0) { loud() } else { quiet() };
        used += 1;
        if let SegmenterStep::Stopped(reason) = segmenter.accept(&frame.to_vec(), level) {
            ended = Some(reason);
            break;
        }
    }
    assert_eq!(used, 6);
    let made = ended.map(|reason| (reason, segmenter.into_captured()));
    assert_eq!(capture_in_chunks(&stream, 3), made);
}

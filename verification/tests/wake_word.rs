use openclaw_listen::config::WakeConfig;
use openclaw_listen::level::Level;
use openclaw_listen::wake_sidecar::{
    parse_detection_line, pcm_i16_le_bytes, sidecar_args, validate_config,
};

fn settings(engine: &str, model_path: &str, threshold: f32) -> WakeConfig {
    WakeConfig {
        enabled: true,
        engine: engine.to_string(),
        model_path: model_path.to_string(),
        threshold: Level::from_bits(threshold.to_bits()),
        sidecar_command: "python3".to_string(),
        sidecar_script: "s.py".to_string(),
    }
}

#[test]
fn bare_words_report_a_detection() {
    for line in ["wake", " WAKE\n", "Wake_Detected", "wake_detected"] {
        let detection = parse_detection_line(line).unwrap();
        assert_eq!(detection.model, None);
        assert!(detection.score.is_none());
    }
    for line in ["", "wake up", "awake", "{", "\"wake\"", "null"] {
        assert!(parse_detection_line(line).is_none(), "{line}");
    }
}

#[test]
fn documents_report_a_detection() {
    let detection =
        parse_detection_line(r#" {"event":"wake_detected","model":"hey","score":0.75} "#).unwrap();
    assert_eq!(detection.model.as_deref(), Some("hey"));
    assert_eq!(detection.score.and_then(|score| score.as_f64()), Some(0.75));
    let detection = parse_detection_line(r#"{"event":"wake","model":1,"score":"high"}"#).unwrap();
    assert_eq!(detection.model, None);
    assert!(detection.score.is_none());
    // In a document the case of the word matters.
    assert!(parse_detection_line(r#"{"event":"WAKE"}"#).is_none());
    assert!(parse_detection_line(r#"{"event":"ready"}"#).is_none());
    assert!(parse_detection_line(r#"{"model":"hey"}"#).is_none());
}

#[test]
fn settings_are_checked() {
    assert!(validate_config(&settings("openwakeword", "m", 0.0)).is_ok());
    assert!(validate_config(&settings("openwakeword", "m", 1.0)).is_ok());
    assert!(validate_config(&settings("openwakeword", "m", -0.0)).is_ok());
    assert_eq!(
        validate_config(&settings("porcupine", "", 2.0)).unwrap_err().message(),
        "unsupported wake engine 'porcupine'"
    );
    assert_eq!(
        validate_config(&settings("openwakeword", " ", 2.0)).unwrap_err().message(),
        "wake word is enabled but wake.model_path is empty"
    );
    for threshold in [1.5, -0.1, f32::NAN, f32::INFINITY] {
        assert_eq!(
            validate_config(&settings("openwakeword", "m", threshold)).unwrap_err().message(),
            "wake.threshold must be between 0.0 and 1.0"
        );
    }
}

#[test]
fn arguments_of_the_sidecar() {
    assert_eq!(
        sidecar_args(&settings("openwakeword", "m.onnx", 0.5), "0.5"),
        vec!["s.py", "--model-path", "m.onnx", "--threshold", "0.5"]
    );
}

#[test]
fn audio_for_the_sidecar() {
    let samples = vec![0i16, 1, -1, 256, i16::MIN, i16::MAX];
    let expected: Vec<u8> = samples.iter().flat_map(|sample| sample.to_le_bytes()).collect();
    assert_eq!(pcm_i16_le_bytes(&samples), expected);
    assert!(pcm_i16_le_bytes(&Vec::new()).is_empty());
}

use openclaw_listen::config::{
    config_source, default_channel_count, default_openai_base_url, default_sample_rate_hz,
    default_transcript_log_path, default_transcription_model, default_wake_enabled,
    default_wake_engine, default_wake_model_path, default_wake_sidecar_command,
    default_wake_sidecar_script, default_wake_threshold, expand_env_value, override_names,
    parse_bool_env, wake_model_path_in, AppConfig, ConfigSource, Environment, LoggingConfig,
    WakeConfig,
};
use openclaw_listen::level::Level;

fn environment(pairs: &[(&str, &str)]) -> Environment {
    Environment {
        variables: pairs.iter().map(|(n, v)| (n.to_string(), v.to_string())).collect(),
    }
}

#[test]
fn the_defaults() {
    let config = AppConfig::defaults_in(Some("/home/u/.config"));
    assert_eq!(config.openclaw.gateway_url, "ws://127.0.0.1:18789");
    assert_eq!(config.openclaw.gateway_token, "");
    assert_eq!(config.openclaw.session_key, "");
    assert_eq!(config.openclaw.session_filter, "");
    assert_eq!(config.openai.api_key, "");
    assert_eq!(config.openai.base_url, default_openai_base_url());
    assert_eq!(config.openai.base_url, "https://api.openai.com/v1");
    assert_eq!(config.openai.transcription_model, default_transcription_model());
    assert_eq!(config.openai.transcription_model, "whisper-1");
    assert_eq!(config.openai.language, None);
    assert_eq!(config.openai.prompt, None);
    assert_eq!(config.audio.input_device, "");
    assert_eq!(config.audio.sample_rate_hz, default_sample_rate_hz());
    assert_eq!(config.audio.sample_rate_hz, 16_000);
    assert_eq!(config.audio.channel_count, default_channel_count());
    assert_eq!(config.audio.channel_count, 1);
    assert_eq!(config.speech.level_threshold.bits, 0.015f32.to_bits());
    assert_eq!(config.speech.start_window_ms, 120);
    assert_eq!(config.speech.pre_roll_ms, 300);
    assert_eq!(config.speech.trailing_silence_ms, 900);
    assert_eq!(config.speech.min_utterance_ms, 500);
    assert_eq!(config.speech.max_utterance_ms, 20_000);
    assert_eq!(config.speech.cooldown_ms, 400);
    assert_eq!(config.logging.transcript_log_path, default_transcript_log_path());
    assert_eq!(config.logging.transcript_log_path, "/var/log/openclaw-listen.log");
    assert_eq!(config.wake.enabled, default_wake_enabled());
    assert!(config.wake.enabled);
    assert_eq!(config.wake.engine, default_wake_engine());
    assert_eq!(config.wake.engine, "openwakeword");
    assert_eq!(config.wake.model_path, "/home/u/.config/openclaw-listen/wake/model.onnx");
    assert_eq!(config.wake.threshold, default_wake_threshold());
    assert_eq!(config.wake.threshold.bits, 0.5f32.to_bits());
    assert_eq!(config.wake.sidecar_command, default_wake_sidecar_command());
    assert_eq!(config.wake.sidecar_command, "python3");
    assert_eq!(config.wake.sidecar_script, default_wake_sidecar_script());
    assert_eq!(config.wake.sidecar_script, "scripts/openwakeword-sidecar.py");
}

#[test]
fn the_model_path_follows_the_directory_for_settings() {
    for dir in ["/home/u/.config", "/x/", "/", "rel"] {
        let expected = std::path::Path::new(dir)
            .join("openclaw-listen")
            .join("wake")
            .join("model.onnx");
        assert_eq!(wake_model_path_in(Some(dir)), expected.to_str().unwrap());
    }
    assert_eq!(wake_model_path_in(None), "./openclaw-listen/wake/model.onnx");
    assert!(default_wake_model_path().ends_with("openclaw-listen/wake/model.onnx"));
    assert_eq!(WakeConfig::default().model_path, default_wake_model_path());
    assert_eq!(AppConfig::default().wake.model_path, default_wake_model_path());
    assert_eq!(LoggingConfig::default().transcript_log_path, "/var/log/openclaw-listen.log");
}

#[test]
fn an_explicit_file_comes_first() {
    assert_eq!(config_source(true, true, true), ConfigSource::Explicit);
    assert_eq!(config_source(true, false, false), ConfigSource::Explicit);
    assert_eq!(config_source(false, true, true), ConfigSource::XdgFile);
    assert_eq!(config_source(false, true, false), ConfigSource::XdgFile);
    assert_eq!(config_source(false, false, true), ConfigSource::HomeFile);
    assert_eq!(config_source(false, false, false), ConfigSource::Defaults);
}

#[test]
fn variables_override_settings() {
    let mut config = AppConfig::defaults_in(None);
    let env = environment(&[
        ("OPENCLAW_GATEWAY_URL", "ws://other"),
        ("OPENCLAW_GATEWAY_TOKEN", "t"),
        ("OPENCLAW_SESSION_KEY", "k"),
        ("OPENCLAW_SESSION_FILTER", "f"),
        ("OPENAI_API_KEY", "key"),
        ("OPENAI_BASE_URL", "http://local"),
        ("OPENAI_TRANSCRIPTION_MODEL", "m"),
        ("OPENAI_TRANSCRIPTION_LANGUAGE", "de"),
        ("OPENAI_TRANSCRIPTION_PROMPT", ""),
        ("AUDIO_INPUT_DEVICE", "usb"),
        ("OPENCLAW_LISTEN_LOG_PATH", "/tmp/l"),
        ("WAKE_WORD_ENABLED", "no"),
        ("WAKE_WORD_ENGINE", "e"),
        ("WAKE_WORD_MODEL_PATH", "p"),
        ("WAKE_WORD_SIDECAR_COMMAND", "c"),
        ("WAKE_WORD_SIDECAR_SCRIPT", "s"),
        ("OPENAI_API_KEY", "second"),
    ]);
    config.apply_env_overrides(&env, Some(Level::from_bits(0.25f32.to_bits())));
    assert_eq!(config.openclaw.gateway_url, "ws://other");
    assert_eq!(config.openclaw.gateway_token, "t");
    assert_eq!(config.openclaw.session_key, "k");
    assert_eq!(config.openclaw.session_filter, "f");
    assert_eq!(config.openai.api_key, "key");
    assert_eq!(config.openai.base_url, "http://local");
    assert_eq!(config.openai.transcription_model, "m");
    assert_eq!(config.openai.language.as_deref(), Some("de"));
    assert_eq!(config.openai.prompt.as_deref(), Some(""));
    assert_eq!(config.audio.input_device, "usb");
    assert_eq!(config.audio.sample_rate_hz, 16_000);
    assert_eq!(config.logging.transcript_log_path, "/tmp/l");
    assert!(!config.wake.enabled);
    assert_eq!(config.wake.engine, "e");
    assert_eq!(config.wake.model_path, "p");
    assert_eq!(config.wake.threshold.bits, 0.25f32.to_bits());
    assert_eq!(config.wake.sidecar_command, "c");
    assert_eq!(config.wake.sidecar_script, "s");
    assert_eq!(override_names().len(), 17);
    for (name, _) in &env.variables {
        assert!(override_names().contains(name));
    }
}

#[test]
fn unset_variables_change_nothing() {
    let mut config = AppConfig::defaults_in(Some("/c"));
    config.apply_env_overrides(&environment(&[("HOME", "/home/u")]), None);
    assert_eq!(format!("{config:?}"), format!("{:?}", AppConfig::defaults_in(Some("/c"))));
}

#[test]
fn switches() {
    for word in ["1", "true", "TRUE", " yes\n", "Y", "on"] {
        assert!(parse_bool_env(word), "{word}");
    }
    for word in ["", "0", "false", "no", "off", "enabled", "11"] {
        assert!(!parse_bool_env(word), "{word}");
    }
}

#[test]
fn paths_are_expanded() {
    assert_eq!(expand_env_value("~/log", "/home/u", "u"), "/home/u/log");
    assert_eq!(expand_env_value("$HOME/log", "/home/u", "u"), "/home/u/log");
    assert_eq!(expand_env_value("${HOME}/log", "/home/u", "u"), "/home/u/log");
    assert_eq!(expand_env_value("/srv/${USER}-$USER.log", "/home/u", "u"), "/srv/u-u.log");
    assert_eq!(expand_env_value("~/log", "", "u"), "~/log");
    assert_eq!(expand_env_value("$HOME/log", "", ""), "/log");
    assert_eq!(expand_env_value("~user/log", "/home/u", "u"), "~user/log");
    assert_eq!(expand_env_value("/var/~/x", "/home/u", "u"), "/var/~/x");
    assert_eq!(expand_env_value("$HOMER", "/h", "u"), "/hR");
}

#[test]
fn only_paths_are_expanded() {
    let mut config = AppConfig::defaults_in(Some("$HOME/c"));
    config.openclaw.session_key = "$HOME".to_string();
    config.logging.transcript_log_path = "~/l".to_string();
    config.wake.sidecar_command = "${USER}".to_string();
    config.wake.sidecar_script = "$HOME/s".to_string();
    config.expand_paths("/h", "u");
    assert_eq!(config.openclaw.session_key, "$HOME");
    assert_eq!(config.logging.transcript_log_path, "/h/l");
    assert_eq!(config.wake.model_path, "/h/c/openclaw-listen/wake/model.onnx");
    assert_eq!(config.wake.sidecar_command, "u");
    assert_eq!(config.wake.sidecar_script, "/h/s");
}

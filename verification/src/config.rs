//! Application settings: their defaults, the environment variables that
//! override them and the expansion of paths.
use vstd::prelude::*;
use vstd::string::*;

use crate::level::Level;
use crate::text::{
    concat, concat3, lower, nothing_to_replace, occurs, opens, optional_text, owned, replace,
    replaced, replacing_goes_from_the_left, same_text, stands_at, strip_prefix, to_ascii_lowercase,
    trim, trim_end, trim_start, trimmed, trimming_leaves_the_middle, views, white_space,
};

verus! {

/// All settings.
#[derive(Debug, Clone)]
pub struct AppConfig {
    pub openclaw: OpenClawConfig,
    pub openai: OpenAiConfig,
    pub audio: AudioConfig,
    pub speech: SpeechConfig,
    pub logging: LoggingConfig,
    pub wake: WakeConfig,
}

/// Where the gateway is and which session receives transcripts.
#[derive(Debug, Clone)]
pub struct OpenClawConfig {
    pub gateway_url: String,
    pub gateway_token: String,
    pub session_key: String,
    pub session_filter: String,
}

/// The transcription service.
#[derive(Debug, Clone)]
pub struct OpenAiConfig {
    pub api_key: String,
    pub base_url: String,
    pub transcription_model: String,
    pub language: Option<String>,
    pub prompt: Option<String>,
}

/// The microphone.
#[derive(Debug, Clone)]
pub struct AudioConfig {
    pub input_device: String,
    pub sample_rate_hz: u32,
    pub channel_count: u16,
}

/// The speech segmenter. Times are in milliseconds.
#[derive(Debug, Clone)]
pub struct SpeechConfig {
    pub level_threshold: Level,
    pub start_window_ms: u64,
    pub pre_roll_ms: u64,
    pub trailing_silence_ms: u64,
    pub min_utterance_ms: u64,
    pub max_utterance_ms: u64,
    pub cooldown_ms: u64,
}

/// The transcript log.
#[derive(Debug, Clone)]
pub struct LoggingConfig {
    pub transcript_log_path: String,
}

/// The wake-word detector.
#[derive(Debug, Clone)]
pub struct WakeConfig {
    pub enabled: bool,
    pub engine: String,
    pub model_path: String,
    pub threshold: Level,
    pub sidecar_command: String,
    pub sidecar_script: String,
}

// ---------------------------------------------------------------------------
// Models
// ---------------------------------------------------------------------------
/// What gateway settings hold.
pub struct OpenClawModel {
    pub gateway_url: Seq<char>,
    pub gateway_token: Seq<char>,
    pub session_key: Seq<char>,
    pub session_filter: Seq<char>,
}

/// What transcription settings hold.
pub struct OpenAiModel {
    pub api_key: Seq<char>,
    pub base_url: Seq<char>,
    pub transcription_model: Seq<char>,
    pub language: Option<Seq<char>>,
    pub prompt: Option<Seq<char>>,
}

/// What microphone settings hold.
pub struct AudioModel {
    pub input_device: Seq<char>,
    pub sample_rate_hz: u32,
    pub channel_count: u16,
}

/// What wake-word settings hold.
pub struct WakeModel {
    pub enabled: bool,
    pub engine: Seq<char>,
    pub model_path: Seq<char>,
    pub threshold: Level,
    pub sidecar_command: Seq<char>,
    pub sidecar_script: Seq<char>,
}

/// What all settings hold.
pub struct AppModel {
    pub openclaw: OpenClawModel,
    pub openai: OpenAiModel,
    pub audio: AudioModel,
    pub speech: SpeechConfig,
    pub transcript_log_path: Seq<char>,
    pub wake: WakeModel,
}

impl View for OpenClawConfig {
    type V = OpenClawModel;

    open spec fn view(&self) -> OpenClawModel {
        OpenClawModel {
            gateway_url: self.gateway_url@,
            gateway_token: self.gateway_token@,
            session_key: self.session_key@,
            session_filter: self.session_filter@,
        }
    }
}

impl View for OpenAiConfig {
    type V = OpenAiModel;

    open spec fn view(&self) -> OpenAiModel {
        OpenAiModel {
            api_key: self.api_key@,
            base_url: self.base_url@,
            transcription_model: self.transcription_model@,
            language: optional_text(self.language),
            prompt: optional_text(self.prompt),
        }
    }
}

impl View for AudioConfig {
    type V = AudioModel;

    open spec fn view(&self) -> AudioModel {
        AudioModel {
            input_device: self.input_device@,
            sample_rate_hz: self.sample_rate_hz,
            channel_count: self.channel_count,
        }
    }
}

impl View for WakeConfig {
    type V = WakeModel;

    open spec fn view(&self) -> WakeModel {
        WakeModel {
            enabled: self.enabled,
            engine: self.engine@,
            model_path: self.model_path@,
            threshold: self.threshold,
            sidecar_command: self.sidecar_command@,
            sidecar_script: self.sidecar_script@,
        }
    }
}

impl View for AppConfig {
    type V = AppModel;

    open spec fn view(&self) -> AppModel {
        AppModel {
            openclaw: self.openclaw@,
            openai: self.openai@,
            audio: self.audio@,
            speech: self.speech,
            transcript_log_path: self.logging.transcript_log_path@,
            wake: self.wake@,
        }
    }
}

// ---------------------------------------------------------------------------
// Defaults
// ---------------------------------------------------------------------------
/// The bit pattern of 0.015.
pub const DEFAULT_LEVEL_THRESHOLD_BITS: u32 = 0x3c75_c28f;

/// The bit pattern of 0.5.
pub const DEFAULT_WAKE_THRESHOLD_BITS: u32 = 0x3f00_0000;

/// The path of `name` under the directory `dir`. A separator is put between them
/// unless `dir` is empty or ends with one.
pub open spec fn path_under(dir: Seq<char>, name: Seq<char>) -> Seq<char> {
    if dir.len() == 0 || dir.last() == '/' {
        dir + name
    } else {
        dir + "/"@ + name
    }
}

/// Where the wake-word model is looked for by default, given the directory for
/// settings, if the user has one.
pub open spec fn wake_model_path(config_dir: Option<Seq<char>>) -> Seq<char> {
    let base = match config_dir {
        Some(dir) => dir,
        None => "."@,
    };
    path_under(path_under(path_under(base, "openclaw-listen"@), "wake"@), "model.onnx"@)
}

/// The default wake-word settings.
pub open spec fn default_wake(config_dir: Option<Seq<char>>) -> WakeModel {
    WakeModel {
        enabled: true,
        engine: "openwakeword"@,
        model_path: wake_model_path(config_dir),
        threshold: Level { bits: DEFAULT_WAKE_THRESHOLD_BITS },
        sidecar_command: "python3"@,
        sidecar_script: "scripts/openwakeword-sidecar.py"@,
    }
}

/// The default speech settings.
pub open spec fn default_speech() -> SpeechConfig {
    SpeechConfig {
        level_threshold: Level { bits: DEFAULT_LEVEL_THRESHOLD_BITS },
        start_window_ms: 120,
        pre_roll_ms: 300,
        trailing_silence_ms: 900,
        min_utterance_ms: 500,
        max_utterance_ms: 20_000,
        cooldown_ms: 400,
    }
}

/// The default settings.
pub open spec fn default_settings(config_dir: Option<Seq<char>>) -> AppModel {
    AppModel {
        openclaw: OpenClawModel {
            gateway_url: "ws://127.0.0.1:18789"@,
            gateway_token: Seq::empty(),
            session_key: Seq::empty(),
            session_filter: Seq::empty(),
        },
        openai: OpenAiModel {
            api_key: Seq::empty(),
            base_url: "https://api.openai.com/v1"@,
            transcription_model: "whisper-1"@,
            language: None,
            prompt: None,
        },
        audio: AudioModel { input_device: Seq::empty(), sample_rate_hz: 16_000, channel_count: 1 },
        speech: default_speech(),
        transcript_log_path: "/var/log/openclaw-listen.log"@,
        wake: default_wake(config_dir),
    }
}

/// The directory for settings of the user who runs the program, as text.
///
/// Trusted: `dirs::config_dir` looks at the environment; nothing is claimed of
/// what it finds.
#[verifier::external_body]
fn user_config_dir() -> (dir: Option<String>) {
    dirs::config_dir().map(|path| path.to_string_lossy().into_owned())
}

/// The default address of the transcription service.
pub fn default_openai_base_url() -> (r: String)
    ensures
        r@ == "https://api.openai.com/v1"@,
{
    owned("https://api.openai.com/v1")
}

/// The default transcription model.
pub fn default_transcription_model() -> (r: String)
    ensures
        r@ == "whisper-1"@,
{
    owned("whisper-1")
}

/// The default path of the transcript log.
pub fn default_transcript_log_path() -> (r: String)
    ensures
        r@ == "/var/log/openclaw-listen.log"@,
{
    owned("/var/log/openclaw-listen.log")
}

/// The default wake-word engine.
pub fn default_wake_engine() -> (r: String)
    ensures
        r@ == "openwakeword"@,
{
    owned("openwakeword")
}

/// Wake-word detection is on by default.
pub fn default_wake_enabled() -> (r: bool)
    ensures
        r,
{
    true
}

/// The path of `name` under the directory `dir`.
fn join_path(dir: &str, name: &str) -> (r: String)
    ensures
        r@ == path_under(dir@, name@),
{
    let count: usize = dir.unicode_len();
    if count == 0 || dir.get_char(count - 1) == '/' {
        concat(dir, name)
    } else {
        concat3(dir, "/", name)
    }
}

/// The default path of the wake-word model under a directory for settings.
pub fn wake_model_path_in(config_dir: Option<&str>) -> (r: String)
    ensures
        r@ == wake_model_path(
            match config_dir {
                Some(dir) => Some(dir@),
                None => None,
            },
        ),
{
    let base = match config_dir {
        Some(dir) => dir,
        None => ".",
    };
    let own = join_path(base, "openclaw-listen");
    let wake = join_path(own.as_str(), "wake");
    join_path(wake.as_str(), "model.onnx")
}

/// The default path of the wake-word model for the user who runs the program.
pub fn default_wake_model_path() -> (r: String)
    ensures
        exists|dir: Option<Seq<char>>| r@ == #[trigger] wake_model_path(dir),
{
    let dir = user_config_dir();
    match &dir {
        Some(text) => wake_model_path_in(Some(text.as_str())),
        None => wake_model_path_in(None),
    }
}

/// The default command of the sidecar.
pub fn default_wake_sidecar_command() -> (r: String)
    ensures
        r@ == "python3"@,
{
    owned("python3")
}

/// The default script of the sidecar.
pub fn default_wake_sidecar_script() -> (r: String)
    ensures
        r@ == "scripts/openwakeword-sidecar.py"@,
{
    owned("scripts/openwakeword-sidecar.py")
}

/// The default wake-word threshold.
pub fn default_wake_threshold() -> (r: Level)
    ensures
        r.bits == DEFAULT_WAKE_THRESHOLD_BITS,
{
    Level { bits: DEFAULT_WAKE_THRESHOLD_BITS }
}

/// The default sample rate.
pub fn default_sample_rate_hz() -> (r: u32)
    ensures
        r == 16_000,
{
    16_000
}

/// The default number of channels.
pub fn default_channel_count() -> (r: u16)
    ensures
        r == 1,
{
    1
}

impl SpeechConfig {
    /// The default speech settings.
    pub fn standard() -> (speech: Self)
        ensures
            speech == default_speech(),
    {
        SpeechConfig {
            level_threshold: Level { bits: DEFAULT_LEVEL_THRESHOLD_BITS },
            start_window_ms: 120,
            pre_roll_ms: 300,
            trailing_silence_ms: 900,
            min_utterance_ms: 500,
            max_utterance_ms: 20_000,
            cooldown_ms: 400,
        }
    }
}

impl WakeConfig {
    /// The default wake-word settings with the given model path.
    fn with_model_path(model_path: String) -> (wake: Self)
        ensures
            wake@ == (WakeModel { model_path: model_path@, ..default_wake(None) }),
    {
        WakeConfig {
            enabled: true,
            engine: default_wake_engine(),
            model_path,
            threshold: default_wake_threshold(),
            sidecar_command: default_wake_sidecar_command(),
            sidecar_script: default_wake_sidecar_script(),
        }
    }
}

impl AppConfig {
    /// The default settings with the given wake-word settings.
    fn with_wake(wake: WakeConfig) -> (config: Self)
        ensures
            config@ == (AppModel { wake: wake@, ..default_settings(None) }),
    {
        AppConfig {
            openclaw: OpenClawConfig {
                gateway_url: owned("ws://127.0.0.1:18789"),
                gateway_token: String::new(),
                session_key: String::new(),
                session_filter: String::new(),
            },
            openai: OpenAiConfig {
                api_key: String::new(),
                base_url: default_openai_base_url(),
                transcription_model: default_transcription_model(),
                language: None,
                prompt: None,
            },
            audio: AudioConfig {
                input_device: String::new(),
                sample_rate_hz: default_sample_rate_hz(),
                channel_count: default_channel_count(),
            },
            speech: SpeechConfig::standard(),
            logging: LoggingConfig { transcript_log_path: default_transcript_log_path() },
            wake,
        }
    }

    /// The default settings for a user whose directory for settings is given.
    pub fn defaults_in(config_dir: Option<&str>) -> (config: Self)
        ensures
            config@ == default_settings(
                match config_dir {
                    Some(dir) => Some(dir@),
                    None => None,
                },
            ),
    {
        AppConfig::with_wake(WakeConfig::with_model_path(wake_model_path_in(config_dir)))
    }
}

impl Default for LoggingConfig {
    fn default() -> (logging: Self)
        ensures
            logging.transcript_log_path@ == "/var/log/openclaw-listen.log"@,
    {
        LoggingConfig { transcript_log_path: default_transcript_log_path() }
    }
}

impl Default for WakeConfig {
    fn default() -> (wake: Self)
        ensures
            exists|dir: Option<Seq<char>>| wake@ == #[trigger] default_wake(dir),
    {
        let model_path = default_wake_model_path();
        let ghost dir = choose|dir: Option<Seq<char>>|
            model_path@ == #[trigger] wake_model_path(dir);
        let wake = WakeConfig::with_model_path(model_path);
        assert(wake@ == default_wake(dir));
        wake
    }
}

impl Default for AppConfig {
    fn default() -> (config: Self)
        ensures
            exists|dir: Option<Seq<char>>| config@ == #[trigger] default_settings(dir),
    {
        let wake = WakeConfig::default();
        let ghost dir = choose|dir: Option<Seq<char>>| wake@ == #[trigger] default_wake(dir);
        let config = AppConfig::with_wake(wake);
        assert(config@ == default_settings(dir));
        config
    }
}

// ---------------------------------------------------------------------------
// Where settings come from
// ---------------------------------------------------------------------------
/// Where settings are read from.
#[derive(Debug, Clone, Copy, PartialEq, Eq, Structural)]
pub enum ConfigSource {
    /// The file that was named on the command line.
    Explicit,
    /// The file in the directory for settings that `XDG_CONFIG_HOME` names.
    XdgFile,
    /// The file under `.config` in the home directory.
    HomeFile,
    /// No file.
    Defaults,
}

/// Where settings are read from, by whether a file was named and which of the two
/// places holds one: a named file comes first, whether it exists or not.
pub fn config_source(explicit: bool, xdg_file_exists: bool, home_file_exists: bool) -> (source:
    ConfigSource)
    ensures
        source == ConfigSource::Explicit <==> explicit,
        source == ConfigSource::XdgFile <==> !explicit && xdg_file_exists,
        source == ConfigSource::HomeFile <==> !explicit && !xdg_file_exists && home_file_exists,
        source == ConfigSource::Defaults <==> !explicit && !xdg_file_exists && !home_file_exists,
{
    if explicit {
        ConfigSource::Explicit
    } else if xdg_file_exists {
        ConfigSource::XdgFile
    } else if home_file_exists {
        ConfigSource::HomeFile
    } else {
        ConfigSource::Defaults
    }
}

// ---------------------------------------------------------------------------
// Environment variables
// ---------------------------------------------------------------------------
/// Environment variables by name. Of several with one name the first counts.
#[derive(Debug)]
pub struct Environment {
    pub variables: Vec<(String, String)>,
}

impl View for Environment {
    type V = Seq<(Seq<char>, Seq<char>)>;

    open spec fn view(&self) -> Seq<(Seq<char>, Seq<char>)> {
        self.variables@.map_values(|v: (String, String)| (v.0@, v.1@))
    }
}

/// The value of a variable, if it is set.
pub open spec fn variable(env: Seq<(Seq<char>, Seq<char>)>, name: Seq<char>) -> Option<Seq<char>>
    decreases env.len(),
{
    if env.len() == 0 {
        None
    } else if env.first().0 == name {
        Some(env.first().1)
    } else {
        variable(env.drop_first(), name)
    }
}

/// The value of a variable, or where it is not set, `text`.
pub open spec fn overridden(
    text: Seq<char>,
    env: Seq<(Seq<char>, Seq<char>)>,
    name: Seq<char>,
) -> Seq<char> {
    match variable(env, name) {
        Some(value) => value,
        None => text,
    }
}

/// The value of a variable, or where it is not set, `text`.
pub open spec fn overridden_option(
    text: Option<Seq<char>>,
    env: Seq<(Seq<char>, Seq<char>)>,
    name: Seq<char>,
) -> Option<Seq<char>> {
    match variable(env, name) {
        Some(value) => Some(value),
        None => text,
    }
}

/// The words that switch something on.
pub open spec fn affirmative(word: Seq<char>) -> bool {
    word == "1"@ || word == "true"@ || word == "yes"@ || word == "y"@ || word == "on"@
}

/// The text switches something on: white space around it and ASCII case do not
/// matter.
pub open spec fn truth(text: Seq<char>) -> bool {
    affirmative(lower(trimmed(text)))
}

/// The settings under environment variables, where `threshold` is the number that
/// the variable for the wake threshold spells, if it is set and spells one.
pub open spec fn with_environment(
    config: AppModel,
    env: Seq<(Seq<char>, Seq<char>)>,
    threshold: Option<Level>,
) -> AppModel {
    AppModel {
        openclaw: OpenClawModel {
            gateway_url: overridden(config.openclaw.gateway_url, env, "OPENCLAW_GATEWAY_URL"@),
            gateway_token: overridden(
                config.openclaw.gateway_token,
                env,
                "OPENCLAW_GATEWAY_TOKEN"@,
            ),
            session_key: overridden(config.openclaw.session_key, env, "OPENCLAW_SESSION_KEY"@),
            session_filter: overridden(
                config.openclaw.session_filter,
                env,
                "OPENCLAW_SESSION_FILTER"@,
            ),
        },
        openai: OpenAiModel {
            api_key: overridden(config.openai.api_key, env, "OPENAI_API_KEY"@),
            base_url: overridden(config.openai.base_url, env, "OPENAI_BASE_URL"@),
            transcription_model: overridden(
                config.openai.transcription_model,
                env,
                "OPENAI_TRANSCRIPTION_MODEL"@,
            ),
            language: overridden_option(
                config.openai.language,
                env,
                "OPENAI_TRANSCRIPTION_LANGUAGE"@,
            ),
            prompt: overridden_option(config.openai.prompt, env, "OPENAI_TRANSCRIPTION_PROMPT"@),
        },
        audio: AudioModel {
            input_device: overridden(config.audio.input_device, env, "AUDIO_INPUT_DEVICE"@),
            ..config.audio
        },
        speech: config.speech,
        transcript_log_path: overridden(
            config.transcript_log_path,
            env,
            "OPENCLAW_LISTEN_LOG_PATH"@,
        ),
        wake: WakeModel {
            enabled: match variable(env, "WAKE_WORD_ENABLED"@) {
                Some(value) => truth(value),
                None => config.wake.enabled,
            },
            engine: overridden(config.wake.engine, env, "WAKE_WORD_ENGINE"@),
            model_path: overridden(config.wake.model_path, env, "WAKE_WORD_MODEL_PATH"@),
            threshold: match threshold {
                Some(level) => level,
                None => config.wake.threshold,
            },
            sidecar_command: overridden(
                config.wake.sidecar_command,
                env,
                "WAKE_WORD_SIDECAR_COMMAND"@,
            ),
            sidecar_script: overridden(
                config.wake.sidecar_script,
                env,
                "WAKE_WORD_SIDECAR_SCRIPT"@,
            ),
        },
    }
}

impl Environment {
    /// The value of a variable, if it is set.
    pub fn get(&self, name: &str) -> (r: Option<&str>)
        ensures
            variable(self@, name@) == (match r {
                Some(value) => Some(value@),
                None => None,
            }),
    {
        let ghost all = self@;
        let mut i: usize = 0;
        assert(all.skip(0) =~= all);
        while i < self.variables.len()
            invariant
                i <= self.variables@.len(),
                all == self@,
                variable(all, name@) == variable(all.skip(i as int), name@),
            decreases self.variables@.len() - i,
        {
            assert(all.skip(i as int).first() == (
                self.variables@[i as int].0@,
                self.variables@[i as int].1@,
            ));
            assert(all.skip(i as int).drop_first() =~= all.skip(i + 1));
            if same_text(self.variables[i].0.as_str(), name) {
                return Some(self.variables[i].1.as_str());
            }
            i += 1;
        }
        None
    }

    /// Replaces a text by the value of a variable, if that is set.
    fn override_text(&self, text: &mut String, name: &str)
        ensures
            final(text)@ == overridden(old(text)@, self@, name@),
    {
        if let Some(value) = self.get(name) {
            *text = owned(value);
        }
    }

    /// Replaces an optional text by the value of a variable, if that is set.
    fn override_option(&self, text: &mut Option<String>, name: &str)
        ensures
            optional_text(*final(text)) == overridden_option(
                optional_text(*old(text)),
                self@,
                name@,
            ),
    {
        if let Some(value) = self.get(name) {
            *text = Some(owned(value));
        }
    }
}

/// Whether a text switches something on.
pub fn parse_bool_env(value: &str) -> (r: bool)
    ensures
        r == truth(value@),
{
    let folded = to_ascii_lowercase(trim(value));
    let word = folded.as_str();
    same_text(word, "1") || same_text(word, "true") || same_text(word, "yes") || same_text(
        word,
        "y",
    ) || same_text(word, "on")
}

/// The variables that override settings.
pub fn override_names() -> (names: Vec<String>)
    ensures
        views(names@) == seq![
            "OPENCLAW_GATEWAY_URL"@,
            "OPENCLAW_GATEWAY_TOKEN"@,
            "OPENCLAW_SESSION_KEY"@,
            "OPENCLAW_SESSION_FILTER"@,
            "OPENAI_API_KEY"@,
            "OPENAI_BASE_URL"@,
            "OPENAI_TRANSCRIPTION_MODEL"@,
            "OPENAI_TRANSCRIPTION_LANGUAGE"@,
            "OPENAI_TRANSCRIPTION_PROMPT"@,
            "AUDIO_INPUT_DEVICE"@,
            "OPENCLAW_LISTEN_LOG_PATH"@,
            "WAKE_WORD_ENABLED"@,
            "WAKE_WORD_ENGINE"@,
            "WAKE_WORD_MODEL_PATH"@,
            "WAKE_WORD_THRESHOLD"@,
            "WAKE_WORD_SIDECAR_COMMAND"@,
            "WAKE_WORD_SIDECAR_SCRIPT"@,
        ],
{
    let mut names: Vec<String> = Vec::new();
    names.push(owned("OPENCLAW_GATEWAY_URL"));
    names.push(owned("OPENCLAW_GATEWAY_TOKEN"));
    names.push(owned("OPENCLAW_SESSION_KEY"));
    names.push(owned("OPENCLAW_SESSION_FILTER"));
    names.push(owned("OPENAI_API_KEY"));
    names.push(owned("OPENAI_BASE_URL"));
    names.push(owned("OPENAI_TRANSCRIPTION_MODEL"));
    names.push(owned("OPENAI_TRANSCRIPTION_LANGUAGE"));
    names.push(owned("OPENAI_TRANSCRIPTION_PROMPT"));
    names.push(owned("AUDIO_INPUT_DEVICE"));
    names.push(owned("OPENCLAW_LISTEN_LOG_PATH"));
    names.push(owned("WAKE_WORD_ENABLED"));
    names.push(owned("WAKE_WORD_ENGINE"));
    names.push(owned("WAKE_WORD_MODEL_PATH"));
    names.push(owned("WAKE_WORD_THRESHOLD"));
    names.push(owned("WAKE_WORD_SIDECAR_COMMAND"));
    names.push(owned("WAKE_WORD_SIDECAR_SCRIPT"));
    names
}

impl AppConfig {
    /// Lets environment variables override settings, where `threshold` is the
    /// number that `WAKE_WORD_THRESHOLD` spells, if it is set and spells one.
    pub fn apply_env_overrides(&mut self, env: &Environment, threshold: Option<Level>)
        ensures
            final(self)@ == with_environment(old(self)@, env@, threshold),
    {
        env.override_text(&mut self.openclaw.gateway_url, "OPENCLAW_GATEWAY_URL");
        env.override_text(&mut self.openclaw.gateway_token, "OPENCLAW_GATEWAY_TOKEN");
        env.override_text(&mut self.openclaw.session_key, "OPENCLAW_SESSION_KEY");
        env.override_text(&mut self.openclaw.session_filter, "OPENCLAW_SESSION_FILTER");
        env.override_text(&mut self.openai.api_key, "OPENAI_API_KEY");
        env.override_text(&mut self.openai.base_url, "OPENAI_BASE_URL");
        env.override_text(&mut self.openai.transcription_model, "OPENAI_TRANSCRIPTION_MODEL");
        env.override_option(&mut self.openai.language, "OPENAI_TRANSCRIPTION_LANGUAGE");
        env.override_option(&mut self.openai.prompt, "OPENAI_TRANSCRIPTION_PROMPT");
        env.override_text(&mut self.audio.input_device, "AUDIO_INPUT_DEVICE");
        env.override_text(&mut self.logging.transcript_log_path, "OPENCLAW_LISTEN_LOG_PATH");
        if let Some(value) = env.get("WAKE_WORD_ENABLED") {
            self.wake.enabled = parse_bool_env(value);
        }
        env.override_text(&mut self.wake.engine, "WAKE_WORD_ENGINE");
        env.override_text(&mut self.wake.model_path, "WAKE_WORD_MODEL_PATH");
        if let Some(level) = threshold {
            self.wake.threshold = level;
        }
        env.override_text(&mut self.wake.sidecar_command, "WAKE_WORD_SIDECAR_COMMAND");
        env.override_text(&mut self.wake.sidecar_script, "WAKE_WORD_SIDECAR_SCRIPT");
    }
}

// ---------------------------------------------------------------------------
// Expansion
// ---------------------------------------------------------------------------
/// A path under `~/` moved to the home directory, where that is known.
pub open spec fn home_expanded(value: Seq<char>, home: Seq<char>) -> Seq<char> {
    if opens(value, "~/"@) && home.len() > 0 {
        home + "/"@ + value.skip(2)
    } else {
        value
    }
}

/// The variables for the home directory and the user replaced, in both spellings.
pub open spec fn variables_expanded(
    value: Seq<char>,
    home: Seq<char>,
    user: Seq<char>,
) -> Seq<char> {
    replaced(
        replaced(replaced(replaced(value, "${HOME}"@, home), "$HOME"@, home), "${USER}"@, user),
        "$USER"@,
        user,
    )
}

/// A path with its home directory and user filled in.
pub open spec fn expanded(value: Seq<char>, home: Seq<char>, user: Seq<char>) -> Seq<char> {
    variables_expanded(home_expanded(value, home), home, user)
}

/// The settings with their paths expanded.
pub open spec fn with_expanded_paths(
    config: AppModel,
    home: Seq<char>,
    user: Seq<char>,
) -> AppModel {
    AppModel {
        transcript_log_path: expanded(config.transcript_log_path, home, user),
        wake: WakeModel {
            model_path: expanded(config.wake.model_path, home, user),
            sidecar_command: expanded(config.wake.sidecar_command, home, user),
            sidecar_script: expanded(config.wake.sidecar_script, home, user),
            ..config.wake
        },
        ..config
    }
}

/// A path with its home directory and user filled in. Either is empty where it is
/// not known.
pub fn expand_env_value(value: &str, home: &str, user: &str) -> (r: String)
    ensures
        r@ == expanded(value@, home@, user@),
{
    proof {
        reveal_strlit("~/");
        reveal_strlit("${HOME}");
        reveal_strlit("$HOME");
        reveal_strlit("${USER}");
        reveal_strlit("$USER");
    }
    let moved = match strip_prefix(value, "~/") {
        Some(rest) => if home.is_empty() {
            owned(value)
        } else {
            concat3(home, "/", rest.as_str())
        },
        None => owned(value),
    };
    let moved = replace(moved.as_str(), "${HOME}", home);
    let moved = replace(moved.as_str(), "$HOME", home);
    let moved = replace(moved.as_str(), "${USER}", user);
    replace(moved.as_str(), "$USER", user)
}

impl AppConfig {
    /// Expands the paths of the settings.
    pub fn expand_paths(&mut self, home: &str, user: &str)
        ensures
            final(self)@ == with_expanded_paths(old(self)@, home@, user@),
    {
        self.logging.transcript_log_path =
        expand_env_value(self.logging.transcript_log_path.as_str(), home, user);
        self.wake.model_path = expand_env_value(self.wake.model_path.as_str(), home, user);
        self.wake.sidecar_command =
        expand_env_value(self.wake.sidecar_command.as_str(), home, user);
        self.wake.sidecar_script =
        expand_env_value(self.wake.sidecar_script.as_str(), home, user);
    }
}

// ---------------------------------------------------------------------------
// Laws
// ---------------------------------------------------------------------------
/// Without variables the settings stay as they are.
pub proof fn empty_environment_changes_nothing(config: AppModel)
    ensures
        with_environment(config, Seq::empty(), None) == config,
{
}

/// Letting the same variables override settings a second time changes nothing.
pub proof fn overriding_is_idempotent(
    config: AppModel,
    env: Seq<(Seq<char>, Seq<char>)>,
    threshold: Option<Level>,
)
    ensures
        with_environment(with_environment(config, env, threshold), env, threshold)
            == with_environment(config, env, threshold),
{
}

/// A variable wins over the settings: where it is set, what they held before does
/// not show.
pub proof fn variables_win(
    first: AppModel,
    second: AppModel,
    env: Seq<(Seq<char>, Seq<char>)>,
    threshold: Option<Level>,
)
    ensures
        ({
            let a = with_environment(first, env, threshold);
            let b = with_environment(second, env, threshold);
            &&& variable(env, "OPENCLAW_GATEWAY_URL"@) is Some
                ==> a.openclaw.gateway_url == b.openclaw.gateway_url
            &&& variable(env, "OPENCLAW_GATEWAY_TOKEN"@) is Some
                ==> a.openclaw.gateway_token == b.openclaw.gateway_token
            &&& variable(env, "OPENCLAW_SESSION_KEY"@) is Some
                ==> a.openclaw.session_key == b.openclaw.session_key
            &&& variable(env, "OPENCLAW_SESSION_FILTER"@) is Some
                ==> a.openclaw.session_filter == b.openclaw.session_filter
            &&& variable(env, "OPENAI_API_KEY"@) is Some
                ==> a.openai.api_key == b.openai.api_key
            &&& variable(env, "OPENAI_BASE_URL"@) is Some
                ==> a.openai.base_url == b.openai.base_url
            &&& variable(env, "OPENAI_TRANSCRIPTION_MODEL"@) is Some
                ==> a.openai.transcription_model == b.openai.transcription_model
            &&& variable(env, "OPENAI_TRANSCRIPTION_LANGUAGE"@) is Some
                ==> a.openai.language == b.openai.language
            &&& variable(env, "OPENAI_TRANSCRIPTION_PROMPT"@) is Some
                ==> a.openai.prompt == b.openai.prompt
            &&& variable(env, "AUDIO_INPUT_DEVICE"@) is Some
                ==> a.audio.input_device == b.audio.input_device
            &&& variable(env, "OPENCLAW_LISTEN_LOG_PATH"@) is Some
                ==> a.transcript_log_path == b.transcript_log_path
            &&& variable(env, "WAKE_WORD_ENABLED"@) is Some
                ==> a.wake.enabled == b.wake.enabled
            &&& variable(env, "WAKE_WORD_ENGINE"@) is Some
                ==> a.wake.engine == b.wake.engine
            &&& variable(env, "WAKE_WORD_MODEL_PATH"@) is Some
                ==> a.wake.model_path == b.wake.model_path
            &&& variable(env, "WAKE_WORD_SIDECAR_COMMAND"@) is Some
                ==> a.wake.sidecar_command == b.wake.sidecar_command
            &&& variable(env, "WAKE_WORD_SIDECAR_SCRIPT"@) is Some
                ==> a.wake.sidecar_script == b.wake.sidecar_script
            &&& threshold is Some ==> a.wake.threshold == b.wake.threshold
        }),
{
}

proof fn lemma_unmarked_is_kept(s: Seq<char>, pattern: Seq<char>, with: Seq<char>)
    requires
        pattern.len() > 0,
        !s.contains(pattern[0]),
    ensures
        replaced(s, pattern, with) == s,
    decreases s.len(),
{
    if s.len() >= pattern.len() {
        if opens(s, pattern) {
            assert(s.subrange(0, pattern.len() as int)[0] == s[0]);
            assert(s.contains(pattern[0]));
        }
        let rest = s.drop_first();
        if rest.contains(pattern[0]) {
            let k = choose|k: int| 0 <= k < rest.len() && rest[k] == pattern[0];
            assert(s[k + 1] == pattern[0]);
        }
        lemma_unmarked_is_kept(rest, pattern, with);
        assert(seq![s.first()] + rest =~= s);
    }
}

proof fn lemma_unmarked_variables(value: Seq<char>, home: Seq<char>, user: Seq<char>)
    requires
        !value.contains('$'),
    ensures
        variables_expanded(value, home, user) == value,
{
    reveal_strlit("${HOME}");
    reveal_strlit("$HOME");
    reveal_strlit("${USER}");
    reveal_strlit("$USER");
    lemma_unmarked_is_kept(value, "${HOME}"@, home);
    lemma_unmarked_is_kept(value, "$HOME"@, home);
    lemma_unmarked_is_kept(value, "${USER}"@, user);
    lemma_unmarked_is_kept(value, "$USER"@, user);
}

/// A path that neither opens with `~/` nor holds a `$` is kept as it is.
pub proof fn plain_paths_are_kept(value: Seq<char>, home: Seq<char>, user: Seq<char>)
    requires
        !opens(value, "~/"@),
        !value.contains('$'),
    ensures
        expanded(value, home, user) == value,
{
    lemma_unmarked_variables(value, home, user);
}

/// The three spellings of the home directory mean the same: `~/`, `$HOME/` and
/// `${HOME}/` before a path all lead to that path under the home directory.
pub proof fn home_spellings_agree(rest: Seq<char>, home: Seq<char>, user: Seq<char>)
    requires
        home.len() > 0,
        !home.contains('$'),
        !rest.contains('$'),
    ensures
        expanded("~/"@ + rest, home, user) == home + "/"@ + rest,
        expanded("$HOME/"@ + rest, home, user) == home + "/"@ + rest,
        expanded("${HOME}/"@ + rest, home, user) == home + "/"@ + rest,
{
    reveal_strlit("~/");
    reveal_strlit("/");
    reveal_strlit("$HOME/");
    reveal_strlit("${HOME}/");
    reveal_strlit("${HOME}");
    reveal_strlit("$HOME");
    reveal_strlit("${USER}");
    reveal_strlit("$USER");
    let goal = home + "/"@ + rest;
    let tail = "/"@ + rest;
    assert(!goal.contains('$')) by {
        if goal.contains('$') {
            let k = choose|k: int| 0 <= k < goal.len() && goal[k] == '$';
            if k < home.len() {
                assert(home[k] == '$');
            } else if k > home.len() {
                assert(rest[k - home.len() - 1] == '$');
            }
        }
    }
    assert(!tail.contains('$')) by {
        if tail.contains('$') {
            let k = choose|k: int| 0 <= k < tail.len() && tail[k] == '$';
            assert(rest[k - 1] == '$');
        }
    }
    let tilde = "~/"@ + rest;
    assert(tilde.subrange(0, 2) =~= "~/"@);
    assert(opens(tilde, "~/"@));
    assert(tilde.skip(2) =~= rest);
    lemma_unmarked_variables(goal, home, user);

    let plain = "$HOME/"@ + rest;
    assert(plain[0] == '$');
    assert(!opens(plain, "~/"@)) by {
        if opens(plain, "~/"@) {
            assert(plain.subrange(0, 2)[0] == plain[0]);
        }
    }
    assert(plain.subrange(0, 5) =~= "$HOME"@);
    assert(plain.skip(5) =~= tail);
    // The braced spelling does not stand in the plain one.
    assert(!opens(plain, "${HOME}"@)) by {
        if opens(plain, "${HOME}"@) {
            assert(plain.subrange(0, 7)[1] == plain[1]);
        }
    }
    assert(replaced(plain, "${HOME}"@, home) == plain) by {
        let after = plain.drop_first();
        assert(after =~= "HOME"@ + tail) by {
            reveal_strlit("HOME");
        }
        assert(!after.contains('$')) by {
            if after.contains('$') {
                let k = choose|k: int| 0 <= k < after.len() && after[k] == '$';
                reveal_strlit("HOME");
                if k >= 4 {
                    assert(tail[k - 4] == '$');
                }
            }
        }
        lemma_unmarked_is_kept(after, "${HOME}"@, home);
        assert(seq![plain.first()] + after =~= plain);
    }
    lemma_unmarked_is_kept(tail, "$HOME"@, home);
    assert(opens(plain, "$HOME"@));
    assert(replaced(plain, "$HOME"@, home) == home + tail);
    assert(home + tail =~= goal);
    lemma_unmarked_is_kept(goal, "${USER}"@, user);
    lemma_unmarked_is_kept(goal, "$USER"@, user);

    let braced = "${HOME}/"@ + rest;
    assert(braced[0] == '$');
    assert(!opens(braced, "~/"@)) by {
        if opens(braced, "~/"@) {
            assert(braced.subrange(0, 2)[0] == braced[0]);
        }
    }
    assert(braced.subrange(0, 7) =~= "${HOME}"@);
    assert(braced.skip(7) =~= tail);
    lemma_unmarked_is_kept(tail, "${HOME}"@, home);
    assert(opens(braced, "${HOME}"@));
    assert(replaced(braced, "${HOME}"@, home) == home + tail);
    lemma_unmarked_is_kept(goal, "$HOME"@, home);
}

proof fn lemma_lower_trims_alike(s: Seq<char>)
    ensures
        lower(trimmed(s)) == trimmed(lower(s)),
{
    lemma_lower_trim_start(s);
    lemma_lower_trim_end(trim_start(s));
}

proof fn lemma_lower_trim_start(s: Seq<char>)
    ensures
        lower(trim_start(s)) == trim_start(lower(s)),
    decreases s.len(),
{
    if s.len() > 0 {
        assert(lower(s).drop_first() =~= lower(s.drop_first()));
        if white_space(s.first()) {
            lemma_lower_trim_start(s.drop_first());
        }
    }
}

proof fn lemma_lower_trim_end(s: Seq<char>)
    ensures
        lower(trim_end(s)) == trim_end(lower(s)),
    decreases s.len(),
{
    if s.len() > 0 {
        assert(lower(s).drop_last() =~= lower(s.drop_last()));
        if white_space(s.last()) {
            lemma_lower_trim_end(s.drop_last());
        }
    }
}

/// The case in which a switch is written does not matter.
pub proof fn switches_ignore_case(a: Seq<char>, b: Seq<char>)
    requires
        lower(a) == lower(b),
    ensures
        truth(a) == truth(b),
{
    lemma_lower_trims_alike(a);
    lemma_lower_trims_alike(b);
}

/// The first variable of a name counts, with the value that it has, and a variable that
/// is not there is not set.
pub proof fn first_variable_of_a_name_counts(
    env: Seq<(Seq<char>, Seq<char>)>,
    name: Seq<char>,
    at: int,
)
    ensures
        0 <= at < env.len() && env[at].0 == name && (forall|k: int|
            0 <= k < at ==> (#[trigger] env[k]).0 != name) ==> variable(env, name) == Some(
            env[at].1,
        ),
        (forall|k: int| 0 <= k < env.len() ==> (#[trigger] env[k]).0 != name) ==> variable(
            env,
            name,
        ) is None,
    decreases env.len(),
{
    if env.len() > 0 {
        let rest = env.drop_first();
        first_variable_of_a_name_counts(rest, name, at - 1);
        if 0 < at < env.len() && env[at].0 == name && (forall|k: int|
            0 <= k < at ==> (#[trigger] env[k]).0 != name) {
            assert(env[0].0 != name);
            assert(rest[at - 1] == env[at]);
            assert forall|k: int| 0 <= k < at - 1 implies (#[trigger] rest[k]).0 != name by {
                assert(rest[k] == env[k + 1]);
            }
        }
        if forall|k: int| 0 <= k < env.len() ==> (#[trigger] env[k]).0 != name {
            assert(env[0].0 != name);
            assert forall|k: int| 0 <= k < rest.len() implies (#[trigger] rest[k]).0 != name by {
                assert(rest[k] == env[k + 1]);
            }
        }
    }
}

/// A setting is the value of its variable where that is set, as it stands, and otherwise
/// what it was before.
pub open spec fn follows(
    setting: Seq<char>,
    before: Seq<char>,
    env: Seq<(Seq<char>, Seq<char>)>,
    name: Seq<char>,
) -> bool {
    if variable(env, name) is Some {
        setting == variable(env, name)->Some_0
    } else {
        setting == before
    }
}

/// Each variable sets its own setting, and nothing else: the settings that no variable is
/// meant for stay as they are.
pub proof fn variables_set_their_settings(
    config: AppModel,
    env: Seq<(Seq<char>, Seq<char>)>,
    threshold: Option<Level>,
)
    ensures
        ({
            let after = with_environment(config, env, threshold);
            let (gateway, before) = (after.openclaw, config.openclaw);
            let (service, served) = (after.openai, config.openai);
            let (wake, woke) = (after.wake, config.wake);
            let language = variable(env, "OPENAI_TRANSCRIPTION_LANGUAGE"@);
            let prompt = variable(env, "OPENAI_TRANSCRIPTION_PROMPT"@);
            &&& follows(gateway.gateway_url, before.gateway_url, env, "OPENCLAW_GATEWAY_URL"@)
            &&& follows(gateway.gateway_token, before.gateway_token, env, "OPENCLAW_GATEWAY_TOKEN"@)
            &&& follows(gateway.session_key, before.session_key, env, "OPENCLAW_SESSION_KEY"@)
            &&& follows(
                gateway.session_filter,
                before.session_filter,
                env,
                "OPENCLAW_SESSION_FILTER"@,
            )
            &&& follows(service.api_key, served.api_key, env, "OPENAI_API_KEY"@)
            &&& follows(service.base_url, served.base_url, env, "OPENAI_BASE_URL"@)
            &&& follows(
                service.transcription_model,
                served.transcription_model,
                env,
                "OPENAI_TRANSCRIPTION_MODEL"@,
            )
            &&& language is Some ==> service.language == language
            &&& language is None ==> service.language == served.language
            &&& prompt is Some ==> service.prompt == prompt
            &&& prompt is None ==> service.prompt == served.prompt
            &&& follows(
                after.audio.input_device,
                config.audio.input_device,
                env,
                "AUDIO_INPUT_DEVICE"@,
            )
            &&& follows(
                after.transcript_log_path,
                config.transcript_log_path,
                env,
                "OPENCLAW_LISTEN_LOG_PATH"@,
            )
            &&& follows(wake.engine, woke.engine, env, "WAKE_WORD_ENGINE"@)
            &&& follows(wake.model_path, woke.model_path, env, "WAKE_WORD_MODEL_PATH"@)
            &&& follows(
                wake.sidecar_command,
                woke.sidecar_command,
                env,
                "WAKE_WORD_SIDECAR_COMMAND"@,
            )
            &&& follows(wake.sidecar_script, woke.sidecar_script, env, "WAKE_WORD_SIDECAR_SCRIPT"@)
            &&& variable(env, "WAKE_WORD_ENABLED"@) matches Some(text) ==> wake.enabled == truth(
                text,
            )
            &&& variable(env, "WAKE_WORD_ENABLED"@) is None ==> wake.enabled == woke.enabled
            &&& threshold matches Some(level) ==> wake.threshold == level
            &&& threshold is None ==> wake.threshold == woke.threshold
            &&& after.speech == config.speech
            &&& after.audio.sample_rate_hz == config.audio.sample_rate_hz
            &&& after.audio.channel_count == config.audio.channel_count
        }),
{
}

/// A text switches something on exactly if it is one of five words, in either case and
/// with any white space around it.
pub proof fn five_words_switch_on(before: Seq<char>, word: Seq<char>, after: Seq<char>)
    requires
        forall|i: int| 0 <= i < before.len() ==> white_space(#[trigger] before[i]),
        forall|i: int| 0 <= i < after.len() ==> white_space(#[trigger] after[i]),
        word.len() > 0 ==> !white_space(word[0]) && !white_space(word[word.len() - 1]),
    ensures
        truth(before + word + after) <==> {
            let folded = lower(word);
            ||| folded == seq!['1']
            ||| folded == seq!['t', 'r', 'u', 'e']
            ||| folded == seq!['y', 'e', 's']
            ||| folded == seq!['y']
            ||| folded == seq!['o', 'n']
        },
{
    reveal_strlit("1");
    reveal_strlit("true");
    reveal_strlit("yes");
    reveal_strlit("y");
    reveal_strlit("on");
    assert("1"@ =~= seq!['1']);
    assert("true"@ =~= seq!['t', 'r', 'u', 'e']);
    assert("yes"@ =~= seq!['y', 'e', 's']);
    assert("y"@ =~= seq!['y']);
    assert("on"@ =~= seq!['o', 'n']);
    trimming_leaves_the_middle(before, word, after);
}

/// The wake-word model stands in its own directory under the directory for settings, one
/// separator between each name and the next, and under the current directory where there
/// is no directory for settings.
pub proof fn model_stands_under_the_settings(dir: Seq<char>)
    requires
        dir.len() > 0 ==> dir[dir.len() - 1] != '/',
    ensures
        dir.len() > 0 ==> wake_model_path(Some(dir)) == dir + seq!['/'] + "openclaw-listen"@
            + seq!['/'] + "wake"@ + seq!['/'] + "model.onnx"@,
        wake_model_path(Some(dir.push('/'))) == dir + seq!['/'] + "openclaw-listen"@ + seq!['/']
            + "wake"@ + seq!['/'] + "model.onnx"@,
        wake_model_path(None) == seq!['.', '/'] + "openclaw-listen"@ + seq!['/'] + "wake"@ + seq![
            '/',
        ] + "model.onnx"@,
{
    reveal_strlit("/");
    reveal_strlit(".");
    reveal_strlit("openclaw-listen");
    reveal_strlit("wake");
    assert("/"@ =~= seq!['/']);
    assert("."@ =~= seq!['.']);
    lemma_two_more_names(dir + seq!['/'] + "openclaw-listen"@);
    assert(dir.push('/') + "openclaw-listen"@ =~= dir + seq!['/'] + "openclaw-listen"@);
    assert(path_under(dir.push('/'), "openclaw-listen"@) == dir + seq!['/'] + "openclaw-listen"@);
    assert("."@ + "/"@ =~= seq!['.', '/']);
    lemma_two_more_names(seq!['.', '/'] + "openclaw-listen"@);
}

proof fn lemma_two_more_names(own: Seq<char>)
    requires
        own.len() > 0,
        own.last() == 'n',
    ensures
        path_under(path_under(own, "wake"@), "model.onnx"@) == own + seq!['/'] + "wake"@ + seq![
            '/',
        ] + "model.onnx"@,
{
    reveal_strlit("/");
    reveal_strlit("wake");
    assert("/"@ =~= seq!['/']);
    assert(path_under(own, "wake"@) == own + seq!['/'] + "wake"@);
    assert((own + seq!['/'] + "wake"@).last() == 'e');
}

proof fn lemma_other_variable_is_kept(
    before: Seq<char>,
    spelled: Seq<char>,
    after: Seq<char>,
    pattern: Seq<char>,
    with: Seq<char>,
    at: int,
)
    requires
        !before.contains('$'),
        !after.contains('$'),
        spelled.len() > 0,
        forall|i: int| 0 < i < spelled.len() ==> #[trigger] spelled[i] != '$',
        pattern.len() > 0,
        pattern[0] == '$',
        0 <= at < pattern.len(),
        at < spelled.len(),
        pattern[at] != spelled[at],
    ensures
        replaced(before + spelled + after, pattern, with) == before + spelled + after,
{
    let whole = before + spelled + after;
    if occurs(whole, pattern) {
        let k = choose|k: int| #[trigger] stands_at(whole, pattern, k);
        let part = whole.subrange(k, k + pattern.len());
        assert(part[0] == whole[k]);
        assert(whole[k] == '$');
        if k < before.len() {
            assert(before[k] == '$');
        } else if k >= before.len() + spelled.len() {
            assert(after[k - before.len() - spelled.len()] == '$');
        } else {
            assert(whole[k] == spelled[k - before.len()]);
            assert(k == before.len());
            assert(part[at] == whole[k + at]);
            assert(whole[k + at] == spelled[at]);
        }
    }
    nothing_to_replace(whole, pattern, with);
}

proof fn lemma_variable_is_replaced(
    before: Seq<char>,
    after: Seq<char>,
    pattern: Seq<char>,
    with: Seq<char>,
)
    requires
        !before.contains('$'),
        !after.contains('$'),
        pattern.len() > 0,
        pattern[0] == '$',
    ensures
        replaced(before + pattern + after, pattern, with) == before + with + after,
{
    let whole = before + pattern + after;
    assert forall|at: int| 0 <= at < before.len() implies !#[trigger] stands_at(
        whole,
        pattern,
        at,
    ) by {
        if stands_at(whole, pattern, at) {
            assert(whole.subrange(at, at + pattern.len())[0] == whole[at]);
            assert(before[at] == '$');
        }
    }
    replacing_goes_from_the_left(before, pattern, after, with);
    lemma_unmarked_is_kept(after, pattern, with);
}

proof fn lemma_no_tilde(before: Seq<char>, spelled: Seq<char>, after: Seq<char>, home: Seq<char>)
    requires
        before.len() > 0 ==> before[0] != '~',
        spelled.len() > 0,
        spelled[0] == '$',
    ensures
        home_expanded(before + spelled + after, home) == before + spelled + after,
{
    reveal_strlit("~/");
    let whole = before + spelled + after;
    if opens(whole, "~/"@) {
        assert(whole.subrange(0, 2)[0] == whole[0]);
        if before.len() == 0 {
            assert(whole[0] == spelled[0]);
        }
    }
}

/// The variables for the home directory and for the user stand for their values wherever
/// they stand in a path, in both spellings.
pub proof fn variables_stand_for_their_values(
    before: Seq<char>,
    after: Seq<char>,
    home: Seq<char>,
    user: Seq<char>,
)
    requires
        before.len() > 0 ==> before[0] != '~',
        !before.contains('$'),
        !after.contains('$'),
        !home.contains('$'),
        !user.contains('$'),
    ensures
        expanded(before + "$HOME"@ + after, home, user) == before + home + after,
        expanded(before + "${HOME}"@ + after, home, user) == before + home + after,
        expanded(before + "$USER"@ + after, home, user) == before + user + after,
        expanded(before + "${USER}"@ + after, home, user) == before + user + after,
{
    reveal_strlit("$HOME");
    reveal_strlit("${HOME}");
    reveal_strlit("$USER");
    reveal_strlit("${USER}");
    lemma_no_tilde(before, "$HOME"@, after, home);
    lemma_no_tilde(before, "${HOME}"@, after, home);
    lemma_no_tilde(before, "$USER"@, after, home);
    lemma_no_tilde(before, "${USER}"@, after, home);
    let at_home = before + home + after;
    let by_user = before + user + after;
    lemma_no_dollar(before, home, after);
    lemma_no_dollar(before, user, after);
    lemma_unmarked_is_kept(at_home, "$HOME"@, home);
    lemma_unmarked_is_kept(at_home, "${USER}"@, user);
    lemma_unmarked_is_kept(at_home, "$USER"@, user);
    lemma_unmarked_is_kept(by_user, "$USER"@, user);
    lemma_variable_is_replaced(before, after, "${HOME}"@, home);
    lemma_other_variable_is_kept(before, "$HOME"@, after, "${HOME}"@, home, 1);
    lemma_variable_is_replaced(before, after, "$HOME"@, home);
    lemma_other_variable_is_kept(before, "${USER}"@, after, "${HOME}"@, home, 2);
    lemma_other_variable_is_kept(before, "${USER}"@, after, "$HOME"@, home, 1);
    lemma_variable_is_replaced(before, after, "${USER}"@, user);
    lemma_other_variable_is_kept(before, "$USER"@, after, "${HOME}"@, home, 1);
    lemma_other_variable_is_kept(before, "$USER"@, after, "$HOME"@, home, 1);
    lemma_other_variable_is_kept(before, "$USER"@, after, "${USER}"@, user, 1);
    lemma_variable_is_replaced(before, after, "$USER"@, user);
}

proof fn lemma_no_dollar(a: Seq<char>, b: Seq<char>, c: Seq<char>)
    requires
        !a.contains('$'),
        !b.contains('$'),
        !c.contains('$'),
    ensures
        !(a + b + c).contains('$'),
{
    let whole = a + b + c;
    if whole.contains('$') {
        let k = choose|k: int| 0 <= k < whole.len() && whole[k] == '$';
        if k < a.len() {
            assert(a[k] == '$');
        } else if k < a.len() + b.len() {
            assert(b[k - a.len()] == '$');
        } else {
            assert(c[k - a.len() - b.len()] == '$');
        }
    }
}

/// A tilde is kept where no home directory is known.
pub proof fn unknown_home_is_kept(rest: Seq<char>, user: Seq<char>)
    requires
        !rest.contains('$'),
    ensures
        expanded("~/"@ + rest, Seq::empty(), user) == "~/"@ + rest,
{
    reveal_strlit("~/");
    lemma_no_dollar("~/"@, rest, Seq::empty());
    assert("~/"@ + rest + Seq::empty() =~= "~/"@ + rest);
    lemma_unmarked_variables("~/"@ + rest, Seq::empty(), user);
}

/// Expanding touches the four paths of the settings, each by itself, and nothing else.
pub proof fn only_paths_are_expanded(config: AppModel, home: Seq<char>, user: Seq<char>)
    ensures
        ({
            let after = with_expanded_paths(config, home, user);
            &&& after.transcript_log_path == expanded(config.transcript_log_path, home, user)
            &&& after.wake.model_path == expanded(config.wake.model_path, home, user)
            &&& after.wake.sidecar_command == expanded(config.wake.sidecar_command, home, user)
            &&& after.wake.sidecar_script == expanded(config.wake.sidecar_script, home, user)
            &&& after.wake.enabled == config.wake.enabled
            &&& after.wake.engine == config.wake.engine
            &&& after.wake.threshold == config.wake.threshold
            &&& after.openclaw == config.openclaw
            &&& after.openai == config.openai
            &&& after.audio == config.audio
            &&& after.speech == config.speech
        }),
{
}

/// The environment holds every variable, in order, with its name and its value.
pub proof fn environment_holds_every_variable(env: Environment)
    ensures
        env@.len() == env.variables@.len(),
        forall|i: int|
            0 <= i < env.variables@.len() ==> #[trigger] env@[i] == (
                env.variables@[i].0@,
                env.variables@[i].1@,
            ),
{
}

/// Settings hold the texts, the numbers and the switches that they are made of.
pub proof fn settings_hold_their_values(config: AppConfig)
    ensures
        ({
            let (gateway, service, wake) = (config@.openclaw, config@.openai, config@.wake);
            &&& gateway.gateway_url == config.openclaw.gateway_url@
            &&& gateway.gateway_token == config.openclaw.gateway_token@
            &&& gateway.session_key == config.openclaw.session_key@
            &&& gateway.session_filter == config.openclaw.session_filter@
            &&& service.api_key == config.openai.api_key@
            &&& service.base_url == config.openai.base_url@
            &&& service.transcription_model == config.openai.transcription_model@
            &&& config.openai.language matches Some(text) ==> service.language == Some(text@)
            &&& config.openai.language is None ==> service.language is None
            &&& config.openai.prompt matches Some(text) ==> service.prompt == Some(text@)
            &&& config.openai.prompt is None ==> service.prompt is None
            &&& config@.audio.input_device == config.audio.input_device@
            &&& config@.audio.sample_rate_hz == config.audio.sample_rate_hz
            &&& config@.audio.channel_count == config.audio.channel_count
            &&& config@.speech == config.speech
            &&& config@.transcript_log_path == config.logging.transcript_log_path@
            &&& wake.enabled == config.wake.enabled
            &&& wake.engine == config.wake.engine@
            &&& wake.model_path == config.wake.model_path@
            &&& wake.threshold == config.wake.threshold
            &&& wake.sidecar_command == config.wake.sidecar_command@
            &&& wake.sidecar_script == config.wake.sidecar_script@
        }),
{
}

} // verus!

//! The wake-word sidecar: what it is started with, the audio it is fed and the
//! lines it answers.
use vstd::prelude::*;

use crate::config::WakeConfig;
use crate::json::{
    field, json_parse, number_in, number_model, parse_text, text_in, Json, JsonTree, NumberModel,
};
use crate::text::{
    concat3, eq_ignore_ascii_case, lower, lowering_forgets_case_only, occurs, owned, same_letter,
    same_text, spelled_at, stands_at, trim, trimmed, trimming_leaves_the_middle, white_space,
};

verus! {

/// A wake word was heard. The score keeps the form in which it was reported.
#[derive(Debug)]
pub struct WakeDetection {
    pub model: Option<String>,
    pub score: Option<serde_json::Number>,
}

/// What a detection holds.
pub struct DetectionModel {
    pub model: Option<Seq<char>>,
    pub score: Option<NumberModel>,
}

impl View for WakeDetection {
    type V = DetectionModel;

    open spec fn view(&self) -> DetectionModel {
        DetectionModel {
            model: match self.model {
                Some(s) => Some(s@),
                None => None,
            },
            score: match self.score {
                Some(n) => Some(number_model(n)),
                None => None,
            },
        }
    }
}

/// The word by which the sidecar reports a detection.
pub open spec fn wake_word(s: Seq<char>) -> bool {
    s == "wake"@ || s == "wake_detected"@
}

/// The detection that a JSON line reports.
pub open spec fn document_detection(tree: JsonTree) -> Option<DetectionModel> {
    match text_in(field(tree, "event"@)) {
        Some(event) => if wake_word(event) {
            Some(
                DetectionModel {
                    model: text_in(field(tree, "model"@)),
                    score: number_in(field(tree, "score"@)),
                },
            )
        } else {
            None
        },
        None => None,
    }
}

/// The detection that a line reports, where `document` is what the trimmed line
/// reads as in JSON: a bare word in any case, or a document.
pub open spec fn line_detection(
    line: Seq<char>,
    document: Option<JsonTree>,
) -> Option<DetectionModel> {
    if wake_word(lower(trimmed(line))) {
        Some(DetectionModel { model: None, score: None })
    } else {
        match document {
            Some(tree) => document_detection(tree),
            None => None,
        }
    }
}

/// The model of an optional detection.
pub open spec fn detection_view(detection: Option<WakeDetection>) -> Option<DetectionModel> {
    match detection {
        Some(d) => Some(d@),
        None => None,
    }
}

/// Whether a word reports a detection.
fn is_wake_word(s: &str) -> (r: bool)
    ensures
        r == wake_word(s@),
{
    same_text(s, "wake") || same_text(s, "wake_detected")
}

/// The detection that a JSON document reports.
pub fn detection_from_document(document: Json) -> (r: Option<WakeDetection>)
    ensures
        detection_view(r) == document_detection(document@),
{
    let event = document.text_field("event");
    match event {
        Some(word) => {
            if !is_wake_word(word.as_str()) {
                return None;
            }
        },
        None => {
            return None;
        },
    }
    let model = document.text_field("model");
    let score = match document.take("score") {
        Some(Json::Number(n)) => Some(n),
        _ => None,
    };
    Some(WakeDetection { model, score })
}

/// The detection that a line of the sidecar's output reports, if any.
pub fn parse_detection_line(line: &str) -> (r: Option<WakeDetection>)
    ensures
        detection_view(r) == line_detection(line@, json_parse(trimmed(line@))),
{
    let word = trim(line);
    proof {
        reveal_strlit("wake");
        reveal_strlit("wake_detected");
        assert(lower("wake"@) =~= "wake"@);
        assert(lower("wake_detected"@) =~= "wake_detected"@);
    }
    if eq_ignore_ascii_case(word, "wake") || eq_ignore_ascii_case(word, "wake_detected") {
        return Some(WakeDetection { model: None, score: None });
    }
    match parse_text(word) {
        Some(document) => detection_from_document(document),
        None => None,
    }
}

/// Why wake settings cannot be used.
#[derive(Debug)]
pub enum WakeConfigError {
    UnsupportedEngine(String),
    EmptyModelPath,
    ThresholdOutOfRange,
}

impl WakeConfigError {
    /// The text of the error.
    pub open spec fn text(&self) -> Seq<char> {
        match self {
            WakeConfigError::UnsupportedEngine(engine) => "unsupported wake engine '"@ + engine@
                + "'"@,
            WakeConfigError::EmptyModelPath => "wake word is enabled but wake.model_path is empty"@,
            WakeConfigError::ThresholdOutOfRange => "wake.threshold must be between 0.0 and 1.0"@,
        }
    }

    /// The text of the error.
    pub fn message(&self) -> (r: String)
        ensures
            r@ == self.text(),
    {
        match self {
            WakeConfigError::UnsupportedEngine(engine) => concat3(
                "unsupported wake engine '",
                engine.as_str(),
                "'",
            ),
            WakeConfigError::EmptyModelPath => owned(
                "wake word is enabled but wake.model_path is empty",
            ),
            WakeConfigError::ThresholdOutOfRange => owned(
                "wake.threshold must be between 0.0 and 1.0",
            ),
        }
    }
}

/// Checks wake settings: the engine, then the model path, then the threshold.
pub fn validate_config(config: &WakeConfig) -> (r: Result<(), WakeConfigError>)
    ensures
        match r {
            Ok(_) => {
                &&& config.engine@ == "openwakeword"@
                &&& trimmed(config.model_path@).len() > 0
                &&& config.threshold.in_unit_range()
            },
            Err(WakeConfigError::UnsupportedEngine(engine)) => {
                &&& config.engine@ != "openwakeword"@
                &&& engine@ == config.engine@
            },
            Err(WakeConfigError::EmptyModelPath) => {
                &&& config.engine@ == "openwakeword"@
                &&& trimmed(config.model_path@).len() == 0
            },
            Err(WakeConfigError::ThresholdOutOfRange) => {
                &&& config.engine@ == "openwakeword"@
                &&& trimmed(config.model_path@).len() > 0
                &&& !config.threshold.in_unit_range()
            },
        },
{
    if !same_text(config.engine.as_str(), "openwakeword") {
        return Err(WakeConfigError::UnsupportedEngine(owned(config.engine.as_str())));
    }
    if trim(config.model_path.as_str()).is_empty() {
        return Err(WakeConfigError::EmptyModelPath);
    }
    if !config.threshold.within_unit() {
        return Err(WakeConfigError::ThresholdOutOfRange);
    }
    Ok(())
}

/// The arguments of the sidecar command, where `threshold` is the wake threshold
/// as text.
pub fn sidecar_args(config: &WakeConfig, threshold: &str) -> (args: Vec<String>)
    ensures
        args@.len() == 5,
        args@[0]@ == config.sidecar_script@,
        args@[1]@ == "--model-path"@,
        args@[2]@ == config.model_path@,
        args@[3]@ == "--threshold"@,
        args@[4]@ == threshold@,
{
    let mut args: Vec<String> = Vec::new();
    args.push(owned(config.sidecar_script.as_str()));
    args.push(owned("--model-path"));
    args.push(owned(config.model_path.as_str()));
    args.push(owned("--threshold"));
    args.push(owned(threshold));
    args
}

/// The two's complement pattern of a 16-bit sample.
pub open spec fn sample_bits(sample: i16) -> int {
    if sample >= 0 {
        sample as int
    } else {
        sample + 0x1_0000
    }
}

/// The samples as bytes, two for each, the low byte first.
pub open spec fn pcm_bytes(samples: Seq<i16>) -> Seq<u8> {
    Seq::new(
        2 * samples.len(),
        |i: int|
            if i % 2 == 0 {
                (sample_bits(samples[i / 2]) % 256) as u8
            } else {
                (sample_bits(samples[i / 2]) / 256) as u8
            },
    )
}

/// The audio as the sidecar reads it.
pub fn pcm_i16_le_bytes(samples: &Vec<i16>) -> (bytes: Vec<u8>)
    ensures
        bytes@ == pcm_bytes(samples@),
{
    let mut bytes: Vec<u8> = Vec::new();
    let mut i: usize = 0;
    while i < samples.len()
        invariant
            i <= samples@.len(),
            bytes@ == pcm_bytes(samples@.take(i as int)),
        decreases samples@.len() - i,
    {
        let sample: i16 = samples[i];
        let bits: u16 = if sample >= 0 {
            sample as u16
        } else {
            (sample as i32 + 0x1_0000) as u16
        };
        bytes.push((bits % 256) as u8);
        bytes.push((bits / 256) as u8);
        i += 1;
        assert(bytes@ =~= pcm_bytes(samples@.take(i as int)));
    }
    assert(samples@.take(i as int) =~= samples@);
    bytes
}

// ---------------------------------------------------------------------------
// Laws
// ---------------------------------------------------------------------------
/// The bytes of some audio determine its samples.
pub proof fn pcm_determines_samples(a: Seq<i16>, b: Seq<i16>)
    requires
        pcm_bytes(a) == pcm_bytes(b),
    ensures
        a == b,
{
    assert(pcm_bytes(a).len() == 2 * a.len());
    assert(pcm_bytes(b).len() == 2 * b.len());
    assert forall|k: int| 0 <= k < a.len() implies a[k] == b[k] by {
        assert(2 * k / 2 == k);
        assert((2 * k + 1) / 2 == k);
        assert(pcm_bytes(a)[2 * k] == (sample_bits(a[k]) % 256) as u8);
        assert(pcm_bytes(b)[2 * k] == (sample_bits(b[k]) % 256) as u8);
        assert(pcm_bytes(a)[2 * k + 1] == (sample_bits(a[k]) / 256) as u8);
        assert(pcm_bytes(b)[2 * k + 1] == (sample_bits(b[k]) / 256) as u8);
        assert(sample_bits(a[k]) == sample_bits(b[k]));
    }
    assert(a =~= b);
}

/// A line that only differs in case and surrounding white space from the bare word
/// is a detection, whatever it reads as in JSON.
pub proof fn bare_word_is_enough(line: Seq<char>, document: Option<JsonTree>)
    requires
        wake_word(lower(trimmed(line))),
    ensures
        line_detection(line, document) == Some(DetectionModel { model: None, score: None }),
{
}

/// A sample is written as two bytes, the low one first, which together are the sample
/// modulo two to the sixteenth.
pub proof fn samples_are_written_low_byte_first(samples: Seq<i16>, at: int)
    requires
        0 <= at < samples.len(),
    ensures
        pcm_bytes(samples).len() == 2 * samples.len(),
        (pcm_bytes(samples)[2 * at] + 256 * pcm_bytes(samples)[2 * at + 1] - samples[at]) % 0x1_0000
            == 0,
{
    assert(2 * at / 2 == at);
    assert((2 * at + 1) / 2 == at);
    let bits = sample_bits(samples[at]);
    assert(pcm_bytes(samples)[2 * at] == (bits % 256) as u8);
    assert(pcm_bytes(samples)[2 * at + 1] == (bits / 256) as u8);
    assert(bits % 256 + 256 * (bits / 256) == bits);
}

/// A line reports a detection exactly if it is one of the two words, in either case and
/// with any white space around it, or a document whose event is one of them. The document
/// says which model heard it and with which score; the bare word says neither.
pub proof fn detections_are_reported_in_two_ways(
    before: Seq<char>,
    word: Seq<char>,
    after: Seq<char>,
    document: Option<JsonTree>,
)
    requires
        forall|i: int| 0 <= i < before.len() ==> white_space(#[trigger] before[i]),
        forall|i: int| 0 <= i < after.len() ==> white_space(#[trigger] after[i]),
        word.len() > 0 ==> !white_space(word[0]) && !white_space(word[word.len() - 1]),
    ensures
        ({
            let line = before + word + after;
            let short = seq!['w', 'a', 'k', 'e'];
            let long = seq!['w', 'a', 'k', 'e', '_', 'd', 'e', 't', 'e', 'c', 't', 'e', 'd'];
            let bare = (word.len() == 4 && spelled_at(word, short, 0)) || (word.len() == 13
                && spelled_at(word, long, 0));
            let event = match document {
                Some(tree) => text_in(field(tree, "event"@)),
                None => None,
            };
            let told = event == Some(short) || event == Some(long);
            &&& line_detection(line, document) is Some <==> bare || told
            &&& bare ==> line_detection(line, document) == Some(
                DetectionModel { model: None, score: None },
            )
            &&& !bare && told ==> line_detection(line, document) == Some(
                DetectionModel {
                    model: text_in(field(document->Some_0, "model"@)),
                    score: number_in(field(document->Some_0, "score"@)),
                },
            )
        }),
{
    let line = before + word + after;
    let short = seq!['w', 'a', 'k', 'e'];
    let long = seq!['w', 'a', 'k', 'e', '_', 'd', 'e', 't', 'e', 'c', 't', 'e', 'd'];
    reveal_strlit("wake");
    reveal_strlit("wake_detected");
    assert("wake"@ =~= short);
    assert("wake_detected"@ =~= long);
    assert(lower(short) =~= short);
    assert(lower(long) =~= long);
    trimming_leaves_the_middle(before, word, after);
    lowering_forgets_case_only(word, short);
    lowering_forgets_case_only(word, long);
    assert forall|i: int| 0 <= i < word.len() implies #[trigger] word[0 + i] == word[i] by {}
    if word.len() == 4 && spelled_at(word, short, 0) {
        assert forall|i: int| 0 <= i < 4 implies same_letter(#[trigger] word[i], short[i]) by {
            assert(same_letter(word[0 + i], short[i]));
        }
    }
    if word.len() == 13 && spelled_at(word, long, 0) {
        assert forall|i: int| 0 <= i < 13 implies same_letter(#[trigger] word[i], long[i]) by {
            assert(same_letter(word[0 + i], long[i]));
        }
    }
}

/// Settings for an engine that is not supported are refused by naming that engine.
pub proof fn refused_engine_is_named(error: WakeConfigError)
    ensures
        error matches WakeConfigError::UnsupportedEngine(engine) ==> {
            &&& occurs(error.text(), "'"@ + engine@ + "'"@)
            &&& error.text().len() == 26 + engine@.len()
        },
{
    if let WakeConfigError::UnsupportedEngine(engine) = error {
        reveal_strlit("unsupported wake engine '");
        reveal_strlit("'");
        let text = error.text();
        let named = "'"@ + engine@ + "'"@;
        assert(text.subrange(24, 24int + named.len()) =~= named);
        assert(stands_at(text, named, 24));
    }
}

/// A detection holds the model and the score that were reported.
pub proof fn detections_hold_model_and_score(detection: WakeDetection)
    ensures
        detection.model matches Some(model) ==> detection@.model == Some(model@),
        detection.model is None ==> detection@.model is None,
        detection.score matches Some(score) ==> detection@.score == Some(number_model(score)),
        detection.score is None ==> detection@.score is None,
        detection_view(Some(detection)) == Some(detection@),
        detection_view(None) is None,
{
}

} // verus!

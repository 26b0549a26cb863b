//! The transcription service: the request for a recording and what becomes of the
//! answer.
use vstd::prelude::*;
use vstd::string::*;

use crate::config::OpenAiConfig;
use crate::sessions::nonblank;
use crate::text::{
    closes, concat, concat3, occurs, optional_text, owned, stands_at, trailing_run_is_taken_off,
    trim, trim_end_char, trim_end_matches, trimmed, trimmed_idempotent, trimming_leaves_the_middle,
    white_space,
};

verus! {

/// Why there is no transcript.
#[derive(Debug)]
pub enum TranscriptionError {
    EmptyAudio,
    MissingApiKey,
    /// The service answered with that status and that text.
    Refused { status: String, body: String },
}

impl TranscriptionError {
    /// The text of the error.
    pub open spec fn text(&self) -> Seq<char> {
        match self {
            TranscriptionError::EmptyAudio => "cannot transcribe an empty audio buffer"@,
            TranscriptionError::MissingApiKey => "OPENAI_API_KEY is not configured"@,
            TranscriptionError::Refused { status, body } =>
                "OpenAI transcription request failed with "@ + status@ + ": "@ + body@,
        }
    }

    /// The text of the error.
    pub fn message(&self) -> (r: String)
        ensures
            r@ == self.text(),
    {
        match self {
            TranscriptionError::EmptyAudio => owned("cannot transcribe an empty audio buffer"),
            TranscriptionError::MissingApiKey => owned("OPENAI_API_KEY is not configured"),
            TranscriptionError::Refused { status, body } => {
                let mut r = concat3(
                    "OpenAI transcription request failed with ",
                    status.as_str(),
                    ": ",
                );
                r.append(body.as_str());
                r
            },
        }
    }
}

/// The address that takes recordings.
pub open spec fn endpoint(base_url: Seq<char>) -> Seq<char> {
    trim_end_char(base_url, '/') + "/audio/transcriptions"@
}

/// The one form field, or no field where there is nothing to say.
pub open spec fn form_field(
    name: Seq<char>,
    value: Option<Seq<char>>,
) -> Seq<(Seq<char>, Seq<char>)> {
    match nonblank(value) {
        Some(text) => seq![(name, text)],
        None => Seq::empty(),
    }
}

/// The text fields of the form, in order.
pub open spec fn form_fields(
    model: Seq<char>,
    language: Option<Seq<char>>,
    prompt: Option<Seq<char>>,
) -> Seq<(Seq<char>, Seq<char>)> {
    seq![("model"@, model)] + form_field("language"@, language) + form_field("prompt"@, prompt)
}

/// A request for a transcript: a form with the recording, under the name `file`,
/// and some text fields.
#[derive(Debug)]
pub struct TranscriptionRequest {
    pub url: String,
    pub bearer_token: String,
    pub file_name: String,
    pub mime_type: String,
    pub wav_bytes: Vec<u8>,
    pub fields: Vec<(String, String)>,
}

/// The names and values of some form fields.
pub open spec fn field_views(fields: Seq<(String, String)>) -> Seq<(Seq<char>, Seq<char>)> {
    fields.map_values(|f: (String, String)| (f.0@, f.1@))
}

/// Adds a form field, unless there is nothing to say.
fn push_field(fields: &mut Vec<(String, String)>, name: &str, value: &Option<String>)
    ensures
        field_views(final(fields)@) == field_views(old(fields)@) + form_field(
            name@,
            optional_text(*value),
        ),
{
    if let Some(text) = value {
        let body = trim(text.as_str());
        if !body.is_empty() {
            fields.push((owned(name), owned(body)));
        }
    }
    assert(field_views(fields@) =~= field_views(old(fields)@) + form_field(
        name@,
        optional_text(*value),
    ));
}

/// The settings of the transcription service.
#[derive(Debug, Clone)]
pub struct OpenAiTranscriptionClient {
    config: OpenAiConfig,
}

impl OpenAiTranscriptionClient {
    /// The settings.
    pub closed spec fn settings(&self) -> OpenAiConfig {
        self.config
    }

    /// A client with the given settings.
    pub fn new(config: OpenAiConfig) -> (client: Self)
        ensures
            client.settings() == config,
    {
        OpenAiTranscriptionClient { config }
    }

    /// Whether there is a key to call the service with.
    pub fn has_api_key(&self) -> (r: bool)
        ensures
            r == (trimmed(self.settings().api_key@).len() > 0),
    {
        !trim(self.config.api_key.as_str()).is_empty()
    }

    /// The request for a recording. An empty recording is refused, and so is any
    /// other without a key.
    pub fn prepare(&self, wav_bytes: Vec<u8>) -> (r: Result<
        TranscriptionRequest,
        TranscriptionError,
    >)
        ensures
            match r {
                Ok(request) => {
                    &&& wav_bytes@.len() > 0
                    &&& trimmed(self.settings().api_key@).len() > 0
                    &&& request.url@ == endpoint(self.settings().base_url@)
                    &&& request.bearer_token@ == self.settings().api_key@
                    &&& request.file_name@ == "microphone.wav"@
                    &&& request.mime_type@ == "audio/wav"@
                    &&& request.wav_bytes == wav_bytes
                    &&& field_views(request.fields@) == form_fields(
                        self.settings().transcription_model@,
                        optional_text(self.settings().language),
                        optional_text(self.settings().prompt),
                    )
                },
                Err(TranscriptionError::EmptyAudio) => wav_bytes@.len() == 0,
                Err(TranscriptionError::MissingApiKey) => wav_bytes@.len() > 0 && trimmed(
                    self.settings().api_key@,
                ).len() == 0,
                Err(_) => false,
            },
    {
        if wav_bytes.len() == 0 {
            return Err(TranscriptionError::EmptyAudio);
        }
        if !self.has_api_key() {
            return Err(TranscriptionError::MissingApiKey);
        }
        let base = trim_end_matches(self.config.base_url.as_str(), '/');
        let url = concat(base, "/audio/transcriptions");
        let mut fields: Vec<(String, String)> = Vec::new();
        fields.push((owned("model"), owned(self.config.transcription_model.as_str())));
        assert(field_views(fields@) =~= seq![("model"@, self.config.transcription_model@)]);
        push_field(&mut fields, "language", &self.config.language);
        push_field(&mut fields, "prompt", &self.config.prompt);
        Ok(
            TranscriptionRequest {
                url,
                bearer_token: owned(self.config.api_key.as_str()),
                file_name: owned("microphone.wav"),
                mime_type: owned("audio/wav"),
                wav_bytes,
                fields,
            },
        )
    }
}

/// What was said.
#[derive(Debug, Clone)]
pub struct Transcript {
    pub text: String,
}

impl Transcript {
    /// The transcript that the service answered.
    pub fn from_answer(text: &str) -> (transcript: Self)
        ensures
            transcript.text@ == trimmed(text@),
    {
        Transcript { text: owned(trim(text)) }
    }

    /// The text to send, unless nothing was said.
    pub fn spoken(&self) -> (r: Option<String>)
        ensures
            optional_text(r) == nonblank(Some(self.text@)),
    {
        let body = trim(self.text.as_str());
        if body.is_empty() {
            None
        } else {
            Some(owned(body))
        }
    }
}

/// What becomes of an answer: the transcript if the service agreed, and otherwise
/// an error with the status and the text that it answered.
pub fn transcription_outcome(success: bool, status: &str, text: &str) -> (r: Result<
    Transcript,
    TranscriptionError,
>)
    ensures
        match r {
            Ok(transcript) => success && transcript.text@ == trimmed(text@),
            Err(TranscriptionError::Refused { status: given, body }) => {
                &&& !success
                &&& given@ == status@
                &&& body@ == text@
            },
            Err(_) => false,
        },
{
    if success {
        Ok(Transcript::from_answer(text))
    } else {
        Err(TranscriptionError::Refused { status: owned(status), body: owned(text) })
    }
}

// ---------------------------------------------------------------------------
// Laws
// ---------------------------------------------------------------------------
/// Slashes at the end of the base address do not matter.
pub proof fn trailing_slashes_do_not_matter(base_url: Seq<char>)
    ensures
        endpoint(base_url.push('/')) == endpoint(base_url),
        endpoint(trim_end_char(base_url, '/')) == endpoint(base_url),
{
    assert(base_url.push('/').drop_last() =~= base_url);
    lemma_trim_end_char_twice(base_url, '/');
}

proof fn lemma_trim_end_char_twice(s: Seq<char>, c: char)
    ensures
        trim_end_char(trim_end_char(s, c), c) == trim_end_char(s, c),
    decreases s.len(),
{
    if s.len() > 0 && s.last() == c {
        lemma_trim_end_char_twice(s.drop_last(), c);
    }
}

/// What is sent of an answer is the answer without surrounding white space, and
/// nothing is sent of a blank one.
pub proof fn spoken_text_is_the_answer(answer: Seq<char>)
    ensures
        nonblank(Some(trimmed(answer))) == nonblank(Some(answer)),
{
    trimmed_idempotent(answer);
}

/// Recordings go to one place under the base address: an address that does not end with
/// a slash is followed by that place, and an address that does is taken as if it did not.
pub proof fn recordings_go_under_the_base(base_url: Seq<char>, slashes: nat)
    requires
        base_url.len() > 0 ==> base_url[base_url.len() - 1] != '/',
    ensures
        endpoint(base_url + Seq::new(slashes, |i: int| '/')) == base_url
            + "/audio/transcriptions"@,
{
    trailing_run_is_taken_off(base_url, '/', slashes);
}

/// The form names the model as it is set. It names the language and the prompt exactly
/// where they are set and not blank, without the white space around them, and it holds
/// nothing else.
pub proof fn forms_hold_what_is_set(
    model: Seq<char>,
    language: Option<Seq<char>>,
    prompt: Option<Seq<char>>,
)
    ensures
        ({
            let fields = form_fields(model, language, prompt);
            let speaks = language is Some && trimmed(language->Some_0).len() > 0;
            let prompted = prompt is Some && trimmed(prompt->Some_0).len() > 0;
            let languages: int = if speaks {
                1
            } else {
                0
            };
            let prompts: int = if prompted {
                1
            } else {
                0
            };
            &&& fields.len() == 1 + languages + prompts
            &&& fields[0] == ("model"@, model)
            &&& speaks ==> fields[1] == ("language"@, trimmed(language->Some_0))
            &&& prompted ==> fields[fields.len() - 1] == ("prompt"@, trimmed(prompt->Some_0))
        }),
{
}

/// A transcript is the answer of the service without the white space around it, every
/// character kept, and what is spoken is the transcript unless it is blank.
pub proof fn transcripts_keep_what_was_said(
    before: Seq<char>,
    text: Seq<char>,
    after: Seq<char>,
)
    requires
        forall|i: int| 0 <= i < before.len() ==> white_space(#[trigger] before[i]),
        forall|i: int| 0 <= i < after.len() ==> white_space(#[trigger] after[i]),
        text.len() > 0 ==> !white_space(text[0]) && !white_space(text[text.len() - 1]),
    ensures
        trimmed(before + text + after) == text,
        text.len() > 0 ==> nonblank(Some(trimmed(before + text + after))) == Some(text),
        text.len() == 0 ==> nonblank(Some(trimmed(before + text + after))) is None,
{
    trimming_leaves_the_middle(before, text, after);
    trimmed_idempotent(before + text + after);
}

/// The refusal of the service is told with its status and with all that it answered.
pub proof fn refusals_tell_status_and_answer(error: TranscriptionError)
    ensures
        error matches TranscriptionError::Refused { status, body } ==> {
            &&& closes(error.text(), body@)
            &&& occurs(error.text(), " "@ + status@ + ": "@)
            &&& error.text().len() == 43 + status@.len() + body@.len()
        },
{
    if let TranscriptionError::Refused { status, body } = error {
        reveal_strlit("OpenAI transcription request failed with ");
        reveal_strlit(": ");
        reveal_strlit(" ");
        let text = error.text();
        let told = " "@ + status@ + ": "@;
        assert(text.subrange(40, 40int + told.len()) =~= told);
        assert(stands_at(text, told, 40));
        assert(text.subrange(text.len() - body@.len(), text.len() as int) =~= body@);
    }
}

/// The fields of a form are all of them, in order, each with its name and its value.
pub proof fn forms_hold_every_field(fields: Seq<(String, String)>)
    ensures
        field_views(fields).len() == fields.len(),
        forall|i: int|
            0 <= i < fields.len() ==> #[trigger] field_views(fields)[i] == (
                fields[i].0@,
                fields[i].1@,
            ),
{
}

} // verus!

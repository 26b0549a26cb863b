//! The microphone: choosing a device and a stream, feeding the wake-word sidecar,
//! resampling and encoding a recording.
use std::time::Duration;

use vstd::prelude::*;
use vstd::string::*;

use crate::capture::FrameBuffer;
use crate::config::{AudioConfig, SpeechConfig};
use crate::sessions::nonblank;
use crate::text::{
    concat3, contains, lower, occurring_up_to_case, occurs, owned, spelled_at, stands_at,
    to_ascii_lowercase, trim, views,
};
use crate::wake_sidecar::{pcm_bytes, pcm_determines_samples};

verus! {

// ---------------------------------------------------------------------------
// Errors
// ---------------------------------------------------------------------------
/// A step of writing a WAV file.
#[derive(Debug, Clone, Copy, PartialEq, Eq, Structural)]
pub enum WavStep {
    Create,
    Write,
    Finalize,
}

/// Why there is no recording.
#[derive(Debug)]
pub enum AudioError {
    DeviceNotFound(String),
    EmptyCapture,
    Wav(WavStep),
}

impl AudioError {
    /// The text of the error.
    pub open spec fn text(&self) -> Seq<char> {
        match self {
            AudioError::DeviceNotFound(name) => "input device '"@ + name@ + "' was not found"@,
            AudioError::EmptyCapture => "captured audio buffer was empty after resampling"@,
            AudioError::Wav(WavStep::Create) => "failed to create WAV writer"@,
            AudioError::Wav(WavStep::Write) => "failed to write WAV sample"@,
            AudioError::Wav(WavStep::Finalize) => "failed to finalize WAV buffer"@,
        }
    }

    /// The text of the error.
    pub fn message(&self) -> (r: String)
        ensures
            r@ == self.text(),
    {
        match self {
            AudioError::DeviceNotFound(name) => concat3(
                "input device '",
                name.as_str(),
                "' was not found",
            ),
            AudioError::EmptyCapture => owned("captured audio buffer was empty after resampling"),
            AudioError::Wav(WavStep::Create) => owned("failed to create WAV writer"),
            AudioError::Wav(WavStep::Write) => owned("failed to write WAV sample"),
            AudioError::Wav(WavStep::Finalize) => owned("failed to finalize WAV buffer"),
        }
    }
}

// ---------------------------------------------------------------------------
// Devices and streams
// ---------------------------------------------------------------------------
/// A device for input.
#[derive(Debug, Clone, Copy, PartialEq, Eq, Structural)]
pub enum DeviceChoice {
    /// The one that the system uses by default.
    Default,
    /// The one at that position among those listed.
    Listed(usize),
}

/// A format of input that a device supports, at any sample rate of a range.
#[derive(Debug, Clone, Copy)]
pub struct InputRange {
    pub channels: u16,
    pub min_sample_rate_hz: u32,
    pub max_sample_rate_hz: u32,
}

impl InputRange {
    /// The range has that sample rate for that number of channels.
    pub open spec fn covers(self, channels: u16, sample_rate_hz: u32) -> bool {
        self.channels == channels && self.min_sample_rate_hz <= sample_rate_hz
            <= self.max_sample_rate_hz
    }
}

/// The name of a listed device contains the wanted one, up to ASCII case.
pub open spec fn device_matches(name: Option<String>, wanted: Seq<char>) -> bool {
    name matches Some(n) && occurs(lower(n@), lower(wanted))
}

/// The microphone settings and the speech settings.
#[derive(Debug, Clone)]
pub struct AudioInput {
    audio: AudioConfig,
    speech: SpeechConfig,
}

impl AudioInput {
    /// The microphone settings.
    pub closed spec fn microphone(&self) -> AudioConfig {
        self.audio
    }

    /// The speech settings.
    pub closed spec fn speech_settings(&self) -> SpeechConfig {
        self.speech
    }

    /// An input with the given settings.
    pub fn new(audio: AudioConfig, speech: SpeechConfig) -> (input: Self)
        ensures
            input.microphone() == audio,
            input.speech_settings() == speech,
    {
        AudioInput { audio, speech }
    }

    /// The microphone settings.
    pub fn audio(&self) -> (audio: &AudioConfig)
        ensures
            *audio == self.microphone(),
    {
        &self.audio
    }

    /// The speech settings.
    pub fn speech(&self) -> (speech: &SpeechConfig)
        ensures
            *speech == self.speech_settings(),
    {
        &self.speech
    }

    /// Whether no device is asked for by name.
    pub fn uses_default_device(&self) -> (r: bool)
        ensures
            r == (nonblank(Some(self.microphone().input_device@)) is None),
    {
        trim(self.audio.input_device.as_str()).is_empty()
    }

    /// The device to listen to, among those listed by their names, as far as these
    /// are known: the default one where none is asked for, else the first whose name
    /// contains the one asked for.
    pub fn select_input_device(&self, names: &Vec<Option<String>>) -> (r: Result<
        DeviceChoice,
        AudioError,
    >)
        ensures
            match (r, nonblank(Some(self.microphone().input_device@))) {
                (Ok(DeviceChoice::Default), None) => true,
                (Ok(DeviceChoice::Listed(at)), Some(wanted)) => {
                    &&& at < names@.len()
                    &&& device_matches(names@[at as int], wanted)
                    &&& forall|k: int|
                        0 <= k < at ==> !device_matches(#[trigger] names@[k], wanted)
                },
                (Err(AudioError::DeviceNotFound(name)), Some(wanted)) => {
                    &&& name@ == self.microphone().input_device@
                    &&& forall|k: int|
                        0 <= k < names@.len() ==> !device_matches(#[trigger] names@[k], wanted)
                },
                _ => false,
            },
    {
        let body = trim(self.audio.input_device.as_str());
        if body.is_empty() {
            return Ok(DeviceChoice::Default);
        }
        let wanted = to_ascii_lowercase(body);
        let mut i: usize = 0;
        while i < names.len()
            invariant
                i <= names@.len(),
                wanted@ == lower(body@),
                nonblank(Some(self.microphone().input_device@)) == Some(body@),
                forall|k: int| 0 <= k < i ==> !device_matches(#[trigger] names@[k], body@),
            decreases names@.len() - i,
        {
            if let Some(name) = &names[i] {
                let folded = to_ascii_lowercase(name.as_str());
                if contains(folded.as_str(), wanted.as_str()) {
                    return Ok(DeviceChoice::Listed(i));
                }
            }
            i += 1;
        }
        Err(AudioError::DeviceNotFound(owned(self.audio.input_device.as_str())))
    }

    /// The first of the supported ranges that has the preferred sample rate and
    /// number of channels. Where there is none the device's default applies.
    pub fn select_stream_config(&self, ranges: &Vec<InputRange>) -> (r: Option<usize>)
        ensures
            match r {
                Some(at) => {
                    &&& at < ranges@.len()
                    &&& ranges@[at as int].covers(
                        self.microphone().channel_count,
                        self.microphone().sample_rate_hz,
                    )
                    &&& forall|k: int|
                        0 <= k < at ==> !(#[trigger] ranges@[k]).covers(
                            self.microphone().channel_count,
                            self.microphone().sample_rate_hz,
                        )
                },
                None => forall|k: int|
                    0 <= k < ranges@.len() ==> !(#[trigger] ranges@[k]).covers(
                        self.microphone().channel_count,
                        self.microphone().sample_rate_hz,
                    ),
            },
    {
        let mut i: usize = 0;
        while i < ranges.len()
            invariant
                i <= ranges@.len(),
                forall|k: int|
                    0 <= k < i ==> !(#[trigger] ranges@[k]).covers(
                        self.microphone().channel_count,
                        self.microphone().sample_rate_hz,
                    ),
            decreases ranges@.len() - i,
        {
            let range = ranges[i];
            if range.channels == self.audio.channel_count && range.min_sample_rate_hz
                <= self.audio.sample_rate_hz && self.audio.sample_rate_hz
                <= range.max_sample_rate_hz {
                return Some(i);
            }
            i += 1;
        }
        None
    }
}

/// The name of a device as it is shown.
pub open spec fn shown_name(name: Option<String>) -> Seq<char> {
    match name {
        Some(n) => n@,
        None => "<unavailable-name>"@,
    }
}

/// The name of a device as it is shown.
pub fn device_name(name: Option<String>) -> (r: String)
    ensures
        r@ == shown_name(name),
{
    match name {
        Some(n) => n,
        None => owned("<unavailable-name>"),
    }
}

/// The names of the devices as they are listed.
pub fn device_names(names: Vec<Option<String>>) -> (r: Vec<String>)
    ensures
        views(r@) == names@.map_values(|n: Option<String>| shown_name(n)),
{
    let ghost given = names@;
    let mut shown: Vec<String> = Vec::new();
    for name in iter: names
        invariant
            iter.seq() == given,
            shown@.len() == iter.index(),
            forall|k: int|
                0 <= k < shown@.len() ==> (#[trigger] shown@[k])@ == shown_name(given[k]),
    {
        shown.push(device_name(name));
    }
    assert(views(shown@) =~= names@.map_values(|n: Option<String>| shown_name(n)));
    shown
}

// ---------------------------------------------------------------------------
// Waiting for the wake word
// ---------------------------------------------------------------------------
/// The sample rate that the sidecar expects.
pub const WAKE_SAMPLE_RATE_HZ: u32 = 16_000;

/// The length of a frame for the sidecar.
pub const WAKE_FRAME_MS: usize = 80;

/// The number of samples in a frame for the sidecar.
pub fn wake_frame_samples(input_rate_hz: u32) -> (n: usize)
    requires
        input_rate_hz * WAKE_FRAME_MS <= usize::MAX,
    ensures
        n >= 1,
        n == if input_rate_hz * WAKE_FRAME_MS / 1000 >= 1 {
            input_rate_hz * WAKE_FRAME_MS / 1000
        } else {
            1
        },
{
    let n: usize = (input_rate_hz as usize * WAKE_FRAME_MS) / 1000;
    if n >= 1 {
        n
    } else {
        1
    }
}

/// What happened while the wake word is awaited.
#[derive(Debug)]
pub enum WakeEvent<T> {
    /// The sidecar was asked whether it heard the wake word.
    Polled(bool),
    /// Samples came from the microphone.
    Received(Vec<T>),
    /// The frame was written to the sidecar.
    Written,
}

/// What to do next.
#[derive(Debug)]
pub enum WakeAction<T> {
    /// Ask the sidecar whether it heard the wake word.
    Poll,
    /// Wait for samples from the microphone.
    Receive,
    /// Write a frame to the sidecar.
    Write(Vec<T>),
    /// The wake word was heard.
    Finish,
}

/// Where the wait stands: the samples that wait for a frame to be full, and
/// whether more are to be received before the next frame.
pub struct WaitModel<T> {
    pub pending: Seq<T>,
    pub drained: bool,
}

/// What happened while the wake word is awaited.
pub enum WakeEventModel<T> {
    Polled(bool),
    Received(Seq<T>),
    Written,
}

/// What to do next.
pub enum WakeActionModel<T> {
    Poll,
    Receive,
    Write(Seq<T>),
    Finish,
}

impl<T> View for WakeEvent<T> {
    type V = WakeEventModel<T>;

    open spec fn view(&self) -> WakeEventModel<T> {
        match self {
            WakeEvent::Polled(heard) => WakeEventModel::Polled(*heard),
            WakeEvent::Received(chunk) => WakeEventModel::Received(chunk@),
            WakeEvent::Written => WakeEventModel::Written,
        }
    }
}

impl<T> View for WakeAction<T> {
    type V = WakeActionModel<T>;

    open spec fn view(&self) -> WakeActionModel<T> {
        match self {
            WakeAction::Poll => WakeActionModel::Poll,
            WakeAction::Receive => WakeActionModel::Receive,
            WakeAction::Write(frame) => WakeActionModel::Write(frame@),
            WakeAction::Finish => WakeActionModel::Finish,
        }
    }
}

/// Hands out the next frame, or asks the sidecar once more where none is full.
pub open spec fn frame_or_poll<T>(frame_len: nat, pending: Seq<T>) -> (
    WaitModel<T>,
    WakeActionModel<T>,
) {
    if pending.len() >= frame_len {
        (
            WaitModel { pending: pending.skip(frame_len as int), drained: false },
            WakeActionModel::Write(pending.take(frame_len as int)),
        )
    } else {
        (WaitModel { pending, drained: true }, WakeActionModel::Poll)
    }
}

/// The next state and action.
pub open spec fn wait_next<T>(frame_len: nat, state: WaitModel<T>, event: WakeEventModel<T>) -> (
    WaitModel<T>,
    WakeActionModel<T>,
) {
    match event {
        WakeEventModel::Polled(heard) => if heard {
            (state, WakeActionModel::Finish)
        } else if state.drained {
            (state, WakeActionModel::Receive)
        } else {
            frame_or_poll(frame_len, state.pending)
        },
        WakeEventModel::Received(chunk) => frame_or_poll(frame_len, state.pending + chunk),
        WakeEventModel::Written => (state, WakeActionModel::Poll),
    }
}

/// The wait for the wake word, over samples of type `T`. It starts by asking the
/// sidecar.
pub struct WakeWait<T> {
    buffer: FrameBuffer<T>,
    drained: bool,
}

impl<T> View for WakeWait<T> {
    type V = WaitModel<T>;

    closed spec fn view(&self) -> WaitModel<T> {
        WaitModel { pending: self.buffer.pending(), drained: self.drained }
    }
}

impl<T> WakeWait<T> {
    /// The number of samples in a frame.
    pub closed spec fn frame_len(&self) -> nat {
        self.buffer.frame_len()
    }

    /// A wait in which nothing was received.
    pub fn new(frame_samples: usize) -> (wait: Self)
        ensures
            wait.frame_len() == frame_samples,
            wait@ == (WaitModel { pending: Seq::<T>::empty(), drained: true }),
    {
        WakeWait { buffer: FrameBuffer::new(frame_samples), drained: true }
    }

    fn frame_or_poll(&mut self) -> (action: WakeAction<T>)
        ensures
            final(self).frame_len() == old(self).frame_len(),
            (final(self)@, action@) == frame_or_poll(old(self).frame_len(), old(self)@.pending),
    {
        let ghost before = self.buffer.pending();
        match self.buffer.next_frame() {
            Some(frame) => {
                self.drained = false;
                assert(before.take(frame@.len() as int) =~= frame@);
                assert(before.skip(frame@.len() as int) =~= self.buffer.pending());
                WakeAction::Write(frame)
            },
            None => {
                self.drained = true;
                WakeAction::Poll
            },
        }
    }

    /// Takes in what happened and says what to do next.
    pub fn advance(&mut self, event: WakeEvent<T>) -> (action: WakeAction<T>)
        ensures
            final(self).frame_len() == old(self).frame_len(),
            (final(self)@, action@) == wait_next(old(self).frame_len(), old(self)@, event@),
    {
        match event {
            WakeEvent::Polled(heard) => {
                if heard {
                    WakeAction::Finish
                } else if self.drained {
                    WakeAction::Receive
                } else {
                    self.frame_or_poll()
                }
            },
            WakeEvent::Received(chunk) => {
                self.buffer.push(chunk);
                self.frame_or_poll()
            },
            WakeEvent::Written => WakeAction::Poll,
        }
    }
}

// ---------------------------------------------------------------------------
// Resampling
// ---------------------------------------------------------------------------
/// The number of samples that `count` samples at one rate make at another.
pub open spec fn resampled_count(count: int, input_rate_hz: int, output_rate_hz: int) -> int {
    if count == 0 || input_rate_hz == output_rate_hz {
        count
    } else if count * output_rate_hz / input_rate_hz >= 1 {
        count * output_rate_hz / input_rate_hz
    } else {
        1
    }
}

/// The number of samples that `count` samples at one rate make at another.
pub fn resampled_len(count: usize, input_rate_hz: u32, output_rate_hz: u32) -> (n: usize)
    requires
        count > 0 && input_rate_hz != output_rate_hz ==> {
            &&& input_rate_hz > 0
            &&& count * output_rate_hz <= u64::MAX
            &&& count * output_rate_hz / input_rate_hz as int <= usize::MAX
        },
    ensures
        n == resampled_count(count as int, input_rate_hz as int, output_rate_hz as int),
{
    if count == 0 || input_rate_hz == output_rate_hz {
        return count;
    }
    let n: u64 = (count as u64 * output_rate_hz as u64) / input_rate_hz as u64;
    if n >= 1 {
        n as usize
    } else {
        1
    }
}

/// The two samples between which the sample at `index` is interpolated: the one at
/// or before its place in the input, and the one after that, as far as there is one.
pub fn resampling_neighbours(
    index: usize,
    count: usize,
    input_rate_hz: u32,
    output_rate_hz: u32,
) -> (r: (usize, usize))
    requires
        input_rate_hz > 0,
        output_rate_hz > 0,
        count > 0,
        index < resampled_count(count as int, input_rate_hz as int, output_rate_hz as int),
        index * input_rate_hz <= u64::MAX,
    ensures
        r.0 == index * input_rate_hz / output_rate_hz as int,
        r.1 == if r.0 + 1 < count {
            r.0 + 1
        } else {
            count - 1
        },
        r.0 <= r.1 < count,
{
    proof {
        neighbours_are_there(
            index as int,
            count as int,
            input_rate_hz as int,
            output_rate_hz as int,
        );
    }
    let left: usize = ((index as u64 * input_rate_hz as u64) / output_rate_hz as u64) as usize;
    let right: usize = if left + 1 < count {
        left + 1
    } else {
        count - 1
    };
    (left, right)
}

// ---------------------------------------------------------------------------
// Encoding
// ---------------------------------------------------------------------------
/// Two bytes, the low one first.
pub open spec fn le16(n: int) -> Seq<u8> {
    seq![(n % 256) as u8, (n / 256 % 256) as u8]
}

/// Four bytes, the low one first.
pub open spec fn le32(n: int) -> Seq<u8> {
    le16(n % 0x1_0000) + le16(n / 0x1_0000)
}

/// The start of a WAV file that holds `data_len` bytes of audio: `RIFF`, the length
/// of what follows, `WAVE`.
pub open spec fn riff_part(data_len: int) -> Seq<u8> {
    seq![0x52u8, 0x49, 0x46, 0x46] + le32(36 + data_len) + seq![0x57u8, 0x41, 0x56, 0x45]
}

/// The kind of audio: `fmt `, the length of the description, plain integer samples,
/// the number of channels.
pub open spec fn kind_part(channels: int) -> Seq<u8> {
    seq![0x66u8, 0x6d, 0x74, 0x20] + le32(16) + le16(1) + le16(channels)
}

/// The sizes of 16-bit samples: bytes in a second, bytes in a frame, bits in a
/// sample.
pub open spec fn size_part(channels: int, sample_rate_hz: int) -> Seq<u8> {
    le32(sample_rate_hz * 2 * channels) + le16(2 * channels) + le16(16)
}

/// The start of the audio: `data` and its length.
pub open spec fn data_part(data_len: int) -> Seq<u8> {
    seq![0x64u8, 0x61, 0x74, 0x61] + le32(data_len)
}

/// The header of a WAV file of 16-bit samples that holds `data_len` bytes of audio.
pub open spec fn wav_header(channels: int, sample_rate_hz: int, data_len: int) -> Seq<u8> {
    riff_part(data_len) + kind_part(channels) + le32(sample_rate_hz) + size_part(
        channels,
        sample_rate_hz,
    ) + data_part(data_len)
}

/// A WAV file of 16-bit samples.
pub open spec fn wav_file(channels: int, sample_rate_hz: int, samples: Seq<i16>) -> Seq<u8> {
    wav_header(channels, sample_rate_hz, 2 * samples.len() as int) + pcm_bytes(samples)
}

/// The samples fit into a WAV file of that rate.
pub open spec fn wav_fits(channels: int, sample_rate_hz: int, count: int) -> bool {
    &&& 1 <= sample_rate_hz
    &&& sample_rate_hz * 2 * channels <= u32::MAX
    &&& 36 + 2 * count <= u32::MAX
}

/// Writes samples into a WAV file in memory.
///
/// Trusted: a `hound::WavWriter` for one or two channels of 16-bit integer
/// samples, to which whole frames of samples are written with `write_sample` and
/// which is then closed with `finalize`, leaves the plain PCM header with both
/// lengths filled in, followed by the samples, the low byte of each first. Of its
/// errors only those of the writer below it are left then, and a growing buffer in
/// memory has none.
#[verifier::external_body]
fn wav_of(channels: u16, sample_rate_hz: u32, samples: &Vec<i16>) -> (r: Result<Vec<u8>, WavStep>)
    requires
        1 <= channels <= 2,
        samples@.len() % channels as nat == 0,
        wav_fits(channels as int, sample_rate_hz as int, samples@.len() as int),
    ensures
        r is Ok,
        r matches Ok(bytes) ==> bytes@ == wav_file(
            channels as int,
            sample_rate_hz as int,
            samples@,
        ),
{
    let mut cursor = std::io::Cursor::new(Vec::new());
    let format = hound::SampleFormat::Int;
    let spec = hound::WavSpec {
        channels, sample_rate: sample_rate_hz, bits_per_sample: 16, sample_format: format,
    };
    let mut writer = hound::WavWriter::new(&mut cursor, spec).map_err(|_| WavStep::Create)?;
    for sample in samples.iter() {
        writer.write_sample(*sample).map_err(|_| WavStep::Write)?;
    }
    writer.finalize().map_err(|_| WavStep::Finalize)?;
    Ok(cursor.into_inner())
}

/// A WAV file with one channel.
pub fn encode_wav_mono_i16(samples: &Vec<i16>, sample_rate_hz: u32) -> (r: Result<
    Vec<u8>,
    AudioError,
>)
    requires
        wav_fits(1, sample_rate_hz as int, samples@.len() as int),
    ensures
        match r {
            Ok(bytes) => bytes@ == wav_file(1, sample_rate_hz as int, samples@),
            Err(_) => false,
        },
{
    match wav_of(1, sample_rate_hz, samples) {
        Ok(bytes) => Ok(bytes),
        Err(step) => Err(AudioError::Wav(step)),
    }
}

/// A recorded utterance.
#[derive(Debug)]
pub struct CapturedAudio {
    pub wav_bytes: Vec<u8>,
    pub sample_rate_hz: u32,
    pub duration: Duration,
}

impl Clone for CapturedAudio {
    fn clone(&self) -> (captured: Self)
        ensures
            captured.wav_bytes@ == self.wav_bytes@,
            captured.sample_rate_hz == self.sample_rate_hz,
            captured.duration == self.duration,
    {
        CapturedAudio {
            wav_bytes: self.wav_bytes.clone(),
            sample_rate_hz: self.sample_rate_hz,
            duration: self.duration,
        }
    }
}

/// The recording that an encoded utterance makes, or why it could not be encoded.
pub fn capture_outcome(
    encoded: Result<Vec<u8>, AudioError>,
    sample_rate_hz: u32,
    duration: Duration,
) -> (r: Result<CapturedAudio, AudioError>)
    ensures
        match (encoded, r) {
            (Ok(bytes), Ok(captured)) => {
                &&& captured.wav_bytes == bytes
                &&& captured.sample_rate_hz == sample_rate_hz
                &&& captured.duration == duration
            },
            (Err(cause), Err(error)) => error == cause,
            _ => false,
        },
{
    match encoded {
        Ok(wav_bytes) => Ok(CapturedAudio { wav_bytes, sample_rate_hz, duration }),
        Err(error) => Err(error),
    }
}

/// The recording that captured samples make.
pub fn finish_capture(samples: &Vec<i16>, sample_rate_hz: u32, duration: Duration) -> (r: Result<
    CapturedAudio,
    AudioError,
>)
    requires
        samples@.len() > 0 ==> wav_fits(1, sample_rate_hz as int, samples@.len() as int),
    ensures
        match r {
            Ok(captured) => {
                &&& samples@.len() > 0
                &&& captured.wav_bytes@ == wav_file(1, sample_rate_hz as int, samples@)
                &&& captured.sample_rate_hz == sample_rate_hz
                &&& captured.duration == duration
            },
            Err(AudioError::EmptyCapture) => samples@.len() == 0,
            Err(_) => false,
        },
{
    if samples.len() == 0 {
        return Err(AudioError::EmptyCapture);
    }
    capture_outcome(encode_wav_mono_i16(samples, sample_rate_hz), sample_rate_hz, duration)
}

// ---------------------------------------------------------------------------
// Laws
// ---------------------------------------------------------------------------
/// The samples that an event brings.
pub open spec fn brought<T>(event: WakeEventModel<T>) -> Seq<T> {
    match event {
        WakeEventModel::Received(chunk) => chunk,
        _ => Seq::empty(),
    }
}

/// The samples that an action hands to the sidecar.
pub open spec fn handed_on<T>(action: WakeActionModel<T>) -> Seq<T> {
    match action {
        WakeActionModel::Write(frame) => frame,
        _ => Seq::empty(),
    }
}

/// The samples that some events bring, in order.
pub open spec fn all_brought<T>(events: Seq<WakeEventModel<T>>) -> Seq<T>
    decreases events.len(),
{
    if events.len() == 0 {
        Seq::empty()
    } else {
        all_brought(events.drop_last()) + brought(events.last())
    }
}

/// Where a wait stands after some events, and the samples that were handed to the
/// sidecar on the way.
pub open spec fn wait_after<T>(
    frame_len: nat,
    state: WaitModel<T>,
    events: Seq<WakeEventModel<T>>,
) -> (WaitModel<T>, Seq<T>)
    decreases events.len(),
{
    if events.len() == 0 {
        (state, Seq::empty())
    } else {
        let (before, handed) = wait_after(frame_len, state, events.drop_last());
        let (next, action) = wait_next(frame_len, before, events.last());
        (next, handed + handed_on(action))
    }
}

/// The sidecar hears everything: over any events no sample is lost, repeated or moved
/// on its way from the microphone. What was handed on, and what still waits for a
/// frame to be full, are together what waited and what was received.
pub proof fn sidecar_hears_everything<T>(
    frame_len: nat,
    state: WaitModel<T>,
    events: Seq<WakeEventModel<T>>,
)
    ensures
        ({
            let (after, handed) = wait_after(frame_len, state, events);
            handed + after.pending == state.pending + all_brought(events)
        }),
    decreases events.len(),
{
    let (after, handed) = wait_after(frame_len, state, events);
    if events.len() == 0 {
        assert(handed + after.pending =~= state.pending + all_brought(events));
    } else {
        let (before, earlier) = wait_after(frame_len, state, events.drop_last());
        let event = events.last();
        sidecar_hears_everything(frame_len, state, events.drop_last());
        frames_are_handed_on(frame_len, before, event);
        let action = wait_next(frame_len, before, event).1;
        assert(handed + after.pending =~= earlier + (handed_on(action) + after.pending));
        assert(earlier + (before.pending + brought(event)) =~= (earlier + before.pending)
            + brought(event));
        assert((state.pending + all_brought(events.drop_last())) + brought(event)
            =~= state.pending + all_brought(events));
    }
}

/// A step hands on what waited and what it received, in order, as far as it makes a
/// frame; each frame that is handed on is whole.
pub proof fn frames_are_handed_on<T>(
    frame_len: nat,
    state: WaitModel<T>,
    event: WakeEventModel<T>,
)
    ensures
        handed_on(wait_next(frame_len, state, event).1) + wait_next(
            frame_len,
            state,
            event,
        ).0.pending == state.pending + brought(event),
        wait_next(frame_len, state, event).1 matches WakeActionModel::Write(frame) ==> frame.len()
            == frame_len,
{
    let (next, action) = wait_next(frame_len, state, event);
    assert(handed_on(action) + next.pending =~= state.pending + brought(event));
}

/// The wait ends when the wake word was heard and only then, and it asks for
/// more samples only where no frame is full.
pub proof fn wait_ends_on_wake_word<T>(
    frame_len: nat,
    state: WaitModel<T>,
    event: WakeEventModel<T>,
)
    requires
        state.drained ==> state.pending.len() < frame_len,
    ensures
        wait_next(frame_len, state, event).1 is Finish <==> event
            == WakeEventModel::<T>::Polled(true),
        wait_next(frame_len, state, event).1 is Receive ==> wait_next(
            frame_len,
            state,
            event,
        ).0.pending.len() < frame_len,
        wait_next(frame_len, state, event).0.drained ==> wait_next(
            frame_len,
            state,
            event,
        ).0.pending.len() < frame_len,
{
}

/// Every sample of the output is interpolated between samples that are there.
pub proof fn neighbours_are_there(index: int, count: int, input_rate_hz: int, output_rate_hz: int)
    requires
        count > 0,
        input_rate_hz > 0,
        output_rate_hz > 0,
        0 <= index < resampled_count(count, input_rate_hz, output_rate_hz),
    ensures
        0 <= index * input_rate_hz / output_rate_hz < count,
{
    let product = count * output_rate_hz;
    if input_rate_hz == output_rate_hz {
        assert(index * input_rate_hz / output_rate_hz == index) by (nonlinear_arith)
            requires
                input_rate_hz == output_rate_hz,
                output_rate_hz > 0,
        ;
    } else if product / input_rate_hz >= 1 {
        assert((index + 1) * input_rate_hz <= product) by (nonlinear_arith)
            requires
                index + 1 <= product / input_rate_hz,
                input_rate_hz > 0,
        ;
        assert(0 <= index * input_rate_hz / output_rate_hz < count) by (nonlinear_arith)
            requires
                0 <= index,
                (index + 1) * input_rate_hz <= product,
                product == count * output_rate_hz,
                input_rate_hz > 0,
                output_rate_hz > 0,
        ;
    } else {
        assert(index == 0);
        assert(0 * input_rate_hz / output_rate_hz == 0) by (nonlinear_arith)
            requires
                output_rate_hz > 0,
        ;
    }
}

/// Resampling to the same rate keeps the number of samples, and something stays
/// something.
pub proof fn resampling_keeps_sound(count: int, input_rate_hz: int, output_rate_hz: int)
    requires
        count >= 0,
        input_rate_hz > 0,
        output_rate_hz >= 0,
    ensures
        input_rate_hz == output_rate_hz ==> resampled_count(count, input_rate_hz, output_rate_hz)
            == count,
        resampled_count(count, input_rate_hz, output_rate_hz) == 0 <==> count == 0,
{
}

proof fn lemma_le16(a: int, b: int)
    requires
        0 <= a < 0x1_0000,
        0 <= b < 0x1_0000,
        le16(a) == le16(b),
    ensures
        a == b,
{
    assert(le16(a)[0] == le16(b)[0]);
    assert(le16(a)[1] == le16(b)[1]);
}

proof fn lemma_le32(a: int, b: int)
    requires
        0 <= a <= u32::MAX,
        0 <= b <= u32::MAX,
        le32(a) == le32(b),
    ensures
        a == b,
{
    assert(le16(a % 0x1_0000) =~= le32(a).take(2));
    assert(le16(b % 0x1_0000) =~= le32(b).take(2));
    assert(le16(a / 0x1_0000) =~= le32(a).skip(2));
    assert(le16(b / 0x1_0000) =~= le32(b).skip(2));
    lemma_le16(a % 0x1_0000, b % 0x1_0000);
    lemma_le16(a / 0x1_0000, b / 0x1_0000);
}

proof fn lemma_wav_layout(sample_rate_hz: int, samples: Seq<i16>)
    ensures
        wav_file(1, sample_rate_hz, samples).len() == 44 + 2 * samples.len(),
        wav_file(1, sample_rate_hz, samples).subrange(24, 28) == le32(sample_rate_hz),
        wav_file(1, sample_rate_hz, samples).skip(44) == pcm_bytes(samples),
{
    let data_len = 2 * samples.len() as int;
    let a = riff_part(data_len);
    let b = kind_part(1);
    let c = le32(sample_rate_hz);
    let d = size_part(1, sample_rate_hz);
    let e = data_part(data_len);
    assert(a.len() == 12);
    assert(b.len() == 12);
    assert(c.len() == 4);
    assert(d.len() == 8);
    assert(e.len() == 8);
    lemma_layout(a, b, c, d, e, pcm_bytes(samples));
}

proof fn lemma_layout(
    a: Seq<u8>,
    b: Seq<u8>,
    c: Seq<u8>,
    d: Seq<u8>,
    e: Seq<u8>,
    f: Seq<u8>,
)
    requires
        a.len() == 12,
        b.len() == 12,
        c.len() == 4,
        d.len() == 8,
        e.len() == 8,
    ensures
        (a + b + c + d + e + f).len() == 44 + f.len(),
        (a + b + c + d + e + f).subrange(24, 28) == c,
        (a + b + c + d + e + f).skip(44) == f,
{
    let whole = a + b + c + d + e + f;
    assert(whole.subrange(24, 28) =~= c);
    assert(whole.skip(44) =~= f);
}

/// A WAV file determines its audio: two files that are the same hold the same
/// samples at the same rate.
pub proof fn wav_determines_audio(
    first_rate_hz: int,
    first: Seq<i16>,
    second_rate_hz: int,
    second: Seq<i16>,
)
    requires
        wav_fits(1, first_rate_hz, first.len() as int),
        wav_fits(1, second_rate_hz, second.len() as int),
        wav_file(1, first_rate_hz, first) == wav_file(1, second_rate_hz, second),
    ensures
        first == second,
        first_rate_hz == second_rate_hz,
{
    lemma_wav_layout(first_rate_hz, first);
    lemma_wav_layout(second_rate_hz, second);
    lemma_le32(first_rate_hz, second_rate_hz);
    pcm_determines_samples(first, second);
}

/// A device matches exactly if its name is known and the letters that are asked for
/// stand in it, in either case, at some place.
pub proof fn devices_are_found_by_part_of_their_name(name: Option<String>, wanted: Seq<char>)
    ensures
        device_matches(name, wanted) <==> name is Some && exists|at: int| #[trigger]
            spelled_at(name->Some_0@, wanted, at),
{
    if let Some(known) = name {
        occurring_up_to_case(known@, wanted);
    }
}

/// A range has every sample rate between its bounds, the bounds included, for its own
/// number of channels, and no other.
pub proof fn ranges_include_their_bounds(range: InputRange, channels: u16, sample_rate_hz: u32)
    ensures
        range.covers(channels, sample_rate_hz) <==> channels == range.channels && !(sample_rate_hz
            < range.min_sample_rate_hz) && !(range.max_sample_rate_hz < sample_rate_hz),
{
}

/// A device is shown by its name, where that is known, and a device that is not found is
/// named as it was asked for.
pub proof fn devices_are_named_as_they_are(name: String, error: AudioError)
    ensures
        shown_name(Some(name)) == name@,
        shown_name(None) == "<unavailable-name>"@,
        error matches AudioError::DeviceNotFound(wanted) ==> {
            &&& occurs(error.text(), "'"@ + wanted@ + "'"@)
            &&& error.text().len() == 29 + wanted@.len()
        },
{
    if let AudioError::DeviceNotFound(wanted) = error {
        reveal_strlit("input device '");
        reveal_strlit("' was not found");
        reveal_strlit("'");
        let text = error.text();
        let named = "'"@ + wanted@ + "'"@;
        assert(text.subrange(13, 13int + named.len()) =~= named);
        assert(stands_at(text, named, 13));
    }
}

/// The wait makes progress. A frame that is full is written before anything more is
/// received, and the sidecar is asked after each frame; where no frame is full the
/// sidecar is asked once more and then samples are received.
pub proof fn wait_makes_progress<T>(frame_len: nat, state: WaitModel<T>, chunk: Seq<T>)
    requires
        frame_len > 0,
    ensures
        ({
            let waiting = state.pending + chunk;
            let (next, action) = wait_next(frame_len, state, WakeEventModel::Received(chunk));
            &&& waiting.len() >= frame_len ==> action == WakeActionModel::Write(
                waiting.subrange(0, frame_len as int),
            ) && !next.drained
            &&& waiting.len() < frame_len ==> action == WakeActionModel::<T>::Poll && next.drained
        }),
        ({
            let (next, action) = wait_next(frame_len, state, WakeEventModel::Polled(false));
            &&& state.drained ==> action == WakeActionModel::<T>::Receive && next == state
            &&& !state.drained && state.pending.len() >= frame_len ==> action
                == WakeActionModel::Write(state.pending.subrange(0, frame_len as int))
                && !next.drained
            &&& !state.drained && state.pending.len() < frame_len ==> action
                == WakeActionModel::<T>::Poll && next.drained
        }),
        wait_next(frame_len, state, WakeEventModel::Written) == (state, WakeActionModel::<T>::Poll),
        wait_next(frame_len, state, WakeEventModel::Polled(true)) == (
            state,
            WakeActionModel::<T>::Finish,
        ),
{
    let waiting = state.pending + chunk;
    if waiting.len() >= frame_len {
        assert(waiting.take(frame_len as int) =~= waiting.subrange(0, frame_len as int));
    }
    if state.pending.len() >= frame_len {
        assert(state.pending.take(frame_len as int) =~= state.pending.subrange(
            0,
            frame_len as int,
        ));
    }
}

/// Resampling keeps the time that some audio takes, to less than one sample of the
/// output; audio that would be shorter than a sample becomes one sample.
pub proof fn resampling_keeps_the_time(count: int, input_rate_hz: int, output_rate_hz: int)
    requires
        count > 0,
        input_rate_hz > 0,
        output_rate_hz >= 0,
    ensures
        ({
            let made = resampled_count(count, input_rate_hz, output_rate_hz);
            &&& made >= 1
            &&& count * output_rate_hz < (made + 1) * input_rate_hz
            &&& made > 1 ==> made * input_rate_hz <= count * output_rate_hz
        }),
{
    let product = count * output_rate_hz;
    let made = resampled_count(count, input_rate_hz, output_rate_hz);
    if input_rate_hz == output_rate_hz {
        assert(count * output_rate_hz < (count + 1) * input_rate_hz) by (nonlinear_arith)
            requires
                input_rate_hz == output_rate_hz,
                input_rate_hz > 0,
        ;
        assert(count * input_rate_hz <= count * output_rate_hz);
    } else {
        let quotient = product / input_rate_hz;
        assert(quotient * input_rate_hz <= product < (quotient + 1) * input_rate_hz)
            by (nonlinear_arith)
            requires
                quotient == product / input_rate_hz,
                input_rate_hz > 0,
        ;
        if quotient < 1 {
            assert(made == 1);
            assert((quotient + 1) * input_rate_hz <= 2 * input_rate_hz) by (nonlinear_arith)
                requires
                    quotient < 1,
                    input_rate_hz > 0,
            ;
        }
    }
}

/// What is received is all that the microphone gave, and what is written is the whole
/// frame.
pub proof fn wake_events_hold_all_samples<T>(samples: Vec<T>, heard: bool)
    ensures
        WakeEvent::Received(samples)@ == WakeEventModel::Received(samples@),
        WakeEvent::<T>::Polled(heard)@ == WakeEventModel::<T>::Polled(heard),
        WakeEvent::<T>::Written@ == WakeEventModel::<T>::Written,
        WakeAction::Write(samples)@ == WakeActionModel::Write(samples@),
        WakeAction::<T>::Poll@ == WakeActionModel::<T>::Poll,
        WakeAction::<T>::Receive@ == WakeActionModel::<T>::Receive,
        WakeAction::<T>::Finish@ == WakeActionModel::<T>::Finish,
        brought(WakeEventModel::Received(samples@)) == samples@,
        handed_on(WakeActionModel::Write(samples@)) == samples@,
{
}

} // verus!

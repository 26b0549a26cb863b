//! The speech segmenter: cutting a stream of samples into frames and deciding where
//! an utterance starts and ends.
use std::collections::VecDeque;

use vstd::prelude::*;

use crate::config::SpeechConfig;
use crate::level::Level;

verus! {

// ---------------------------------------------------------------------------
// Limits
// ---------------------------------------------------------------------------
/// The larger of two integers.
pub open spec fn larger(a: int, b: int) -> int {
    if a >= b {
        a
    } else {
        b
    }
}

/// The number of samples in `ms` milliseconds at `rate_hz`, rounded down.
pub open spec fn samples_in(ms: int, rate_hz: int) -> int {
    ms * rate_hz / 1000
}

/// The number of 20 ms frames that cover `ms` milliseconds, and at least one.
pub open spec fn frames_covering(ms: int) -> int {
    larger((ms + 19) / 20, 1)
}

/// The counts, in samples and in frames, that the segmenter works by.
#[derive(Debug, Clone, Copy)]
pub struct CaptureLimits {
    pub frame_samples: usize,
    pub pre_roll_samples: usize,
    pub start_frames: usize,
    pub silence_frames: usize,
    pub min_samples: usize,
    pub max_samples: usize,
}

impl CaptureLimits {
    /// Every count is at least one, and the pre-roll holds at least one frame.
    pub open spec fn valid(self) -> bool {
        &&& self.frame_samples >= 1
        &&& self.pre_roll_samples >= self.frame_samples
        &&& self.start_frames >= 1
        &&& self.silence_frames >= 1
        &&& self.min_samples >= 1
        &&& self.max_samples >= 1
    }
}

/// The milliseconds, and the samples that they make at `rate_hz`, can be counted
/// in a machine word.
pub open spec fn countable(ms: u64, rate_hz: u32) -> bool {
    ms <= usize::MAX && ms * rate_hz <= usize::MAX
}

/// Every time of the speech settings can be counted at `rate_hz`.
pub open spec fn speech_countable(speech: SpeechConfig, rate_hz: u32) -> bool {
    &&& rate_hz <= usize::MAX
    &&& countable(speech.pre_roll_ms, rate_hz)
    &&& countable(speech.min_utterance_ms, rate_hz)
    &&& countable(speech.max_utterance_ms, rate_hz)
    &&& speech.start_window_ms <= usize::MAX
    &&& speech.trailing_silence_ms <= usize::MAX
}

/// Whether every time of the speech settings can be counted at `rate_hz`.
pub fn is_speech_countable(speech: &SpeechConfig, rate_hz: u32) -> (r: bool)
    ensures
        r == speech_countable(*speech, rate_hz),
{
    let word: u64 = usize::MAX as u64;
    rate_hz as u64 <= word && is_countable(speech.pre_roll_ms, rate_hz) && is_countable(
        speech.min_utterance_ms,
        rate_hz,
    ) && is_countable(speech.max_utterance_ms, rate_hz) && speech.start_window_ms <= word
        && speech.trailing_silence_ms <= word
}

fn is_countable(ms: u64, rate_hz: u32) -> (r: bool)
    ensures
        r == countable(ms, rate_hz),
{
    let word: u64 = usize::MAX as u64;
    match ms.checked_mul(rate_hz as u64) {
        Some(samples) => ms <= word && samples <= word,
        None => false,
    }
}

fn count_samples(ms: u64, rate_hz: u32) -> (n: usize)
    requires
        countable(ms, rate_hz),
        rate_hz <= usize::MAX,
    ensures
        n == samples_in(ms as int, rate_hz as int),
{
    (ms as usize * rate_hz as usize) / 1000
}

fn count_frames(ms: u64) -> (n: usize)
    requires
        ms <= usize::MAX,
    ensures
        n == frames_covering(ms as int),
{
    let whole = ms as usize / 20;
    let n: usize = if ms as usize % 20 == 0 {
        whole
    } else {
        whole + 1
    };
    if n >= 1 {
        n
    } else {
        1
    }
}

fn at_least(n: usize, floor: usize) -> (r: usize)
    ensures
        r == larger(n as int, floor as int),
{
    if n >= floor {
        n
    } else {
        floor
    }
}

/// The limits for a stream of `input_rate_hz` under the speech settings. A frame
/// lasts 20 ms.
pub fn capture_limits(input_rate_hz: u32, speech: &SpeechConfig) -> (limits: CaptureLimits)
    requires
        speech_countable(*speech, input_rate_hz),
    ensures
        limits.valid(),
        limits.frame_samples == larger(input_rate_hz as int / 50, 1),
        limits.pre_roll_samples == larger(
            samples_in(speech.pre_roll_ms as int, input_rate_hz as int),
            limits.frame_samples as int,
        ),
        limits.start_frames == frames_covering(speech.start_window_ms as int),
        limits.silence_frames == frames_covering(speech.trailing_silence_ms as int),
        limits.min_samples == larger(
            samples_in(speech.min_utterance_ms as int, input_rate_hz as int),
            1,
        ),
        limits.max_samples == larger(
            samples_in(speech.max_utterance_ms as int, input_rate_hz as int),
            1,
        ),
{
    let frame_samples = at_least(input_rate_hz as usize / 50, 1);
    CaptureLimits {
        frame_samples,
        pre_roll_samples: at_least(count_samples(speech.pre_roll_ms, input_rate_hz), frame_samples),
        start_frames: count_frames(speech.start_window_ms),
        silence_frames: count_frames(speech.trailing_silence_ms),
        min_samples: at_least(count_samples(speech.min_utterance_ms, input_rate_hz), 1),
        max_samples: at_least(count_samples(speech.max_utterance_ms, input_rate_hz), 1),
    }
}

// ---------------------------------------------------------------------------
// Frames
// ---------------------------------------------------------------------------
/// Samples that wait until they fill a frame.
pub struct FrameBuffer<T> {
    frame_samples: usize,
    pending: Vec<T>,
}

impl<T> FrameBuffer<T> {
    /// The samples that wait.
    pub closed spec fn pending(&self) -> Seq<T> {
        self.pending@
    }

    /// The number of samples in a frame.
    pub closed spec fn frame_len(&self) -> nat {
        self.frame_samples as nat
    }

    /// A buffer without samples.
    pub fn new(frame_samples: usize) -> (buffer: Self)
        ensures
            buffer.frame_len() == frame_samples,
            buffer.pending() == Seq::<T>::empty(),
    {
        FrameBuffer { frame_samples, pending: Vec::new() }
    }

    /// Adds samples behind those that wait.
    pub fn push(&mut self, chunk: Vec<T>)
        ensures
            final(self).frame_len() == old(self).frame_len(),
            final(self).pending() == old(self).pending() + chunk@,
    {
        let mut chunk = chunk;
        self.pending.append(&mut chunk);
    }

    /// Takes the oldest samples, as many as make a frame, if that many wait.
    pub fn next_frame(&mut self) -> (frame: Option<Vec<T>>)
        ensures
            final(self).frame_len() == old(self).frame_len(),
            match frame {
                Some(f) => {
                    &&& f@.len() == old(self).frame_len()
                    &&& f@ + final(self).pending() == old(self).pending()
                },
                None => {
                    &&& old(self).pending().len() < old(self).frame_len()
                    &&& final(self).pending() == old(self).pending()
                },
            },
    {
        if self.pending.len() < self.frame_samples {
            return None;
        }
        let mut rest = self.pending.split_off(self.frame_samples);
        std::mem::swap(&mut self.pending, &mut rest);
        assert(rest@ + self.pending@ =~= old(self).pending@);
        Some(rest)
    }
}

// ---------------------------------------------------------------------------
// The segmenter
// ---------------------------------------------------------------------------
/// Why a capture ended.
#[derive(Debug, Clone, Copy, PartialEq, Eq, Structural)]
pub enum StopReason {
    MaximumLength,
    TrailingSilence,
}

/// What a frame did to the segmenter.
#[derive(Debug, Clone, Copy, PartialEq, Eq, Structural)]
pub enum SegmenterStep {
    /// No utterance yet.
    Waiting,
    /// The utterance starts with this frame.
    Started,
    /// The utterance goes on.
    Recording,
    /// The utterance is complete.
    Stopped(StopReason),
}

/// The state of the segmenter.
pub struct SegmenterModel<T> {
    pub recording: bool,
    pub voiced_streak: nat,
    pub silence_streak: nat,
    pub pre_roll: Seq<T>,
    pub captured: Seq<T>,
}

/// The last `n` items of `s`, or all of them.
pub open spec fn last_of<T>(s: Seq<T>, n: nat) -> Seq<T> {
    if s.len() <= n {
        s
    } else {
        s.skip(s.len() - n)
    }
}

/// The state before the first frame.
pub open spec fn segmenter_start<T>() -> SegmenterModel<T> {
    SegmenterModel {
        recording: false,
        voiced_streak: 0,
        silence_streak: 0,
        pre_roll: Seq::empty(),
        captured: Seq::empty(),
    }
}

/// The state after one more frame.
///
/// While no utterance is under way the frame goes to the pre-roll, and as soon as
/// enough frames in a row were voiced the pre-roll and the frame open the
/// capture. From then on each frame is captured.
pub open spec fn segmenter_next<T>(
    limits: CaptureLimits,
    segmenter: SegmenterModel<T>,
    frame: Seq<T>,
    voiced: bool,
) -> SegmenterModel<T> {
    if !segmenter.recording {
        let pre_roll = last_of(segmenter.pre_roll + frame, limits.pre_roll_samples as nat);
        let streak = if voiced {
            segmenter.voiced_streak + 1
        } else {
            0
        };
        if streak >= limits.start_frames {
            SegmenterModel {
                recording: true,
                voiced_streak: streak,
                silence_streak: 0,
                pre_roll,
                captured: segmenter.captured + pre_roll + frame,
            }
        } else {
            SegmenterModel { voiced_streak: streak, pre_roll, ..segmenter }
        }
    } else {
        SegmenterModel {
            captured: segmenter.captured + frame,
            silence_streak: if voiced {
                0
            } else {
                segmenter.silence_streak + 1
            },
            ..segmenter
        }
    }
}

/// What one more frame means.
pub open spec fn segmenter_step<T>(
    limits: CaptureLimits,
    segmenter: SegmenterModel<T>,
    frame: Seq<T>,
    voiced: bool,
) -> SegmenterStep {
    let next = segmenter_next(limits, segmenter, frame, voiced);
    if !segmenter.recording {
        if next.recording {
            SegmenterStep::Started
        } else {
            SegmenterStep::Waiting
        }
    } else if next.captured.len() >= limits.max_samples {
        SegmenterStep::Stopped(StopReason::MaximumLength)
    } else if next.captured.len() >= limits.min_samples && next.silence_streak
        >= limits.silence_frames {
        SegmenterStep::Stopped(StopReason::TrailingSilence)
    } else {
        SegmenterStep::Recording
    }
}

/// Adds samples to a ring and drops the oldest ones beyond `max_len`.
pub fn extend_ring<T: Copy>(ring: &mut VecDeque<T>, samples: &Vec<T>, max_len: usize)
    ensures
        final(ring)@ == last_of(old(ring)@ + samples@, max_len as nat),
{
    let mut i: usize = 0;
    while i < samples.len()
        invariant
            i <= samples@.len(),
            ring@ == old(ring)@ + samples@.take(i as int),
        decreases samples@.len() - i,
    {
        ring.push_back(samples[i]);
        i += 1;
        assert(ring@ =~= old(ring)@ + samples@.take(i as int));
    }
    let ghost full = old(ring)@ + samples@;
    assert(ring@ =~= full);
    assert(full.skip(0) =~= full);
    while ring.len() > max_len
        invariant
            ring@.len() <= full.len(),
            ring@ == full.skip(full.len() - ring@.len()),
            ring@.len() >= max_len || ring@ == full,
        decreases ring@.len(),
    {
        ring.pop_front();
        assert(ring@ =~= full.skip(full.len() - ring@.len()));
    }
}

/// The speech segmenter over samples of type `T`.
pub struct Segmenter<T> {
    limits: CaptureLimits,
    threshold: Level,
    recording: bool,
    voiced_streak: usize,
    silence_streak: usize,
    pre_roll: VecDeque<T>,
    captured: Vec<T>,
}

impl<T> View for Segmenter<T> {
    type V = SegmenterModel<T>;

    closed spec fn view(&self) -> SegmenterModel<T> {
        SegmenterModel {
            recording: self.recording,
            voiced_streak: self.voiced_streak as nat,
            silence_streak: self.silence_streak as nat,
            pre_roll: self.pre_roll@,
            captured: self.captured@,
        }
    }
}

impl<T: Copy> Segmenter<T> {
    /// The limits that the segmenter works by.
    pub closed spec fn limits(&self) -> CaptureLimits {
        self.limits
    }

    /// The level from which a frame counts as voiced.
    pub closed spec fn threshold(&self) -> Level {
        self.threshold
    }

    /// The limits are valid, a segmenter that waits has seen too few voiced frames in
    /// a row, and the silence within an utterance is part of it.
    pub open spec fn wf(&self) -> bool {
        &&& self.limits().valid()
        &&& !self@.recording ==> self@.voiced_streak < self.limits().start_frames
        &&& self@.recording ==> self@.silence_streak <= self@.captured.len()
    }

    /// A segmenter that has seen nothing.
    pub fn new(limits: CaptureLimits, threshold: Level) -> (segmenter: Self)
        requires
            limits.valid(),
        ensures
            segmenter.wf(),
            segmenter.limits() == limits,
            segmenter.threshold() == threshold,
            segmenter@ == segmenter_start::<T>(),
    {
        Segmenter {
            limits,
            threshold,
            recording: false,
            voiced_streak: 0,
            silence_streak: 0,
            pre_roll: VecDeque::new(),
            captured: Vec::new(),
        }
    }

    /// Takes in one frame whose level was measured.
    pub fn accept(&mut self, frame: &Vec<T>, level: Level) -> (step: SegmenterStep)
        requires
            old(self).wf(),
            frame@.len() > 0,
        ensures
            final(self).wf(),
            final(self).limits() == old(self).limits(),
            final(self).threshold() == old(self).threshold(),
            final(self)@ == segmenter_next(
                old(self).limits(),
                old(self)@,
                frame@,
                level.reaches(old(self).threshold()),
            ),
            step == segmenter_step(
                old(self).limits(),
                old(self)@,
                frame@,
                level.reaches(old(self).threshold()),
            ),
    {
        let voiced = level.at_least(self.threshold);
        if !self.recording {
            extend_ring(&mut self.pre_roll, frame, self.limits.pre_roll_samples);
            self.voiced_streak =
            if voiced {
                self.voiced_streak + 1
            } else {
                0
            };
            if self.voiced_streak >= self.limits.start_frames {
                self.recording = true;
                let ghost before = self.captured@;
                let mut i: usize = 0;
                while i < self.pre_roll.len()
                    invariant
                        i <= self.pre_roll@.len(),
                        self.captured@ == before + self.pre_roll@.take(i as int),
                        self.limits == old(self).limits,
                        self.threshold == old(self).threshold,
                        self.recording,
                        self.pre_roll@ == last_of(
                            old(self).pre_roll@ + frame@,
                            self.limits.pre_roll_samples as nat,
                        ),
                        self.voiced_streak == old(self).voiced_streak + 1,
                    decreases self.pre_roll@.len() - i,
                {
                    let sample = self.pre_roll[i];
                    self.captured.push(sample);
                    i += 1;
                    assert(self.captured@ =~= before + self.pre_roll@.take(i as int));
                }
                assert(self.pre_roll@.take(i as int) =~= self.pre_roll@);
                append_copied(&mut self.captured, frame);
                self.silence_streak = 0;
                return SegmenterStep::Started;
            }
            return SegmenterStep::Waiting;
        }
        append_copied(&mut self.captured, frame);
        self.silence_streak =
        if voiced {
            0
        } else {
            let total = self.captured.len();
            assert(self.silence_streak < total);
            self.silence_streak + 1
        };
        if self.captured.len() >= self.limits.max_samples {
            return SegmenterStep::Stopped(StopReason::MaximumLength);
        }
        if self.captured.len() >= self.limits.min_samples && self.silence_streak
            >= self.limits.silence_frames {
            return SegmenterStep::Stopped(StopReason::TrailingSilence);
        }
        SegmenterStep::Recording
    }

    /// The samples of the utterance so far.
    pub fn into_captured(self) -> (samples: Vec<T>)
        ensures
            samples@ == self@.captured,
    {
        self.captured
    }
}

/// Appends copies of `more` to `out`.
fn append_copied<T: Copy>(out: &mut Vec<T>, more: &Vec<T>)
    ensures
        final(out)@ == old(out)@ + more@,
{
    let mut i: usize = 0;
    while i < more.len()
        invariant
            i <= more@.len(),
            out@ == old(out)@ + more@.take(i as int),
        decreases more@.len() - i,
    {
        out.push(more[i]);
        i += 1;
        assert(out@ =~= old(out)@ + more@.take(i as int));
    }
    assert(more@.take(i as int) =~= more@);
}

// ---------------------------------------------------------------------------
// Laws of the segmenter
// ---------------------------------------------------------------------------
/// The state after a sequence of frames, each with whether it was voiced.
pub open spec fn segmenter_after<T>(
    limits: CaptureLimits,
    frames: Seq<(Seq<T>, bool)>,
) -> SegmenterModel<T>
    decreases frames.len(),
{
    if frames.len() == 0 {
        segmenter_start()
    } else {
        segmenter_next(
            limits,
            segmenter_after(limits, frames.drop_last()),
            frames.last().0,
            frames.last().1,
        )
    }
}

/// What the last of a sequence of frames meant.
pub open spec fn step_after<T>(limits: CaptureLimits, frames: Seq<(Seq<T>, bool)>) -> SegmenterStep
    recommends
        frames.len() > 0,
{
    segmenter_step(
        limits,
        segmenter_after(limits, frames.drop_last()),
        frames.last().0,
        frames.last().1,
    )
}

/// The `n` frames before position `to` are there and were all voiced.
pub open spec fn voiced_run<T>(frames: Seq<(Seq<T>, bool)>, to: int, n: int) -> bool {
    &&& 0 <= to - n
    &&& to <= frames.len()
    &&& forall|i: int| to - n <= i < to ==> (#[trigger] frames[i]).1
}

/// All samples of a sequence of frames.
pub open spec fn samples_of<T>(frames: Seq<(Seq<T>, bool)>) -> Seq<T>
    decreases frames.len(),
{
    if frames.len() == 0 {
        Seq::empty()
    } else {
        samples_of(frames.drop_last()) + frames.last().0
    }
}

proof fn lemma_waiting_streak<T>(limits: CaptureLimits, frames: Seq<(Seq<T>, bool)>)
    requires
        limits.valid(),
    ensures
        !segmenter_after(limits, frames).recording ==> {
            let streak = segmenter_after(limits, frames).voiced_streak;
            &&& streak < limits.start_frames
            &&& voiced_run(frames, frames.len() as int, streak as int)
            &&& streak == frames.len() || !frames[frames.len() - streak - 1].1
            &&& segmenter_after(limits, frames).captured == Seq::<T>::empty()
        },
    decreases frames.len(),
{
    if frames.len() > 0 {
        lemma_waiting_streak(limits, frames.drop_last());
        let before = segmenter_after(limits, frames.drop_last());
        if !before.recording && !segmenter_after(limits, frames).recording {
            let streak = segmenter_after(limits, frames).voiced_streak;
            assert forall|i: int| frames.len() - streak <= i < frames.len() implies (
            #[trigger] frames[i]).1 by {
                if i < frames.len() - 1 {
                    assert(frames.drop_last()[i] == frames[i]);
                }
            }
        }
    }
}

/// Recording starts exactly when enough frames in a row were voiced: an utterance
/// is under way if and only if such a run stands somewhere among the frames.
pub proof fn recording_starts_after_voiced_run<T>(
    limits: CaptureLimits,
    frames: Seq<(Seq<T>, bool)>,
)
    requires
        limits.valid(),
    ensures
        segmenter_after(limits, frames).recording <==> exists|to: int|
            #[trigger] voiced_run(frames, to, limits.start_frames as int),
    decreases frames.len(),
{
    let needed = limits.start_frames as int;
    if frames.len() > 0 {
        let shorter = frames.drop_last();
        let before = segmenter_after(limits, shorter);
        recording_starts_after_voiced_run(limits, shorter);
        lemma_waiting_streak(limits, shorter);
        if before.recording {
            let to = choose|to: int| #[trigger] voiced_run(shorter, to, needed);
            assert forall|i: int| to - needed <= i < to implies (#[trigger] frames[i]).1 by {
                assert(shorter[i] == frames[i]);
            }
            assert(voiced_run(frames, to, needed));
        } else {
            let streak = before.voiced_streak;
            if segmenter_after(limits, frames).recording {
                assert forall|i: int| frames.len() - needed <= i < frames.len() implies (
                #[trigger] frames[i]).1 by {
                    if i < frames.len() - 1 {
                        assert(shorter[i] == frames[i]);
                    }
                }
                assert(voiced_run(frames, frames.len() as int, needed));
            } else if exists|to: int| #[trigger] voiced_run(frames, to, needed) {
                let to = choose|to: int| #[trigger] voiced_run(frames, to, needed);
                if to < frames.len() {
                    assert forall|i: int| to - needed <= i < to implies (#[trigger] shorter[i]).1 by {
                        assert(shorter[i] == frames[i]);
                    }
                    assert(voiced_run(shorter, to, needed));
                } else {
                    assert(frames.last() == frames[frames.len() - 1]);
                    if streak < shorter.len() {
                        let gap = shorter.len() - streak - 1;
                        assert(shorter[gap] == frames[gap]);
                    }
                }
            }
        }
    }
}

proof fn lemma_last_of_last<T>(first: Seq<T>, second: Seq<T>, n: nat)
    ensures
        last_of(last_of(first, n) + second, n) == last_of(first + second, n),
{
    let kept = last_of(first, n) + second;
    let whole = first + second;
    let dropped = whole.len() - kept.len();
    assert(kept =~= whole.skip(dropped));
    if kept.len() > n {
        assert(kept.skip(kept.len() - n) =~= whole.skip(whole.len() - n));
    } else if whole.len() > n {
        assert(kept.len() == n);
    } else {
        assert(dropped == 0);
        assert(whole.skip(0) =~= whole);
    }
}

/// Until an utterance starts, the pre-roll is the end of everything heard so far,
/// as much of it as the pre-roll may hold.
pub proof fn pre_roll_is_recent_audio<T>(limits: CaptureLimits, frames: Seq<(Seq<T>, bool)>)
    requires
        !segmenter_after(limits, frames).recording,
    ensures
        segmenter_after(limits, frames).pre_roll == last_of(
            samples_of(frames),
            limits.pre_roll_samples as nat,
        ),
        segmenter_after(limits, frames).captured == Seq::<T>::empty(),
    decreases frames.len(),
{
    if frames.len() > 0 {
        let shorter = frames.drop_last();
        pre_roll_is_recent_audio(limits, shorter);
        let n = limits.pre_roll_samples as nat;
        let frame = frames.last().0;
        lemma_last_of_last(samples_of(shorter), frame, n);
    }
}

/// An utterance opens with the most recent audio, the frame that started it
/// included, followed by that frame once more.
pub proof fn utterance_opens_with_pre_roll<T>(limits: CaptureLimits, frames: Seq<(Seq<T>, bool)>)
    requires
        frames.len() > 0,
        step_after(limits, frames) == SegmenterStep::Started,
    ensures
        segmenter_after(limits, frames).captured == last_of(
            samples_of(frames),
            limits.pre_roll_samples as nat,
        ) + frames.last().0,
{
    let shorter = frames.drop_last();
    pre_roll_is_recent_audio(limits, shorter);
    let n = limits.pre_roll_samples as nat;
    let frame = frames.last().0;
    lemma_last_of_last(samples_of(shorter), frame, n);
    assert(Seq::<T>::empty() + last_of(samples_of(frames), n) =~= last_of(samples_of(frames), n));
}

/// `tail` closes `s`.
pub open spec fn closed_by<T>(s: Seq<T>, tail: Seq<T>) -> bool {
    tail.len() <= s.len() && s.skip(s.len() - tail.len()) == tail
}

/// What was captured of the frames has the maximum length, or at least the minimum
/// length with the trailing silence at its end: none of the last frames was voiced,
/// and their samples close what was captured.
pub open spec fn ended_well<T>(limits: CaptureLimits, frames: Seq<(Seq<T>, bool)>) -> bool {
    let after = segmenter_after(limits, frames);
    let n = limits.silence_frames as int;
    ||| after.captured.len() >= limits.max_samples
    ||| {
        &&& after.captured.len() >= limits.min_samples
        &&& n <= frames.len()
        &&& forall|i: int| frames.len() - n <= i < frames.len() ==> !(#[trigger] frames[i]).1
        &&& closed_by(after.captured, samples_of(frames.skip(frames.len() - n)))
    }
}

/// A capture that ends is long enough, and one that ends before the maximum
/// length ends with the trailing silence.
pub proof fn capture_ends_long_enough<T>(limits: CaptureLimits, frames: Seq<(Seq<T>, bool)>)
    requires
        limits.valid(),
        frames.len() > 0,
        step_after(limits, frames) is Stopped,
    ensures
        ended_well(limits, frames),
{
    lemma_silence_streak(limits, frames);
    if segmenter_after(limits, frames).captured.len() < limits.max_samples {
        lemma_silence_is_captured(limits, frames, limits.silence_frames as int);
    }
}

proof fn lemma_silence_is_captured<T>(
    limits: CaptureLimits,
    frames: Seq<(Seq<T>, bool)>,
    n: int,
)
    requires
        limits.valid(),
        0 <= n <= segmenter_after(limits, frames).silence_streak,
    ensures
        n <= frames.len(),
        closed_by(
            segmenter_after(limits, frames).captured,
            samples_of(frames.skip(frames.len() - n)),
        ),
    decreases frames.len(),
{
    let captured = segmenter_after(limits, frames).captured;
    if n == 0 {
        assert(frames.skip(frames.len() - n) =~= Seq::empty());
        assert(captured.skip(captured.len() as int) =~= Seq::empty());
    } else {
        let shorter = frames.drop_last();
        let frame = frames.last().0;
        lemma_waiting_has_no_silence(limits, shorter);
        lemma_silence_is_captured(limits, shorter, n - 1);
        let earlier = samples_of(shorter.skip(shorter.len() - (n - 1)));
        let tail = samples_of(frames.skip(frames.len() - n));
        let last = frames.skip(frames.len() - n);
        assert(last.drop_last() =~= shorter.skip(shorter.len() - (n - 1)));
        assert(last.last() == frames.last());
        assert(tail == earlier + frame);
        let before = segmenter_after(limits, shorter).captured;
        assert(captured == before + frame);
        assert(captured.skip(captured.len() - tail.len()) =~= tail) by {
            let from = before.len() - earlier.len();
            assert(before.skip(from) == earlier);
            assert forall|k: int| 0 <= k < tail.len() implies captured[from + k] == tail[k] by {
                if k < earlier.len() {
                    assert(before.skip(from)[k] == before[from + k]);
                }
            }
        }
    }
}

proof fn lemma_silence_streak<T>(limits: CaptureLimits, frames: Seq<(Seq<T>, bool)>)
    requires
        limits.valid(),
    ensures
        segmenter_after(limits, frames).silence_streak <= frames.len(),
        forall|i: int|
            frames.len() - segmenter_after(limits, frames).silence_streak <= i < frames.len() ==> !(
            #[trigger] frames[i]).1,
    decreases frames.len(),
{
    if frames.len() > 0 {
        let shorter = frames.drop_last();
        lemma_silence_streak(limits, shorter);
        let streak = segmenter_after(limits, frames).silence_streak;
        lemma_waiting_has_no_silence(limits, shorter);
        assert forall|i: int| frames.len() - streak <= i < frames.len() implies !(
        #[trigger] frames[i]).1 by {
            if i < frames.len() - 1 {
                assert(shorter[i] == frames[i]);
            }
        }
    }
}

proof fn lemma_waiting_has_no_silence<T>(limits: CaptureLimits, frames: Seq<(Seq<T>, bool)>)
    ensures
        !segmenter_after(limits, frames).recording ==> segmenter_after(
            limits,
            frames,
        ).silence_streak == 0,
    decreases frames.len(),
{
    if frames.len() > 0 {
        lemma_waiting_has_no_silence(limits, frames.drop_last());
    }
}

/// Once an utterance is under way it ends: as long as none of the frames after
/// `started`, each of a whole frame's length, ends it, what was captured is at
/// least as long as those frames together and shorter than the maximum length.
pub proof fn capture_is_bounded<T>(
    limits: CaptureLimits,
    frames: Seq<(Seq<T>, bool)>,
    started: int,
)
    requires
        limits.valid(),
        0 < started <= frames.len(),
        segmenter_after(limits, frames.take(started)).recording,
        forall|i: int|
            started <= i < frames.len() ==> (#[trigger] frames[i]).0.len() == limits.frame_samples,
        forall|n: int|
            started < n <= frames.len() ==> !(step_after(
                limits,
                #[trigger] frames.take(n),
            ) is Stopped),
    ensures
        segmenter_after(limits, frames).recording,
        segmenter_after(limits, frames).captured.len() >= (frames.len() - started)
            * limits.frame_samples,
        started < frames.len() ==> segmenter_after(limits, frames).captured.len()
            < limits.max_samples,
    decreases frames.len() - started,
{
    if started == frames.len() {
        assert(frames.take(started) =~= frames);
    } else {
        let shorter = frames.drop_last();
        assert(shorter.take(started) =~= frames.take(started));
        assert forall|i: int| started <= i < shorter.len() implies (#[trigger] shorter[i]).0.len()
            == limits.frame_samples by {
            assert(shorter[i] == frames[i]);
        }
        assert forall|n: int| started < n <= shorter.len() implies !(step_after(
            limits,
            #[trigger] shorter.take(n),
        ) is Stopped) by {
            assert(shorter.take(n) =~= frames.take(n));
        }
        capture_is_bounded(limits, shorter, started);
        assert(frames.take(frames.len() as int) =~= frames);
        assert(frames.last() == frames[frames.len() - 1]);
        assert((frames.len() - started) * limits.frame_samples == (shorter.len() - started)
            * limits.frame_samples + limits.frame_samples) by (nonlinear_arith)
            requires
                shorter.len() == frames.len() - 1,
        ;
    }
}

/// The first run of `n` voiced frames ends before position `to`.
pub open spec fn first_run<T>(frames: Seq<(Seq<T>, bool)>, to: int, n: int) -> bool {
    &&& voiced_run(frames, to, n)
    &&& forall|earlier: int| earlier < to ==> !#[trigger] voiced_run(frames, earlier, n)
}

/// The last `n` frames are there and none of them was voiced.
pub open spec fn silent_end<T>(frames: Seq<(Seq<T>, bool)>, n: int) -> bool {
    &&& 0 <= n <= frames.len()
    &&& forall|i: int| frames.len() - n <= i < frames.len() ==> !(#[trigger] frames[i]).1
}

/// A run that ends before the last frame is the same without that frame.
proof fn lemma_run_in_shorter<T>(frames: Seq<(Seq<T>, bool)>, to: int, n: int)
    requires
        frames.len() > 0,
        to < frames.len(),
    ensures
        voiced_run(frames, to, n) == voiced_run(frames.drop_last(), to, n),
{
    let shorter = frames.drop_last();
    if voiced_run(frames, to, n) {
        assert forall|i: int| to - n <= i < to implies (#[trigger] shorter[i]).1 by {
            assert(shorter[i] == frames[i]);
        }
    }
    if voiced_run(shorter, to, n) {
        assert forall|i: int| to - n <= i < to implies (#[trigger] frames[i]).1 by {
            assert(shorter[i] == frames[i]);
        }
    }
}

proof fn lemma_first_run_in_shorter<T>(frames: Seq<(Seq<T>, bool)>, to: int, n: int)
    requires
        first_run(frames, to, n),
        to < frames.len(),
        frames.len() > 0,
    ensures
        first_run(frames.drop_last(), to, n),
{
    lemma_run_in_shorter(frames, to, n);
    assert forall|earlier: int| earlier < to implies !#[trigger] voiced_run(
        frames.drop_last(),
        earlier,
        n,
    ) by {
        lemma_run_in_shorter(frames, earlier, n);
    }
}

/// Until enough frames in a row were voiced nothing is captured.
pub proof fn silence_starts_nothing<T>(limits: CaptureLimits, frames: Seq<(Seq<T>, bool)>)
    requires
        limits.valid(),
        forall|to: int| !#[trigger] voiced_run(frames, to, limits.start_frames as int),
    ensures
        !segmenter_after(limits, frames).recording,
        segmenter_after(limits, frames).captured.len() == 0,
        frames.len() > 0 ==> step_after(limits, frames) == SegmenterStep::Waiting,
{
    recording_starts_after_voiced_run(limits, frames);
    pre_roll_is_recent_audio(limits, frames);
    if frames.len() > 0 {
        let shorter = frames.drop_last();
        assert forall|to: int| !#[trigger] voiced_run(
            shorter,
            to,
            limits.start_frames as int,
        ) by {
            if to < frames.len() {
                lemma_run_in_shorter(frames, to, limits.start_frames as int);
            }
        }
        recording_starts_after_voiced_run(limits, shorter);
    }
}

/// What is captured, frame by frame: the end of the audio up to the frame that
/// completes the first run of voiced frames, as much of it as the pre-roll may hold;
/// that frame once more; and every frame after it.
pub proof fn captured_audio_is_complete<T>(
    limits: CaptureLimits,
    frames: Seq<(Seq<T>, bool)>,
    started: int,
)
    requires
        limits.valid(),
        first_run(frames, started, limits.start_frames as int),
    ensures
        ({
            let opening = samples_of(frames.take(started));
            let kept = if opening.len() > limits.pre_roll_samples {
                opening.skip(opening.len() - limits.pre_roll_samples)
            } else {
                opening
            };
            &&& segmenter_after(limits, frames).recording
            &&& segmenter_after(limits, frames).captured == kept + frames[started - 1].0
                + samples_of(frames.skip(started))
        }),
    decreases frames.len(),
{
    let needed = limits.start_frames as int;
    assert(started >= needed >= 1);
    let shorter = frames.drop_last();
    let after = segmenter_after(limits, frames);
    let opening = samples_of(frames.take(started));
    let kept = last_of(opening, limits.pre_roll_samples as nat);
    if started == frames.len() {
        assert(frames.take(started) =~= frames);
        assert forall|to: int| !#[trigger] voiced_run(shorter, to, needed) by {
            if to < frames.len() {
                lemma_run_in_shorter(frames, to, needed);
            }
        }
        recording_starts_after_voiced_run(limits, frames);
        recording_starts_after_voiced_run(limits, shorter);
        utterance_opens_with_pre_roll(limits, frames);
        assert(frames.skip(started) =~= Seq::empty());
        assert(after.captured =~= kept + frames[started - 1].0 + samples_of(frames.skip(started)));
    } else {
        lemma_first_run_in_shorter(frames, started, needed);
        captured_audio_is_complete(limits, shorter, started);
        assert(shorter.take(started) =~= frames.take(started));
        assert(shorter[started - 1] == frames[started - 1]);
        let rest = frames.skip(started);
        assert(rest.drop_last() =~= shorter.skip(started));
        assert(rest.last() == frames.last());
        assert(after.captured =~= kept + frames[started - 1].0 + samples_of(rest));
    }
}

proof fn lemma_silence_since<T>(limits: CaptureLimits, frames: Seq<(Seq<T>, bool)>, started: int)
    requires
        limits.valid(),
        first_run(frames, started, limits.start_frames as int),
    ensures
        ({
            let streak = segmenter_after(limits, frames).silence_streak as int;
            &&& streak <= frames.len() - started
            &&& silent_end(frames, streak)
            &&& streak == frames.len() - started || frames[frames.len() - streak - 1].1
        }),
    decreases frames.len(),
{
    let needed = limits.start_frames as int;
    let shorter = frames.drop_last();
    captured_audio_is_complete(limits, frames, started);
    lemma_silence_streak(limits, frames);
    if started == frames.len() {
        assert forall|to: int| !#[trigger] voiced_run(shorter, to, needed) by {
            if to < frames.len() {
                lemma_run_in_shorter(frames, to, needed);
            }
        }
        silence_starts_nothing(limits, shorter);
        lemma_waiting_has_no_silence(limits, shorter);
    } else {
        lemma_first_run_in_shorter(frames, started, needed);
        captured_audio_is_complete(limits, shorter, started);
        lemma_silence_since(limits, shorter, started);
        let before = segmenter_after(limits, shorter).silence_streak as int;
        if before < shorter.len() - started {
            assert(shorter[shorter.len() - before - 1] == frames[shorter.len() - before - 1]);
        }
    }
}

/// A capture stops at the first frame at which it must, and not before. The frame
/// that completes the first run of voiced frames starts it. Each frame after that ends
/// it for its length exactly if what was captured has reached the maximum length, and
/// otherwise for silence exactly if what was captured has the minimum length and the
/// last frames, all of them after the start, were silent for long enough.
pub proof fn capture_stops_where_it_must<T>(
    limits: CaptureLimits,
    frames: Seq<(Seq<T>, bool)>,
    started: int,
)
    requires
        limits.valid(),
        first_run(frames, started, limits.start_frames as int),
    ensures
        ({
            let step = step_after(limits, frames);
            let length = segmenter_after(limits, frames).captured.len();
            let paused = limits.silence_frames <= frames.len() - started && silent_end(
                frames,
                limits.silence_frames as int,
            );
            &&& step == SegmenterStep::Started <==> frames.len() == started
            &&& step == SegmenterStep::Stopped(StopReason::MaximumLength) <==> frames.len()
                > started && length >= limits.max_samples
            &&& step == SegmenterStep::Stopped(StopReason::TrailingSilence) <==> frames.len()
                > started && length < limits.max_samples && length >= limits.min_samples && paused
            &&& step != SegmenterStep::Waiting
        }),
{
    let needed = limits.start_frames as int;
    let shorter = frames.drop_last();
    captured_audio_is_complete(limits, frames, started);
    lemma_silence_since(limits, frames, started);
    if started == frames.len() {
        assert forall|to: int| !#[trigger] voiced_run(shorter, to, needed) by {
            if to < frames.len() {
                lemma_run_in_shorter(frames, to, needed);
            }
        }
        silence_starts_nothing(limits, shorter);
    } else {
        lemma_first_run_in_shorter(frames, started, needed);
        captured_audio_is_complete(limits, shorter, started);
        let streak = segmenter_after(limits, frames).silence_streak as int;
        let n = limits.silence_frames as int;
        if streak < n && n <= frames.len() - started && silent_end(frames, n) {
            assert(frames[frames.len() - streak - 1].1);
        }
    }
}

/// The counts of the limits cover the times that they stand for: as many samples as
/// fall into the time, as many frames of 20 ms as it takes to fill it, and at least one
/// frame.
pub proof fn counts_cover_their_times(ms: int, rate_hz: int, other: int)
    requires
        0 <= ms,
        0 <= rate_hz,
    ensures
        samples_in(ms, rate_hz) * 1000 <= ms * rate_hz < (samples_in(ms, rate_hz) + 1) * 1000,
        frames_covering(ms) >= 1,
        frames_covering(ms) * 20 >= ms,
        frames_covering(ms) > 1 ==> (frames_covering(ms) - 1) * 20 < ms,
        larger(ms, other) >= ms,
        larger(ms, other) >= other,
        larger(ms, other) == ms || larger(ms, other) == other,
{
}

/// The last items of a sequence close it, and a short sequence is kept whole.
pub proof fn last_items_close_the_sequence<T>(first: Seq<T>, second: Seq<T>, n: nat)
    ensures
        last_of(first + second, second.len()) == second,
        first.len() <= n ==> last_of(first, n) == first,
{
    assert((first + second).skip((first + second).len() - second.len()) =~= second);
    if first.len() == 0 {
        assert(first + second =~= second);
    }
}

/// Speech settings can be counted exactly if each time, and the samples that the times
/// for the pre-roll and for an utterance make, fit into a machine word.
pub proof fn countable_settings_fit_a_word(speech: SpeechConfig, rate_hz: u32)
    ensures
        speech_countable(speech, rate_hz) <==> {
            &&& rate_hz <= usize::MAX
            &&& speech.pre_roll_ms <= usize::MAX
            &&& speech.min_utterance_ms <= usize::MAX
            &&& speech.max_utterance_ms <= usize::MAX
            &&& speech.start_window_ms <= usize::MAX
            &&& speech.trailing_silence_ms <= usize::MAX
            &&& speech.pre_roll_ms * rate_hz <= usize::MAX
            &&& speech.min_utterance_ms * rate_hz <= usize::MAX
            &&& speech.max_utterance_ms * rate_hz <= usize::MAX
        },
{
}

} // verus!

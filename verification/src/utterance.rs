//! Capturing one utterance from a stream of samples that arrives in chunks.
use vstd::prelude::*;

use crate::capture::{
    capture_ends_long_enough, ended_well, recording_starts_after_voiced_run, segmenter_after,
    segmenter_next, segmenter_start, segmenter_step, step_after, voiced_run, CaptureLimits,
    FrameBuffer, Segmenter, SegmenterModel, SegmenterStep, StopReason,
};
use crate::level::Level;

verus! {

/// What happened while an utterance is captured.
#[derive(Debug)]
pub enum CaptureEvent<T> {
    /// Samples came from the microphone.
    Received(Vec<T>),
    /// The level of the current frame was measured.
    Measured(Level),
}

/// What to do next.
#[derive(Debug, Clone, Copy, PartialEq, Eq, Structural)]
pub enum CaptureAction {
    /// Wait for samples from the microphone.
    Receive,
    /// Measure the level of the current frame.
    Measure,
    /// The utterance is complete.
    Finish(StopReason),
}

/// Where a capture stands: the samples that wait for a frame to be full, the frame
/// whose level is to be measured, and the segmenter.
pub struct CaptureModel<T> {
    pub pending: Seq<T>,
    pub frame: Seq<T>,
    pub segmenter: SegmenterModel<T>,
}

/// What happened while an utterance is captured.
pub enum CaptureEventModel<T> {
    Received(Seq<T>),
    Measured(Level),
}

impl<T> View for CaptureEvent<T> {
    type V = CaptureEventModel<T>;

    open spec fn view(&self) -> CaptureEventModel<T> {
        match self {
            CaptureEvent::Received(chunk) => CaptureEventModel::Received(chunk@),
            CaptureEvent::Measured(level) => CaptureEventModel::Measured(*level),
        }
    }
}

/// Where a capture stands before anything was received.
pub open spec fn capture_start<T>() -> CaptureModel<T> {
    CaptureModel { pending: Seq::empty(), frame: Seq::empty(), segmenter: segmenter_start() }
}

/// Cuts the next frame off, or asks for more samples where none is full.
pub open spec fn cut_frame<T>(
    limits: CaptureLimits,
    pending: Seq<T>,
    segmenter: SegmenterModel<T>,
) -> (CaptureModel<T>, CaptureAction) {
    let n = limits.frame_samples as int;
    if pending.len() >= n {
        (
            CaptureModel { pending: pending.skip(n), frame: pending.take(n), segmenter },
            CaptureAction::Measure,
        )
    } else {
        (CaptureModel { pending, frame: Seq::empty(), segmenter }, CaptureAction::Receive)
    }
}

/// The next state and action.
pub open spec fn capture_next<T>(
    limits: CaptureLimits,
    threshold: Level,
    state: CaptureModel<T>,
    event: CaptureEventModel<T>,
) -> (CaptureModel<T>, CaptureAction) {
    match event {
        CaptureEventModel::Received(chunk) => cut_frame(
            limits,
            state.pending + chunk,
            state.segmenter,
        ),
        CaptureEventModel::Measured(level) => {
            let voiced = level.reaches(threshold);
            let segmenter = segmenter_next(limits, state.segmenter, state.frame, voiced);
            match segmenter_step(limits, state.segmenter, state.frame, voiced) {
                SegmenterStep::Stopped(reason) => (
                    CaptureModel { segmenter, ..state },
                    CaptureAction::Finish(reason),
                ),
                _ => cut_frame(limits, state.pending, segmenter),
            }
        },
    }
}

/// The capture of one utterance, over samples of type `T`. It starts by waiting for
/// samples.
pub struct UtteranceCapture<T> {
    buffer: FrameBuffer<T>,
    frame: Vec<T>,
    segmenter: Segmenter<T>,
}

impl<T> View for UtteranceCapture<T> {
    type V = CaptureModel<T>;

    closed spec fn view(&self) -> CaptureModel<T> {
        CaptureModel {
            pending: self.buffer.pending(),
            frame: self.frame@,
            segmenter: self.segmenter@,
        }
    }
}

impl<T: Copy> UtteranceCapture<T> {
    /// The limits that the capture works by.
    pub closed spec fn limits(&self) -> CaptureLimits {
        self.segmenter.limits()
    }

    /// The level from which a frame counts as voiced.
    pub closed spec fn threshold(&self) -> Level {
        self.segmenter.threshold()
    }

    /// Frames have the length that the limits ask for, and the segmenter is sound.
    pub closed spec fn wf(&self) -> bool {
        &&& self.segmenter.wf()
        &&& self.buffer.frame_len() == self.limits().frame_samples
    }

    /// A capture in which nothing was received.
    pub fn new(limits: CaptureLimits, threshold: Level) -> (capture: Self)
        requires
            limits.valid(),
        ensures
            capture.wf(),
            capture.limits() == limits,
            capture.threshold() == threshold,
            capture@ == capture_start::<T>(),
    {
        UtteranceCapture {
            buffer: FrameBuffer::new(limits.frame_samples),
            frame: Vec::new(),
            segmenter: Segmenter::new(limits, threshold),
        }
    }

    /// The frame whose level is to be measured.
    pub fn frame(&self) -> (frame: &Vec<T>)
        ensures
            frame@ == self@.frame,
    {
        &self.frame
    }

    fn cut_frame(&mut self) -> (action: CaptureAction)
        requires
            old(self).wf(),
        ensures
            final(self).wf(),
            final(self).limits() == old(self).limits(),
            final(self).threshold() == old(self).threshold(),
            (final(self)@, action) == cut_frame(
                old(self).limits(),
                old(self)@.pending,
                old(self)@.segmenter,
            ),
    {
        let ghost before = self.buffer.pending();
        match self.buffer.next_frame() {
            Some(frame) => {
                assert(before.take(frame@.len() as int) =~= frame@);
                assert(before.skip(frame@.len() as int) =~= self.buffer.pending());
                self.frame = frame;
                CaptureAction::Measure
            },
            None => {
                self.frame = Vec::new();
                assert(self.frame@ =~= Seq::empty());
                CaptureAction::Receive
            },
        }
    }

    /// Takes in what happened and says what to do next. A level is taken in only
    /// while a frame is to be measured.
    pub fn advance(&mut self, event: CaptureEvent<T>) -> (action: CaptureAction)
        requires
            old(self).wf(),
            event@ is Measured ==> old(self)@.frame.len() > 0,
        ensures
            final(self).wf(),
            final(self).limits() == old(self).limits(),
            final(self).threshold() == old(self).threshold(),
            (final(self)@, action) == capture_next(
                old(self).limits(),
                old(self).threshold(),
                old(self)@,
                event@,
            ),
    {
        match event {
            CaptureEvent::Received(chunk) => {
                self.buffer.push(chunk);
                self.cut_frame()
            },
            CaptureEvent::Measured(level) => {
                match self.segmenter.accept(&self.frame, level) {
                    SegmenterStep::Stopped(reason) => CaptureAction::Finish(reason),
                    _ => self.cut_frame(),
                }
            },
        }
    }

    /// The samples of the utterance.
    pub fn into_samples(self) -> (samples: Vec<T>)
        ensures
            samples@ == self@.segmenter.captured,
    {
        self.segmenter.into_captured()
    }
}

// ---------------------------------------------------------------------------
// Laws
// ---------------------------------------------------------------------------
/// A frame to be measured is a whole frame, so that its level can be taken in.
pub proof fn frames_are_whole<T>(
    limits: CaptureLimits,
    threshold: Level,
    state: CaptureModel<T>,
    event: CaptureEventModel<T>,
)
    ensures
        capture_next(limits, threshold, state, event).1 == CaptureAction::Measure ==> capture_next(
            limits,
            threshold,
            state,
            event,
        ).0.frame.len() == limits.frame_samples,
{
}

/// Where a capture stands after all the frames that some samples make: what is
/// left of the samples, the segmenter, and why the capture ended if it did.
pub struct Heard<T> {
    pub left: Seq<T>,
    pub segmenter: SegmenterModel<T>,
    pub ended: Option<StopReason>,
}

/// What a capture makes of some samples, where `level` measures a frame.
pub open spec fn hear<T>(
    limits: CaptureLimits,
    threshold: Level,
    level: spec_fn(Seq<T>) -> Level,
    segmenter: SegmenterModel<T>,
    samples: Seq<T>,
) -> Heard<T>
    decreases samples.len(),
{
    let n = limits.frame_samples as int;
    if n < 1 || samples.len() < n {
        Heard { left: samples, segmenter, ended: None }
    } else {
        let frame = samples.take(n);
        let voiced = level(frame).reaches(threshold);
        let next = segmenter_next(limits, segmenter, frame, voiced);
        match segmenter_step(limits, segmenter, frame, voiced) {
            SegmenterStep::Stopped(reason) => Heard {
                left: samples.skip(n),
                segmenter: next,
                ended: Some(reason),
            },
            _ => hear(limits, threshold, level, next, samples.skip(n)),
        }
    }
}

/// The steps of a capture hear what `hear` says: measuring the frames one after
/// another, from a frame that is to be measured on, leads either to the end of the
/// capture or to a state in which nothing of the samples but a part of a frame is
/// left.
pub proof fn one_step_is_heard<T>(
    limits: CaptureLimits,
    threshold: Level,
    level: spec_fn(Seq<T>) -> Level,
    state: CaptureModel<T>,
)
    requires
        limits.valid(),
        state.frame.len() == limits.frame_samples,
    ensures
        ({
            let (next, action) = capture_next(
                limits,
                threshold,
                state,
                CaptureEventModel::Measured(level(state.frame)),
            );
            let samples = state.frame + state.pending;
            let heard = hear(limits, threshold, level, state.segmenter, samples);
            match action {
                CaptureAction::Finish(reason) => heard == (Heard {
                    left: next.pending,
                    segmenter: next.segmenter,
                    ended: Some(reason),
                }),
                CaptureAction::Measure => heard == hear(
                    limits,
                    threshold,
                    level,
                    next.segmenter,
                    next.frame + next.pending,
                ),
                CaptureAction::Receive => heard == (Heard {
                    left: next.pending,
                    segmenter: next.segmenter,
                    ended: None,
                }),
            }
        }),
{
    let n = limits.frame_samples as int;
    let samples = state.frame + state.pending;
    assert(samples.take(n) =~= state.frame);
    assert(samples.skip(n) =~= state.pending);
    let (next, action) = capture_next(
        limits,
        threshold,
        state,
        CaptureEventModel::Measured(level(state.frame)),
    );
    if action == CaptureAction::Measure {
        assert(next.frame + next.pending =~= state.pending);
    }
}

/// How the stream is cut into chunks does not matter: samples that come in two
/// chunks are heard as if they came in one. Where the first chunk already ends the
/// capture, what follows changes nothing.
pub proof fn chunks_do_not_matter<T>(
    limits: CaptureLimits,
    threshold: Level,
    level: spec_fn(Seq<T>) -> Level,
    segmenter: SegmenterModel<T>,
    first: Seq<T>,
    second: Seq<T>,
)
    ensures
        ({
            let early = hear(limits, threshold, level, segmenter, first);
            let whole = hear(limits, threshold, level, segmenter, first + second);
            if early.ended is Some {
                &&& whole.ended == early.ended
                &&& whole.segmenter == early.segmenter
                &&& whole.left == early.left + second
            } else {
                whole == hear(limits, threshold, level, early.segmenter, early.left + second)
            }
        }),
    decreases first.len(),
{
    let n = limits.frame_samples as int;
    let both = first + second;
    if n >= 1 && first.len() >= n {
        let frame = first.take(n);
        assert(both.take(n) =~= frame);
        assert(both.skip(n) =~= first.skip(n) + second);
        let voiced = level(frame).reaches(threshold);
        let next = segmenter_next(limits, segmenter, frame, voiced);
        if !(segmenter_step(limits, segmenter, frame, voiced) is Stopped) {
            chunks_do_not_matter(limits, threshold, level, next, first.skip(n), second);
        }
    }
}

/// The stream that some chunks make.
pub open spec fn stream_of<T>(chunks: Seq<Seq<T>>) -> Seq<T>
    decreases chunks.len(),
{
    if chunks.len() == 0 {
        Seq::empty()
    } else {
        stream_of(chunks.drop_last()) + chunks.last()
    }
}

/// What a capture makes of some chunks, one after another. Once it has ended, the
/// samples of later chunks are left.
pub open spec fn hear_chunks<T>(
    limits: CaptureLimits,
    threshold: Level,
    level: spec_fn(Seq<T>) -> Level,
    segmenter: SegmenterModel<T>,
    chunks: Seq<Seq<T>>,
) -> Heard<T>
    decreases chunks.len(),
{
    if chunks.len() == 0 {
        Heard { left: Seq::empty(), segmenter, ended: None }
    } else {
        let before = hear_chunks(limits, threshold, level, segmenter, chunks.drop_last());
        if before.ended is Some {
            Heard { left: before.left + chunks.last(), ..before }
        } else {
            hear(limits, threshold, level, before.segmenter, before.left + chunks.last())
        }
    }
}

/// However a stream is cut into chunks, the same is heard.
pub proof fn only_the_stream_matters<T>(
    limits: CaptureLimits,
    threshold: Level,
    level: spec_fn(Seq<T>) -> Level,
    segmenter: SegmenterModel<T>,
    chunks: Seq<Seq<T>>,
)
    ensures
        hear_chunks(limits, threshold, level, segmenter, chunks) == hear(
            limits,
            threshold,
            level,
            segmenter,
            stream_of(chunks),
        ),
    decreases chunks.len(),
{
    if chunks.len() > 0 {
        only_the_stream_matters(limits, threshold, level, segmenter, chunks.drop_last());
        chunks_do_not_matter(
            limits,
            threshold,
            level,
            segmenter,
            stream_of(chunks.drop_last()),
            chunks.last(),
        );
    }
}

// ---------------------------------------------------------------------------
// Laws of whole captures
// ---------------------------------------------------------------------------
/// The steps of a capture from a frame that is to be measured up to the next action
/// that asks for more samples or ends it, where `level` measures a frame.
pub open spec fn measure_all<T>(
    limits: CaptureLimits,
    threshold: Level,
    level: spec_fn(Seq<T>) -> Level,
    state: CaptureModel<T>,
) -> (CaptureModel<T>, CaptureAction)
    decreases state.pending.len(),
{
    let (next, action) = capture_next(
        limits,
        threshold,
        state,
        CaptureEventModel::Measured(level(state.frame)),
    );
    if action == CaptureAction::Measure && next.pending.len() < state.pending.len() {
        measure_all(limits, threshold, level, next)
    } else {
        (next, action)
    }
}

/// The steps of a capture from a chunk up to the next action that asks for more
/// samples or ends it.
pub open spec fn after_chunk<T>(
    limits: CaptureLimits,
    threshold: Level,
    level: spec_fn(Seq<T>) -> Level,
    state: CaptureModel<T>,
    chunk: Seq<T>,
) -> (CaptureModel<T>, CaptureAction) {
    let (next, action) = capture_next(
        limits,
        threshold,
        state,
        CaptureEventModel::Received(chunk),
    );
    if action == CaptureAction::Measure {
        measure_all(limits, threshold, level, next)
    } else {
        (next, action)
    }
}

/// The steps of a capture over some chunks. Once it is complete nothing more is
/// received.
pub open spec fn after_chunks<T>(
    limits: CaptureLimits,
    threshold: Level,
    level: spec_fn(Seq<T>) -> Level,
    chunks: Seq<Seq<T>>,
) -> (CaptureModel<T>, CaptureAction)
    decreases chunks.len(),
{
    if chunks.len() == 0 {
        (capture_start(), CaptureAction::Receive)
    } else {
        let (before, action) = after_chunks(limits, threshold, level, chunks.drop_last());
        if action is Finish {
            (before, action)
        } else {
            after_chunk(limits, threshold, level, before, chunks.last())
        }
    }
}

/// What a capture that stands there, with that action to come, has made of the
/// samples `heard` speaks of.
pub open spec fn stands_as<T>(
    limits: CaptureLimits,
    state: CaptureModel<T>,
    action: CaptureAction,
    heard: Heard<T>,
) -> bool {
    &&& state.segmenter == heard.segmenter
    &&& match heard.ended {
        Some(reason) => action == CaptureAction::Finish(reason),
        None => {
            &&& action == CaptureAction::Receive
            &&& state.pending == heard.left
            &&& state.pending.len() < limits.frame_samples
        },
    }
}

/// Measuring frame after frame hears them all.
pub proof fn measuring_is_heard<T>(
    limits: CaptureLimits,
    threshold: Level,
    level: spec_fn(Seq<T>) -> Level,
    state: CaptureModel<T>,
)
    requires
        limits.valid(),
        state.frame.len() == limits.frame_samples,
    ensures
        ({
            let (next, action) = measure_all(limits, threshold, level, state);
            stands_as(
                limits,
                next,
                action,
                hear(limits, threshold, level, state.segmenter, state.frame + state.pending),
            )
        }),
    decreases state.pending.len(),
{
    one_step_is_heard(limits, threshold, level, state);
    let (next, action) = capture_next(
        limits,
        threshold,
        state,
        CaptureEventModel::Measured(level(state.frame)),
    );
    if action == CaptureAction::Measure {
        measuring_is_heard(limits, threshold, level, next);
    }
}

/// A chunk is heard together with what was left of those before it.
pub proof fn one_chunk_is_heard<T>(
    limits: CaptureLimits,
    threshold: Level,
    level: spec_fn(Seq<T>) -> Level,
    state: CaptureModel<T>,
    chunk: Seq<T>,
)
    requires
        limits.valid(),
    ensures
        ({
            let (next, action) = after_chunk(limits, threshold, level, state, chunk);
            stands_as(
                limits,
                next,
                action,
                hear(limits, threshold, level, state.segmenter, state.pending + chunk),
            )
        }),
{
    let (next, action) = capture_next(
        limits,
        threshold,
        state,
        CaptureEventModel::Received(chunk),
    );
    if action == CaptureAction::Measure {
        assert(next.frame + next.pending =~= state.pending + chunk);
        measuring_is_heard(limits, threshold, level, next);
    }
}

/// The steps of a capture over some chunks hear the stream that the chunks make.
pub proof fn chunks_are_heard<T>(
    limits: CaptureLimits,
    threshold: Level,
    level: spec_fn(Seq<T>) -> Level,
    chunks: Seq<Seq<T>>,
)
    requires
        limits.valid(),
    ensures
        ({
            let (state, action) = after_chunks(limits, threshold, level, chunks);
            stands_as(
                limits,
                state,
                action,
                hear(limits, threshold, level, segmenter_start(), stream_of(chunks)),
            )
        }),
        hear_chunks(limits, threshold, level, segmenter_start(), chunks) == hear(
            limits,
            threshold,
            level,
            segmenter_start(),
            stream_of(chunks),
        ),
    decreases chunks.len(),
{
    only_the_stream_matters(limits, threshold, level, segmenter_start(), chunks);
    if chunks.len() > 0 {
        let shorter = chunks.drop_last();
        chunks_are_heard(limits, threshold, level, shorter);
        chunks_do_not_matter(
            limits,
            threshold,
            level,
            segmenter_start(),
            stream_of(shorter),
            chunks.last(),
        );
        let (before, action) = after_chunks(limits, threshold, level, shorter);
        if !(action is Finish) {
            one_chunk_is_heard(limits, threshold, level, before, chunks.last());
        }
    }
}

/// The whole frames of a stream, in order, each with whether it is voiced.
pub open spec fn frames_of<T>(
    limits: CaptureLimits,
    threshold: Level,
    level: spec_fn(Seq<T>) -> Level,
    samples: Seq<T>,
) -> Seq<(Seq<T>, bool)>
    decreases samples.len(),
{
    let n = limits.frame_samples as int;
    if n < 1 || samples.len() < n {
        Seq::empty()
    } else {
        let frame = samples.take(n);
        seq![(frame, level(frame).reaches(threshold))] + frames_of(
            limits,
            threshold,
            level,
            samples.skip(n),
        )
    }
}

/// None of the frames from `from` up to and without `to` ends the capture.
pub open spec fn goes_on<T>(
    limits: CaptureLimits,
    frames: Seq<(Seq<T>, bool)>,
    from: int,
    to: int,
) -> bool {
    forall|k: int|
        from < k <= to ==> !(step_after(limits, #[trigger] frames.take(k)) is Stopped)
}

/// What was heard is what the segmenter makes of the frames behind the first `from`:
/// of all of them if none ends the capture, and else of those up to the first that
/// does.
pub open spec fn heard_frames<T>(
    limits: CaptureLimits,
    frames: Seq<(Seq<T>, bool)>,
    from: int,
    heard: Heard<T>,
) -> bool {
    match heard.ended {
        None => {
            &&& heard.segmenter == segmenter_after(limits, frames)
            &&& goes_on(limits, frames, from, frames.len() as int)
        },
        Some(reason) => exists|k: int|
            {
                &&& from < k <= frames.len()
                &&& heard.segmenter == segmenter_after(limits, #[trigger] frames.take(k))
                &&& step_after(limits, frames.take(k)) == SegmenterStep::Stopped(reason)
                &&& goes_on(limits, frames, from, k - 1)
            },
    }
}

proof fn lemma_frames_are_heard<T>(
    limits: CaptureLimits,
    threshold: Level,
    level: spec_fn(Seq<T>) -> Level,
    earlier: Seq<(Seq<T>, bool)>,
    samples: Seq<T>,
)
    requires
        limits.valid(),
    ensures
        heard_frames(
            limits,
            earlier + frames_of(limits, threshold, level, samples),
            earlier.len() as int,
            hear(limits, threshold, level, segmenter_after(limits, earlier), samples),
        ),
    decreases samples.len(),
{
    let n = limits.frame_samples as int;
    let frames = earlier + frames_of(limits, threshold, level, samples);
    let heard = hear(limits, threshold, level, segmenter_after(limits, earlier), samples);
    if samples.len() < n {
        assert(frames =~= earlier);
    } else {
        let frame = samples.take(n);
        let entry = (frame, level(frame).reaches(threshold));
        let longer = earlier.push(entry);
        assert(longer.drop_last() =~= earlier);
        assert(frames =~= longer + frames_of(limits, threshold, level, samples.skip(n)));
        assert(frames.take(longer.len() as int) =~= longer);
        if step_after(limits, longer) is Stopped {
            assert(goes_on(limits, frames, earlier.len() as int, longer.len() - 1));
        } else {
            lemma_frames_are_heard(limits, threshold, level, longer, samples.skip(n));
            match heard.ended {
                None => {
                    assert forall|k: int| earlier.len() < k <= frames.len() implies !(step_after(
                        limits,
                        #[trigger] frames.take(k),
                    ) is Stopped) by {
                        if k > longer.len() {
                            assert(goes_on(
                                limits,
                                frames,
                                longer.len() as int,
                                frames.len() as int,
                            ));
                        }
                    }
                },
                Some(reason) => {
                    let k = choose|k: int|
                        {
                            &&& longer.len() < k <= frames.len()
                            &&& heard.segmenter == segmenter_after(
                                limits,
                                #[trigger] frames.take(k),
                            )
                            &&& step_after(limits, frames.take(k)) == SegmenterStep::Stopped(
                                reason,
                            )
                            &&& goes_on(limits, frames, longer.len() as int, k - 1)
                        };
                    assert forall|j: int| earlier.len() < j <= k - 1 implies !(step_after(
                        limits,
                        #[trigger] frames.take(j),
                    ) is Stopped) by {
                        if j <= longer.len() {
                            assert(j == longer.len());
                        }
                    }
                    assert(goes_on(limits, frames, earlier.len() as int, k - 1));
                },
            }
        }
    }
}

/// What is heard of a stream is what the segmenter makes of the stream's frames, up
/// to the first that ends the capture.
pub proof fn stream_is_segmented<T>(
    limits: CaptureLimits,
    threshold: Level,
    level: spec_fn(Seq<T>) -> Level,
    samples: Seq<T>,
)
    requires
        limits.valid(),
    ensures
        heard_frames(
            limits,
            frames_of(limits, threshold, level, samples),
            0,
            hear(limits, threshold, level, segmenter_start(), samples),
        ),
{
    let frames = frames_of(limits, threshold, level, samples);
    let none = Seq::<(Seq<T>, bool)>::empty();
    lemma_frames_are_heard(limits, threshold, level, none, samples);
    assert(none + frames =~= frames);
}

/// However a stream is cut into chunks, a capture that asks for more stands where the
/// segmenter stands after the stream's frames, none of which ended it. It records
/// exactly if enough frames in a row were voiced.
pub proof fn capture_starts_with_speech<T>(
    limits: CaptureLimits,
    threshold: Level,
    level: spec_fn(Seq<T>) -> Level,
    chunks: Seq<Seq<T>>,
)
    requires
        limits.valid(),
        after_chunks(limits, threshold, level, chunks).1 == CaptureAction::Receive,
    ensures
        ({
            let frames = frames_of(limits, threshold, level, stream_of(chunks));
            let segmenter = after_chunks(limits, threshold, level, chunks).0.segmenter;
            &&& segmenter == segmenter_after(limits, frames)
            &&& goes_on(limits, frames, 0, frames.len() as int)
            &&& segmenter.recording <==> exists|to: int|
                #[trigger] voiced_run(frames, to, limits.start_frames as int)
        }),
{
    let frames = frames_of(limits, threshold, level, stream_of(chunks));
    chunks_are_heard(limits, threshold, level, chunks);
    stream_is_segmented(limits, threshold, level, stream_of(chunks));
    recording_starts_after_voiced_run(limits, frames);
}

/// However a stream is cut into chunks, a capture that is complete holds what the
/// segmenter made of the stream's frames up to the first that ended it. What it
/// holds has the maximum length, or at least the minimum length with the trailing
/// silence at its end.
pub proof fn capture_ends_with_silence<T>(
    limits: CaptureLimits,
    threshold: Level,
    level: spec_fn(Seq<T>) -> Level,
    chunks: Seq<Seq<T>>,
    reason: StopReason,
)
    requires
        limits.valid(),
        after_chunks(limits, threshold, level, chunks).1 == CaptureAction::Finish(reason),
    ensures
        ({
            let frames = frames_of(limits, threshold, level, stream_of(chunks));
            let segmenter = after_chunks(limits, threshold, level, chunks).0.segmenter;
            exists|k: int|
                {
                    &&& 0 < k <= frames.len()
                    &&& segmenter == segmenter_after(limits, #[trigger] frames.take(k))
                    &&& step_after(limits, frames.take(k)) == SegmenterStep::Stopped(reason)
                    &&& goes_on(limits, frames, 0, k - 1)
                    &&& ended_well(limits, frames.take(k))
                }
        }),
{
    let frames = frames_of(limits, threshold, level, stream_of(chunks));
    let segmenter = after_chunks(limits, threshold, level, chunks).0.segmenter;
    chunks_are_heard(limits, threshold, level, chunks);
    stream_is_segmented(limits, threshold, level, stream_of(chunks));
    let k = choose|k: int|
        {
            &&& 0 < k <= frames.len()
            &&& segmenter == segmenter_after(limits, #[trigger] frames.take(k))
            &&& step_after(limits, frames.take(k)) == SegmenterStep::Stopped(reason)
            &&& goes_on(limits, frames, 0, k - 1)
        };
    capture_ends_long_enough(limits, frames.take(k));
}

/// The frames of a stream are cut off one after another: the frame at each index holds
/// the samples at that multiple of the frame's length, is voiced exactly if its level
/// reaches the threshold, and less than a frame is left over.
pub proof fn frames_are_cut_in_order<T>(
    limits: CaptureLimits,
    threshold: Level,
    level: spec_fn(Seq<T>) -> Level,
    samples: Seq<T>,
)
    requires
        limits.valid(),
    ensures
        ({
            let frames = frames_of(limits, threshold, level, samples);
            let n = limits.frame_samples as int;
            &&& frames.len() * n <= samples.len() < (frames.len() + 1) * n
            &&& forall|i: int|
                0 <= i < frames.len() ==> (#[trigger] frames[i]).0 == samples.subrange(
                    i * n,
                    i * n + n,
                )
            &&& forall|i: int|
                0 <= i < frames.len() ==> (#[trigger] frames[i]).1 == level(frames[i].0).reaches(
                    threshold,
                )
        }),
    decreases samples.len(),
{
    let frames = frames_of(limits, threshold, level, samples);
    let n = limits.frame_samples as int;
    if samples.len() >= n {
        let rest = samples.skip(n);
        let later = frames_of(limits, threshold, level, rest);
        frames_are_cut_in_order(limits, threshold, level, rest);
        assert(frames.len() == later.len() + 1);
        assert((later.len() + 1) * n == later.len() * n + n) by (nonlinear_arith);
        assert((later.len() + 2) * n == (later.len() + 1) * n + n) by (nonlinear_arith);
        assert forall|i: int| 0 <= i < frames.len() implies (#[trigger] frames[i]).0
            == samples.subrange(i * n, i * n + n) by {
            if i == 0 {
                assert(0 * n == 0) by (nonlinear_arith);
                assert(frames[0].0 == samples.take(n));
                assert(samples.take(n) =~= samples.subrange(0, n));
            } else {
                assert(frames[i] == later[i - 1]);
                assert(i * n == (i - 1) * n + n) by (nonlinear_arith);
                assert((i - 1) * n >= 0 && (i - 1) * n + n <= later.len() * n) by (nonlinear_arith)
                    requires
                        1 <= i <= later.len(),
                        n >= 1,
                ;
                assert(rest.subrange((i - 1) * n, (i - 1) * n + n) =~= samples.subrange(
                    i * n,
                    i * n + n,
                ));
            }
        }
        assert forall|i: int| 0 <= i < frames.len() implies (#[trigger] frames[i]).1 == level(
            frames[i].0,
        ).reaches(threshold) by {
            if i > 0 {
                assert(frames[i] == later[i - 1]);
            }
        }
    } else {
        assert(0 * n == 0 && (0 + 1) * n == n) by (nonlinear_arith);
    }
}

/// The stream holds the samples of all chunks, in order.
pub proof fn stream_holds_all_chunks<T>(chunks: Seq<Seq<T>>)
    ensures
        stream_of(chunks) == chunks.flatten(),
    decreases chunks.len(),
{
    if chunks.len() > 0 {
        stream_holds_all_chunks(chunks.drop_last());
        assert(chunks =~= chunks.drop_last().push(chunks.last()));
        chunks.drop_last().lemma_flatten_push(chunks.last());
    } else {
        assert(stream_of(chunks) =~= chunks.flatten());
    }
}

/// What is received is all that the microphone gave, and a level is what was measured.
pub proof fn capture_events_hold_all_samples<T>(samples: Vec<T>, level: Level)
    ensures
        CaptureEvent::Received(samples)@ == CaptureEventModel::Received(samples@),
        CaptureEvent::<T>::Measured(level)@ == CaptureEventModel::<T>::Measured(level),
{
}

} // verus!

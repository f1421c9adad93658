//! Voice-activity segmentation.
//!
//! The segmentation engine consumes one speech probability per audio frame
//! and turns the stream into discrete speech segments, applying a detection
//! threshold with hysteresis (a minimum silence duration before a segment is
//! closed) and trailing padding.
//!
//! All times are integer milliseconds from the start of the stream.  At the
//! two supported sample rates the frame length is fixed (512 samples at
//! 16 kHz, 256 at 8 kHz), so a frame lasts exactly 32 ms and every timestamp
//! the engine produces is exact.  Probabilities are fixed-point values in
//! millionths: `0` stands for 0.0 and [`PROB_SCALE`] for 1.0.

use vstd::prelude::*;

use crate::Error;

verus! {

/// Scale of fixed-point probabilities: this value stands for probability 1.0.
pub const PROB_SCALE: u32 = 1_000_000;

/// The engine supports 8 kHz and 16 kHz audio only.
pub open spec fn valid_sample_rate(sr: u32) -> bool {
    sr == 8000 || sr == 16000
}

/// Number of samples in one frame at sample rate `sr`.
pub open spec fn spec_frame_size(sr: u32) -> usize {
    if sr == 16000 {
        512
    } else {
        256
    }
}

/// Duration of one frame in milliseconds: frame size over sample rate.
/// At both supported rates this is exactly 32 ms.
pub open spec fn spec_frame_duration_ms(sr: u32) -> int {
    spec_frame_size(sr) * 1000 / (sr as int)
}

/// A detected speech segment; both bounds are milliseconds from the start of
/// the stream.  Every segment the engine emits satisfies
/// `start_ms <= end_ms`.
#[derive(Debug, Clone, Copy, PartialEq, Eq, Structural)]
pub struct SpeechTimestamps {
    /// Start time in milliseconds
    pub start_ms: u64,
    /// End time in milliseconds (includes the configured padding)
    pub end_ms: u64,
}

/// A segment is well formed when it does not end before it starts.
pub open spec fn seg_wf(s: SpeechTimestamps) -> bool {
    s.start_ms <= s.end_ms
}

/// The segmentation engine.
///
/// A two-state machine: *idle* (`speech_start_ms` and `speech_end_ms` are
/// `None`) and *in speech* (both are `Some`).  It consumes one probability
/// per frame, in frame order, and emits a segment once enough silence has
/// followed the last above-threshold frame.  The probability predictor that
/// produces the per-frame probabilities is an external collaborator and is
/// not part of this type.
pub struct VADIterator {
    /// Detection threshold, in millionths (see [`PROB_SCALE`])
    pub threshold: u32,
    /// Sample rate of the stream: 8000 or 16000
    pub sampling_rate: u32,
    /// Silence that must follow speech before the segment is closed
    pub min_silence_duration_ms: u32,
    /// Padding added to the end of each emitted segment
    pub speech_pad_ms: u32,
    /// End-of-frame timestamp of the last consumed frame, in milliseconds
    pub elapsed_ms: u64,
    /// End-of-frame time of the first frame of the open speech run
    pub speech_start_ms: Option<u64>,
    /// End-of-frame time of the last above-threshold frame
    pub speech_end_ms: Option<u64>,
    /// Probability of the last consumed frame, in millionths
    pub last_prob: u32,
}

/// The engine state right after construction.
pub open spec fn spec_initial(
    threshold: u32,
    sampling_rate: u32,
    min_silence_duration_ms: u32,
    speech_pad_ms: u32,
) -> VADIterator {
    VADIterator {
        threshold,
        sampling_rate,
        min_silence_duration_ms,
        speech_pad_ms,
        elapsed_ms: 0,
        speech_start_ms: None,
        speech_end_ms: None,
        last_prob: 0,
    }
}

/// What `reset` leaves behind: a fresh engine with the same configuration.
pub open spec fn spec_reset(e: VADIterator) -> VADIterator {
    spec_initial(e.threshold, e.sampling_rate, e.min_silence_duration_ms, e.speech_pad_ms)
}

/// Two engines share one configuration.
pub open spec fn same_config(a: VADIterator, b: VADIterator) -> bool {
    &&& a.threshold == b.threshold
    &&& a.sampling_rate == b.sampling_rate
    &&& a.min_silence_duration_ms == b.min_silence_duration_ms
    &&& a.speech_pad_ms == b.speech_pad_ms
}

/// One transition of the segmentation state machine: the engine `e` consumes
/// the probability `prob` of the next frame and yields the next engine state
/// and the segment emitted, if any.
///
/// The elapsed time first advances by one frame, and the frame is stamped
/// with its *end* time.  A probability at or above the threshold opens a
/// speech run (or extends the open one) and refreshes its end mark.  A
/// probability below the threshold closes the open run only once the silence
/// since the end mark has reached `min_silence_duration_ms`; the emitted
/// segment ends at the end mark plus `speech_pad_ms`.  If the stream stops
/// while a run is open, that run is never emitted: a documented limitation,
/// kept for compatibility.
pub open spec fn step(e: VADIterator, prob: u32) -> (VADIterator, Option<SpeechTimestamps>) {
    let t = (e.elapsed_ms + spec_frame_duration_ms(e.sampling_rate)) as u64;
    if prob >= e.threshold {
        let start = match e.speech_start_ms {
            Option::Some(s) => s,
            Option::None => t,
        };
        (
            VADIterator {
                elapsed_ms: t,
                speech_start_ms: Some(start),
                speech_end_ms: Some(t),
                last_prob: prob,
                ..e
            },
            None,
        )
    } else {
        match (e.speech_start_ms, e.speech_end_ms) {
            (Option::Some(start), Option::Some(end)) => {
                if t - end >= e.min_silence_duration_ms {
                    (
                        VADIterator {
                            elapsed_ms: t,
                            speech_start_ms: None,
                            speech_end_ms: None,
                            last_prob: prob,
                            ..e
                        },
                        Some(
                            SpeechTimestamps {
                                start_ms: start,
                                end_ms: (end + e.speech_pad_ms) as u64,
                            },
                        ),
                    )
                } else {
                    (VADIterator { elapsed_ms: t, last_prob: prob, ..e }, None)
                }
            },
            _ => (VADIterator { elapsed_ms: t, last_prob: prob, ..e }, None),
        }
    }
}

/// The emitted segment of one transition, as a sequence of zero or one
/// segments.
pub open spec fn emitted(o: Option<SpeechTimestamps>) -> Seq<SpeechTimestamps> {
    match o {
        Option::Some(s) => seq![s],
        Option::None => Seq::empty(),
    }
}

/// The engine `e` consumes the probabilities `probs` in order: the resulting
/// engine state, and every emitted segment in emission order.
pub open spec fn run(e: VADIterator, probs: Seq<u32>) -> (VADIterator, Seq<SpeechTimestamps>)
    decreases probs.len(),
{
    if probs.len() == 0 {
        (e, Seq::empty())
    } else {
        let first = step(e, probs[0]);
        let rest = run(first.0, probs.skip(1));
        (rest.0, emitted(first.1) + rest.1)
    }
}

/// At both supported sample rates a frame lasts exactly 32 ms.
pub proof fn lemma_frame_duration(sr: u32)
    requires
        valid_sample_rate(sr),
    ensures
        spec_frame_duration_ms(sr) == 32,
{
    if sr == 16000 {
        assert(512int * 1000 / 16000 == 32);
    } else {
        assert(256int * 1000 / 8000 == 32);
    }
}

/// One transition preserves well-formedness and the configuration, advances
/// the elapsed time by one frame, and only emits a well-formed segment.
pub proof fn lemma_step_props(e: VADIterator, prob: u32)
    requires
        e.wf(),
        e.headroom(1),
        prob <= PROB_SCALE,
    ensures
        ({
            let next = step(e, prob);
            &&& next.0.wf()
            &&& same_config(next.0, e)
            &&& next.0.elapsed_ms == e.elapsed_ms + spec_frame_duration_ms(e.sampling_rate)
            &&& (next.1 matches Some(seg) ==> seg_wf(seg))
        }),
{
    lemma_frame_duration(e.sampling_rate);
}

/// A whole run preserves well-formedness and the configuration, advances the
/// elapsed time by one frame per probability, and emits well-formed segments
/// only: every emitted segment starts no later than it ends.
pub proof fn lemma_run_props(e: VADIterator, probs: Seq<u32>)
    requires
        e.wf(),
        e.headroom(probs.len() as int),
        forall|i: int| 0 <= i < probs.len() ==> probs[i] <= PROB_SCALE,
    ensures
        ({
            let end = run(e, probs);
            &&& end.0.wf()
            &&& same_config(end.0, e)
            &&& end.0.elapsed_ms == e.elapsed_ms + probs.len() * spec_frame_duration_ms(
                e.sampling_rate,
            )
            &&& forall|i: int| 0 <= i < end.1.len() ==> seg_wf(#[trigger] end.1[i])
        }),
    decreases probs.len(),
{
    lemma_frame_duration(e.sampling_rate);
    if probs.len() > 0 {
        let next = step(e, probs[0]);
        lemma_step_props(e, probs[0]);
        assert(forall|i: int| 0 <= i < probs.skip(1).len() ==> probs.skip(1)[i] == probs[i + 1]);
        lemma_run_props(next.0, probs.skip(1));
        let end = run(e, probs);
        let rest = run(next.0, probs.skip(1));
        assert forall|i: int| 0 <= i < end.1.len() implies seg_wf(#[trigger] end.1[i]) by {
            if i >= emitted(next.1).len() {
                assert(end.1[i] == rest.1[i - emitted(next.1).len()]);
            }
        }
    }
}

/// Law: batching frames does not change behaviour.  Feeding `p1` and then
/// `p2` to the engine leaves the same state and emits the same segments, in
/// the same order, as feeding the concatenation `p1 + p2` at once.  Applied
/// repeatedly: every consistent sub-batching of one probability sequence —
/// all at once, one frame at a time, or anything between — yields the same
/// final segment list.
pub proof fn lemma_run_append(e: VADIterator, p1: Seq<u32>, p2: Seq<u32>)
    ensures
        run(e, p1 + p2).0 == run(run(e, p1).0, p2).0,
        run(e, p1 + p2).1 == run(e, p1).1 + run(run(e, p1).0, p2).1,
    decreases p1.len(),
{
    if p1.len() == 0 {
        assert(p1 + p2 =~= p2);
        assert(run(e, p1).1 + run(run(e, p1).0, p2).1 =~= run(run(e, p1).0, p2).1);
    } else {
        let next = step(e, p1[0]);
        lemma_run_append(next.0, p1.skip(1), p2);
        assert((p1 + p2)[0] == p1[0]);
        assert((p1 + p2).skip(1) =~= p1.skip(1) + p2);
        assert(run(e, p1 + p2).1 =~= run(e, p1).1 + run(run(e, p1).0, p2).1);
    }
}

/// Law: a probability stream that stays below the threshold opens no speech
/// run in an idle engine and emits nothing, so the whole-file path returns
/// an empty list for it, whatever the duration bounds.
pub proof fn lemma_below_threshold_no_segments(
    e: VADIterator,
    probs: Seq<u32>,
    min_speech_duration_ms: u32,
    max_speech_duration_ms: Option<u64>,
)
    requires
        e.speech_start_ms is None,
        e.speech_end_ms is None,
        forall|i: int| 0 <= i < probs.len() ==> probs[i] < e.threshold,
    ensures
        run(e, probs).1 == Seq::<SpeechTimestamps>::empty(),
        run(e, probs).0.speech_start_ms is None,
        run(e, probs).0.speech_end_ms is None,
        filter_segments_spec(run(e, probs).1, min_speech_duration_ms, max_speech_duration_ms)
            == Seq::<SpeechTimestamps>::empty(),
    decreases probs.len(),
{
    if probs.len() > 0 {
        let next = step(e, probs[0]);
        assert(forall|i: int| 0 <= i < probs.skip(1).len() ==> probs.skip(1)[i] == probs[i + 1]);
        lemma_below_threshold_no_segments(
            next.0,
            probs.skip(1),
            min_speech_duration_ms,
            max_speech_duration_ms,
        );
        assert(run(e, probs).1 =~= Seq::<SpeechTimestamps>::empty());
    }
}

/// Law: `reset` erases history completely.  An engine that was reset and a
/// freshly constructed engine with the same configuration are driven by any
/// probability sequence to the same final state and the same segments.
pub proof fn lemma_reset_equals_fresh(e: VADIterator, probs: Seq<u32>)
    ensures
        run(spec_reset(e), probs) == run(
            spec_initial(
                e.threshold,
                e.sampling_rate,
                e.min_silence_duration_ms,
                e.speech_pad_ms,
            ),
            probs,
        ),
{
}

/// A segment passes the duration filter: it lasts at least
/// `min_speech_duration_ms`, and no longer than `max_speech_duration_ms`
/// where that bound is given (`None` leaves the duration unbounded above).
pub open spec fn keep_segment(
    s: SpeechTimestamps,
    min_speech_duration_ms: u32,
    max_speech_duration_ms: Option<u64>,
) -> bool {
    &&& s.end_ms - s.start_ms >= min_speech_duration_ms
    &&& match max_speech_duration_ms {
        Option::Some(m) => s.end_ms - s.start_ms <= m,
        Option::None => true,
    }
}

/// Order-preserving duration filter: the subsequence of `segs` whose
/// durations lie within the bounds.  Segment contents are never changed.
pub open spec fn filter_segments_spec(
    segs: Seq<SpeechTimestamps>,
    min_speech_duration_ms: u32,
    max_speech_duration_ms: Option<u64>,
) -> Seq<SpeechTimestamps>
    decreases segs.len(),
{
    if segs.len() == 0 {
        Seq::empty()
    } else {
        let rest = filter_segments_spec(segs.skip(1), min_speech_duration_ms, max_speech_duration_ms);
        if keep_segment(segs[0], min_speech_duration_ms, max_speech_duration_ms) {
            seq![segs[0]] + rest
        } else {
            rest
        }
    }
}

/// Everything the duration filter returns passes the bounds and was among
/// the input segments.
pub proof fn lemma_filter_keeps(
    segs: Seq<SpeechTimestamps>,
    min_speech_duration_ms: u32,
    max_speech_duration_ms: Option<u64>,
)
    ensures
        ({
            let f = filter_segments_spec(segs, min_speech_duration_ms, max_speech_duration_ms);
            forall|i: int|
                0 <= i < f.len() ==> keep_segment(
                    #[trigger] f[i],
                    min_speech_duration_ms,
                    max_speech_duration_ms,
                ) && segs.contains(f[i])
        }),
    decreases segs.len(),
{
    if segs.len() > 0 {
        lemma_filter_keeps(segs.skip(1), min_speech_duration_ms, max_speech_duration_ms);
        let f = filter_segments_spec(segs, min_speech_duration_ms, max_speech_duration_ms);
        let rest = filter_segments_spec(segs.skip(1), min_speech_duration_ms, max_speech_duration_ms);
        assert forall|i: int|
            0 <= i < f.len() implies keep_segment(
            #[trigger] f[i],
            min_speech_duration_ms,
            max_speech_duration_ms,
        ) && segs.contains(f[i]) by {
            let head = if keep_segment(segs[0], min_speech_duration_ms, max_speech_duration_ms) {
                1int
            } else {
                0int
            };
            if i >= head {
                assert(f[i] == rest[i - head]);
                assert(segs.skip(1).contains(rest[i - head]));
                let j = choose|j: int|
                    0 <= j < segs.skip(1).len() && segs.skip(1)[j] == rest[i - head];
                assert(segs[j + 1] == rest[i - head]);
            }
        }
    }
}

/// The duration filter of the whole-file path: keeps exactly the segments
/// whose duration lies within the bounds, in their original order.
pub fn filter_segments(
    segs: &Vec<SpeechTimestamps>,
    min_speech_duration_ms: u32,
    max_speech_duration_ms: Option<u64>,
) -> (r: Vec<SpeechTimestamps>)
    requires
        forall|i: int| 0 <= i < segs@.len() ==> seg_wf(#[trigger] segs@[i]),
    ensures
        r@ == filter_segments_spec(segs@, min_speech_duration_ms, max_speech_duration_ms),
        forall|i: int|
            0 <= i < r@.len() ==> keep_segment(
                #[trigger] r@[i],
                min_speech_duration_ms,
                max_speech_duration_ms,
            ) && seg_wf(r@[i]),
{
    let mut r: Vec<SpeechTimestamps> = Vec::new();
    let n = segs.len();
    let mut i: usize = 0;
    proof {
        assert(segs@.skip(0) =~= segs@);
        assert(r@ + filter_segments_spec(segs@, min_speech_duration_ms, max_speech_duration_ms)
            =~= filter_segments_spec(segs@, min_speech_duration_ms, max_speech_duration_ms));
    }
    while i < n
        invariant
            n == segs@.len(),
            0 <= i <= n,
            forall|k: int| 0 <= k < segs@.len() ==> seg_wf(#[trigger] segs@[k]),
            filter_segments_spec(segs@, min_speech_duration_ms, max_speech_duration_ms) == r@
                + filter_segments_spec(
                segs@.skip(i as int),
                min_speech_duration_ms,
                max_speech_duration_ms,
            ),
        decreases n - i,
    {
        let s = segs[i];
        let dur = s.end_ms - s.start_ms;
        let keep = dur >= min_speech_duration_ms as u64 && (match max_speech_duration_ms {
            Option::Some(m) => dur <= m,
            Option::None => true,
        });
        proof {
            assert(segs@.skip(i as int)[0] == segs@[i as int]);
            assert(segs@.skip(i as int).skip(1) =~= segs@.skip(i as int + 1));
        }
        if keep {
            r.push(s);
            proof {
                assert(filter_segments_spec(segs@, min_speech_duration_ms, max_speech_duration_ms)
                    =~= r@ + filter_segments_spec(
                    segs@.skip(i as int + 1),
                    min_speech_duration_ms,
                    max_speech_duration_ms,
                ));
            }
        }
        i = i + 1;
    }
    proof {
        assert(segs@.skip(n as int) =~= Seq::<SpeechTimestamps>::empty());
        assert(r@ + filter_segments_spec(
            segs@.skip(n as int),
            min_speech_duration_ms,
            max_speech_duration_ms,
        ) =~= r@);
        lemma_filter_keeps(segs@, min_speech_duration_ms, max_speech_duration_ms);
    }
    r
}

impl VADIterator {
    /// The configuration is within its documented domain.
    pub open spec fn valid_config(&self) -> bool {
        &&& valid_sample_rate(self.sampling_rate)
        &&& self.threshold <= PROB_SCALE
    }

    /// Well-formedness: valid configuration, and the two optional timestamps
    /// are set together, ordered, and no later than the elapsed time.
    pub open spec fn wf(&self) -> bool {
        &&& self.valid_config()
        &&& self.last_prob <= PROB_SCALE
        &&& match (self.speech_start_ms, self.speech_end_ms) {
            (Option::Some(start), Option::Some(end)) => start <= end <= self.elapsed_ms,
            (Option::None, Option::None) => true,
            _ => false,
        }
    }

    /// The next `frames` frames can be consumed, and a segment emitted, with
    /// no 64-bit timestamp overflow.
    pub open spec fn headroom(&self, frames: int) -> bool {
        self.elapsed_ms + frames * spec_frame_duration_ms(self.sampling_rate)
            + self.speech_pad_ms <= u64::MAX
    }

    /// Create a new engine.
    ///
    /// The configuration is fixed for the engine's lifetime; processing a
    /// stream with a different configuration requires a new engine.
    pub fn new(
        threshold: u32,
        sampling_rate: u32,
        min_silence_duration_ms: u32,
        speech_pad_ms: u32,
    ) -> (r: Self)
        requires
            threshold <= PROB_SCALE,
            valid_sample_rate(sampling_rate),
        ensures
            r == spec_initial(threshold, sampling_rate, min_silence_duration_ms, speech_pad_ms),
            r.wf(),
    {
        VADIterator {
            threshold,
            sampling_rate,
            min_silence_duration_ms,
            speech_pad_ms,
            elapsed_ms: 0,
            speech_start_ms: None,
            speech_end_ms: None,
            last_prob: 0,
        }
    }

    /// Reset the engine between independent streams.
    ///
    /// Leaves the engine equal to a freshly constructed one with the same
    /// configuration; callers that hold predictor state must zero it too.
    /// Idempotent.
    pub fn reset(&mut self)
        ensures
            *final(self) == spec_reset(*old(self)),
            old(self).valid_config() ==> final(self).wf(),
    {
        self.elapsed_ms = 0;
        self.speech_start_ms = None;
        self.speech_end_ms = None;
        self.last_prob = 0;
    }

    /// Streaming entry point: consume the probability of the next frame and
    /// return the segment it closes, if any.
    ///
    /// `chunk_len` is the length of the audio frame whose probability is
    /// handed in; a frame of the wrong length is rejected with
    /// `Error::InvalidInput` before the engine state is touched, so the
    /// caller may correct the frame and call again.  No duration filtering
    /// is applied on this path: streaming callers filter for themselves.
    pub fn process_chunk(&mut self, chunk_len: usize, prob: u32) -> (r: Result<
        Option<SpeechTimestamps>,
        Error,
    >)
        requires
            old(self).wf(),
            old(self).headroom(1),
            prob <= PROB_SCALE,
        ensures
            final(self).wf(),
            same_config(*final(self), *old(self)),
            ({
                let next = step(*old(self), prob);
                if chunk_len == spec_frame_size(old(self).sampling_rate) {
                    &&& *final(self) == next.0
                    &&& r == Result::<Option<SpeechTimestamps>, Error>::Ok(next.1)
                    &&& (r matches Ok(Some(seg)) ==> seg_wf(seg))
                } else {
                    &&& *final(self) == *old(self)
                    &&& r == Result::<Option<SpeechTimestamps>, Error>::Err(Error::InvalidInput)
                }
            }),
    {
        if chunk_len != frame_size(self.sampling_rate) {
            return Err(Error::InvalidInput);
        }
        let dur = frame_duration_ms(self.sampling_rate);
        self.elapsed_ms = self.elapsed_ms + dur;
        let t = self.elapsed_ms;
        let mut out: Option<SpeechTimestamps> = None;
        if prob >= self.threshold {
            if self.speech_start_ms.is_none() {
                self.speech_start_ms = Some(t);
            }
            self.speech_end_ms = Some(t);
        } else if self.speech_start_ms.is_some() {
            let end = self.speech_end_ms.unwrap();
            if t - end >= self.min_silence_duration_ms as u64 {
                out = Some(
                    SpeechTimestamps {
                        start_ms: self.speech_start_ms.unwrap(),
                        end_ms: end + self.speech_pad_ms as u64,
                    },
                );
                self.speech_start_ms = None;
                self.speech_end_ms = None;
            }
        }
        self.last_prob = prob;
        Ok(out)
    }

    /// Batch entry point: consume the probabilities of a group of frames, in
    /// frame order, and return every segment they close, in emission order
    /// (`None` when no segment was closed).  Grouping only amortizes
    /// predictor calls: the result equals processing the frames one at a
    /// time.  No duration filtering is applied.
    ///
    /// `chunk_len` is the common length of the frames in the batch; a batch
    /// of wrong-length frames is rejected with `Error::InvalidInput` before
    /// the engine state is touched.
    pub fn process_batch(&mut self, chunk_len: usize, probs: &Vec<u32>) -> (r: Result<
        Option<Vec<SpeechTimestamps>>,
        Error,
    >)
        requires
            old(self).wf(),
            old(self).headroom(probs@.len() as int),
            forall|i: int| 0 <= i < probs@.len() ==> probs@[i] <= PROB_SCALE,
        ensures
            final(self).wf(),
            same_config(*final(self), *old(self)),
            ({
                let end = run(*old(self), probs@);
                if chunk_len == spec_frame_size(old(self).sampling_rate) {
                    &&& *final(self) == end.0
                    &&& match r {
                        Result::Ok(Option::Some(v)) => v@ == end.1 && end.1.len() > 0,
                        Result::Ok(Option::None) => end.1.len() == 0,
                        Result::Err(_) => false,
                    }
                } else {
                    &&& *final(self) == *old(self)
                    &&& r == Result::<Option<Vec<SpeechTimestamps>>, Error>::Err(
                        Error::InvalidInput,
                    )
                }
            }),
    {
        if chunk_len != frame_size(self.sampling_rate) {
            return Err(Error::InvalidInput);
        }
        let ghost e0 = *self;
        proof {
            lemma_frame_duration(e0.sampling_rate);
            assert(probs@.skip(0) =~= probs@);
            assert(Seq::<SpeechTimestamps>::empty() + run(e0, probs@).1 =~= run(e0, probs@).1);
        }
        let mut results: Vec<SpeechTimestamps> = Vec::new();
        let n = probs.len();
        let mut i: usize = 0;
        while i < n
            invariant
                n == probs@.len(),
                0 <= i <= n,
                self.wf(),
                same_config(*self, e0),
                chunk_len == spec_frame_size(e0.sampling_rate),
                self.headroom(n - i),
                forall|k: int| 0 <= k < probs@.len() ==> probs@[k] <= PROB_SCALE,
                run(e0, probs@).0 == run(*self, probs@.skip(i as int)).0,
                run(e0, probs@).1 == results@ + run(*self, probs@.skip(i as int)).1,
            decreases n - i,
        {
            proof {
                lemma_frame_duration(e0.sampling_rate);
                assert(probs@.skip(i as int)[0] == probs@[i as int]);
                assert(probs@.skip(i as int).skip(1) =~= probs@.skip(i as int + 1));
            }
            let res = self.process_chunk(chunk_len, probs[i]);
            match res {
                Ok(Some(seg)) => {
                    results.push(seg);
                },
                Ok(None) => {},
                Err(_) => {
                    proof {
                        assert(false);
                    }
                },
            }
            proof {
                assert(run(e0, probs@).1 =~= results@ + run(
                    *self,
                    probs@.skip(i as int + 1),
                ).1);
            }
            i = i + 1;
        }
        proof {
            assert(probs@.skip(n as int) =~= Seq::<u32>::empty());
            assert(results@ + run(*self, probs@.skip(n as int)).1 =~= results@);
        }
        if results.len() == 0 {
            Ok(None)
        } else {
            Ok(Some(results))
        }
    }

    /// Whole-file entry point: consume the per-frame probabilities of an
    /// entire buffer and return every emitted segment that passes the
    /// duration filter, in order.  This is the one path that filters by
    /// duration; the streaming and batch paths return raw segments.
    pub fn get_speech_timestamps(
        &mut self,
        probs: &Vec<u32>,
        min_speech_duration_ms: u32,
        max_speech_duration_ms: Option<u64>,
    ) -> (r: Result<Vec<SpeechTimestamps>, Error>)
        requires
            old(self).wf(),
            old(self).headroom(probs@.len() as int),
            forall|i: int| 0 <= i < probs@.len() ==> probs@[i] <= PROB_SCALE,
        ensures
            final(self).wf(),
            same_config(*final(self), *old(self)),
            ({
                let end = run(*old(self), probs@);
                &&& *final(self) == end.0
                &&& match r {
                    Result::Ok(v) => v@ == filter_segments_spec(
                        end.1,
                        min_speech_duration_ms,
                        max_speech_duration_ms,
                    ),
                    Result::Err(_) => false,
                }
            }),
            match r {
                Result::Ok(v) => forall|i: int|
                    0 <= i < v@.len() ==> keep_segment(
                        #[trigger] v@[i],
                        min_speech_duration_ms,
                        max_speech_duration_ms,
                    ) && seg_wf(v@[i]),
                Result::Err(_) => false,
            },
    {
        let chunk = frame_size(self.sampling_rate);
        proof {
            lemma_run_props(*self, probs@);
        }
        let raw: Vec<SpeechTimestamps> = match self.process_batch(chunk, probs) {
            Ok(Some(v)) => v,
            Ok(None) => Vec::new(),
            Err(_) => {
                proof {
                    assert(false);
                }
                Vec::new()
            },
        };
        proof {
            assert(raw@ =~= run(*old(self), probs@).1);
        }
        Ok(filter_segments(&raw, min_speech_duration_ms, max_speech_duration_ms))
    }
}

/// Number of samples in one frame at sample rate `sr`.
pub fn frame_size(sr: u32) -> (r: usize)
    ensures
        r == spec_frame_size(sr),
{
    if sr == 16000 {
        512
    } else {
        256
    }
}

/// Duration of one frame in milliseconds.
pub fn frame_duration_ms(sr: u32) -> (r: u64)
    requires
        valid_sample_rate(sr),
    ensures
        r == spec_frame_duration_ms(sr),
        r == 32,
{
    if sr == 16000 {
        assert(spec_frame_duration_ms(16000) == 512 * 1000 / 16000);
        512 * 1000 / 16000
    } else {
        assert(spec_frame_duration_ms(8000) == 256 * 1000 / 8000);
        256 * 1000 / 8000
    }
}

/// Check a frame against the predictor's input contract: supported sample
/// rate, and exactly one frame of samples.  Runs before any inference
/// attempt and mutates nothing.
pub fn validate_input(chunk_len: usize, sr: u32) -> (r: Result<(), Error>)
    ensures
        r is Ok <==> valid_sample_rate(sr) && chunk_len == spec_frame_size(sr),
        r is Err ==> r == Result::<(), Error>::Err(Error::InvalidInput),
{
    if sr != 8000 && sr != 16000 {
        return Err(Error::InvalidInput);
    }
    if chunk_len != frame_size(sr) {
        return Err(Error::InvalidInput);
    }
    Ok(())
}

/// Whether the predictor's recurrent state must be zeroed before the next
/// call: the batch size changed, or the sample rate changed after at least
/// one call.  Reusing stale recurrent state across such a change is
/// undefined behaviour of the predictor, so the caller must check this
/// before every call.
pub fn needs_state_reset(last_sr: u32, sr: u32, last_batch_size: usize, batch_size: usize) -> (r:
    bool)
    ensures
        r == (last_batch_size != batch_size || (last_sr != 0 && last_sr != sr)),
{
    last_batch_size != batch_size || (last_sr != 0 && last_sr != sr)
}

/// Number of whole frames in a buffer of `audio_len` samples; a trailing
/// partial frame is discarded, not zero-padded.
pub fn frame_count(audio_len: usize, sr: u32) -> (r: usize)
    requires
        valid_sample_rate(sr),
    ensures
        r == audio_len / spec_frame_size(sr),
{
    audio_len / frame_size(sr)
}

} // verus!

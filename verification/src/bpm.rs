//! Sliding audio frames and the onset frame processor.

use vstd::prelude::*;

use crate::utils::{mean, median, median_of, sum_int, lemma_sum_int_bounds, Ratio};

verus! {

/// Samples per chunk delivered by the caller.
pub const CHUNK_SIZE: usize = 512;

/// Chunks held by one sliding frame.
pub const WINDOW_CHUNKS: usize = 4;

/// Samples in one materialized frame buffer.
pub const FRAME_SIZE: usize = CHUNK_SIZE * WINDOW_CHUNKS;

/// The concatenation of a window of chunks, oldest first.
pub open spec fn flat_of(w: Seq<Seq<i16>>) -> Seq<i16>
    decreases w.len(),
{
    if w.len() == 0 {
        Seq::empty()
    } else {
        flat_of(w.drop_last()) + w.last()
    }
}

/// One write into a sliding window: the oldest chunk leaves, the new
/// chunk enters at the newest end.
pub open spec fn write_step(w: Seq<Seq<i16>>, c: Seq<i16>) -> Seq<Seq<i16>> {
    w.drop_first().push(c)
}

/// Sum of squares of every sample in a buffer.
pub open spec fn energy_int(s: Seq<i16>) -> int
    decreases s.len(),
{
    if s.len() == 0 {
        0
    } else {
        energy_int(s.drop_last()) + (s.last() as int) * (s.last() as int)
    }
}

/// A window of uniform chunks flattens to a buffer of predictable length.
pub proof fn lemma_flat_of_len(w: Seq<Seq<i16>>)
    requires
        forall|i: int| 0 <= i < w.len() ==> (#[trigger] w[i]).len() == CHUNK_SIZE,
    ensures
        flat_of(w).len() == w.len() * CHUNK_SIZE,
    decreases w.len(),
{
    if w.len() > 0 {
        lemma_flat_of_len(w.drop_last());
    }
}

/// Energy is non-negative, and zero exactly when every sample is zero.
pub proof fn lemma_energy_zero(s: Seq<i16>)
    ensures
        energy_int(s) >= 0,
        energy_int(s) == 0 <==> (forall|i: int| 0 <= i < s.len() ==> s[i] == 0),
    decreases s.len(),
{
    if s.len() > 0 {
        lemma_energy_zero(s.drop_last());
        let l = s.last() as int;
        assert(l * l >= 0 && (l * l == 0 <==> l == 0)) by (nonlinear_arith);
        assert forall|i: int| 0 <= i < s.len() - 1 implies s.drop_last()[i] == s[i] by {}
        if energy_int(s) == 0 {
            assert(forall|i: int| 0 <= i < s.len() - 1 ==> s[i] == 0);
            assert(s[s.len() - 1] == 0);
        }
        if forall|i: int| 0 <= i < s.len() ==> s[i] == 0 {
            assert(s.last() == 0);
            assert(forall|i: int| 0 <= i < s.drop_last().len() ==> s.drop_last()[i] == 0);
        }
    }
}

/// A sliding window of `WINDOW_CHUNKS` chunks of audio samples,
/// oldest-first, exposed as one contiguous buffer and an energy metric.
pub struct Frame {
    chunks: Vec<Vec<i16>>,
}

impl View for Frame {
    type V = Seq<Seq<i16>>;

    closed spec fn view(&self) -> Seq<Seq<i16>> {
        self.chunks@.map_values(|c: Vec<i16>| c@)
    }
}

impl Frame {
    /// The window always holds exactly `WINDOW_CHUNKS` chunks of
    /// `CHUNK_SIZE` samples each.
    pub open spec fn wf(self) -> bool {
        &&& self@.len() == WINDOW_CHUNKS
        &&& forall|i: int| 0 <= i < self@.len() ==> (#[trigger] self@[i]).len() == CHUNK_SIZE
    }

    /// A fresh frame: all chunks present and zero-filled.
    pub fn new() -> (f: Frame)
        ensures
            f.wf(),
            forall|i: int, j: int|
                0 <= i < f@.len() && 0 <= j < f@[i].len() ==> #[trigger] f@[i][j] == 0i16,
    {
        let mut chunks: Vec<Vec<i16>> = Vec::new();
        let mut i: usize = 0;
        while i < WINDOW_CHUNKS
            invariant
                0 <= i <= WINDOW_CHUNKS,
                chunks@.len() == i,
                forall|a: int| 0 <= a < i ==> (#[trigger] chunks@[a])@.len() == CHUNK_SIZE,
                forall|a: int, b: int|
                    0 <= a < i && 0 <= b < CHUNK_SIZE ==> (#[trigger] chunks@[a]@[b]) == 0i16,
            decreases WINDOW_CHUNKS - i,
        {
            let mut chunk: Vec<i16> = Vec::new();
            let mut j: usize = 0;
            while j < CHUNK_SIZE
                invariant
                    0 <= j <= CHUNK_SIZE,
                    chunk@.len() == j,
                    forall|b: int| 0 <= b < j ==> chunk@[b] == 0i16,
                decreases CHUNK_SIZE - j,
            {
                chunk.push(0i16);
                j = j + 1;
            }
            chunks.push(chunk);
            i = i + 1;
        }
        Frame { chunks }
    }

    /// Pushes the newest chunk, evicts and returns the oldest one,
    /// unchanged. The window length never varies.
    pub fn write(&mut self, chunk: Vec<i16>) -> (evicted: Vec<i16>)
        requires
            old(self).wf(),
            chunk@.len() == CHUNK_SIZE,
        ensures
            final(self).wf(),
            final(self)@ == write_step(old(self)@, chunk@),
            evicted@ == old(self)@[0],
    {
        self.chunks.push(chunk);
        let evicted = self.chunks.remove(0);
        proof {
            assert(final(self)@ =~= write_step(old(self)@, chunk@));
        }
        evicted
    }

    /// Materializes the concatenation of all held chunks, oldest first.
    pub fn buffer(&self) -> (buf: Vec<i16>)
        requires
            self.wf(),
        ensures
            buf@ == flat_of(self@),
            buf@.len() == FRAME_SIZE,
    {
        let mut buf: Vec<i16> = Vec::new();
        let mut i: usize = 0;
        while i < self.chunks.len()
            invariant
                self.wf(),
                self.chunks@.len() == WINDOW_CHUNKS,
                0 <= i <= WINDOW_CHUNKS,
                buf@ == flat_of(self@.take(i as int)),
            decreases WINDOW_CHUNKS - i,
        {
            let chunk = &self.chunks[i];
            let mut j: usize = 0;
            while j < chunk.len()
                invariant
                    0 <= j <= chunk@.len(),
                    buf@ == flat_of(self@.take(i as int)) + chunk@.take(j as int),
                decreases chunk@.len() - j,
            {
                buf.push(chunk[j]);
                proof {
                    assert(chunk@.take(j + 1) =~= chunk@.take(j as int).push(chunk@[j as int]));
                    assert(buf@ =~= flat_of(self@.take(i as int)) + chunk@.take(j + 1));
                }
                j = j + 1;
            }
            proof {
                assert(chunk@.take(chunk@.len() as int) =~= chunk@);
                assert(chunk@ == self@[i as int]);
                assert(self@.take(i + 1).drop_last() =~= self@.take(i as int));
                assert(self@.take(i + 1).last() == self@[i as int]);
                assert(buf@ =~= flat_of(self@.take(i + 1)));
            }
            i = i + 1;
        }
        proof {
            assert(self@.take(self@.len() as int) =~= self@);
            lemma_flat_of_len(self@);
        }
        buf
    }

    /// The unnormalized L2 energy of the materialized buffer: the sum of
    /// squares of every sample.
    pub fn energy(&self) -> (e: i64)
        requires
            self.wf(),
        ensures
            e == energy_int(flat_of(self@)),
            0 <= e <= FRAME_SIZE * 0x4000_0000,
    {
        let buf = self.buffer();
        let mut acc: i64 = 0;
        let mut i: usize = 0;
        while i < buf.len()
            invariant
                buf@.len() == FRAME_SIZE,
                0 <= i <= FRAME_SIZE,
                acc == energy_int(buf@.take(i as int)),
                0 <= acc <= i * 0x4000_0000,
            decreases FRAME_SIZE - i,
        {
            let x = buf[i] as i64;
            proof {
                assert(-0x8000 <= x <= 0x7FFF);
                assert(0 <= x * x <= 0x4000_0000) by (nonlinear_arith)
                    requires
                        -0x8000 <= x <= 0x7FFF,
                ;
                assert(buf@.take(i + 1).drop_last() =~= buf@.take(i as int));
                assert(buf@.take(i + 1).last() == buf@[i as int]);
            }
            acc = acc + x * x;
            i = i + 1;
        }
        proof {
            assert(buf@.take(buf@.len() as int) =~= buf@);
        }
        acc
    }
}

/// History entries the adaptive threshold looks back over (the parameter
/// `M` of the detector).
pub const THRESHOLD_LOOKBACK: usize = 10;

/// `|a - b|` as an unbounded integer.
pub open spec fn abs_diff(a: int, b: int) -> int {
    if a >= b {
        a - b
    } else {
        b - a
    }
}

/// Numerator of the adaptive threshold over denominator 100. It encodes
/// `lambda * median + alpha * mean + 0.05 * highest_peak` exactly, with
/// `lambda = 1`, `alpha = 7/10` and the mean taken over the
/// `THRESHOLD_LOOKBACK` most recent history values:
/// `100 * median + 7 * sum + 5 * highest_peak`.
pub open spec fn threshold_num_of(h: Seq<i64>, highest_peak: i64) -> int
    recommends
        h.len() >= THRESHOLD_LOOKBACK,
{
    100 * (median_of(h.take(THRESHOLD_LOOKBACK as int)) as int)
        + 7 * sum_int(h.take(THRESHOLD_LOOKBACK as int))
        + 5 * highest_peak
}

/// The peak-picking rule over the three most recent history values
/// (newest first): the middle value is a strict local maximum and lies
/// above the threshold `threshold_num / 100`.
pub open spec fn is_onset(h: Seq<i64>, threshold_num: int) -> bool {
    &&& h.len() >= 3
    &&& h[1] > h[0]
    &&& h[1] > h[2]
    &&& 100 * (h[1] as int) > threshold_num
}

/// How an onset is detected. Only the energy-difference function is
/// implemented; the spectral-difference mode is declared but has no
/// computation.
#[derive(Clone, Copy, PartialEq, Eq, Structural, Debug)]
pub enum OnsetDetectionMode {
    Energy,
    SpectralDifference,
}

/// Turns a stream of chunks into a stream of onset booleans: two
/// staggered sliding frames, an onset-strength history (newest first),
/// and adaptive threshold state.
///
/// The fields are public so that contracts and callers can speak of them;
/// every method requires and preserves `wf`.
pub struct FrameProcessor {
    pub mode: OnsetDetectionMode,
    /// `frames.0` is the previous window, `frames.1` the current one; the
    /// chunk evicted from the current frame is written into the previous
    /// one, so the previous window trails the current by one chunk-write.
    pub frames: (Frame, Frame),
    /// Onset-detection-function values, most recent first.
    pub history: Vec<i64>,
    /// The adaptive threshold, an exact rational with denominator 100.
    pub threshold: Ratio,
    /// Largest confirmed onset magnitude seen so far; never reset.
    pub highest_peak: i64,
}

impl FrameProcessor {
    pub open spec fn wf(self) -> bool {
        &&& self.frames.0.wf()
        &&& self.frames.1.wf()
        &&& self.threshold.den == 100
    }

    /// A fresh processor: zero-filled frames, empty history, threshold
    /// and highest peak zero.
    pub fn new() -> (p: FrameProcessor)
        ensures
            p.wf(),
            p.mode == OnsetDetectionMode::Energy,
            p.history@ == Seq::<i64>::empty(),
            p.threshold == (Ratio { num: 0, den: 100 }),
            p.highest_peak == 0,
            forall|i: int, j: int|
                0 <= i < p.frames.0@.len() && 0 <= j < p.frames.0@[i].len()
                    ==> #[trigger] p.frames.0@[i][j] == 0i16,
            forall|i: int, j: int|
                0 <= i < p.frames.1@.len() && 0 <= j < p.frames.1@[i].len()
                    ==> #[trigger] p.frames.1@[i][j] == 0i16,
    {
        FrameProcessor {
            mode: OnsetDetectionMode::Energy,
            frames: (Frame::new(), Frame::new()),
            history: Vec::new(),
            threshold: Ratio { num: 0, den: 100 },
            highest_peak: 0,
        }
    }

    /// Shifts a chunk into the current frame and the chunk it evicts into
    /// the previous frame (whose own eviction is discarded).
    pub fn write(&mut self, chunk: Vec<i16>)
        requires
            old(self).wf(),
            chunk@.len() == CHUNK_SIZE,
        ensures
            final(self).wf(),
            final(self).frames.1@ == write_step(old(self).frames.1@, chunk@),
            final(self).frames.0@ == write_step(old(self).frames.0@, old(self).frames.1@[0]),
            final(self).mode == old(self).mode,
            final(self).history == old(self).history,
            final(self).threshold == old(self).threshold,
            final(self).highest_peak == old(self).highest_peak,
    {
        let carry_over = self.frames.1.write(chunk);
        let _evicted = self.frames.0.write(carry_over);
    }

    /// Prepends one onset-detection-function value to the history.
    fn update_history(&mut self, value: i64)
        ensures
            final(self).history@ == old(self).history@.insert(0, value),
            final(self).mode == old(self).mode,
            final(self).frames == old(self).frames,
            final(self).threshold == old(self).threshold,
            final(self).highest_peak == old(self).highest_peak,
    {
        self.history.insert(0, value);
    }

    /// Recomputes the adaptive threshold from the `THRESHOLD_LOOKBACK`
    /// most recent history values and the decayed highest peak.
    fn calculate_threshold(&mut self) -> (t: Ratio)
        requires
            old(self).wf(),
            old(self).history@.len() >= THRESHOLD_LOOKBACK,
        ensures
            final(self).wf(),
            final(self).threshold.num
                == threshold_num_of(old(self).history@, old(self).highest_peak),
            final(self).threshold.den == 100,
            t == final(self).threshold,
            final(self).mode == old(self).mode,
            final(self).frames == old(self).frames,
            final(self).history == old(self).history,
            final(self).highest_peak == old(self).highest_peak,
    {
        let mut window: Vec<i64> = Vec::new();
        let mut i: usize = 0;
        while i < THRESHOLD_LOOKBACK
            invariant
                *self == *old(self),
                self.history@.len() >= THRESHOLD_LOOKBACK,
                0 <= i <= THRESHOLD_LOOKBACK,
                window@ == self.history@.take(i as int),
            decreases THRESHOLD_LOOKBACK - i,
        {
            window.push(self.history[i]);
            proof {
                assert(self.history@.take(i + 1)
                    =~= self.history@.take(i as int).push(self.history@[i as int]));
            }
            i = i + 1;
        }
        let med = median(window.as_slice());
        let mn = mean(window.as_slice());
        proof {
            lemma_sum_int_bounds(window@);
        }
        let num: i128 = 100 * (med as i128) + 7 * mn.num + 5 * (self.highest_peak as i128);
        self.threshold = Ratio { num, den: 100 };
        Ratio { num, den: 100 }
    }

    /// Evaluates peak-picking over the three most recent history values;
    /// on a confirmed onset the highest peak is raised to the peak's
    /// magnitude if it exceeds the current record.
    fn check_for_previous_onset(&mut self) -> (r: bool)
        requires
            old(self).wf(),
            old(self).history@.len() >= 3,
        ensures
            final(self).wf(),
            r == is_onset(old(self).history@, old(self).threshold.num as int),
            final(self).highest_peak == (if r && old(self).history@[1] > old(self).highest_peak {
                old(self).history@[1]
            } else {
                old(self).highest_peak
            }),
            final(self).mode == old(self).mode,
            final(self).frames == old(self).frames,
            final(self).history == old(self).history,
            final(self).threshold == old(self).threshold,
    {
        let curr = self.history[0];
        let prev = self.history[1];
        let prev_prev = self.history[2];
        if prev > curr && prev > prev_prev {
            if 100 * (prev as i128) > self.threshold.num {
                if prev > self.highest_peak {
                    self.highest_peak = prev;
                }
                return true;
            }
        }
        false
    }

    /// Processes one chunk: shifts the frames, prepends the absolute
    /// energy difference of the two windows to the history, and — once
    /// the history holds at least `THRESHOLD_LOOKBACK` values — recomputes
    /// the threshold and evaluates peak-picking. During warm-up the
    /// result is always `false` and threshold and peak stay unchanged.
    pub fn process(&mut self, chunk: Vec<i16>) -> (onset: bool)
        requires
            old(self).wf(),
            chunk@.len() == CHUNK_SIZE,
        ensures
            final(self).wf(),
            final(self).mode == old(self).mode,
            final(self).frames.1@ == write_step(old(self).frames.1@, chunk@),
            final(self).frames.0@ == write_step(old(self).frames.0@, old(self).frames.1@[0]),
            final(self).history@.len() == old(self).history@.len() + 1,
            final(self).history@.drop_first() == old(self).history@,
            final(self).history@[0] as int == abs_diff(
                energy_int(flat_of(final(self).frames.1@)),
                energy_int(flat_of(final(self).frames.0@)),
            ),
            final(self).history@.len() < THRESHOLD_LOOKBACK ==> {
                &&& onset == false
                &&& final(self).threshold == old(self).threshold
                &&& final(self).highest_peak == old(self).highest_peak
            },
            final(self).history@.len() >= THRESHOLD_LOOKBACK ==> {
                &&& final(self).threshold.num
                    == threshold_num_of(final(self).history@, old(self).highest_peak)
                &&& final(self).threshold.den == 100
                &&& onset == is_onset(final(self).history@, final(self).threshold.num as int)
                &&& final(self).highest_peak == (if onset && final(self).history@[1]
                    > old(self).highest_peak {
                    final(self).history@[1]
                } else {
                    old(self).highest_peak
                })
            },
    {
        self.write(chunk);

        let e_prev = self.frames.0.energy();
        let e_curr = self.frames.1.energy();
        let diff = e_curr - e_prev;
        let odf = if diff < 0 {
            -diff
        } else {
            diff
        };

        self.update_history(odf);
        proof {
            assert(self.history@.drop_first() =~= old(self).history@);
        }
        if self.history.len() < THRESHOLD_LOOKBACK {
            return false;
        }
        let _threshold = self.calculate_threshold();
        self.check_for_previous_onset()
    }
}

/// A well-formed frame always materializes to a buffer of exactly
/// `CHUNK_SIZE * WINDOW_CHUNKS` samples; since `Frame::write` preserves
/// well-formedness, this holds after any sequence of writes.
pub proof fn lemma_window_length(f: Frame)
    requires
        f.wf(),
    ensures
        flat_of(f@).len() == FRAME_SIZE,
{
    lemma_flat_of_len(f@);
}

/// The FIFO law of the sliding window: writing chunks `c1, c2, c3, c4`
/// (one per window slot) into any full window leaves exactly
/// `c1, c2, c3, c4` oldest-first, whose buffer is their concatenation;
/// the next write would evict `c1` — and `Frame::write` returns the
/// evicted chunk unchanged.
pub proof fn lemma_frame_fifo(
    w0: Seq<Seq<i16>>,
    c1: Seq<i16>,
    c2: Seq<i16>,
    c3: Seq<i16>,
    c4: Seq<i16>,
)
    requires
        w0.len() == WINDOW_CHUNKS,
    ensures
        write_step(write_step(write_step(write_step(w0, c1), c2), c3), c4)
            == seq![c1, c2, c3, c4],
        flat_of(seq![c1, c2, c3, c4]) == c1 + c2 + c3 + c4,
        write_step(write_step(write_step(write_step(w0, c1), c2), c3), c4)[0] == c1,
{
    let w4 = write_step(write_step(write_step(write_step(w0, c1), c2), c3), c4);
    assert(w4 =~= seq![c1, c2, c3, c4]);
    let s4 = seq![c1, c2, c3, c4];
    assert(s4.drop_last() =~= seq![c1, c2, c3]);
    assert(seq![c1, c2, c3].drop_last() =~= seq![c1, c2]);
    assert(seq![c1, c2].drop_last() =~= seq![c1]);
    assert(seq![c1].drop_last() =~= Seq::<Seq<i16>>::empty());
    assert(flat_of(Seq::<Seq<i16>>::empty()) == Seq::<i16>::empty());
    assert(flat_of(seq![c1]) =~= c1);
    assert(flat_of(seq![c1, c2]) =~= c1 + c2);
    assert(flat_of(seq![c1, c2, c3]) =~= c1 + c2 + c3);
    assert(flat_of(s4) =~= c1 + c2 + c3 + c4);
}

/// Detection latency: when an onset is confirmed by the call that pushed
/// the value `v` onto history `h`, the confirmed peak is `h[0]` — the
/// value produced by the previous call — and it strictly exceeds `v`,
/// the value just computed. An onset never reflects the newest value.
pub proof fn lemma_onset_latency(h: Seq<i64>, v: i64, threshold_num: int)
    requires
        is_onset(h.insert(0, v), threshold_num),
    ensures
        h.insert(0, v)[1] == h[0],
        h.insert(0, v)[0] == v,
        h.insert(0, v)[1] > v,
{
    assert(h.insert(0, v)[0] == v);
    assert(h.insert(0, v)[1] == h[0]);
}

} // verus!

//! Rolling analyzer: a fixed-capacity ring of recent loudness values. Each
//! chunk's energy is normalized against the ring's own baseline, pushed to
//! the front, averaged across neighbours and faded toward the tail.

use std::collections::VecDeque;

use vstd::prelude::*;

use crate::utils::{
    chunk_ok, count_nonzero, fade_exp_seq, fade_exponent, frame_ok, ma_seq, mean_abs, mean_abs_of,
    mean_nonzero, mean_nonzero_of, moving_average, sum_abs_nonzero,
};
use crate::{FP_ONE, FRAME_MAX, MAX_CHUNK_LEN, MAX_FRAME_LEN};

verus! {

/// Gain applied to the chunk's mean absolute energy.
pub const ROLLING_GAIN: i64 = 1000;

/// Gain applied after the baseline normalization.
pub const NORM_GAIN: i64 = 100;

/// The ring is averaged across this many neighbours on each side.
pub const ROLLING_MA_WINDOW: usize = 2;

/// Ramp subtracted per ring position by the trailing fade.
pub const ROLLING_FADE: i64 = 2;

/// The chunk's energy estimate: mean absolute sample value under the fixed
/// gain.
pub open spec fn rolling_avg(data: Seq<i64>) -> int {
    mean_abs_of(data) * (ROLLING_GAIN as int)
}

/// The normalization baseline: the square of the ring's non-zero mean, with
/// a vanishing square guarded to one unit so that no division can collapse.
pub open spec fn rolling_baseline(hist: Seq<i64>) -> int {
    let m = mean_nonzero_of(hist);
    let b = m * m / (FP_ONE as int);
    if b == 0 {
        FP_ONE as int
    } else {
        b
    }
}

/// The normalized loudness value one chunk contributes to the ring.
pub open spec fn rolling_norm(hist: Seq<i64>, data: Seq<i64>) -> int {
    rolling_avg(data) * (FP_ONE as int) / rolling_baseline(hist) * (NORM_GAIN as int)
}

/// The frame one rolling step produces: rotate the normalized value into the
/// front of the ring, drop the oldest value, average across the window and
/// apply the trailing fade.
pub open spec fn rolling_frame(hist: Seq<i64>, data: Seq<i64>) -> Seq<i64> {
    let rotated = seq![rolling_norm(hist, data) as i64] + hist.drop_last();
    fade_exp_seq(ma_seq(rotated, ROLLING_MA_WINDOW as int), ROLLING_FADE as int)
}

/// On an all-zero ring the non-zero mean falls back to its `FP_ONE`
/// sentinel, so the normalization baseline is exactly one unit and no
/// division can collapse.
pub proof fn lemma_silent_ring_baseline(hist: Seq<i64>)
    requires
        forall|i: int| 0 <= i < hist.len() ==> hist[i] == 0i64,
    ensures
        mean_nonzero_of(hist) == FP_ONE as int,
        rolling_baseline(hist) == FP_ONE as int,
{
    crate::utils::lemma_zero_seq_sums(hist);
    assert(((FP_ONE as int) * (FP_ONE as int)) / (FP_ONE as int) == FP_ONE as int) by {
        vstd::arithmetic::div_mod::lemma_div_multiples_vanish(FP_ONE as int, FP_ONE as int);
    }
}

/// A silent chunk normalizes to exactly zero, whatever the ring holds: its
/// energy estimate is zero and the guarded baseline is at least one unit.
pub proof fn lemma_silent_chunk_norm(hist: Seq<i64>, data: Seq<i64>)
    requires
        data.len() > 0,
        forall|i: int| 0 <= i < data.len() ==> data[i] == 0i64,
    ensures
        rolling_avg(data) == 0,
        rolling_norm(hist, data) == 0,
{
    crate::utils::lemma_zero_seq_sums(data);
    vstd::arithmetic::div_mod::lemma_div_of0(data.len() as int);
    assert(mean_abs_of(data) == 0);
    assert(rolling_avg(data) == 0) by (nonlinear_arith)
        requires
            mean_abs_of(data) == 0,
            rolling_avg(data) == mean_abs_of(data) * (ROLLING_GAIN as int),
    ;
    let m = mean_nonzero_of(hist);
    assert(m >= 0) by {
        crate::utils::lemma_sum_abs_nonzero_nonneg(hist);
        if count_nonzero(hist) != 0 {
            vstd::arithmetic::div_mod::lemma_div_pos_is_pos(
                sum_abs_nonzero(hist),
                count_nonzero(hist),
            );
        }
    }
    let b = m * m / (FP_ONE as int);
    assert(m * m >= 0) by (nonlinear_arith)
        requires
            m >= 0,
    ;
    vstd::arithmetic::div_mod::lemma_div_pos_is_pos(m * m, FP_ONE as int);
    let base = rolling_baseline(hist);
    assert(base >= 1);
    vstd::arithmetic::div_mod::lemma_div_of0(base);
    assert(rolling_norm(hist, data) == 0 * (NORM_GAIN as int));
    assert(0int * (NORM_GAIN as int) == 0) by (nonlinear_arith);
}

/// Silence in, silence out: a silent chunk entering a silent ring produces
/// the all-zero frame — every slot is a finite, non-negative value, and no
/// step of the normalization can collapse.
pub proof fn lemma_rolling_silence(hist: Seq<i64>, data: Seq<i64>)
    requires
        hist.len() > 0,
        data.len() > 0,
        forall|i: int| 0 <= i < hist.len() ==> hist[i] == 0i64,
        forall|i: int| 0 <= i < data.len() ==> data[i] == 0i64,
    ensures
        rolling_frame(hist, data) =~= Seq::new(hist.len(), |i: int| 0i64),
{
    lemma_silent_chunk_norm(hist, data);
    let rotated = seq![rolling_norm(hist, data) as i64] + hist.drop_last();
    assert(forall|i: int| 0 <= i < rotated.len() ==> rotated[i] == 0i64);
    crate::utils::lemma_window_mean_zero(rotated, ROLLING_MA_WINDOW as int);
    let averaged = ma_seq(rotated, ROLLING_MA_WINDOW as int);
    assert(forall|i: int| 0 <= i < averaged.len() ==> averaged[i] == 0i64);
    let faded = fade_exp_seq(averaged, ROLLING_FADE as int);
    assert forall|i: int| 0 <= i < faded.len() implies faded[i] == 0i64 by {
        assert(averaged[i] - (ROLLING_FADE as int) * i <= 0);
    }
}

/// Rolling analyzer state: the fixed-capacity ring of recent normalized
/// loudness values, which is also the frame it emits.
pub struct AnalyzerRolling {
    hist: VecDeque<i64>,
}

impl AnalyzerRolling {
    /// The ring's contents, front first.
    pub closed spec fn history(&self) -> Seq<i64> {
        self.hist@
    }

    /// A usable analyzer: the ring is a non-empty well-formed frame.
    pub open spec fn wf(&self) -> bool {
        &&& 0 < self.history().len() <= MAX_FRAME_LEN
        &&& frame_ok(self.history())
    }

    /// A fresh analyzer whose ring holds the given number of zeros.
    pub fn new(size: usize) -> (r: AnalyzerRolling)
        requires
            0 < size <= MAX_FRAME_LEN,
        ensures
            r.wf(),
            r.history() =~= Seq::new(size as nat, |i: int| 0i64),
    {
        let mut hist: VecDeque<i64> = VecDeque::new();
        let mut i: usize = 0;
        while i < size
            invariant
                i <= size,
                hist@.len() == i,
                forall|j: int| 0 <= j < i ==> #[trigger] hist@[j] == 0i64,
            decreases size - i,
        {
            hist.push_back(0);
            i = i + 1;
        }
        AnalyzerRolling { hist }
    }

    /// One rolling step: consume a raw chunk and produce the next frame,
    /// which is also the ring's new contents.
    pub fn analyze(&mut self, data: &[i64]) -> (frame: Vec<i64>)
        requires
            old(self).wf(),
            0 < data@.len() <= MAX_CHUNK_LEN as int,
            chunk_ok(data@),
        ensures
            final(self).wf(),
            final(self).history() == frame@,
            frame@.len() == old(self).history().len(),
            frame@ == rolling_frame(old(self).history(), data@),
            frame_ok(frame@),
    {
        let ghost hist0 = self.hist@;
        let avg: i64 = mean_abs(data) * ROLLING_GAIN;
        let m: i64 = mean_nonzero(&self.hist);
        proof {
            assert(0 <= (m as int) * (m as int) <= (FRAME_MAX as int) * (FRAME_MAX as int))
                by (nonlinear_arith)
                requires
                    1 <= m <= FRAME_MAX,
            ;
        }
        let mut baseline: i128 = (m as i128) * (m as i128) / (FP_ONE as i128);
        proof {
            vstd::arithmetic::div_mod::lemma_div_pos_is_pos((m as int) * (m as int), FP_ONE as int);
            vstd::arithmetic::div_mod::lemma_div_nonincreasing((m as int) * (m as int), FP_ONE as int);
        }
        if baseline == 0 {
            baseline = FP_ONE as i128;
        }
        proof {
            assert(baseline == rolling_baseline(hist0));
            assert(baseline >= 1);
        }
        let scaled: i128 = (avg as i128) * (FP_ONE as i128);
        let q: i128 = scaled / baseline;
        proof {
            vstd::arithmetic::div_mod::lemma_div_pos_is_pos(scaled as int, baseline as int);
            vstd::arithmetic::div_mod::lemma_div_nonincreasing(scaled as int, baseline as int);
        }
        proof {
            assert(0 <= q * (NORM_GAIN as i128) <= FRAME_MAX) by (nonlinear_arith)
                requires
                    0 <= q <= 8_000_000_000i128,
                    NORM_GAIN == 100,
                    FRAME_MAX == 1_000_000_000_000,
            ;
        }
        let avg_norm: i64 = (q * (NORM_GAIN as i128)) as i64;
        proof {
            assert(avg_norm == rolling_norm(hist0, data@));
            assert(0 <= avg_norm <= FRAME_MAX);
        }
        self.hist.push_front(avg_norm);
        let dropped = self.hist.pop_back();
        proof {
            assert(dropped is Some);
            assert(self.hist@ =~= seq![avg_norm] + hist0.drop_last());
        }
        let l = self.hist.len();
        let mut rotated: Vec<i64> = Vec::new();
        let mut i: usize = 0;
        while i < l
            invariant
                l == self.hist@.len(),
                i <= l,
                rotated@.len() == i,
                forall|j: int| 0 <= j < i ==> #[trigger] rotated@[j] == self.hist@[j],
            decreases l - i,
        {
            rotated.push(self.hist[i]);
            i = i + 1;
        }
        proof {
            assert(rotated@ =~= self.hist@);
        }
        let averaged = moving_average(&rotated, ROLLING_MA_WINDOW);
        let frame = fade_exponent(&averaged, ROLLING_FADE);
        let mut ring: VecDeque<i64> = VecDeque::new();
        let mut i: usize = 0;
        while i < l
            invariant
                l == frame@.len(),
                i <= l,
                ring@.len() == i,
                forall|j: int| 0 <= j < i ==> #[trigger] ring@[j] == frame@[j],
            decreases l - i,
        {
            ring.push_back(frame[i]);
            i = i + 1;
        }
        self.hist = ring;
        proof {
            assert(self.hist@ =~= frame@);
        }
        frame
    }
}

} // verus!

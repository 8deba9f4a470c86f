//! Spectral analyzer: turns the magnitude bins of a real-input Fourier
//! transform of one chunk into a frame, smoothing horizontally across bins
//! and directionally against the previous frame.

use vstd::prelude::*;

use crate::utils::{
    all_in, frame_ok, ma_seq, moving_average, smooth_directional, smooth_seq,
};
use crate::{FP_ONE, MAX_FRAME_LEN};

verus! {

/// Bins are averaged across this many neighbours on each side.
pub const MOVING_AVERAGE_WINDOW: usize = 3;

/// Fast attack: rate (out of `FP_ONE`) at which a rising slot approaches the
/// new value.
pub const SMOOTHING_SPEED_UP: i64 = 700;

/// Slow decay: rate (out of `FP_ONE`) at which a falling slot approaches the
/// new value.
pub const SMOOTHING_SPEED_DOWN: i64 = 100;

/// Gain applied to every magnitude bin.
pub const FFT_GAIN: i64 = 20;

/// Largest magnitude bin the analyzer accepts; after the gain (`FFT_GAIN`
/// times this) it still fits a frame slot.
pub const BIN_MAX: i64 = 50_000_000_000;

/// The magnitude bins after the fixed gain.
pub open spec fn gain_bins(spectrum: Seq<i64>) -> Seq<i64> {
    Seq::new(spectrum.len(), |i: int| (spectrum[i] * FFT_GAIN as int) as i64)
}

/// The frame one spectral step produces: gain the bins, average across the
/// window, keep the first `hist.len()` slots, and smooth directionally
/// against the previous frame `hist`.
pub open spec fn spectral_frame(hist: Seq<i64>, spectrum: Seq<i64>) -> Seq<i64> {
    let gained = gain_bins(spectrum);
    let averaged = ma_seq(gained, MOVING_AVERAGE_WINDOW as int);
    let cut = averaged.subrange(0, hist.len() as int);
    smooth_seq(hist, cut, SMOOTHING_SPEED_UP, SMOOTHING_SPEED_DOWN)
}

/// Silence in, silence out: an all-zero spectrum against an all-zero
/// history produces the all-zero frame — every slot finite and
/// non-negative.
pub proof fn lemma_spectral_silence(hist: Seq<i64>, spectrum: Seq<i64>)
    requires
        hist.len() <= spectrum.len(),
        forall|i: int| 0 <= i < hist.len() ==> hist[i] == 0i64,
        forall|i: int| 0 <= i < spectrum.len() ==> spectrum[i] == 0i64,
    ensures
        spectral_frame(hist, spectrum) =~= Seq::new(hist.len(), |i: int| 0i64),
{
    let gained = gain_bins(spectrum);
    assert(forall|i: int| 0 <= i < gained.len() ==> gained[i] == 0i64);
    crate::utils::lemma_window_mean_zero(gained, MOVING_AVERAGE_WINDOW as int);
    let averaged = ma_seq(gained, MOVING_AVERAGE_WINDOW as int);
    assert(forall|i: int| 0 <= i < averaged.len() ==> averaged[i] == 0i64);
    let cut = averaged.subrange(0, hist.len() as int);
    let out = smooth_seq(hist, cut, SMOOTHING_SPEED_UP, SMOOTHING_SPEED_DOWN);
    assert forall|i: int| 0 <= i < out.len() implies out[i] == 0i64 by {
        assert(hist[i] == 0i64 && cut[i] == 0i64);
        assert((0int - 0int) * (SMOOTHING_SPEED_DOWN as int) == 0) by (nonlinear_arith);
        vstd::arithmetic::div_mod::lemma_div_of0(FP_ONE as int);
    }
}

/// Spectral analyzer state: the previous output frame, which the directional
/// smoothing decays toward each new spectrum.
pub struct AnalyzerFFT {
    hist: Vec<i64>,
}

impl AnalyzerFFT {
    /// The previous output frame.
    pub closed spec fn history(&self) -> Seq<i64> {
        self.hist@
    }

    /// A usable analyzer: its history is a well-formed frame of fixed length.
    pub open spec fn wf(&self) -> bool {
        &&& 0 < self.history().len() <= MAX_FRAME_LEN
        &&& frame_ok(self.history())
    }

    /// A fresh analyzer with an all-zero history of the given frame length.
    pub fn new(size: usize) -> (r: AnalyzerFFT)
        requires
            0 < size <= MAX_FRAME_LEN,
        ensures
            r.wf(),
            r.history() =~= Seq::new(size as nat, |i: int| 0i64),
    {
        let mut hist: Vec<i64> = Vec::new();
        let mut i: usize = 0;
        while i < size
            invariant
                i <= size,
                hist@.len() == i,
                forall|j: int| 0 <= j < i ==> #[trigger] hist@[j] == 0i64,
            decreases size - i,
        {
            hist.push(0);
            i = i + 1;
        }
        AnalyzerFFT { hist }
    }

    /// One spectral step: consume the magnitude bins of the chunk's real
    /// Fourier transform (at least one bin per frame slot) and produce the
    /// next frame, which also becomes the new history.
    pub fn analyze(&mut self, spectrum: &Vec<i64>) -> (frame: Vec<i64>)
        requires
            old(self).wf(),
            old(self).history().len() <= spectrum@.len() <= MAX_FRAME_LEN as int,
            all_in(spectrum@, 0, BIN_MAX as int),
        ensures
            final(self).wf(),
            final(self).history() == frame@,
            frame@.len() == old(self).history().len(),
            frame@ == spectral_frame(old(self).history(), spectrum@),
            frame_ok(frame@),
    {
        let size = self.hist.len();
        let n = spectrum.len();
        let mut gained: Vec<i64> = Vec::new();
        let mut i: usize = 0;
        while i < n
            invariant
                n == spectrum@.len(),
                all_in(spectrum@, 0, BIN_MAX as int),
                i <= n,
                gained@.len() == i,
                forall|j: int|
                    0 <= j < i ==> #[trigger] gained@[j] == spectrum@[j] * FFT_GAIN as int,
                frame_ok(gained@),
            decreases n - i,
        {
            gained.push(spectrum[i] * FFT_GAIN);
            i = i + 1;
        }
        proof {
            assert(gained@ =~= gain_bins(spectrum@));
        }
        let mut averaged = moving_average(&gained, MOVING_AVERAGE_WINDOW);
        averaged.truncate(size);
        let frame = smooth_directional(&self.hist, &averaged, SMOOTHING_SPEED_UP, SMOOTHING_SPEED_DOWN);
        self.hist = frame.clone();
        proof {
            assert(self.hist@ =~= frame@);
        }
        frame
    }
}

} // verus!

use viravis::analyzer_fft::AnalyzerFFT;
use viravis::analyzer_rolling::AnalyzerRolling;
use viravis::viravis::{Analyzer, AnalyzerMode};

#[test]
fn fft_step_exact() {
    let mut a = AnalyzerFFT::new(4);
    let frame = a.analyze(&vec![100, 200, 300, 400]);
    assert_eq!(frame, vec![2800, 3500, 3500, 3500]);
    let second = a.analyze(&vec![0, 0, 0, 0]);
    assert_eq!(second, vec![2520, 3150, 3150, 3150]);
}

#[test]
fn fft_extra_bins_are_cut_to_frame_length() {
    let mut a = AnalyzerFFT::new(2);
    let frame = a.analyze(&vec![100, 100, 100, 100, 100, 100]);
    assert_eq!(frame.len(), 2);
}

#[test]
fn fft_silence_gives_finite_frame() {
    let mut a = AnalyzerFFT::new(4);
    let frame = a.analyze(&vec![0, 0, 0, 0]);
    assert_eq!(frame, vec![0, 0, 0, 0]);
}

#[test]
fn rolling_silence_gives_zero_frame_via_sentinel() {
    let mut a = AnalyzerRolling::new(4);
    let frame = a.analyze(&[0, 0, 0, 0]);
    assert_eq!(frame, vec![0, 0, 0, 0]);
}

#[test]
fn rolling_alternating_chunks_stay_nonnegative() {
    let mut a = AnalyzerRolling::new(4);
    let chunks: [[i64; 4]; 4] = [
        [0, 0, 0, 0],
        [1000, -1000, 1000, -1000],
        [0, 0, 0, 0],
        [1000, -1000, 1000, -1000],
    ];
    let mut frames: Vec<Vec<i64>> = Vec::new();
    for c in chunks.iter() {
        let f = a.analyze(c);
        assert_eq!(f.len(), 4);
        assert!(f.iter().all(|&x| x >= 0));
        frames.push(f);
    }
    assert_eq!(frames[0], vec![0, 0, 0, 0]);
    assert_eq!(frames[1], vec![50_000_000, 33_333_331, 24_999_996, 0]);
    assert_eq!(frames[2], vec![25_000_000, 27_777_775, 27_083_327, 36_111_103]);
    assert_eq!(frames[3], vec![12_500_000, 17_592_589, 19_965_271, 26_620_361]);
}

#[test]
fn rolling_front_rises_with_rising_loudness() {
    let mut a = AnalyzerRolling::new(4);
    // Settle the ring at a steady loudness first, so the baseline
    // normalization is in equilibrium.
    for _ in 0..16 {
        a.analyze(&[1000, -1000, 1000, -1000]);
    }
    let mut fronts: Vec<i64> = Vec::new();
    for amp in [1000i64, 2000, 4000, 8000] {
        let f = a.analyze(&[amp, -amp, amp, -amp]);
        fronts.push(f[0]);
    }
    assert_eq!(fronts, vec![45_384, 68_792, 92_896, 111_348]);
    for w in fronts.windows(2) {
        assert!(w[0] < w[1]);
    }
}

#[test]
fn analyzer_enum_dispatches_by_mode() {
    let mut fft = Analyzer::new(4, AnalyzerMode::Fft);
    let mut rolling = Analyzer::new(4, AnalyzerMode::Rolling);
    let f1 = fft.analyze(&vec![100, 200, 300, 400]);
    assert_eq!(f1, vec![2800, 3500, 3500, 3500]);
    let f2 = rolling.analyze(&vec![1000, -1000, 1000, -1000]);
    assert_eq!(f2, vec![50_000_000, 33_333_331, 24_999_996, 0]);
}

use viravis::viravis::{is_valid_frame, AnalyzerMode, StreamSettings, Viravis, CHUNK};

#[test]
fn mode_parses_exactly_two_names() {
    assert_eq!(AnalyzerMode::from_str("fft"), Ok(AnalyzerMode::Fft));
    assert_eq!(AnalyzerMode::from_str("rolling"), Ok(AnalyzerMode::Rolling));
    assert_eq!(
        AnalyzerMode::from_str("wave"),
        Err(String::from("Unknown mode: wave"))
    );
    assert!(AnalyzerMode::from_str("").is_err());
    assert!(AnalyzerMode::from_str("FFT").is_err());
}

#[test]
fn mode_names_round_trip() {
    for mode in [AnalyzerMode::Fft, AnalyzerMode::Rolling] {
        let name = mode.mode_name();
        assert_eq!(AnalyzerMode::from_str(name), Ok(mode));
    }
}

#[test]
fn new_orchestrator_defaults() {
    let v = Viravis::new(4, AnalyzerMode::Rolling, None, String::from("alpha"));
    assert_eq!(v.latest_frame(), vec![0, 0, 0, 0]);
    assert_eq!(v.get_config(2), StreamSettings { channels: 2, sample_rate: 48_000, buffer_frames: CHUNK });
    let w = Viravis::new(4, AnalyzerMode::Rolling, Some(44_100), String::from("alpha"));
    assert_eq!(w.get_config(1), StreamSettings { channels: 1, sample_rate: 44_100, buffer_frames: 960 });
}

#[test]
fn device_check_swaps_only_on_new_name() {
    let mut v = Viravis::new(4, AnalyzerMode::Rolling, None, String::from("alpha"));
    assert!(!v.device_check(String::from("alpha")));
    assert!(v.device_check(String::from("beta")));
    // The old name is gone: polling the new default again is quiet.
    assert!(!v.device_check(String::from("beta")));
    // ... and the old device coming back counts as a change again.
    assert!(v.device_check(String::from("alpha")));
}

#[test]
fn device_swap_reuses_analyzer_state() {
    let chunk: Vec<i64> = vec![1000, -1000, 1000, -1000];
    let mut swapped = Viravis::new(4, AnalyzerMode::Rolling, None, String::from("alpha"));
    let mut steady = Viravis::new(4, AnalyzerMode::Rolling, None, String::from("alpha"));
    let f1 = swapped.analyze(&chunk);
    let g1 = steady.analyze(&chunk);
    assert_eq!(f1, g1);
    // A hot swap between two poll iterations keeps the analyzer history:
    // the next frame equals the frame of an orchestrator that never swapped.
    assert!(swapped.device_check(String::from("beta")));
    let f2 = swapped.analyze(&chunk);
    let g2 = steady.analyze(&chunk);
    assert_eq!(f2, g2);
    // Each frame is published exactly once across the swap boundary.
    assert!(swapped.update(f1.clone()));
    assert!(swapped.update(f2.clone()));
    assert_eq!(swapped.latest_frame(), f2);
}

#[test]
fn update_publishes_whole_valid_frames_only() {
    let mut v = Viravis::new(4, AnalyzerMode::Rolling, None, String::from("alpha"));
    assert!(v.update(vec![1, 2, 3, 4]));
    assert_eq!(v.latest_frame(), vec![1, 2, 3, 4]);
    // Wrong length: rejected, snapshot stands.
    assert!(!v.update(vec![9, 9]));
    assert_eq!(v.latest_frame(), vec![1, 2, 3, 4]);
    // A corrupted slot (out of the finite model range): rejected whole.
    assert!(!v.update(vec![5, -1, 5, 5]));
    assert!(!v.update(vec![5, 1_000_000_000_001, 5, 5]));
    assert_eq!(v.latest_frame(), vec![1, 2, 3, 4]);
}

#[test]
fn frame_validity_bounds() {
    assert!(is_valid_frame(&vec![0, 1_000_000_000_000]));
    assert!(!is_valid_frame(&vec![-1]));
    assert!(!is_valid_frame(&vec![1_000_000_000_001]));
    assert!(is_valid_frame(&Vec::new()));
}

#[test]
fn consumers_dispatch_in_registration_order() {
    let mut v = Viravis::new(4, AnalyzerMode::Rolling, None, String::from("alpha"));
    v.add_callback(7);
    v.add_callback(3);
    v.add_callback(9);
    assert_eq!(v.dispatch_order().clone(), vec![7, 3, 9]);
}

#[test]
fn failing_consumer_does_not_stop_later_ones() {
    let mut v = Viravis::new(4, AnalyzerMode::Rolling, None, String::from("alpha"));
    v.add_callback(0);
    v.add_callback(1);
    assert!(v.update(vec![10, 20, 30, 40]));
    let frame = v.latest_frame();
    // Dispatch as the distribution loop does: every registered consumer is
    // offered the frame, and one consumer's failure never hides the frame
    // from the consumers after it.
    let mut delivered: Vec<(u64, Vec<i64>)> = Vec::new();
    let mut failures: usize = 0;
    for &id in v.dispatch_order().iter() {
        let result: Result<(), String> = if id == 0 {
            Err(String::from("sink closed"))
        } else {
            delivered.push((id, frame.clone()));
            Ok(())
        };
        if result.is_err() {
            failures += 1;
        }
    }
    assert_eq!(failures, 1);
    assert_eq!(delivered, vec![(1, vec![10, 20, 30, 40])]);
}

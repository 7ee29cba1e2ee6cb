use audiostream::{LivePlayback, Pulled};

#[test]
fn declares_fixed_stereo_layout() {
    let engine = LivePlayback::new(44100, 50);
    assert_eq!(engine.channels(), 2);
    assert_eq!(engine.sample_rate(), 44100);
}

#[test]
fn drains_queued_samples_in_order() {
    let mut engine = LivePlayback::new(44100, 0);
    engine.push_batch(&vec![1, 2, 3]);
    assert_eq!(engine.pull(), Pulled::Sample(1));
    assert_eq!(engine.pull(), Pulled::Sample(2));
    assert_eq!(engine.pull(), Pulled::Sample(3));
    assert_eq!(engine.pull(), Pulled::Silence);
}

#[test]
fn underrun_starts_a_full_backoff_window() {
    // jitter_backoff_samples = 50 * 44100 / 1000 = 2205. An underrun pull
    // followed immediately by the arrival of 10000 samples yields exactly
    // 2205 further silent pulls before any of the 10000 samples plays.
    let mut engine = LivePlayback::new(44100, 50);

    assert_eq!(engine.pull(), Pulled::Silence);

    let batch: Vec<i16> = (0..10000).map(|i| (i % 3000) as i16).collect();
    engine.push_batch(&batch);

    for _ in 0..2205 {
        assert_eq!(engine.pull(), Pulled::Silence);
    }
    assert_eq!(engine.pull(), Pulled::Sample(0));
    assert_eq!(engine.pull(), Pulled::Sample(1));
}

#[test]
fn arrivals_during_backoff_are_buffered_not_played_early() {
    // 1 ms at 2000 Hz: a two-sample backoff window.
    let mut engine = LivePlayback::new(2000, 1);

    assert_eq!(engine.pull(), Pulled::Silence); // underrun: window starts
    engine.push_batch(&vec![10]);
    assert_eq!(engine.pull(), Pulled::Silence); // window: 1 of 2
    engine.push_batch(&vec![20, 30]);
    assert_eq!(engine.pull(), Pulled::Silence); // window: 2 of 2
    assert_eq!(engine.pull(), Pulled::Sample(10));
    assert_eq!(engine.pull(), Pulled::Sample(20));
    assert_eq!(engine.pull(), Pulled::Sample(30));
    assert_eq!(engine.pull(), Pulled::Silence); // next underrun
}

#[test]
fn zero_backoff_recovers_immediately() {
    let mut engine = LivePlayback::new(44100, 0);
    assert_eq!(engine.pull(), Pulled::Silence);
    engine.push_batch(&vec![5]);
    assert_eq!(engine.pull(), Pulled::Sample(5));
}

use robber::progress::ProgressTracker;

fn run_phase(total: u32, lo: u32, hi: u32) -> Vec<u32> {
    let mut t = ProgressTracker::new(total, lo, hi);
    let mut emitted: Vec<u32> = Vec::new();
    for _ in 0..total {
        if let Some(p) = t.advance() {
            emitted.push(p);
        }
    }
    if let Some(p) = t.finish() {
        emitted.push(p);
    }
    emitted
}

#[test]
fn progress_full_range_small_total() {
    let emitted = run_phase(3, 0, 100);
    assert_eq!(emitted, vec![33, 66, 100]);
}

#[test]
fn progress_monotonic_no_duplicates_ends_at_hundred() {
    for total in 1..60u32 {
        let emitted = run_phase(total, 0, 100);
        assert_eq!(*emitted.last().unwrap(), 100);
        for w in emitted.windows(2) {
            assert!(w[0] < w[1]);
        }
    }
}

#[test]
fn progress_total_larger_than_hundred_dedups() {
    let emitted = run_phase(250, 0, 100);
    // Every percentage from 1 to 100 appears exactly once.
    assert_eq!(emitted, (1..=100).collect::<Vec<u32>>());
}

#[test]
fn progress_zero_total_clamps_and_finishes() {
    let mut t = ProgressTracker::new(0, 0, 100);
    assert_eq!(t.finish(), Some(100));
    assert_eq!(t.finish(), None);
}

#[test]
fn progress_phase_ranges_compose_monotonically() {
    // Copy phase owns 0..=30, replace phase 30..=100, as the pipeline maps
    // them; across the boundary the stream never regresses.
    let copy = run_phase(4, 0, 30);
    let replace = run_phase(5, 30, 100);
    assert_eq!(*copy.last().unwrap(), 30);
    assert_eq!(*replace.last().unwrap(), 100);
    let mut whole = copy.clone();
    // The replace tracker starts at 30, already emitted by the copy phase,
    // so its first emission is strictly above 30.
    whole.extend(replace.iter().copied());
    for w in whole.windows(2) {
        assert!(w[0] < w[1]);
    }
}

#[test]
fn progress_finish_after_all_signals_is_silent() {
    let mut t = ProgressTracker::new(2, 0, 100);
    assert_eq!(t.advance(), Some(50));
    assert_eq!(t.advance(), Some(100));
    assert_eq!(t.finish(), None);
}

#[test]
fn progress_no_emission_without_change() {
    let mut t = ProgressTracker::new(200, 0, 100);
    // With 200 units each percent spans two signals: every second advance
    // is silent.
    assert_eq!(t.advance(), None);
    assert_eq!(t.advance(), Some(1));
    assert_eq!(t.advance(), None);
    assert_eq!(t.advance(), Some(2));
}

use albumprep::error::Error;
use albumprep::loudness::{
    gated_mean, reduce_stereo, Loudness, LoudnessAnalyzer, ABSOLUTE_GATE_POWER,
};

#[test]
fn all_windows_below_gate_yield_floor() {
    // A timeline consisting entirely of windows below the -70 LKFS power
    // gate yields exactly the floor value: zero power, zero windows.
    let windows: Vec<u64> = vec![0, 1, 100, ABSOLUTE_GATE_POWER - 1];
    let l = gated_mean(&windows);
    assert_eq!(
        l,
        Loudness {
            power_sum: 0,
            window_count: 0
        }
    );
}

#[test]
fn empty_timeline_yields_floor() {
    let windows: Vec<u64> = Vec::new();
    let l = gated_mean(&windows);
    assert_eq!(l.power_sum, 0);
    assert_eq!(l.window_count, 0);
}

#[test]
fn gated_mean_takes_all_loud_windows() {
    let windows: Vec<u64> = vec![200_000, 400_000];
    let l = gated_mean(&windows);
    assert_eq!(l.power_sum, 600_000);
    assert_eq!(l.window_count, 2);
}

#[test]
fn relative_gate_excludes_quiet_windows() {
    // 200_000 passes the absolute gate but sits more than ten decibels below
    // the absolute-gated mean, so the relative gate excludes it.
    let windows: Vec<u64> = vec![1_000_000_000, 200_000];
    let l = gated_mean(&windows);
    assert_eq!(l.power_sum, 1_000_000_000);
    assert_eq!(l.window_count, 1);
}

#[test]
fn absolute_gate_boundary_is_inclusive() {
    let windows: Vec<u64> = vec![ABSOLUTE_GATE_POWER];
    let l = gated_mean(&windows);
    assert_eq!(l.power_sum, ABSOLUTE_GATE_POWER as u128);
    assert_eq!(l.window_count, 1);
}

#[test]
fn reduction_averages_channels() {
    let left: Vec<u64> = vec![10, 20, 31];
    let right: Vec<u64> = vec![30, 20, 0];
    assert_eq!(reduce_stereo(&left, &right), vec![20, 20, 15]);
}

#[test]
fn reduction_symmetry_on_identical_channels() {
    // Reducing two identical channel timelines yields the same gated mean as
    // measuring either channel alone.
    let t: Vec<u64> = vec![500_000, 100, 300_000, 1_000_000_000];
    let reduced = reduce_stereo(&t, &t);
    assert_eq!(reduced, t);
    assert_eq!(gated_mean(&reduced), gated_mean(&t));
}

#[test]
fn analyzer_accumulates_album_timeline() {
    let mut analyzer = LoudnessAnalyzer::new();
    let quiet: Vec<Vec<u64>> = vec![vec![100, 100], vec![100, 100]];
    let loud: Vec<Vec<u64>> = vec![vec![400_000, 600_000], vec![400_000, 600_000]];

    let l1 = analyzer.calculate_track_loudness(&quiet).unwrap();
    assert_eq!(l1.window_count, 0);

    let l2 = analyzer.calculate_track_loudness(&loud).unwrap();
    assert_eq!(l2.power_sum, 1_000_000);
    assert_eq!(l2.window_count, 2);

    // The album figure is taken over both tracks' combined windows.
    let album = analyzer.calculate_album_loudness();
    assert_eq!(album.power_sum, 1_000_000);
    assert_eq!(album.window_count, 2);

    // The album figure is idempotent.
    assert_eq!(analyzer.calculate_album_loudness(), album);

    analyzer.reset();
    let empty = analyzer.calculate_album_loudness();
    assert_eq!(empty.window_count, 0);
}

#[test]
fn non_stereo_input_is_rejected() {
    let mut analyzer = LoudnessAnalyzer::new();
    let mono: Vec<Vec<u64>> = vec![vec![100]];
    assert!(matches!(
        analyzer.calculate_track_loudness(&mono),
        Err(Error::UnsupportedChannelLayout { channels: 1 })
    ));
    let surround: Vec<Vec<u64>> = vec![vec![1], vec![1], vec![1], vec![1], vec![1], vec![1]];
    assert!(matches!(
        analyzer.calculate_track_loudness(&surround),
        Err(Error::UnsupportedChannelLayout { channels: 6 })
    ));
}

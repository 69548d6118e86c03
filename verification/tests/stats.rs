use godl_crank::stats::{percent_text, ResetStats};

#[test]
fn new_stats_are_empty() {
    assert_eq!(ResetStats::new().snapshot(), (0, 0, 0));
    assert_eq!(ResetStats::default().snapshot(), (0, 0, 0));
}

#[test]
fn each_record_counts_on_its_own() {
    let mut stats = ResetStats::new();
    stats.record_win();
    stats.record_win();
    stats.record_loss();
    stats.record_failure();
    stats.record_failure();
    stats.record_failure();
    assert_eq!(stats.snapshot(), (2, 1, 3));
}

#[test]
fn failure_leaves_the_land_rate() {
    let mut stats = ResetStats::new();
    stats.record_win();
    stats.record_loss();
    assert_eq!(
        stats.summary(),
        "won=1 lost=1 failed=0 | attempted=2, win-rate 50.0%, land-rate 50.0%"
    );
    stats.record_failure();
    assert_eq!(
        stats.summary(),
        "won=1 lost=1 failed=1 | attempted=3, win-rate 33.3%, land-rate 50.0%"
    );
}

#[test]
fn summary_reads_as_documented() {
    let mut stats = ResetStats::new();
    for _ in 0..12 {
        stats.record_win();
    }
    for _ in 0..3 {
        stats.record_loss();
    }
    stats.record_failure();
    assert_eq!(
        stats.summary(),
        "won=12 lost=3 failed=1 | attempted=16, win-rate 75.0%, land-rate 80.0%"
    );
}

#[test]
fn summary_of_nothing() {
    assert_eq!(
        ResetStats::new().summary(),
        "won=0 lost=0 failed=0 | attempted=0, win-rate 0.0%, land-rate 0.0%"
    );
    let mut stats = ResetStats::new();
    stats.record_failure();
    assert_eq!(
        stats.summary(),
        "won=0 lost=0 failed=1 | attempted=1, win-rate 0.0%, land-rate 0.0%"
    );
}

/// The percentage in double precision.
fn in_doubles(part: u64, whole: u64) -> String {
    format!("{:.1}", part as f64 * 100.0 / whole as f64)
}

#[test]
fn percentages_read_as_doubles_do() {
    for whole in 1..700 {
        for part in 0..=whole {
            assert_eq!(percent_text(part, whole), in_doubles(part, whole), "{part}/{whole}");
        }
    }
}

#[test]
fn every_halfway_percentage_reads_as_its_double_does() {
    for part in 0..=2_000 {
        assert_eq!(percent_text(part, 2_000), in_doubles(part, 2_000), "{part}");
    }
    for part in 0..=16_000 {
        assert_eq!(percent_text(part, 16_000), in_doubles(part, 16_000), "{part}");
    }
}

#[test]
fn large_percentages_read_as_doubles_do() {
    let mut number = 1u64;
    for _ in 0..20_000 {
        number = number.wrapping_mul(6_364_136_223_846_793_005).wrapping_add(1);
        let whole = (number >> 22) + 1;
        let part = (number.rotate_left(32) >> 22) % (whole + 1);
        assert_eq!(percent_text(part, whole), in_doubles(part, whole), "{part}/{whole}");
    }
    assert_eq!(percent_text(0, 0), "0.0");
    assert_eq!(percent_text(u64::MAX, u64::MAX), "100.0");
}

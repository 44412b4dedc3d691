use kakashi::frecency::{FrecencyScorer, LaunchEvent, Timestamp};

const HOUR: u64 = 3600;

fn at(secs: u64) -> Timestamp {
    Timestamp { before_epoch: false, secs, nanos: 0 }
}

fn launch_ago(now: u64, ago_secs: u64) -> LaunchEvent {
    LaunchEvent { timestamp: at(now - ago_secs) }
}

#[test]
fn time_weight_buckets() {
    assert_eq!(FrecencyScorer::time_weight(0), 100);
    assert_eq!(FrecencyScorer::time_weight(4 * HOUR - 1), 100);
    assert_eq!(FrecencyScorer::time_weight(4 * HOUR), 70);
    assert_eq!(FrecencyScorer::time_weight(24 * HOUR - 1), 70);
    assert_eq!(FrecencyScorer::time_weight(24 * HOUR), 50);
    assert_eq!(FrecencyScorer::time_weight(72 * HOUR), 30);
    assert_eq!(FrecencyScorer::time_weight(168 * HOUR - 1), 30);
    assert_eq!(FrecencyScorer::time_weight(168 * HOUR), 10);
    assert_eq!(FrecencyScorer::time_weight(720 * HOUR - 1), 10);
    assert_eq!(FrecencyScorer::time_weight(720 * HOUR), 5);
    assert_eq!(FrecencyScorer::time_weight(u64::MAX), 5);
}

#[test]
fn time_weight_decreases_with_age() {
    let mut previous = FrecencyScorer::time_weight(0);
    let mut secs = 0;
    while secs < 800 * HOUR {
        let w = FrecencyScorer::time_weight(secs);
        assert!(w <= previous);
        previous = w;
        secs += 600;
    }
}

#[test]
fn empty_history_scores_zero() {
    assert_eq!(FrecencyScorer::score_launches(&vec![], &at(1_000_000)), 0);
}

#[test]
fn score_sums_bucket_weights() {
    let now = 100 * 24 * HOUR;
    let launches = vec![
        launch_ago(now, HOUR),
        launch_ago(now, 5 * HOUR),
        launch_ago(now, 2 * 24 * HOUR),
        launch_ago(now, 5 * 24 * HOUR),
        launch_ago(now, 10 * 24 * HOUR),
        launch_ago(now, 40 * 24 * HOUR),
    ];
    assert_eq!(FrecencyScorer::score_launches(&launches, &at(now)), 100 + 70 + 50 + 30 + 10 + 5);
}

#[test]
fn future_launches_are_skipped() {
    let now = 10 * HOUR;
    let launches = vec![
        LaunchEvent { timestamp: at(now + 1) },
        launch_ago(now, 0),
        LaunchEvent { timestamp: Timestamp { before_epoch: false, secs: now, nanos: 1 } },
    ];
    assert_eq!(FrecencyScorer::score_launches(&launches, &at(now)), 100);
}

#[test]
fn sub_second_parts_count() {
    // 4 hours minus one nanosecond ago is still within the last 4 hours.
    let now = Timestamp { before_epoch: false, secs: 4 * HOUR, nanos: 0 };
    let then = Timestamp { before_epoch: false, secs: 0, nanos: 1 };
    assert_eq!(FrecencyScorer::score_launches(&vec![LaunchEvent { timestamp: then }], &now), 100);
    let then = Timestamp { before_epoch: false, secs: 0, nanos: 0 };
    assert_eq!(FrecencyScorer::score_launches(&vec![LaunchEvent { timestamp: then }], &now), 70);
}

#[test]
fn launches_before_the_epoch() {
    let now = Timestamp { before_epoch: false, secs: HOUR, nanos: 0 };
    let then = Timestamp { before_epoch: true, secs: 2 * HOUR, nanos: 500 };
    assert_eq!(FrecencyScorer::score_launches(&vec![LaunchEvent { timestamp: then }], &now), 100);
    let then = Timestamp { before_epoch: true, secs: 3 * HOUR, nanos: 0 };
    assert_eq!(FrecencyScorer::score_launches(&vec![LaunchEvent { timestamp: then }], &now), 70);
}

#[test]
fn score_is_additive() {
    let now = 50 * 24 * HOUR;
    let first = vec![launch_ago(now, HOUR), launch_ago(now, 30 * HOUR)];
    let second = vec![launch_ago(now, 9 * 24 * HOUR), launch_ago(now, 45 * 24 * HOUR)];
    let mut both = first.clone();
    both.extend(second.iter().copied());
    let t = at(now);
    assert_eq!(
        FrecencyScorer::score_launches(&both, &t),
        FrecencyScorer::score_launches(&first, &t) + FrecencyScorer::score_launches(&second, &t)
    );
}

#[test]
fn score_decays_over_time() {
    let start = 10 * 24 * HOUR;
    let launches = vec![launch_ago(start, 0), launch_ago(start, 3 * HOUR), launch_ago(start, 2 * 24 * HOUR)];
    let mut previous = FrecencyScorer::score_launches(&launches, &at(start));
    assert_eq!(previous, 100 + 100 + 50);
    let mut now = start;
    while now < start + 60 * 24 * HOUR {
        now += 3 * HOUR;
        let score = FrecencyScorer::score_launches(&launches, &at(now));
        assert!(score <= previous);
        previous = score;
    }
    assert_eq!(previous, 15);
}

#[test]
fn score_ignores_order_and_is_a_multiple_of_five() {
    let now = 60 * 24 * HOUR;
    let launches = vec![
        launch_ago(now, 2 * HOUR),
        launch_ago(now, 50 * 24 * HOUR),
        LaunchEvent { timestamp: at(now + 10) },
        launch_ago(now, 30 * HOUR),
        launch_ago(now, 8 * 24 * HOUR),
    ];
    let mut reversed = launches.clone();
    reversed.reverse();
    let mut rotated = launches.clone();
    rotated.rotate_left(2);
    let t = at(now);
    let score = FrecencyScorer::score_launches(&launches, &t);
    assert_eq!(score, 100 + 5 + 0 + 50 + 10);
    assert_eq!(FrecencyScorer::score_launches(&reversed, &t), score);
    assert_eq!(FrecencyScorer::score_launches(&rotated, &t), score);
    assert_eq!(score % 5, 0);
}

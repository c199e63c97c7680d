use recommender::{recently_viewed_reason, days_since, recency_days, recency_days_now, MS_PER_DAY, RECENT_DAYS};

#[test]
fn days_are_rounded_down() {
    assert_eq!(days_since(3 * MS_PER_DAY + 5, 0), 3);
    assert_eq!(days_since(3 * MS_PER_DAY - 1, 0), 2);
    assert_eq!(days_since(0, 0), 0);
    assert_eq!(days_since(0, 1), -1);
    assert_eq!(days_since(0, MS_PER_DAY), -1);
    assert_eq!(days_since(0, MS_PER_DAY + 1), -2);
}

#[test]
fn days_at_the_extremes() {
    assert_eq!(days_since(i64::MAX, i64::MIN), (u64::MAX / MS_PER_DAY as u64) as i64);
    assert_eq!(days_since(i64::MIN, i64::MAX), -((u64::MAX / MS_PER_DAY as u64) as i64) - 1);
}

#[test]
fn recency_counts_only_recent_views() {
    let now = 100 * MS_PER_DAY;
    assert_eq!(recency_days(now, Some(now - 3 * MS_PER_DAY)), Some(3));
    assert_eq!(recency_days(now, Some(now - 6 * MS_PER_DAY - 1)), Some(6));
    assert_eq!(recency_days(now, Some(now - RECENT_DAYS * MS_PER_DAY)), None);
    assert_eq!(recency_days(now, Some(now - 10 * MS_PER_DAY)), None);
    assert_eq!(recency_days(now, None), None);
}

#[test]
fn recency_scenario_three_days_ago() {
    let now = chrono::Utc::now().timestamp_millis();
    let days = recency_days_now(Some(now - 3 * MS_PER_DAY)).unwrap();
    assert_eq!(days, 3);
    let term = 0.15 * (1.0 - days as f64 / 7.0);
    assert!((term - 0.0857).abs() < 1e-4);
    assert_eq!(recently_viewed_reason(days), "Recently viewed: 3 days ago");
}

#[test]
fn recency_now_without_view_or_old_view() {
    assert_eq!(recency_days_now(None), None);
    let now = chrono::Utc::now().timestamp_millis();
    assert_eq!(recency_days_now(Some(now - 10 * MS_PER_DAY)), None);
}

use recommender::{recently_viewed_reason, shared_tags_reason};

#[test]
fn shared_tags_reason_writes_the_count() {
    assert_eq!(shared_tags_reason(1), "Shared tags: 1");
    assert_eq!(shared_tags_reason(10), "Shared tags: 10");
    assert_eq!(shared_tags_reason(907), "Shared tags: 907");
    assert_eq!(shared_tags_reason(usize::MAX), format!("Shared tags: {}", usize::MAX));
}

#[test]
fn recently_viewed_reason_writes_the_days() {
    assert_eq!(recently_viewed_reason(0), "Recently viewed: 0 days ago");
    assert_eq!(recently_viewed_reason(6), "Recently viewed: 6 days ago");
    assert_eq!(recently_viewed_reason(-2), "Recently viewed: -2 days ago");
    assert_eq!(recently_viewed_reason(i64::MIN), format!("Recently viewed: {} days ago", i64::MIN));
}

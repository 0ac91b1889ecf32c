use tweet_store::{
    delete_old_tweets, delete_tweets_by_topic, insert_tweet, on_tick, retention_cutoff,
    CleanupTimer, GeoPoint, RetentionSchedule, TimeDuration, Timestamp, Tweet, TweetStore,
    CLEANUP_INTERVAL_MICROS, RETENTION_WINDOW_MICROS,
};

const HOUR: i64 = 3_600_000_000;
const T0: i64 = 1_700_000_000_000_000;

fn point() -> GeoPoint {
    GeoPoint { lat_bits: 52.5f64.to_bits(), lon_bits: 13.4f64.to_bits() }
}

fn at(micros: i64) -> Timestamp {
    Timestamp::from_micros_since_unix_epoch(micros)
}

fn add(store: &mut TweetStore, tweet_id: &str, created: i64, topic: Option<&str>) {
    let r = insert_tweet(
        store,
        tweet_id.to_string(),
        format!("content of {}", tweet_id),
        "alice".to_string(),
        point(),
        at(created),
        topic.map(|t| t.to_string()),
    );
    assert_eq!(r, Ok(()));
}

fn tweet_ids(store: &TweetStore) -> Vec<String> {
    let mut v: Vec<String> = store.rows().iter().map(|t| t.tweet_id.clone()).collect();
    v.sort();
    v
}

fn row_ids(store: &TweetStore) -> Vec<u64> {
    store.rows().iter().map(|t| t.row_id).collect()
}

#[test]
fn insert_assigns_increasing_row_ids_from_one() {
    let mut s = TweetStore::new();
    add(&mut s, "x", T0, None);
    add(&mut s, "y", T0, Some("a"));
    add(&mut s, "z", T0, Some("b"));
    assert_eq!(row_ids(&s), vec![1, 2, 3]);
    assert_eq!(s.len(), 3);
    assert_eq!(s.peek_next_id(), 4);
}

#[test]
fn insert_ignores_caller_row_id_and_keeps_fields() {
    let mut s = TweetStore::new();
    let t = Tweet {
        row_id: 99,
        tweet_id: "t1".to_string(),
        content: "hello".to_string(),
        username: "bob".to_string(),
        location: point(),
        created_at: at(T0),
        topic: Some("news".to_string()),
    };
    assert_eq!(s.insert(t), 1);
    let r = &s.rows()[0];
    assert_eq!(r.row_id, 1);
    assert_eq!(r.tweet_id, "t1");
    assert_eq!(r.content, "hello");
    assert_eq!(r.username, "bob");
    assert_eq!(f64::from_bits(r.location.lat_bits), 52.5);
    assert_eq!(f64::from_bits(r.location.lon_bits), 13.4);
    assert_eq!(r.created_at, at(T0));
    assert_eq!(r.topic, Some("news".to_string()));
}

#[test]
fn duplicate_tweet_ids_are_stored_separately() {
    let mut s = TweetStore::new();
    add(&mut s, "same", T0, None);
    add(&mut s, "same", T0, None);
    assert_eq!(s.len(), 2);
    assert_eq!(row_ids(&s), vec![1, 2]);
}

#[test]
fn retention_deletes_rows_older_than_the_window() {
    let mut s = TweetStore::new();
    add(&mut s, "t0", T0, None);
    add(&mut s, "t0+1h", T0 + HOUR, None);
    add(&mut s, "t0+25h", T0 + 25 * HOUR, None);
    let now = at(T0 + 25 * HOUR + 1_000_000);
    assert_eq!(delete_old_tweets(&mut s, now), Ok(()));
    assert_eq!(tweet_ids(&s), vec!["t0+25h".to_string()]);
}

#[test]
fn retention_by_age_relative_to_now() {
    let now = T0 + 100 * HOUR;
    let mut s = TweetStore::new();
    add(&mut s, "age0", now, None);
    add(&mut s, "age23", now - 23 * HOUR, None);
    add(&mut s, "age25", now - 25 * HOUR, None);
    assert_eq!(delete_old_tweets(&mut s, at(now)), Ok(()));
    assert_eq!(tweet_ids(&s), vec!["age0".to_string(), "age23".to_string()]);
}

#[test]
fn retention_keeps_row_exactly_at_the_cutoff() {
    let now = T0 + 48 * HOUR;
    let mut s = TweetStore::new();
    add(&mut s, "edge", now - RETENTION_WINDOW_MICROS, None);
    add(&mut s, "older", now - RETENTION_WINDOW_MICROS - 1, None);
    delete_old_tweets(&mut s, at(now)).unwrap();
    assert_eq!(tweet_ids(&s), vec!["edge".to_string()]);
}

#[test]
fn retention_on_empty_store_is_ok() {
    let mut s = TweetStore::new();
    assert_eq!(delete_old_tweets(&mut s, at(T0)), Ok(()));
    assert_eq!(s.len(), 0);
}

#[test]
fn retention_at_earliest_instant_deletes_nothing() {
    let mut s = TweetStore::new();
    add(&mut s, "first", i64::MIN, None);
    assert_eq!(retention_cutoff(at(i64::MIN)), None);
    delete_old_tweets(&mut s, at(i64::MIN)).unwrap();
    assert_eq!(s.len(), 1);
}

#[test]
fn retention_cutoff_is_one_day_before_now() {
    assert_eq!(retention_cutoff(at(T0)), Some(at(T0 - 86_400_000_000)));
}

#[test]
fn topic_deletion_removes_exactly_matching_rows() {
    let mut s = TweetStore::new();
    add(&mut s, "1", T0, Some("a"));
    add(&mut s, "2", T0, Some("b"));
    add(&mut s, "3", T0, Some("a"));
    assert_eq!(delete_tweets_by_topic(&mut s, "a".to_string()), Ok(()));
    assert_eq!(tweet_ids(&s), vec!["2".to_string()]);
    assert_eq!(s.scan_by_topic(&Some("b".to_string())), vec![2]);
    assert!(s.scan_by_topic(&Some("a".to_string())).is_empty());
}

#[test]
fn absent_topic_is_not_the_empty_string() {
    let mut s = TweetStore::new();
    add(&mut s, "none", T0, None);
    add(&mut s, "empty", T0, Some(""));
    assert_eq!(s.scan_by_topic(&None), vec![1]);
    assert_eq!(s.scan_by_topic(&Some(String::new())), vec![2]);
    delete_tweets_by_topic(&mut s, String::new()).unwrap();
    assert_eq!(tweet_ids(&s), vec!["none".to_string()]);
}

#[test]
fn topic_deletion_without_match_changes_nothing() {
    let mut s = TweetStore::new();
    add(&mut s, "1", T0, Some("a"));
    delete_tweets_by_topic(&mut s, "zzz".to_string()).unwrap();
    assert_eq!(s.len(), 1);
}

#[test]
fn time_scan_lists_rows_created_before_cutoff() {
    let mut s = TweetStore::new();
    add(&mut s, "late", T0 + 5, None);
    add(&mut s, "early", T0 + 1, None);
    add(&mut s, "mid", T0 + 3, None);
    let mut ids = s.scan_by_time_before(at(T0 + 4));
    ids.sort();
    assert_eq!(ids, vec![2, 3]);
    assert!(s.scan_by_time_before(at(T0 + 1)).is_empty());
}

#[test]
fn bulk_delete_spares_rows_inserted_after_the_snapshot() {
    let mut s = TweetStore::new();
    add(&mut s, "old", T0, None);
    add(&mut s, "new", T0 + 30 * HOUR, None);
    let now = at(T0 + 30 * HOUR);
    let cutoff = retention_cutoff(now).unwrap();
    let snapshot = s.scan_by_time_before(cutoff);
    assert_eq!(snapshot, vec![1]);
    add(&mut s, "old-but-late", T0, None);
    s.delete_rows(&snapshot);
    assert_eq!(tweet_ids(&s), vec!["new".to_string(), "old-but-late".to_string()]);
    delete_old_tweets(&mut s, now).unwrap();
    assert_eq!(tweet_ids(&s), vec!["new".to_string()]);
}

#[test]
fn deleting_twice_is_a_silent_no_op() {
    let mut s = TweetStore::new();
    add(&mut s, "1", T0, Some("a"));
    add(&mut s, "2", T0, Some("b"));
    assert!(s.delete(1));
    assert!(!s.delete(1));
    assert_eq!(tweet_ids(&s), vec!["2".to_string()]);
    assert!(s.contains_row(2));
    assert!(!s.contains_row(1));
    assert_eq!(s.scan_by_topic(&Some("b".to_string())), vec![2]);
}

#[test]
fn deleted_row_ids_are_not_reused() {
    let mut s = TweetStore::new();
    add(&mut s, "1", T0, None);
    assert!(s.delete(1));
    add(&mut s, "2", T0, None);
    assert_eq!(row_ids(&s), vec![2]);
}

#[test]
fn indices_follow_inserts_and_deletes() {
    let mut s = TweetStore::new();
    for i in 0..10i64 {
        let topic = if i % 3 == 0 { None } else if i % 3 == 1 { Some("x") } else { Some("y") };
        add(&mut s, &format!("{}", i), T0 + (10 - i) * HOUR, topic);
    }
    assert!(s.delete(4));
    assert!(s.delete(7));
    let mut before = s.scan_by_time_before(at(T0 + 100 * HOUR));
    before.sort();
    assert_eq!(before, vec![1, 2, 3, 5, 6, 8, 9, 10]);
    let mut xs = s.scan_by_topic(&Some("x".to_string()));
    xs.sort();
    assert_eq!(xs, vec![2, 5, 8]);
    let mut none = s.scan_by_topic(&None);
    none.sort();
    assert_eq!(none, vec![1, 10]);
}

#[test]
fn bootstrap_arms_one_ten_minute_timer() {
    let mut sched = RetentionSchedule::new();
    assert_eq!(sched.timer, None);
    assert_eq!(sched.init(at(T0)), Ok(()));
    let armed = sched;
    assert_eq!(
        armed.timer,
        Some(CleanupTimer {
            scheduled_id: 1,
            scheduled_at: TimeDuration::from_micros(600_000_000),
        })
    );
    assert_eq!(armed.next_due, at(T0 + CLEANUP_INTERVAL_MICROS));
    assert_eq!(sched.init(at(T0 + 5)), Ok(()));
    assert_eq!(sched, armed);
}

#[test]
fn schedule_fires_once_per_interval() {
    let mut sched = RetentionSchedule::new();
    let mut s = TweetStore::new();
    sched.init(at(T0)).unwrap();
    let n: i64 = 7;
    let mut fired = 0;
    for k in 1..=n {
        assert!(!on_tick(&mut sched, &mut s, at(T0 + k * CLEANUP_INTERVAL_MICROS - 1)));
        if on_tick(&mut sched, &mut s, at(T0 + k * CLEANUP_INTERVAL_MICROS)) {
            fired += 1;
        }
    }
    assert_eq!(fired, n);
}

#[test]
fn unarmed_schedule_never_fires() {
    let mut sched = RetentionSchedule::new();
    let mut s = TweetStore::new();
    add(&mut s, "old", T0, None);
    assert!(!on_tick(&mut sched, &mut s, at(T0 + 100 * HOUR)));
    assert_eq!(s.len(), 1);
}

#[test]
fn firing_runs_the_sweep_at_the_firing_time() {
    let mut sched = RetentionSchedule::new();
    let mut s = TweetStore::new();
    sched.init(at(T0)).unwrap();
    add(&mut s, "old", T0 - 24 * HOUR, None);
    add(&mut s, "fresh", T0, None);
    assert!(on_tick(&mut sched, &mut s, at(T0 + CLEANUP_INTERVAL_MICROS)));
    assert_eq!(tweet_ids(&s), vec!["fresh".to_string()]);
}

#[test]
fn timestamp_arithmetic_checks_range() {
    let d = TimeDuration::from_micros(10);
    assert_eq!(at(5).checked_sub(d), Some(at(-5)));
    assert_eq!(at(i64::MIN).checked_sub(d), None);
    assert_eq!(at(i64::MAX).checked_add(d), None);
    assert_eq!(at(5).checked_add(d), Some(at(15)));
    assert!(at(1).is_before(at(2)));
    assert!(!at(2).is_before(at(2)));
    assert_eq!(d.to_micros(), 10);
    assert_eq!(at(7).to_micros_since_unix_epoch(), 7);
}

fn plain(row_id: u64, created: i64, topic: Option<&str>) -> Tweet {
    Tweet {
        row_id,
        tweet_id: format!("{}", row_id),
        content: String::new(),
        username: String::new(),
        location: point(),
        created_at: at(created),
        topic: topic.map(|t| t.to_string()),
    }
}

#[test]
fn expired_row_ids_selects_old_host_rows() {
    let now = T0 + 100 * HOUR;
    let rows = vec![
        plain(10, now - 25 * HOUR, None),
        plain(11, now, None),
        plain(12, now - 23 * HOUR, None),
        plain(13, now - 30 * HOUR, Some("a")),
    ];
    assert_eq!(tweet_store::expired_row_ids(&rows, at(now)), vec![10, 13]);
    assert!(tweet_store::expired_row_ids(&rows, at(i64::MIN)).is_empty());
}

#[test]
fn row_ids_with_topic_selects_matching_host_rows() {
    let rows = vec![plain(5, T0, Some("a")), plain(6, T0, Some("b")), plain(7, T0, Some("a")), plain(8, T0, None)];
    assert_eq!(tweet_store::row_ids_with_topic(&rows, &Some("a".to_string())), vec![5, 7]);
    assert_eq!(tweet_store::row_ids_with_topic(&rows, &None), vec![8]);
}

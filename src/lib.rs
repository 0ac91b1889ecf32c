//! An append/expire store of short-lived records, with a time index and a
//! topic index kept consistent with the rows, a fixed retention sweep and a
//! recurring cleanup schedule.

pub mod time;
pub mod tweet;
pub mod index;
pub mod store;
pub mod api;
pub mod scheduler;

pub use api::{
    delete_old_tweets, delete_tweets_by_topic, expired_row_ids, insert_tweet, row_ids_with_topic,
};
pub use scheduler::{on_tick, CleanupTimer, RetentionSchedule};
pub use store::TweetStore;
pub use time::{
    retention_cutoff, TimeDuration, Timestamp, CLEANUP_INTERVAL_MICROS, RETENTION_WINDOW_MICROS,
};
pub use tweet::{GeoPoint, Tweet};

//! The three mutations that producers and the retention sweep call.
use vstd::prelude::*;
use crate::store::{has_row, ids_created_before, ids_with_topic, without_ids, without_row, TweetStore};
use crate::time::{cutoff_of, is_expired_at, retention_cutoff, Timestamp};
use crate::tweet::{same_topic, topic_view, GeoPoint, Tweet};

verus! {

/// The rows of `s` that are not expired at `now`.
pub open spec fn unexpired(s: Set<Tweet>, now: Timestamp) -> Set<Tweet> {
    s.filter(|t: Tweet| !is_expired_at(t.created_at, now))
}

/// The rows of `s` whose topic is not `topic`.
pub open spec fn without_topic(s: Set<Tweet>, topic: Option<Seq<char>>) -> Set<Tweet> {
    s.filter(|t: Tweet| topic_view(t.topic) != topic)
}

/// Builds a record from its fields and inserts it under the next row
/// identifier. Fails, changing nothing, only when identifiers are exhausted.
pub fn insert_tweet(
    store: &mut TweetStore,
    tweet_id: String,
    content: String,
    username: String,
    location: GeoPoint,
    created_at: Timestamp,
    topic: Option<String>,
) -> (r: Result<(), String>)
    requires
        old(store).wf(),
    ensures
        final(store).wf(),
        r is Ok <==> old(store).next_id() < u64::MAX,
        r is Ok ==> final(store).next_id() == old(store).next_id() + 1,
        r is Ok ==> final(store).rows_view() == old(store).rows_view().insert(
            (Tweet {
                row_id: old(store).next_id(),
                tweet_id,
                content,
                username,
                location,
                created_at,
                topic,
            }),
        ),
        r is Err ==> *final(store) == *old(store),
{
    if store.peek_next_id() == u64::MAX {
        return Err("row identifiers are exhausted".to_owned());
    }
    let t = Tweet { row_id: 0, tweet_id, content, username, location, created_at, topic };
    store.insert(t);
    Ok(())
}

/// Deletes every row created more than the retention window before `now`,
/// from a snapshot of the time index taken before the first deletion. Always
/// succeeds.
pub fn delete_old_tweets(store: &mut TweetStore, now: Timestamp) -> (r: Result<(), String>)
    requires
        old(store).wf(),
    ensures
        final(store).wf(),
        r is Ok,
        final(store).next_id() == old(store).next_id(),
        final(store).rows_view() == unexpired(old(store).rows_view(), now),
{
    let ghost s = store.rows_view();
    proof {
        store.lemma_row_ids();
    }
    match retention_cutoff(now) {
        None => {
            assert(s =~= unexpired(s, now));
            Ok(())
        },
        Some(cutoff) => {
            let ids = store.scan_by_time_before(cutoff);
            store.delete_rows(&ids);
            proof {
                assert forall|t: Tweet| s.contains(t) implies (ids@.contains(t.row_id) <==> is_expired_at(t.created_at, now)) by {
                    if ids@.contains(t.row_id) {
                        assert(ids_created_before(s, cutoff.micros_since_epoch as int).contains(t.row_id));
                        let u = choose|u: Tweet| s.contains(u) && u.row_id == t.row_id && (u.created_at.micros_since_epoch as int) < cutoff.micros_since_epoch;
                        assert(u == t);
                    }
                    if is_expired_at(t.created_at, now) {
                        assert(ids_created_before(s, cutoff.micros_since_epoch as int).contains(t.row_id));
                    }
                }
                assert(without_ids(s, ids@) =~= unexpired(s, now));
            }
            Ok(())
        },
    }
}

/// Deletes every row whose topic is `topic`, from a snapshot of the topic
/// index taken before the first deletion; rows with another topic or none are
/// kept. Always succeeds.
pub fn delete_tweets_by_topic(store: &mut TweetStore, topic: String) -> (r: Result<(), String>)
    requires
        old(store).wf(),
    ensures
        final(store).wf(),
        r is Ok,
        final(store).next_id() == old(store).next_id(),
        final(store).rows_view() == without_topic(old(store).rows_view(), Some(topic@)),
{
    let ghost s = store.rows_view();
    proof {
        store.lemma_row_ids();
    }
    let wanted = Some(topic);
    let ids = store.scan_by_topic(&wanted);
    store.delete_rows(&ids);
    proof {
        assert forall|t: Tweet| s.contains(t) implies (ids@.contains(t.row_id) <==> topic_view(t.topic) == topic_view(wanted)) by {
            if ids@.contains(t.row_id) {
                assert(ids_with_topic(s, topic_view(wanted)).contains(t.row_id));
                let u = choose|u: Tweet| s.contains(u) && u.row_id == t.row_id && topic_view(u.topic) == topic_view(wanted);
                assert(u == t);
            }
            if topic_view(t.topic) == topic_view(wanted) {
                assert(ids_with_topic(s, topic_view(wanted)).contains(t.row_id));
            }
        }
        assert(without_ids(s, ids@) =~= without_topic(s, Some(topic@)));
    }
    Ok(())
}

/// Snapshot isolation of the bulk deletions: take the identifiers of the rows
/// created before `cutoff` from a well-formed store; a row inserted after that
/// snapshot (so under an identifier at least the store's next one at the time)
/// survives the deletion of the snapshot, however old its creation instant.
pub proof fn lemma_snapshot_spares_later_rows(
    store: TweetStore,
    cutoff: int,
    ids: Seq<u64>,
    later: Set<Tweet>,
    t: Tweet,
)
    requires
        store.wf(),
        forall|id: u64| ids.contains(id) <==> ids_created_before(store.rows_view(), cutoff).contains(id),
        later.contains(t),
        t.row_id >= store.next_id(),
    ensures
        without_ids(later, ids).contains(t),
{
    store.lemma_row_ids();
    if ids.contains(t.row_id) {
        assert(ids_created_before(store.rows_view(), cutoff).contains(t.row_id));
        let u = choose|u: Tweet| store.rows_view().contains(u) && u.row_id == t.row_id
            && (u.created_at.micros_since_epoch as int) < cutoff;
        assert(u.row_id < store.next_id());
    }
}

/// Deleting an identifier a second time finds no row and changes nothing:
/// the rows left are those the first deletion left, every row with another
/// identifier among them.
pub proof fn lemma_delete_twice(s: Set<Tweet>, id: u64)
    ensures
        !has_row(without_row(s, id), id),
        without_row(without_row(s, id), id) == without_row(s, id),
        forall|t: Tweet| s.contains(t) && t.row_id != id ==> #[trigger] without_row(s, id).contains(t),
{
    assert(without_row(without_row(s, id), id) =~= without_row(s, id));
}

/// Whether some row among the first `k` of `rows` has identifier `id` and is
/// expired at `now`.
pub open spec fn expired_among(rows: Seq<Tweet>, k: int, id: u64, now: Timestamp) -> bool {
    exists|i: int| 0 <= i < k && #[trigger] rows[i].row_id == id && is_expired_at(rows[i].created_at, now)
}

/// Whether some row among the first `k` of `rows` has identifier `id` and
/// topic `topic`.
pub open spec fn topic_among(rows: Seq<Tweet>, k: int, id: u64, topic: Option<Seq<char>>) -> bool {
    exists|i: int| 0 <= i < k && #[trigger] rows[i].row_id == id && topic_view(rows[i].topic) == topic
}

/// The identifiers of the rows among `rows` (as read from a host table) that
/// are expired at `now`, in the order the rows come.
pub fn expired_row_ids(rows: &Vec<Tweet>, now: Timestamp) -> (r: Vec<u64>)
    ensures
        forall|id: u64| r@.contains(id) <==> expired_among(rows@, rows@.len() as int, id, now),
{
    let cutoff = retention_cutoff(now);
    let mut r: Vec<u64> = Vec::new();
    let mut k: usize = 0;
    while k < rows.len()
        invariant
            k <= rows.len(),
            match cutoff {
                Some(c) => c.micros_since_epoch == cutoff_of(now),
                None => cutoff_of(now) < i64::MIN,
            },
            forall|id: u64| r@.contains(id) <==> expired_among(rows@, k as int, id, now),
        decreases rows.len() - k,
    {
        let expired = match cutoff {
            Some(c) => rows[k].created_at.is_before(c),
            None => false,
        };
        let ghost before = r@;
        if expired {
            r.push(rows[k].row_id);
        }
        proof {
            assert forall|id: u64| r@.contains(id) <==> expired_among(rows@, k + 1, id, now) by {
                if r@.contains(id) && !before.contains(id) {
                    assert(rows@[k as int].row_id == id);
                }
                if before.contains(id) {
                    let j = choose|j: int| 0 <= j < before.len() && before[j] == id;
                    assert(r@[j] == id);
                }
                if expired_among(rows@, k + 1, id, now) && !expired_among(rows@, k as int, id, now) {
                    assert(rows@[k as int].row_id == id);
                    assert(r@[before.len() as int] == id);
                }
            }
        }
        k = k + 1;
    }
    r
}

/// The identifiers of the rows among `rows` (as read from a host table) whose
/// topic is `topic`, in the order the rows come.
pub fn row_ids_with_topic(rows: &Vec<Tweet>, topic: &Option<String>) -> (r: Vec<u64>)
    ensures
        forall|id: u64| r@.contains(id) <==> topic_among(rows@, rows@.len() as int, id, topic_view(*topic)),
{
    let mut r: Vec<u64> = Vec::new();
    let mut k: usize = 0;
    while k < rows.len()
        invariant
            k <= rows.len(),
            forall|id: u64| r@.contains(id) <==> topic_among(rows@, k as int, id, topic_view(*topic)),
        decreases rows.len() - k,
    {
        let matched = same_topic(&rows[k].topic, topic);
        let ghost before = r@;
        if matched {
            r.push(rows[k].row_id);
        }
        proof {
            assert forall|id: u64| r@.contains(id) <==> topic_among(rows@, k + 1, id, topic_view(*topic)) by {
                if r@.contains(id) && !before.contains(id) {
                    assert(rows@[k as int].row_id == id);
                }
                if before.contains(id) {
                    let j = choose|j: int| 0 <= j < before.len() && before[j] == id;
                    assert(r@[j] == id);
                }
                if topic_among(rows@, k + 1, id, topic_view(*topic)) && !topic_among(rows@, k as int, id, topic_view(*topic)) {
                    assert(rows@[k as int].row_id == id);
                    assert(r@[before.len() as int] == id);
                }
            }
        }
        k = k + 1;
    }
    r
}

} // verus!

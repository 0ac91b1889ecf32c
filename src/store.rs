//! The record store: rows keyed by an increasing identifier, with a time index
//! ordered by creation instant and a topic index, both kept in agreement with
//! the rows by every mutation.
use vstd::prelude::*;
use crate::index::{
    index_matches, is_key_of_row, lemma_index_insert, lemma_index_remove, lemma_rows_push,
    lemma_rows_remove, lemma_sorted_insert, lemma_sorted_remove, rows_ordered, sorted_by_first,
    time_key, topic_key,
};
use crate::time::Timestamp;
use crate::tweet::{copy_topic, same_topic, topic_view, Tweet};

verus! {

/// The time key as a function value.
pub open spec fn time_key_fn() -> spec_fn(Tweet) -> (i64, u64) {
    |t: Tweet| time_key(t)
}

/// The topic key as a function value.
pub open spec fn topic_key_fn() -> spec_fn(Tweet) -> (Option<String>, u64) {
    |t: Tweet| topic_key(t)
}

/// `t` with its identifier replaced by `id`.
pub open spec fn with_row_id(t: Tweet, id: u64) -> Tweet {
    Tweet { row_id: id, ..t }
}

/// The rows of `s` but the one identified by `id`.
pub open spec fn without_row(s: Set<Tweet>, id: u64) -> Set<Tweet> {
    s.filter(|t: Tweet| t.row_id != id)
}

/// The rows of `s` whose identifier is not among `ids`.
pub open spec fn without_ids(s: Set<Tweet>, ids: Seq<u64>) -> Set<Tweet> {
    s.filter(|t: Tweet| !ids.contains(t.row_id))
}

/// Whether some row of `s` has identifier `id`.
pub open spec fn has_row(s: Set<Tweet>, id: u64) -> bool {
    exists|t: Tweet| s.contains(t) && t.row_id == id
}

/// The identifiers of the rows of `s` created strictly before `cutoff`.
pub open spec fn ids_created_before(s: Set<Tweet>, cutoff: int) -> Set<u64> {
    Set::new(|id: u64| exists|t: Tweet| s.contains(t) && t.row_id == id && (t.created_at.micros_since_epoch as int) < cutoff)
}

/// The identifiers of the rows of `s` whose topic is `topic`.
pub open spec fn ids_with_topic(s: Set<Tweet>, topic: Option<Seq<char>>) -> Set<u64> {
    Set::new(|id: u64| exists|t: Tweet| s.contains(t) && t.row_id == id && topic_view(t.topic) == topic)
}

/// `e` is the time key of a row of `s`.
pub open spec fn is_time_key_of(s: Set<Tweet>, e: (i64, u64)) -> bool {
    exists|t: Tweet| s.contains(t) && time_key(t) == e
}

/// `e` is the topic key of a row of `s`.
pub open spec fn is_topic_key_of(s: Set<Tweet>, e: (Option<String>, u64)) -> bool {
    exists|t: Tweet| s.contains(t) && topic_key(t) == e
}

/// The table of records and its two indices.
pub struct TweetStore {
    rows: Vec<Tweet>,
    by_time: Vec<(i64, u64)>,
    by_topic: Vec<(Option<String>, u64)>,
    next_row_id: u64,
}

impl TweetStore {
    /// The rows held.
    pub closed spec fn rows_view(&self) -> Set<Tweet> {
        self.rows@.to_set()
    }

    /// The identifier the next insertion will receive.
    pub closed spec fn next_id(&self) -> u64 {
        self.next_row_id
    }

    /// The time index: one `(created_at, row_id)` entry per row, ordered by
    /// creation instant.
    pub closed spec fn time_index(&self) -> Seq<(i64, u64)> {
        self.by_time@
    }

    /// The topic index: one `(topic, row_id)` entry per row.
    pub closed spec fn topic_index(&self) -> Seq<(Option<String>, u64)> {
        self.by_topic@
    }

    /// Well-formedness: identifiers increase along the rows and lie below the
    /// next one to be given out; each index holds exactly the rows' keys, one
    /// entry per row; the time index is ordered by creation instant.
    pub closed spec fn wf(&self) -> bool {
        &&& rows_ordered(self.rows@, self.next_row_id)
        &&& index_matches(self.rows@, self.by_time@, time_key_fn())
        &&& sorted_by_first(self.by_time@)
        &&& index_matches(self.rows@, self.by_topic@, topic_key_fn())
    }

    /// An empty store; the first row inserted gets identifier 1.
    pub fn new() -> (r: TweetStore)
        ensures
            r.wf(),
            r.rows_view() == Set::<Tweet>::empty(),
            r.next_id() == 1,
    {
        let r = TweetStore { rows: Vec::new(), by_time: Vec::new(), by_topic: Vec::new(), next_row_id: 1 };
        assert(r.rows@.to_set() =~= Set::<Tweet>::empty());
        r
    }

    /// Every row of a well-formed store has an identifier below `next_id`,
    /// and no two rows share one.
    pub proof fn lemma_row_ids(&self)
        requires
            self.wf(),
        ensures
            forall|t: Tweet| #[trigger] self.rows_view().contains(t) ==> t.row_id < self.next_id(),
            forall|t1: Tweet, t2: Tweet|
                #[trigger] self.rows_view().contains(t1) && #[trigger] self.rows_view().contains(t2)
                    && t1.row_id == t2.row_id ==> t1 == t2,
    {
        assert forall|t1: Tweet, t2: Tweet|
            #[trigger] self.rows_view().contains(t1) && #[trigger] self.rows_view().contains(t2)
                && t1.row_id == t2.row_id implies t1 == t2 by {
            let i = choose|i: int| 0 <= i < self.rows@.len() && self.rows@[i] == t1;
            let j = choose|j: int| 0 <= j < self.rows@.len() && self.rows@[j] == t2;
            assert(i == j);
        }
    }

    /// Inserts `row` under the next identifier, which it returns; the
    /// identifier the caller put in `row` is ignored.
    pub fn insert(&mut self, row: Tweet) -> (id: u64)
        requires
            old(self).wf(),
            old(self).next_id() < u64::MAX,
        ensures
            final(self).wf(),
            id == old(self).next_id(),
            final(self).next_id() == id + 1,
            final(self).rows_view() == old(self).rows_view().insert(with_row_id(row, id)),
    {
        let id = self.next_row_id;
        let mut row = row;
        row.row_id = id;
        let created = row.created_at.micros_since_epoch;
        let topic = copy_topic(&row.topic);
        let mut q: usize = 0;
        while q < self.by_time.len() && self.by_time[q].0 <= created
            invariant
                q <= self.by_time.len(),
                forall|a: int| 0 <= a < q ==> self.by_time@[a].0 <= created,
            decreases self.by_time.len() - q,
        {
            q = q + 1;
        }
        let ghost old_rows = self.rows@;
        let ghost old_time = self.by_time@;
        let ghost old_topic = self.by_topic@;
        proof {
            assert(forall|t: Tweet| (#[trigger] time_key_fn()(t)).1 == t.row_id);
            assert(forall|t: Tweet| (#[trigger] topic_key_fn()(t)).1 == t.row_id);
            lemma_index_insert(old_rows, old_time, time_key_fn(), id, row, q as int);
            lemma_index_insert(old_rows, old_topic, topic_key_fn(), id, row, old_topic.len() as int);
            assert(time_key_fn()(row) == (created, id));
            assert(topic_key_fn()(row) == (topic, id));
            lemma_sorted_insert(old_time, q as int, (created, id));
            lemma_rows_push(old_rows, id, row);
        }
        let n = self.by_topic.len();
        self.rows.push(row);
        self.by_time.insert(q, (created, id));
        self.by_topic.insert(n, (topic, id));
        self.next_row_id = id + 1;
        id
    }

    /// Deletes the row identified by `id`; returns whether there was one. An
    /// absent identifier leaves the store as it was.
    pub fn delete(&mut self, id: u64) -> (removed: bool)
        requires
            old(self).wf(),
        ensures
            final(self).wf(),
            final(self).next_id() == old(self).next_id(),
            final(self).rows_view() == without_row(old(self).rows_view(), id),
            removed == has_row(old(self).rows_view(), id),
    {
        let mut p: usize = 0;
        while p < self.rows.len() && self.rows[p].row_id != id
            invariant
                p <= self.rows.len(),
                forall|i: int| 0 <= i < p ==> self.rows@[i].row_id != id,
            decreases self.rows.len() - p,
        {
            p = p + 1;
        }
        if p == self.rows.len() {
            proof {
                assert(self.rows@.to_set() =~= without_row(self.rows@.to_set(), id));
                assert forall|t: Tweet| self.rows_view().contains(t) implies t.row_id != id by {
                    let i = choose|i: int| 0 <= i < self.rows@.len() && self.rows@[i] == t;
                }
            }
            return false;
        }
        let ghost old_rows = self.rows@;
        let ghost old_time = self.by_time@;
        let ghost old_topic = self.by_topic@;
        proof {
            assert(forall|t: Tweet| (#[trigger] time_key_fn()(t)).1 == t.row_id);
            assert(forall|t: Tweet| (#[trigger] topic_key_fn()(t)).1 == t.row_id);
            assert(old_time.contains(time_key_fn()(old_rows[p as int])));
            assert(old_topic.contains(topic_key_fn()(old_rows[p as int])));
            assert(old_rows.to_set().contains(old_rows[p as int]));
            assert(has_row(old_rows.to_set(), id));
        }
        let mut q: usize = 0;
        while q < self.by_time.len() && self.by_time[q].1 != id
            invariant
                q <= self.by_time.len(),
                self.by_time@ == old_time,
                exists|a: int| 0 <= a < old_time.len() && old_time[a].1 == id,
                forall|a: int| 0 <= a < q ==> old_time[a].1 != id,
            decreases self.by_time.len() - q,
        {
            q = q + 1;
        }
        let mut k: usize = 0;
        while k < self.by_topic.len() && self.by_topic[k].1 != id
            invariant
                k <= self.by_topic.len(),
                self.by_topic@ == old_topic,
                exists|a: int| 0 <= a < old_topic.len() && old_topic[a].1 == id,
                forall|a: int| 0 <= a < k ==> old_topic[a].1 != id,
            decreases self.by_topic.len() - k,
        {
            k = k + 1;
        }
        proof {
            lemma_index_remove(old_rows, old_time, time_key_fn(), self.next_row_id, p as int, q as int);
            lemma_index_remove(old_rows, old_topic, topic_key_fn(), self.next_row_id, p as int, k as int);
            lemma_sorted_remove(old_time, q as int);
            lemma_rows_remove(old_rows, self.next_row_id, p as int);
        }
        self.rows.remove(p);
        self.by_time.remove(q);
        self.by_topic.remove(k);
        proof {
            assert(self.rows_view() =~= without_row(old_rows.to_set(), id));
        }
        true
    }

    /// The identifiers of the rows created strictly before `cutoff`, each
    /// once, read from the time index before anything changes.
    pub fn scan_by_time_before(&self, cutoff: Timestamp) -> (r: Vec<u64>)
        requires
            self.wf(),
        ensures
            r@.no_duplicates(),
            forall|id: u64| r@.contains(id) <==> ids_created_before(self.rows_view(), cutoff.micros_since_epoch as int).contains(id),
    {
        let mut r: Vec<u64> = Vec::new();
        let mut k: usize = 0;
        while k < self.by_time.len() && self.by_time[k].0 < cutoff.micros_since_epoch
            invariant
                k <= self.by_time.len(),
                r@.len() == k,
                forall|j: int| 0 <= j < k ==> r@[j] == self.by_time@[j].1,
                forall|j: int| 0 <= j < k ==> self.by_time@[j].0 < cutoff.micros_since_epoch,
            decreases self.by_time.len() - k,
        {
            r.push(self.by_time[k].1);
            k = k + 1;
        }
        proof {
            let rows = self.rows@;
            let idx = self.by_time@;
            assert forall|a: int, b: int| 0 <= a < b < r@.len() implies r@[a] != r@[b] by {
            }
            assert forall|id: u64| r@.contains(id) <==> ids_created_before(self.rows_view(), cutoff.micros_since_epoch as int).contains(id) by {
                if r@.contains(id) {
                    let j = choose|j: int| 0 <= j < r@.len() && r@[j] == id;
                    assert(is_key_of_row(rows, time_key_fn(), idx[j]));
                    let i = choose|i: int| 0 <= i < rows.len() && time_key_fn()(rows[i]) == idx[j];
                    assert(rows.contains(rows[i]));
                    assert(self.rows_view().contains(rows[i]));
                    assert(rows[i].row_id == id && (rows[i].created_at.micros_since_epoch as int) < cutoff.micros_since_epoch);
                }
                if ids_created_before(self.rows_view(), cutoff.micros_since_epoch as int).contains(id) {
                    let t = choose|t: Tweet| self.rows_view().contains(t) && t.row_id == id && (t.created_at.micros_since_epoch as int) < cutoff.micros_since_epoch;
                    let i = choose|i: int| 0 <= i < rows.len() && rows[i] == t;
                    assert(idx.contains(time_key_fn()(rows[i])));
                    let a = choose|a: int| 0 <= a < idx.len() && idx[a] == time_key_fn()(rows[i]);
                    if a >= k {
                        assert(idx[k as int].0 >= cutoff.micros_since_epoch);
                    }
                    assert(r@[a] == id);
                    assert(r@.contains(id));
                }
            }
        }
        r
    }

    /// The identifiers of the rows whose topic is `topic` (an absent topic
    /// matches only absent topics), each once, read from the topic index
    /// before anything changes.
    pub fn scan_by_topic(&self, topic: &Option<String>) -> (r: Vec<u64>)
        requires
            self.wf(),
        ensures
            r@.no_duplicates(),
            forall|id: u64| r@.contains(id) <==> ids_with_topic(self.rows_view(), topic_view(*topic)).contains(id),
    {
        let mut r: Vec<u64> = Vec::new();
        let mut k: usize = 0;
        while k < self.by_topic.len()
            invariant
                k <= self.by_topic.len(),
                r@.no_duplicates(),
                forall|id: u64| r@.contains(id) <==> exists|a: int| 0 <= a < k && #[trigger] self.by_topic@[a].1 == id
                    && topic_view(self.by_topic@[a].0) == topic_view(*topic),
                forall|a: int, b: int| 0 <= a < b < self.by_topic@.len() ==> self.by_topic@[a].1 != self.by_topic@[b].1,
            decreases self.by_topic.len() - k,
        {
            if same_topic(&self.by_topic[k].0, topic) {
                let ghost before = r@;
                proof {
                    assert(!before.contains(self.by_topic@[k as int].1));
                }
                r.push(self.by_topic[k].1);
                proof {
                    assert forall|id: u64| r@.contains(id) <==> exists|a: int| 0 <= a < k + 1 && #[trigger] self.by_topic@[a].1 == id
                        && topic_view(self.by_topic@[a].0) == topic_view(*topic) by {
                        if r@.contains(id) && id != self.by_topic@[k as int].1 {
                            let j = choose|j: int| 0 <= j < r@.len() && r@[j] == id;
                            assert(before[j] == id);
                        }
                        if before.contains(id) {
                            let j = choose|j: int| 0 <= j < before.len() && before[j] == id;
                            assert(r@[j] == id);
                        }
                        assert(r@[before.len() as int] == self.by_topic@[k as int].1);
                    }
                }
            }
            k = k + 1;
        }
        proof {
            let rows = self.rows@;
            let idx = self.by_topic@;
            assert forall|id: u64| r@.contains(id) <==> ids_with_topic(self.rows_view(), topic_view(*topic)).contains(id) by {
                if r@.contains(id) {
                    let a = choose|a: int| 0 <= a < k && #[trigger] idx[a].1 == id
                        && topic_view(idx[a].0) == topic_view(*topic);
                    assert(is_key_of_row(rows, topic_key_fn(), idx[a]));
                    let i = choose|i: int| 0 <= i < rows.len() && topic_key_fn()(rows[i]) == idx[a];
                    assert(rows.contains(rows[i]));
                    assert(self.rows_view().contains(rows[i]));
                    assert(rows[i].row_id == id && topic_view(rows[i].topic) == topic_view(*topic));
                }
                if ids_with_topic(self.rows_view(), topic_view(*topic)).contains(id) {
                    let t = choose|t: Tweet| self.rows_view().contains(t) && t.row_id == id && topic_view(t.topic) == topic_view(*topic);
                    let i = choose|i: int| 0 <= i < rows.len() && rows[i] == t;
                    assert(idx.contains(topic_key_fn()(rows[i])));
                    let a = choose|a: int| 0 <= a < idx.len() && idx[a] == topic_key_fn()(rows[i]);
                    assert(idx[a].1 == id);
                    assert(topic_view(idx[a].0) == topic_view(*topic));
                    assert(a < k);
                }
            }
        }
        r
    }

    /// Deletes every row whose identifier is in `ids`, which is read in full
    /// before the first deletion; identifiers with no row are skipped.
    pub fn delete_rows(&mut self, ids: &Vec<u64>)
        requires
            old(self).wf(),
        ensures
            final(self).wf(),
            final(self).next_id() == old(self).next_id(),
            final(self).rows_view() == without_ids(old(self).rows_view(), ids@),
    {
        let ghost start = self.rows_view();
        let mut k: usize = 0;
        proof {
            assert(start =~= without_ids(start, ids@.subrange(0, 0)));
        }
        while k < ids.len()
            invariant
                k <= ids.len(),
                self.wf(),
                self.next_id() == old(self).next_id(),
                start == old(self).rows_view(),
                self.rows_view() == without_ids(start, ids@.subrange(0, k as int)),
            decreases ids.len() - k,
        {
            let ghost before = self.rows_view();
            self.delete(ids[k]);
            proof {
                let pre = ids@.subrange(0, k as int);
                let post = ids@.subrange(0, k + 1);
                assert(post == pre.push(ids@[k as int]));
                assert forall|x: u64| post.contains(x) <==> (pre.contains(x) || x == ids@[k as int]) by {
                    if post.contains(x) {
                        let j = choose|j: int| 0 <= j < post.len() && post[j] == x;
                        if j < k {
                            assert(pre[j] == x);
                        }
                    }
                    if pre.contains(x) {
                        let j = choose|j: int| 0 <= j < pre.len() && pre[j] == x;
                        assert(post[j] == x);
                    }
                    assert(post[k as int] == ids@[k as int]);
                }
                assert(self.rows_view() =~= without_ids(start, post));
            }
            k = k + 1;
        }
        proof {
            assert(ids@.subrange(0, ids@.len() as int) == ids@);
        }
    }

    /// The identifier the next insertion will receive.
    pub fn peek_next_id(&self) -> (r: u64)
        ensures
            r == self.next_id(),
    {
        self.next_row_id
    }

    /// The rows held, in order of identifier.
    pub fn rows(&self) -> (r: &Vec<Tweet>)
        requires
            self.wf(),
        ensures
            r@.to_set() == self.rows_view(),
            forall|i: int, j: int| 0 <= i < j < r@.len() ==> r@[i].row_id < r@[j].row_id,
    {
        &self.rows
    }

    /// The number of rows held.
    pub fn len(&self) -> (n: usize)
        requires
            self.wf(),
        ensures
            n == self.rows_view().len(),
    {
        proof {
            self.lemma_row_ids();
            assert forall|i: int, j: int| 0 <= i < j < self.rows@.len() implies self.rows@[i] != self.rows@[j] by {
                assert(self.rows@[i].row_id < self.rows@[j].row_id);
            }
            self.rows@.unique_seq_to_set();
        }
        self.rows.len()
    }

    /// Whether a row has identifier `id`.
    pub fn contains_row(&self, id: u64) -> (r: bool)
        requires
            self.wf(),
        ensures
            r == has_row(self.rows_view(), id),
    {
        let mut p: usize = 0;
        while p < self.rows.len()
            invariant
                p <= self.rows.len(),
                forall|i: int| 0 <= i < p ==> self.rows@[i].row_id != id,
            decreases self.rows.len() - p,
        {
            if self.rows[p].row_id == id {
                proof {
                    assert(self.rows_view().contains(self.rows@[p as int]));
                }
                return true;
            }
            p = p + 1;
        }
        proof {
            assert forall|t: Tweet| self.rows_view().contains(t) implies t.row_id != id by {
                let i = choose|i: int| 0 <= i < self.rows@.len() && self.rows@[i] == t;
            }
        }
        false
    }

    /// The indices agree with the rows: each index names every row exactly
    /// once, by the row's own key, and names nothing else; the time index is
    /// ordered by creation instant. Every mutation keeps this, so it holds
    /// after any sequence of insertions and deletions.
    pub proof fn lemma_indices_consistent(&self)
        requires
            self.wf(),
        ensures
            forall|a: int, b: int| 0 <= a < b < self.time_index().len()
                ==> self.time_index()[a].1 != self.time_index()[b].1,
            forall|t: Tweet| #[trigger] self.rows_view().contains(t) ==> self.time_index().contains(time_key(t)),
            forall|a: int| 0 <= a < self.time_index().len() ==> is_time_key_of(self.rows_view(), #[trigger] self.time_index()[a]),
            forall|a: int, b: int| 0 <= a < b < self.time_index().len()
                ==> self.time_index()[a].0 <= self.time_index()[b].0,
            forall|a: int, b: int| 0 <= a < b < self.topic_index().len()
                ==> self.topic_index()[a].1 != self.topic_index()[b].1,
            forall|t: Tweet| #[trigger] self.rows_view().contains(t) ==> self.topic_index().contains(topic_key(t)),
            forall|a: int| 0 <= a < self.topic_index().len() ==> is_topic_key_of(self.rows_view(), #[trigger] self.topic_index()[a]),
    {
        let rows = self.rows@;
        assert forall|t: Tweet| #[trigger] self.rows_view().contains(t) implies
            self.time_index().contains(time_key(t)) && self.topic_index().contains(topic_key(t)) by {
            let i = choose|i: int| 0 <= i < rows.len() && rows[i] == t;
            assert(self.by_time@.contains(time_key_fn()(rows[i])));
            assert(self.by_topic@.contains(topic_key_fn()(rows[i])));
        }
        assert forall|a: int| 0 <= a < self.time_index().len() implies is_time_key_of(self.rows_view(), #[trigger] self.time_index()[a]) by {
            assert(is_key_of_row(rows, time_key_fn(), self.by_time@[a]));
            let i = choose|i: int| 0 <= i < rows.len() && time_key_fn()(rows[i]) == self.by_time@[a];
            assert(self.rows_view().contains(rows[i]));
        }
        assert forall|a: int| 0 <= a < self.topic_index().len() implies is_topic_key_of(self.rows_view(), #[trigger] self.topic_index()[a]) by {
            assert(is_key_of_row(rows, topic_key_fn(), self.by_topic@[a]));
            let i = choose|i: int| 0 <= i < rows.len() && topic_key_fn()(rows[i]) == self.by_topic@[a];
            assert(self.rows_view().contains(rows[i]));
        }
    }
}

} // verus!

//! What it means for a secondary index to agree with the rows, and why
//! inserting and deleting keep that agreement.
use vstd::prelude::*;
use crate::tweet::Tweet;

verus! {

/// The time index entry of a row: its creation instant, then its identifier.
pub open spec fn time_key(t: Tweet) -> (i64, u64) {
    (t.created_at.micros_since_epoch, t.row_id)
}

/// The topic index entry of a row: its topic (absent included), then its
/// identifier.
pub open spec fn topic_key(t: Tweet) -> (Option<String>, u64) {
    (t.topic, t.row_id)
}

/// Row identifiers strictly increase along `rows` and all lie below `next`.
pub open spec fn rows_ordered(rows: Seq<Tweet>, next: u64) -> bool {
    &&& forall|i: int, j: int| 0 <= i < j < rows.len() ==> rows[i].row_id < rows[j].row_id
    &&& forall|i: int| 0 <= i < rows.len() ==> rows[i].row_id < next
}

/// `idx` holds exactly one entry for each row, the row's key, and nothing else:
/// no two entries name the same row, every row has its entry, and every entry
/// is the key of a row.
pub open spec fn index_matches<K>(
    rows: Seq<Tweet>,
    idx: Seq<(K, u64)>,
    key: spec_fn(Tweet) -> (K, u64),
) -> bool {
    &&& forall|a: int, b: int| 0 <= a < b < idx.len() ==> idx[a].1 != idx[b].1
    &&& forall|i: int| 0 <= i < rows.len() ==> idx.contains(key(#[trigger] rows[i]))
    &&& forall|a: int| 0 <= a < idx.len() ==> is_key_of_row(rows, key, #[trigger] idx[a])
}

/// `e` is the key of one of `rows`.
pub open spec fn is_key_of_row<K>(rows: Seq<Tweet>, key: spec_fn(Tweet) -> (K, u64), e: (K, u64)) -> bool {
    exists|i: int| 0 <= i < rows.len() && key(rows[i]) == e
}

/// Entries are ordered by their first component.
pub open spec fn sorted_by_first<K>(idx: Seq<(i64, K)>) -> bool {
    forall|a: int, b: int| 0 <= a < b < idx.len() ==> idx[a].0 <= idx[b].0
}

/// Removing a row and the index entry that names it keeps the index in
/// agreement with the rows.
pub proof fn lemma_index_remove<K>(
    rows: Seq<Tweet>,
    idx: Seq<(K, u64)>,
    key: spec_fn(Tweet) -> (K, u64),
    next: u64,
    p: int,
    q: int,
)
    requires
        index_matches(rows, idx, key),
        rows_ordered(rows, next),
        forall|t: Tweet| (#[trigger] key(t)).1 == t.row_id,
        0 <= p < rows.len(),
        0 <= q < idx.len(),
        idx[q].1 == rows[p].row_id,
    ensures
        index_matches(rows.remove(p), idx.remove(q), key),
{
    let r2 = rows.remove(p);
    let i2 = idx.remove(q);
    assert forall|a: int, b: int| 0 <= a < b < i2.len() implies i2[a].1 != i2[b].1 by {
        let oa = if a < q { a } else { a + 1 };
        let ob = if b < q { b } else { b + 1 };
        assert(i2[a] == idx[oa] && i2[b] == idx[ob]);
    }
    assert forall|i: int| 0 <= i < r2.len() implies i2.contains(key(#[trigger] r2[i])) by {
        let oi = if i < p { i } else { i + 1 };
        assert(r2[i] == rows[oi]);
        assert(idx.contains(key(rows[oi])));
        let a = choose|a: int| 0 <= a < idx.len() && idx[a] == key(rows[oi]);
        assert(key(rows[oi]).1 == rows[oi].row_id);
        assert(key(rows[p]).1 == rows[p].row_id);
        assert(a != q);
        let a2 = if a < q { a } else { a - 1 };
        assert(i2[a2] == idx[a]);
    }
    assert forall|a: int| 0 <= a < i2.len() implies is_key_of_row(r2, key, i2[a]) by {
        let oa = if a < q { a } else { a + 1 };
        assert(i2[a] == idx[oa]);
        let i = choose|i: int| 0 <= i < rows.len() && key(rows[i]) == idx[oa];
        assert(key(rows[i]).1 == rows[i].row_id);
        let j = choose|j: int| 0 <= j < rows.len() && key(rows[j]) == idx[q];
        assert(key(rows[j]).1 == rows[j].row_id);
        assert(j == p);
        assert(i != p);
        let i2x = if i < p { i } else { i - 1 };
        assert(r2[i2x] == rows[i]);
        assert(key(r2[i2x]) == i2[a]);
    }
}

/// Appending a row whose identifier exceeds every existing one, and inserting
/// its key anywhere in the index, keeps the index in agreement with the rows.
pub proof fn lemma_index_insert<K>(
    rows: Seq<Tweet>,
    idx: Seq<(K, u64)>,
    key: spec_fn(Tweet) -> (K, u64),
    next: u64,
    t: Tweet,
    q: int,
)
    requires
        index_matches(rows, idx, key),
        rows_ordered(rows, next),
        forall|x: Tweet| (#[trigger] key(x)).1 == x.row_id,
        t.row_id >= next,
        0 <= q <= idx.len(),
    ensures
        index_matches(rows.push(t), idx.insert(q, key(t)), key),
{
    let r2 = rows.push(t);
    let i2 = idx.insert(q, key(t));
    assert(key(t).1 == t.row_id);
    assert forall|a: int| 0 <= a < idx.len() implies idx[a].1 < next by {
        let i = choose|i: int| 0 <= i < rows.len() && key(rows[i]) == idx[a];
        assert(key(rows[i]).1 == rows[i].row_id);
    }
    assert forall|a: int, b: int| 0 <= a < b < i2.len() implies i2[a].1 != i2[b].1 by {
        if a != q && b != q {
            let oa = if a < q { a } else { a - 1 };
            let ob = if b < q { b } else { b - 1 };
            assert(i2[a] == idx[oa] && i2[b] == idx[ob]);
        } else if a == q {
            let ob = b - 1;
            assert(i2[b] == idx[ob]);
        } else {
            assert(i2[a] == idx[a]);
        }
    }
    assert forall|i: int| 0 <= i < r2.len() implies i2.contains(key(#[trigger] r2[i])) by {
        if i == rows.len() {
            assert(i2[q] == key(t));
        } else {
            assert(r2[i] == rows[i]);
            assert(idx.contains(key(rows[i])));
            let a = choose|a: int| 0 <= a < idx.len() && idx[a] == key(rows[i]);
            let a2 = if a < q { a } else { a + 1 };
            assert(i2[a2] == idx[a]);
        }
    }
    assert forall|a: int| 0 <= a < i2.len() implies is_key_of_row(r2, key, i2[a]) by {
        if a == q {
            assert(key(r2[rows.len() as int]) == i2[a]);
        } else {
            let oa = if a < q { a } else { a - 1 };
            assert(i2[a] == idx[oa]);
            let i = choose|i: int| 0 <= i < rows.len() && key(rows[i]) == idx[oa];
            assert(r2[i] == rows[i]);
            assert(key(r2[i]) == i2[a]);
        }
    }
}

} // verus!

verus! {

/// Inserting an entry after every smaller-or-equal one and before the first
/// larger one keeps the entries ordered.
pub proof fn lemma_sorted_insert<K>(idx: Seq<(i64, K)>, q: int, e: (i64, K))
    requires
        sorted_by_first(idx),
        0 <= q <= idx.len(),
        forall|a: int| 0 <= a < q ==> idx[a].0 <= e.0,
        q < idx.len() ==> idx[q].0 > e.0,
    ensures
        sorted_by_first(idx.insert(q, e)),
{
    let t2 = idx.insert(q, e);
    idx.insert_ensures(q, e);
    assert forall|a: int, b: int| 0 <= a < b < t2.len() implies t2[a].0 <= t2[b].0 by {
        if b < q {
        } else if b == q {
        } else if a < q {
            assert(t2[b] == idx[b - 1]);
            assert(idx[q].0 > e.0);
        } else if a == q {
            assert(t2[b] == idx[b - 1]);
            assert(idx[q].0 > e.0);
        } else {
            assert(t2[a] == idx[a - 1]);
            assert(t2[b] == idx[b - 1]);
        }
    }
}

/// Removing an entry keeps the entries ordered.
pub proof fn lemma_sorted_remove<K>(idx: Seq<(i64, K)>, q: int)
    requires
        sorted_by_first(idx),
        0 <= q < idx.len(),
    ensures
        sorted_by_first(idx.remove(q)),
{
    let t2 = idx.remove(q);
    assert forall|a: int, b: int| 0 <= a < b < t2.len() implies t2[a].0 <= t2[b].0 by {
        let oa = if a < q { a } else { a + 1 };
        let ob = if b < q { b } else { b + 1 };
        assert(t2[a] == idx[oa] && t2[b] == idx[ob]);
    }
}

/// Appending a row with an identifier at least `next` keeps the rows ordered
/// below the following identifier.
pub proof fn lemma_rows_push(rows: Seq<Tweet>, next: u64, t: Tweet)
    requires
        rows_ordered(rows, next),
        t.row_id == next,
        next < u64::MAX,
    ensures
        rows_ordered(rows.push(t), (next + 1) as u64),
        rows.push(t).to_set() == rows.to_set().insert(t),
{
    let r2 = rows.push(t);
    assert(r2[rows.len() as int] == t);
    assert forall|x: Tweet| rows.contains(x) implies r2.contains(x) by {
        let i = choose|i: int| 0 <= i < rows.len() && rows[i] == x;
        assert(r2[i] == x);
    }
    assert(r2.to_set() =~= rows.to_set().insert(t));
}

/// Removing a row keeps the rows ordered, and leaves exactly the other rows.
pub proof fn lemma_rows_remove(rows: Seq<Tweet>, next: u64, p: int)
    requires
        rows_ordered(rows, next),
        0 <= p < rows.len(),
    ensures
        rows_ordered(rows.remove(p), next),
        rows.remove(p).to_set() == rows.to_set().filter(|t: Tweet| t.row_id != rows[p].row_id),
{
    let r2 = rows.remove(p);
    let id = rows[p].row_id;
    assert forall|i: int, j: int| 0 <= i < j < r2.len() implies r2[i].row_id < r2[j].row_id by {
        let oi = if i < p { i } else { i + 1 };
        let oj = if j < p { j } else { j + 1 };
        assert(r2[i] == rows[oi] && r2[j] == rows[oj]);
    }
    assert forall|i: int| 0 <= i < r2.len() implies r2[i].row_id < next by {
        let oi = if i < p { i } else { i + 1 };
        assert(r2[i] == rows[oi]);
    }
    assert forall|x: Tweet| r2.contains(x) <==> (rows.contains(x) && x.row_id != id) by {
        if r2.contains(x) {
            let i = choose|i: int| 0 <= i < r2.len() && r2[i] == x;
            let oi = if i < p { i } else { i + 1 };
            assert(r2[i] == rows[oi]);
        }
        if rows.contains(x) && x.row_id != id {
            let i = choose|i: int| 0 <= i < rows.len() && rows[i] == x;
            assert(i != p);
            let i2 = if i < p { i } else { i - 1 };
            assert(r2[i2] == x);
        }
    }
    assert(r2.to_set() =~= rows.to_set().filter(|t: Tweet| t.row_id != id));
}

} // verus!

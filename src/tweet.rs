//! The stored record.
use vstd::prelude::*;
use crate::time::Timestamp;

verus! {

/// A geographic point. The store never reads it; the two coordinates are held
/// as the bit patterns of IEEE-754 doubles (`f64::to_bits`).
#[derive(Clone, Copy, Debug, PartialEq, Eq, Structural)]
pub struct GeoPoint {
    pub lat_bits: u64,
    pub lon_bits: u64,
}

/// One record. `row_id` is assigned by the store on insertion; whatever the
/// caller put there is overwritten.
#[derive(Clone, Debug)]
pub struct Tweet {
    pub row_id: u64,
    pub tweet_id: String,
    pub content: String,
    pub username: String,
    pub location: GeoPoint,
    pub created_at: Timestamp,
    pub topic: Option<String>,
}

/// A topic as characters; an absent topic stays absent, distinct from every
/// string, the empty one included.
pub open spec fn topic_view(topic: Option<String>) -> Option<Seq<char>> {
    match topic {
        Some(s) => Some(s@),
        None => None,
    }
}

/// Whether two topics are the same: both absent, or both present and equal.
pub fn same_topic(a: &Option<String>, b: &Option<String>) -> (r: bool)
    ensures
        r == (topic_view(*a) == topic_view(*b)),
{
    match (a, b) {
        (Some(x), Some(y)) => *x == *y,
        (None, None) => true,
        _ => false,
    }
}

/// A copy of a topic.
pub fn copy_topic(topic: &Option<String>) -> (r: Option<String>)
    ensures
        r == *topic,
{
    match topic {
        Some(s) => Some(s.clone()),
        None => None,
    }
}

} // verus!

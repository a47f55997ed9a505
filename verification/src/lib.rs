//! Reader/writer library for the WPILOG binary telemetry log format.
//!
//! A log file is a small header followed by length-prefixed records; each
//! record is either a control record (declaring, terminating or annotating a
//! named entry) or a data record (a typed value bound to an entry id, tagged
//! with a microsecond timestamp).  The codec, the reader's reconstruction of
//! entry lifetimes and timelines, and the writer's append-only state machine
//! are all specified and verified here.
use vstd::prelude::*;

pub mod error;
pub mod proto;
pub mod reader;
pub mod trusted;
pub mod value;
pub mod writer;

pub use error::DataLogError;

verus! {

/// A value paired with a microsecond timestamp.
#[derive(Debug, Clone, PartialEq)]
pub struct TimestampedValue<T> {
    /// The timestamp of the value, in microseconds.
    pub timestamp: u64,
    /// The value.
    pub value: T,
}

impl<T> TimestampedValue<T> {
    /// Creates a new timestamped value.
    pub fn new(timestamp: u64, value: T) -> (r: Self)
        ensures
            r.timestamp == timestamp,
            r.value == value,
    {
        Self { timestamp, value }
    }

    /// Creates a new timestamped value stamped with the current time.
    pub fn new_now(value: T) -> (r: Self)
        ensures
            r.value == value,
    {
        Self { timestamp: crate::trusted::now(), value }
    }
}

/// The (timestamp, view) pairs of a timeline.
pub open spec fn tv_view_seq<V: View>(s: Seq<TimestampedValue<V>>) -> Seq<(u64, V::V)> {
    s.map_values(|tv: TimestampedValue<V>| (tv.timestamp, tv.value@))
}

} // verus!

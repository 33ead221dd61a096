//! Track points and segments.
use vstd::prelude::*;
use crate::geo::GeoPos;
use crate::geo::valid_pos;

verus! {

/// Largest timestamp magnitude the engine accepts, in seconds; forced by
/// the millisecond fixed-point arithmetic of the aggregator.
pub const MAX_TIME_S: i64 = 34_359_738_368;

/// A single GPS fix: position and optional timestamp in seconds.
#[derive(Clone, Copy, Debug)]
pub struct TrackPoint {
    pub pos: GeoPos,
    pub time_s: Option<i64>,
}

/// The timestamp of a point, 0 when absent; meaningful only where the
/// timestamp is known to be present.
pub open spec fn time_of(p: TrackPoint) -> int {
    match p.time_s {
        Some(t) => t as int,
        None => 0,
    }
}

/// A point is valid when its position is in range and its timestamp, if
/// present, is within the representable window.
pub open spec fn valid_point(p: TrackPoint) -> bool {
    &&& valid_pos(p.pos)
    &&& (p.time_s matches Some(t) ==> -MAX_TIME_S <= t <= MAX_TIME_S)
}

/// Every point of the segment is valid.
pub open spec fn valid_segment(seg: Seq<TrackPoint>) -> bool {
    forall|i: int| 0 <= i < seg.len() ==> valid_point(#[trigger] seg[i])
}

/// Every point of the segment carries a timestamp.
pub open spec fn all_times_present(seg: Seq<TrackPoint>) -> bool {
    forall|i: int| 0 <= i < seg.len() ==> (#[trigger] seg[i]).time_s is Some
}

impl TrackPoint {
    /// Build a fix from raw coordinates and an optional timestamp.
    pub fn new(pos: GeoPos, time_s: Option<i64>) -> (r: TrackPoint)
        requires
            valid_pos(pos),
            time_s matches Some(t) ==> -MAX_TIME_S <= t <= MAX_TIME_S,
        ensures
            r.pos == pos,
            r.time_s == time_s,
            valid_point(r),
    {
        TrackPoint { pos, time_s }
    }
}

} // verus!

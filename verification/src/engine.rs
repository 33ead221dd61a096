//! The per-segment engine: candidate scan, backward and forward exposure
//! passes, and the summary report.
use vstd::prelude::*;
use vstd::arithmetic::div_mod::lemma_fundamental_div_mod;
use vstd::arithmetic::div_mod::lemma_hoist_over_denominator;
use crate::aggregate::ACCUM_CAP;
use crate::aggregate::CONTRIB_MAX;
use crate::aggregate::CamAccumModel;
use crate::aggregate::CameraExposure;
use crate::aggregate::PassState;
use crate::aggregate::aggregate_direction;
use crate::aggregate::cmap_matches;
use crate::aggregate::fresh_accumulators;
use crate::aggregate::lemma_pass_bounds;
use crate::aggregate::models;
use crate::aggregate::row_views;
use crate::aggregate::spec_pass;
use crate::camera::Camera;
use crate::camera::valid_cameras;
use crate::geo::DistanceMode;
use crate::geo::MAX_DIST_MM;
use crate::geo::abs_i;
use crate::geo::distance_between;
use crate::geo::lemma_distance_bounds;
use crate::geo::spec_distance;
use crate::numeric::lemma_div_le;
use crate::numeric::lemma_mul_le;
use crate::scan::scan_candidates;
use crate::scan::spec_all_distances;
use crate::scan::spec_candidates_at;
use crate::scan::spec_unique_cams;
use crate::stats::mean_um;
use crate::stats::median_um;
use crate::stats::spec_mean_um;
use crate::stats::spec_median_um;
use crate::track::TrackPoint;
use crate::track::all_times_present;
use crate::track::time_of;
use crate::track::valid_segment;

verus! {

broadcast use vstd::std_specs::hash::group_hash_axioms;

/// Why a segment was rejected.
#[derive(Clone, Copy, PartialEq, Eq, Structural, Debug)]
pub enum EngineError {
    /// Fewer than two points: no distance or duration can be derived.
    InsufficientPoints,
    /// A point lacks a timestamp: direction and speed cannot be computed.
    MissingTimestamp,
}

/// The per-segment report. Distances are in millimeters, times in seconds
/// or milliseconds, percentages in thousandths of a percent, and the
/// distance statistics in micrometers.
#[derive(Debug)]
pub struct ExposureReport {
    pub file: String,
    pub track_index: usize,
    pub segment_index: usize,
    pub total_distance_mm: u128,
    pub total_time_s: u64,
    pub average_speed_mm_s: u128,
    pub unique_cameras: usize,
    pub exposure_distance_mm: u128,
    pub exposure_time_ms: u128,
    pub dist_millipct: u128,
    pub time_millipct: u128,
    pub mean_distance_um: u128,
    pub median_distance_um: u128,
}

/// Sum of the consecutive distances over the first `k` points.
pub open spec fn spec_total_track_dist_prefix(
    mode: DistanceMode,
    seg: Seq<TrackPoint>,
    k: int,
) -> int
    decreases k,
{
    if k <= 1 {
        0
    } else {
        spec_total_track_dist_prefix(mode, seg, k - 1) + spec_distance(
            mode,
            seg[k - 2].pos,
            seg[k - 1].pos,
        )
    }
}

/// Total track distance: sum of consecutive point-to-point distances.
pub open spec fn spec_total_track_dist(mode: DistanceMode, seg: Seq<TrackPoint>) -> int {
    spec_total_track_dist_prefix(mode, seg, seg.len() as int)
}

/// The total distance of a prefix is nonnegative and linearly bounded.
pub proof fn lemma_total_dist_bounds(mode: DistanceMode, seg: Seq<TrackPoint>, k: int)
    requires
        valid_segment(seg),
        k <= seg.len(),
    ensures
        0 <= spec_total_track_dist_prefix(mode, seg, k) <= (if k <= 1 {
            0int
        } else {
            k - 1
        }) * MAX_DIST_MM,
    decreases k,
{
    if k > 1 {
        lemma_total_dist_bounds(mode, seg, k - 1);
        lemma_distance_bounds(mode, seg[k - 2].pos, seg[k - 1].pos);
        assert((if k - 1 <= 1 {
            0int
        } else {
            k - 2
        }) * MAX_DIST_MM + MAX_DIST_MM <= (k - 1) * MAX_DIST_MM) by (nonlinear_arith)
            requires
                k > 1,
        ;
    }
}

/// Total track distance, executable.
pub fn total_track_distance(mode: DistanceMode, seg: &Vec<TrackPoint>) -> (r: u128)
    requires
        valid_segment(seg@),
    ensures
        r == spec_total_track_dist(mode, seg@),
        r <= seg@.len() * (MAX_DIST_MM as int),
{
    proof {
        lemma_total_dist_bounds(mode, seg@, seg@.len() as int);
        assert(0 * (MAX_DIST_MM as int) == 0) by (nonlinear_arith);
    }
    if seg.len() < 2 {
        proof {
            lemma_mul_le(0, MAX_DIST_MM as int, seg@.len() as int, MAX_DIST_MM as int);
        }
        return 0;
    }
    let mut total: u128 = 0;
    let mut i: usize = 1;
    while i < seg.len()
        invariant
            1 <= i <= seg@.len(),
            valid_segment(seg@),
            total == spec_total_track_dist_prefix(mode, seg@, i as int),
        decreases seg@.len() - i,
    {
        let d = distance_between(mode, &seg[i - 1].pos, &seg[i].pos);
        proof {
            lemma_total_dist_bounds(mode, seg@, i as int);
            lemma_mul_le(i - 1, MAX_DIST_MM as int, 0xFFFF_FFFF_FFFF_FFFF, MAX_DIST_MM as int);
        }
        total = total + d as u128;
        i = i + 1;
    }
    proof {
        lemma_total_dist_bounds(mode, seg@, seg@.len() as int);
        lemma_mul_le(
            seg@.len() as int - 1,
            MAX_DIST_MM as int,
            seg@.len() as int,
            MAX_DIST_MM as int,
        );
    }
    total
}

/// Elapsed seconds between the first and the last point.
pub open spec fn spec_elapsed_s(seg: Seq<TrackPoint>) -> int {
    abs_i(time_of(seg[seg.len() - 1]) - time_of(seg[0]))
}

/// Saturation cap of the percentage fields, in thousandths of a percent.
pub const MILLIPCT_CAP: u128 = 100_000_000_000;

/// `part` over `whole` in thousandths of a percent, truncated; 0 when the
/// whole is zero, saturated at `MILLIPCT_CAP`.
pub open spec fn spec_millipct(part: int, whole: int) -> int {
    if whole <= 0 {
        0
    } else {
        let v = (part * 100_000) / whole;
        if v > MILLIPCT_CAP as int {
            MILLIPCT_CAP as int
        } else {
            v
        }
    }
}

/// Percentage in thousandths of a percent, executable.
pub fn millipct(part: u128, whole: u128) -> (r: u128)
    requires
        whole <= 0x4000_0000_0000_0000_0000_0000_0000,
    ensures
        r == spec_millipct(part as int, whole as int),
{
    if whole == 0 {
        return 0;
    }
    let q: u128 = part / whole;
    let rem: u128 = part % whole;
    proof {
        lemma_fundamental_div_mod(part as int, whole as int);
    }
    if q >= 1_000_000 {
        proof {
            lemma_mul_le(1_000_000, whole as int, q as int, whole as int);
            assert(part as int >= 1_000_000 * whole as int) by (nonlinear_arith)
                requires
                    part as int == whole as int * q as int + rem as int,
                    0 <= rem,
                    1_000_000 * whole as int <= q as int * whole as int,
            ;
            assert(part as int * 100_000 >= 100_000_000_000 * whole as int) by (nonlinear_arith)
                requires
                    part as int >= 1_000_000 * whole as int,
                    whole >= 1,
            ;
            assert((100_000_000_000 * whole as int) / whole as int == 100_000_000_000)
                by (nonlinear_arith)
                requires
                    whole >= 1,
            ;
            lemma_div_le(100_000_000_000 * whole as int, part as int * 100_000, whole as int);
        }
        return MILLIPCT_CAP;
    }
    proof {
        assert(rem as int * 100_000 <= 0x4000_0000_0000_0000_0000_0000_0000 * 100_000)
            by (nonlinear_arith)
            requires
                rem <= 0x4000_0000_0000_0000_0000_0000_0000,
        ;
        lemma_hoist_over_denominator(rem as int * 100_000, q as int * 100_000, whole as nat);
        assert(rem as int * 100_000 + (q as int * 100_000) * whole as int == part as int
            * 100_000) by (nonlinear_arith)
            requires
                part as int == whole as int * q as int + rem,
        ;
        assert(((rem as int * 100_000) / (whole as int)) < 100_000) by (nonlinear_arith)
            requires
                0 <= rem,
                rem < whole,
                1 <= whole,
        ;
        lemma_div_le(rem as int * 100_000, rem as int * 100_000, whole as int);
    }
    let v: u128 = q * 100_000 + (rem * 100_000) / whole;
    v
}

/// The candidate map of a whole scan, as a sequence of rows.
pub open spec fn spec_cmap(
    mode: DistanceMode,
    seg: Seq<TrackPoint>,
    cams: Seq<Camera>,
) -> Seq<Seq<usize>> {
    Seq::new(seg.len(), |k: int| spec_candidates_at(mode, seg, cams, k))
}

/// Accumulators before any pass: one empty record per camera.
pub open spec fn spec_fresh_models(n: nat) -> Seq<CamAccumModel> {
    Seq::new(
        n,
        |i: int| CamAccumModel { pts: Set::<usize>::empty(), dist_mm: 0, time_ms: 0 },
    )
}

/// The state after the backward pass, which runs first on fresh
/// accumulators.
pub open spec fn spec_backward_pass(
    mode: DistanceMode,
    seg: Seq<TrackPoint>,
    cams: Seq<Camera>,
) -> PassState {
    spec_pass(spec_fresh_models(cams.len()), mode, seg, cams, spec_cmap(mode, seg, cams), true)
}

/// The state after the forward pass, which continues from the backward
/// pass's accumulators; its dedup check depends on them.
pub open spec fn spec_forward_pass(
    mode: DistanceMode,
    seg: Seq<TrackPoint>,
    cams: Seq<Camera>,
) -> PassState {
    spec_pass(
        spec_backward_pass(mode, seg, cams).accums,
        mode,
        seg,
        cams,
        spec_cmap(mode, seg, cams),
        false,
    )
}

/// Analyze one segment against one camera catalog: scan candidates, run
/// the backward then the forward exposure pass, and reduce everything into
/// the report plus the final per-camera accumulator snapshot.
///
/// A segment of fewer than two points, or with a missing timestamp, is
/// rejected with the corresponding error.
#[verifier::rlimit(100)]
pub fn analyze_segment(
    mode: DistanceMode,
    file: String,
    track_index: usize,
    segment_index: usize,
    seg: &Vec<TrackPoint>,
    cams: &Vec<Camera>,
) -> (r: Result<(ExposureReport, Vec<CameraExposure>), EngineError>)
    requires
        valid_segment(seg@),
        valid_cameras(cams@),
    ensures
        seg@.len() < 2 ==> r == Result::<(ExposureReport, Vec<CameraExposure>), EngineError>::Err(
            EngineError::InsufficientPoints,
        ),
        seg@.len() >= 2 && !all_times_present(seg@) ==> r == Result::<
            (ExposureReport, Vec<CameraExposure>),
            EngineError,
        >::Err(EngineError::MissingTimestamp),
        seg@.len() >= 2 && all_times_present(seg@) ==> (r matches Ok(v) && v.0.file == file
            && v.0.track_index == track_index && v.0.segment_index == segment_index
            && v.0.total_distance_mm == spec_total_track_dist(mode, seg@) && v.0.total_time_s
            == spec_elapsed_s(seg@) && v.0.average_speed_mm_s == (if spec_elapsed_s(seg@) > 0 {
            spec_total_track_dist(mode, seg@) / spec_elapsed_s(seg@)
        } else {
            0int
        }) && v.0.unique_cameras == spec_unique_cams(mode, seg@, cams@).len()
            && v.0.exposure_distance_mm == spec_backward_pass(mode, seg@, cams@).total_dist
            + spec_forward_pass(mode, seg@, cams@).total_dist && v.0.exposure_time_ms
            == spec_backward_pass(mode, seg@, cams@).total_time + spec_forward_pass(
            mode,
            seg@,
            cams@,
        ).total_time && v.0.dist_millipct == spec_millipct(
            spec_backward_pass(mode, seg@, cams@).total_dist + spec_forward_pass(
                mode,
                seg@,
                cams@,
            ).total_dist,
            spec_total_track_dist(mode, seg@),
        ) && v.0.time_millipct == spec_millipct(
            spec_backward_pass(mode, seg@, cams@).total_time + spec_forward_pass(
                mode,
                seg@,
                cams@,
            ).total_time,
            spec_elapsed_s(seg@) * 1_000,
        ) && v.0.mean_distance_um == spec_mean_um(spec_all_distances(mode, seg@, cams@))
            && v.0.median_distance_um == spec_median_um(spec_all_distances(mode, seg@, cams@))
            && models(v.1@) == spec_forward_pass(mode, seg@, cams@).accums),
{
    if seg.len() < 2 {
        return Err(EngineError::InsufficientPoints);
    }
    let mut idx: usize = 0;
    while idx < seg.len()
        invariant
            idx <= seg@.len(),
            seg@.len() >= 2,
            forall|p: int| 0 <= p < idx ==> (#[trigger] seg@[p]).time_s is Some,
        decreases seg@.len() - idx,
    {
        match seg[idx].time_s {
            Option::None => {
                proof {
                    assert(seg@[idx as int].time_s is None);
                    assert(!all_times_present(seg@));
                }
                return Err(EngineError::MissingTimestamp);
            },
            Option::Some(_) => {},
        }
        idx = idx + 1;
    }
    assert(all_times_present(seg@));
    let (cmap, unique, distances) = scan_candidates(mode, seg, cams);
    let mut accums = fresh_accumulators(cams.len());
    let ghost cm = spec_cmap(mode, seg@, cams@);
    proof {
        assert(row_views(cmap@) =~= cm);
        assert(cmap_matches(cm, mode, seg@, cams@));
        assert(models(accums@) =~= spec_fresh_models(cams@.len()));
        assert forall|j: int| 0 <= j < accums@.len() implies (#[trigger] accums@[j]@).dist_mm
            <= ACCUM_CAP as int && accums@[j]@.time_ms <= ACCUM_CAP as int by {
            assert(models(accums@)[j] == accums@[j]@);
        }
    }
    let (bd, bt) = aggregate_direction(&mut accums, mode, seg, cams, &cmap, true);
    proof {
        lemma_pass_bounds(
            spec_fresh_models(cams@.len()),
            mode,
            seg@,
            cams@,
            cm,
            true,
            seg@.len() as int,
        );
        assert((seg@.len() as int) * (CONTRIB_MAX as int) <= 0xFFFF_FFFF_FFFF_FFFF * (
        CONTRIB_MAX as int)) by (nonlinear_arith)
            requires
                0 <= seg@.len() <= 0xFFFF_FFFF_FFFF_FFFF,
        ;
        assert forall|j: int| 0 <= j < accums@.len() implies (#[trigger] accums@[j]@).dist_mm
            <= ACCUM_CAP as int && accums@[j]@.time_ms <= ACCUM_CAP as int by {
            assert(models(accums@)[j] == accums@[j]@);
            assert(spec_fresh_models(cams@.len())[j].dist_mm == 0);
        }
    }
    let (fd, ft) = aggregate_direction(&mut accums, mode, seg, cams, &cmap, false);
    proof {
        lemma_pass_bounds(
            spec_backward_pass(mode, seg@, cams@).accums,
            mode,
            seg@,
            cams@,
            cm,
            false,
            seg@.len() as int,
        );
    }
    let expo_d: u128 = bd + fd;
    let expo_t: u128 = bt + ft;
    let total_dist: u128 = total_track_distance(mode, seg);
    let t_first: i64 = match seg[0].time_s {
        Option::Some(t) => t,
        Option::None => 0,
    };
    let t_last: i64 = match seg[seg.len() - 1].time_s {
        Option::Some(t) => t,
        Option::None => 0,
    };
    let elapsed_s: u64 = if t_last >= t_first {
        (t_last - t_first) as u64
    } else {
        (t_first - t_last) as u64
    };
    let speed: u128 = if elapsed_s > 0 {
        total_dist / (elapsed_s as u128)
    } else {
        0
    };
    proof {
        lemma_mul_le(
            seg@.len() as int,
            MAX_DIST_MM as int,
            0xFFFF_FFFF_FFFF_FFFF,
            MAX_DIST_MM as int,
        );
    }
    let dist_pct: u128 = millipct(expo_d, total_dist);
    let time_pct: u128 = millipct(expo_t, (elapsed_s as u128) * 1_000);
    let mean: u128 = mean_um(&distances);
    let median: u128 = median_um(&distances);
    let n_unique: usize = unique.len();
    let report = ExposureReport {
        file,
        track_index,
        segment_index,
        total_distance_mm: total_dist,
        total_time_s: elapsed_s,
        average_speed_mm_s: speed,
        unique_cameras: n_unique,
        exposure_distance_mm: expo_d,
        exposure_time_ms: expo_t,
        dist_millipct: dist_pct,
        time_millipct: time_pct,
        mean_distance_um: mean,
        median_distance_um: median,
    };
    Ok((report, accums))
}

} // verus!

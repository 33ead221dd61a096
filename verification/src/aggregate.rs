//! Exposure aggregator: runs the sub-step simulator in both temporal
//! directions over every candidate pair, deduplicates contributions per
//! (camera, point index) pair, and accumulates per-camera and per-point
//! totals.
//!
//! Distances are accumulated in millimeters, times in milliseconds, both
//! as 128-bit integers; the bound lemmas below show that no accumulator
//! can overflow within one backward-then-forward run.
use vstd::prelude::*;
use std::collections::HashSet;
use crate::camera::Camera;
use crate::camera::valid_cameras;
use crate::geo::DistanceMode;
use crate::geo::GeoPos;
use crate::geo::MAX_DIST_MM;
use crate::geo::abs_i;
use crate::geo::bearing_mdeg;
use crate::geo::distance_between;
use crate::geo::lemma_distance_bounds;
use crate::geo::spec_bearing;
use crate::geo::spec_distance;
use crate::numeric::lemma_div_le;
use crate::numeric::lemma_mul_le;
use crate::scan::spec_candidates_at;
use crate::scan::lemma_candidates_prefix_wf;
use crate::simulate::RESOLUTION_MM;
use crate::simulate::lemma_simulate_steps_range;
use crate::simulate::simulate_steps;
use crate::simulate::spec_simulate_steps;
use crate::track::TrackPoint;
use crate::track::MAX_TIME_S;
use crate::track::all_times_present;
use crate::track::valid_point;
use crate::track::time_of;
use crate::track::valid_segment;

verus! {

broadcast use vstd::std_specs::hash::group_hash_axioms;

/// Upper bound on a single contribution of one candidate pair, in
/// millimeters or milliseconds.
pub const CONTRIB_MAX: u128 = 100_000_000_000_000_000;

/// Largest accumulator value a pass accepts on entry; leaves room for one
/// full pass of contributions below `u128::MAX`.
pub const ACCUM_CAP: u128 = 0x400_0000_0000_0000_0000_0000_0000_0000;

/// Model of one camera's accumulated exposure.
pub ghost struct CamAccumModel {
    pub pts: Set<usize>,
    pub dist_mm: int,
    pub time_ms: int,
}

/// Model of the aggregator state within one candidate list: the per-camera
/// accumulators plus the running per-point maxima.
pub ghost struct InnerState {
    pub accums: Seq<CamAccumModel>,
    pub hd: int,
    pub ht: int,
}

/// Model of a whole directional pass: accumulators and the summed
/// per-point maxima.
pub ghost struct PassState {
    pub accums: Seq<CamAccumModel>,
    pub total_dist: int,
    pub total_time: int,
}

/// Per-camera exposure accumulator: the set of track-point indices already
/// attributed, and the running distance and time totals.
#[derive(Debug)]
pub struct CameraExposure {
    pub points: HashSet<usize>,
    pub dist_mm: u128,
    pub time_ms: u128,
}

impl View for CameraExposure {
    type V = CamAccumModel;

    open spec fn view(&self) -> CamAccumModel {
        CamAccumModel { pts: self.points@, dist_mm: self.dist_mm as int, time_ms: self.time_ms as int }
    }
}

/// A fresh, empty set of exposed track-point indices.
pub fn default_set() -> (s: HashSet<usize>)
    ensures
        s@ == Set::<usize>::empty(),
{
    HashSet::new()
}

impl CameraExposure {
    /// A fresh accumulator with nothing attributed.
    pub fn new() -> (r: CameraExposure)
        ensures
            r@.pts == Set::<usize>::empty(),
            r@.dist_mm == 0,
            r@.time_ms == 0,
    {
        CameraExposure { points: default_set(), dist_mm: 0, time_ms: 0 }
    }
}

/// The models of a vector of accumulators.
pub open spec fn models(s: Seq<CameraExposure>) -> Seq<CamAccumModel> {
    s.map_values(|c: CameraExposure| c@)
}

/// The views of the candidate map rows.
pub open spec fn row_views(m: Seq<Vec<usize>>) -> Seq<Seq<usize>> {
    m.map_values(|v: Vec<usize>| v@)
}

/// The neighbor index of point `k` in the given direction.
pub open spec fn spec_neighbor(k: int, backward: bool) -> int {
    if backward {
        k - 1
    } else {
        k + 1
    }
}

/// A point is at the segment boundary for the given direction: it has no
/// neighbor there and is skipped entirely.
pub open spec fn spec_boundary(len: int, k: int, backward: bool) -> bool {
    if backward {
        k == 0
    } else {
        k == len - 1
    }
}

/// The planar gap between point `k` and its neighbor.
pub open spec fn spec_gap_mm(mode: DistanceMode, seg: Seq<TrackPoint>, k: int, backward: bool) -> int {
    spec_distance(mode, seg[k].pos, seg[spec_neighbor(k, backward)].pos)
}

/// The course from point `k` toward its neighbor.
pub open spec fn spec_course(seg: Seq<TrackPoint>, k: int, backward: bool) -> int {
    spec_bearing(seg[k].pos, seg[spec_neighbor(k, backward)].pos)
}

/// Number of micro-steps covering a gap: the gap divided by the step
/// resolution, rounded half-up, and at least 1.
pub open spec fn spec_steps(gap_mm: int) -> int {
    if gap_mm > RESOLUTION_MM {
        (gap_mm + 250) / 500
    } else {
        1
    }
}

/// Milliseconds between point `k` and its neighbor.
pub open spec fn spec_dt_ms(seg: Seq<TrackPoint>, k: int, backward: bool) -> int {
    abs_i(time_of(seg[spec_neighbor(k, backward)]) - time_of(seg[k])) * 1_000
}

/// Estimated number of visible micro-steps for pair `(k, j)`: reused in
/// full when the backward pass finds the same camera already a candidate
/// at the previous point (continuous coverage between two consecutive
/// detections), otherwise simulated.
pub open spec fn spec_pseudo_steps(
    mode: DistanceMode,
    seg: Seq<TrackPoint>,
    cams: Seq<Camera>,
    cmap: Seq<Seq<usize>>,
    backward: bool,
    k: int,
    j: int,
) -> int {
    let steps = spec_steps(spec_gap_mm(mode, seg, k, backward));
    if backward && k >= 1 && cmap[k - 1].contains(j as usize) {
        steps
    } else {
        spec_simulate_steps(mode, seg[k].pos, cams[j], spec_course(seg, k, backward), steps)
    }
}

/// Estimated exposure distance of one pair, in millimeters.
pub open spec fn spec_cam_dist(
    mode: DistanceMode,
    seg: Seq<TrackPoint>,
    cams: Seq<Camera>,
    cmap: Seq<Seq<usize>>,
    backward: bool,
    k: int,
    j: int,
) -> int {
    spec_pseudo_steps(mode, seg, cams, cmap, backward, k, j) * 500
}

/// Estimated exposure time of one pair, in milliseconds: the exposure
/// distance divided by the segment speed where that speed is nonzero,
/// else the raw neighbor time delta.
pub open spec fn spec_cam_time(
    mode: DistanceMode,
    seg: Seq<TrackPoint>,
    cams: Seq<Camera>,
    cmap: Seq<Seq<usize>>,
    backward: bool,
    k: int,
    j: int,
) -> int {
    let gap = spec_gap_mm(mode, seg, k, backward);
    let dt = spec_dt_ms(seg, k, backward);
    if gap > 0 && dt > 0 {
        (spec_cam_dist(mode, seg, cams, cmap, backward, k, j) * dt) / gap
    } else {
        dt
    }
}

/// One candidate pair applied to the aggregator state. In the forward
/// direction a pair whose camera already holds the neighbor index is
/// skipped wholly; otherwise the contribution enters the per-point maxima,
/// and the accumulator of camera `j` only if point `k` is not already
/// attributed to it.
pub open spec fn spec_apply_pair(
    st: InnerState,
    mode: DistanceMode,
    seg: Seq<TrackPoint>,
    cams: Seq<Camera>,
    cmap: Seq<Seq<usize>>,
    backward: bool,
    k: int,
    j: int,
) -> InnerState {
    if !backward && st.accums[j].pts.contains((k + 1) as usize) {
        st
    } else {
        let cd = spec_cam_dist(mode, seg, cams, cmap, backward, k, j);
        let ct = spec_cam_time(mode, seg, cams, cmap, backward, k, j);
        let hd2 = if cd > st.hd {
            cd
        } else {
            st.hd
        };
        let ht2 = if ct > st.ht {
            ct
        } else {
            st.ht
        };
        let acc = st.accums[j];
        let acc2 = if acc.pts.contains(k as usize) {
            acc
        } else {
            CamAccumModel {
                pts: acc.pts.insert(k as usize),
                dist_mm: acc.dist_mm + cd,
                time_ms: acc.time_ms + ct,
            }
        };
        InnerState { accums: st.accums.update(j, acc2), hd: hd2, ht: ht2 }
    }
}

/// A pair whose point index is already in the camera's exposed-points set
/// leaves that camera's accumulator exactly as it is: a (camera, point
/// index) pair contributes to the accumulated distance and time at most
/// once across a run.
pub proof fn lemma_pair_attributed_once(
    st: InnerState,
    mode: DistanceMode,
    seg: Seq<TrackPoint>,
    cams: Seq<Camera>,
    cmap: Seq<Seq<usize>>,
    backward: bool,
    k: int,
    j: int,
)
    requires
        0 <= j < st.accums.len(),
        st.accums[j].pts.contains(k as usize),
    ensures
        spec_apply_pair(st, mode, seg, cams, cmap, backward, k, j).accums == st.accums,
{
    let r = spec_apply_pair(st, mode, seg, cams, cmap, backward, k, j);
    assert(r.accums =~= st.accums);
}

/// The first `n` pairs of one candidate list applied in order.
pub open spec fn spec_inner(
    st0: InnerState,
    mode: DistanceMode,
    seg: Seq<TrackPoint>,
    cams: Seq<Camera>,
    cmap: Seq<Seq<usize>>,
    backward: bool,
    k: int,
    list: Seq<usize>,
    n: int,
) -> InnerState
    decreases n,
{
    if n <= 0 {
        st0
    } else {
        spec_apply_pair(
            spec_inner(st0, mode, seg, cams, cmap, backward, k, list, n - 1),
            mode,
            seg,
            cams,
            cmap,
            backward,
            k,
            list[n - 1] as int,
        )
    }
}

/// One track point applied to a pass: boundary points are skipped; for the
/// rest, every candidate pair is applied and the per-point maxima join the
/// pass totals.
pub open spec fn spec_point_step(
    ps: PassState,
    mode: DistanceMode,
    seg: Seq<TrackPoint>,
    cams: Seq<Camera>,
    cmap: Seq<Seq<usize>>,
    backward: bool,
    k: int,
) -> PassState {
    if spec_boundary(seg.len() as int, k, backward) {
        ps
    } else {
        let st0 = InnerState { accums: ps.accums, hd: 0, ht: 0 };
        let r = spec_inner(st0, mode, seg, cams, cmap, backward, k, cmap[k], cmap[k].len() as int);
        PassState {
            accums: r.accums,
            total_dist: ps.total_dist + r.hd,
            total_time: ps.total_time + r.ht,
        }
    }
}

/// The first `k` track points of a directional pass applied in order.
pub open spec fn spec_pass_prefix(
    init: Seq<CamAccumModel>,
    mode: DistanceMode,
    seg: Seq<TrackPoint>,
    cams: Seq<Camera>,
    cmap: Seq<Seq<usize>>,
    backward: bool,
    k: int,
) -> PassState
    decreases k,
{
    if k <= 0 {
        PassState { accums: init, total_dist: 0, total_time: 0 }
    } else {
        spec_point_step(
            spec_pass_prefix(init, mode, seg, cams, cmap, backward, k - 1),
            mode,
            seg,
            cams,
            cmap,
            backward,
            k - 1,
        )
    }
}

/// A whole directional pass over the segment.
pub open spec fn spec_pass(
    init: Seq<CamAccumModel>,
    mode: DistanceMode,
    seg: Seq<TrackPoint>,
    cams: Seq<Camera>,
    cmap: Seq<Seq<usize>>,
    backward: bool,
) -> PassState {
    spec_pass_prefix(init, mode, seg, cams, cmap, backward, seg.len() as int)
}

/// The candidate map matches the scanner's output for this segment and
/// catalog.
pub open spec fn cmap_matches(
    cmap: Seq<Seq<usize>>,
    mode: DistanceMode,
    seg: Seq<TrackPoint>,
    cams: Seq<Camera>,
) -> bool {
    &&& cmap.len() == seg.len()
    &&& forall|p: int|
        0 <= p < seg.len() ==> #[trigger] cmap[p] == spec_candidates_at(mode, seg, cams, p)
}

/// One pair's contribution is bounded by `CONTRIB_MAX`.
pub proof fn lemma_contrib_bounds(
    mode: DistanceMode,
    seg: Seq<TrackPoint>,
    cams: Seq<Camera>,
    cmap: Seq<Seq<usize>>,
    backward: bool,
    k: int,
    j: int,
)
    requires
        valid_segment(seg),
        all_times_present(seg),
        0 <= k < seg.len(),
        !spec_boundary(seg.len() as int, k, backward),
    ensures
        0 <= spec_cam_dist(mode, seg, cams, cmap, backward, k, j) <= CONTRIB_MAX,
        0 <= spec_cam_time(mode, seg, cams, cmap, backward, k, j) <= CONTRIB_MAX,
{
    let nk = spec_neighbor(k, backward);
    assert(0 <= nk < seg.len());
    lemma_distance_bounds(mode, seg[k].pos, seg[nk].pos);
    let gap = spec_gap_mm(mode, seg, k, backward);
    let steps = spec_steps(gap);
    if gap > RESOLUTION_MM {
        lemma_div_le(gap + 250, gap + 250, 500);
        assert((gap + 250) / 500 <= gap) by (nonlinear_arith)
            requires
                gap > 500,
        ;
        assert(1 <= (gap + 250) / 500) by (nonlinear_arith)
            requires
                gap > 500,
        ;
    }
    assert(1 <= steps);
    assert(steps * 500 <= gap + 250 || gap <= RESOLUTION_MM) by (nonlinear_arith)
        requires
            steps == spec_steps(gap),
            steps == if gap > 500 {
                (gap + 250) / 500
            } else {
                1
            },
    ;
    let ps = spec_pseudo_steps(mode, seg, cams, cmap, backward, k, j);
    lemma_simulate_steps_range(
        mode,
        seg[k].pos,
        cams[j],
        spec_course(seg, k, backward),
        steps,
    );
    assert(0 <= ps <= steps);
    let cd = spec_cam_dist(mode, seg, cams, cmap, backward, k, j);
    assert(cd == ps * 500);
    lemma_mul_le(ps, 500, steps, 500);
    assert(0 <= cd) by (nonlinear_arith)
        requires
            cd == ps * 500,
            0 <= ps,
    ;
    assert(steps * 500 <= CONTRIB_MAX as int);
    let dt = spec_dt_ms(seg, k, backward);
    assert(abs_i(time_of(seg[nk]) - time_of(seg[k])) <= 2 * MAX_TIME_S);
    assert(0 <= dt <= 2 * MAX_TIME_S * 1_000) by (nonlinear_arith)
        requires
            dt == abs_i(time_of(seg[nk]) - time_of(seg[k])) * 1_000,
            0 <= abs_i(time_of(seg[nk]) - time_of(seg[k])) <= 2 * MAX_TIME_S,
    ;
    let ct = spec_cam_time(mode, seg, cams, cmap, backward, k, j);
    if gap > 0 && dt > 0 {
        assert(steps <= gap) by (nonlinear_arith)
            requires
                steps == if gap > 500 {
                    (gap + 250) / 500
                } else {
                    1
                },
            1 <= gap,
        ;
        lemma_mul_le(ps, 500, gap, 500);
        assert(cd <= gap * 500) by (nonlinear_arith)
            requires
                cd == ps * 500,
                0 <= ps <= gap,
        ;
        lemma_mul_le(cd, dt, gap * 500, dt);
        assert(0 <= cd * dt) by (nonlinear_arith)
            requires
                0 <= cd,
                0 <= dt,
        ;
        lemma_div_le(cd * dt, gap * 500 * dt, gap);
        assert((gap * 500 * dt) / gap == 500 * dt) by (nonlinear_arith)
            requires
                1 <= gap,
        ;
        assert(500 * dt <= CONTRIB_MAX as int);
    }
}

/// Applying one candidate list moves each accumulator by at most one
/// bounded contribution; untouched accumulators stay exactly as they were,
/// and the maxima stay below `CONTRIB_MAX`.
pub proof fn lemma_inner_bounds(
    st0: InnerState,
    mode: DistanceMode,
    seg: Seq<TrackPoint>,
    cams: Seq<Camera>,
    cmap: Seq<Seq<usize>>,
    backward: bool,
    k: int,
    list: Seq<usize>,
    n: int,
)
    requires
        valid_segment(seg),
        all_times_present(seg),
        0 <= k < seg.len(),
        !spec_boundary(seg.len() as int, k, backward),
        0 <= n <= list.len(),
        forall|a: int, b: int| 0 <= a < b < list.len() ==> #[trigger] list[a] < #[trigger] list[b],
        forall|a: int| 0 <= a < list.len() ==> (#[trigger] list[a]) < st0.accums.len(),
    ensures
        spec_inner(st0, mode, seg, cams, cmap, backward, k, list, n).accums.len()
            == st0.accums.len(),
        forall|j: int|
            0 <= j < st0.accums.len() ==> ((#[trigger] spec_inner(
                st0,
                mode,
                seg,
                cams,
                cmap,
                backward,
                k,
                list,
                n,
            ).accums[j]) == st0.accums[j] || (st0.accums[j].dist_mm <= spec_inner(
                st0,
                mode,
                seg,
                cams,
                cmap,
                backward,
                k,
                list,
                n,
            ).accums[j].dist_mm <= st0.accums[j].dist_mm + CONTRIB_MAX && st0.accums[j].time_ms
                <= spec_inner(st0, mode, seg, cams, cmap, backward, k, list, n).accums[j].time_ms
                <= st0.accums[j].time_ms + CONTRIB_MAX && (exists|a: int|
                0 <= a < n && #[trigger] list[a] == j))),
        st0.hd <= spec_inner(st0, mode, seg, cams, cmap, backward, k, list, n).hd,
        st0.ht <= spec_inner(st0, mode, seg, cams, cmap, backward, k, list, n).ht,
        spec_inner(st0, mode, seg, cams, cmap, backward, k, list, n).hd <= if st0.hd
            > CONTRIB_MAX as int {
            st0.hd
        } else {
            CONTRIB_MAX as int
        },
        spec_inner(st0, mode, seg, cams, cmap, backward, k, list, n).ht <= if st0.ht
            > CONTRIB_MAX as int {
            st0.ht
        } else {
            CONTRIB_MAX as int
        },
    decreases n,
{
    if n > 0 {
        lemma_inner_bounds(st0, mode, seg, cams, cmap, backward, k, list, n - 1);
        let prev = spec_inner(st0, mode, seg, cams, cmap, backward, k, list, n - 1);
        let cur = spec_inner(st0, mode, seg, cams, cmap, backward, k, list, n);
        let e = list[n - 1] as int;
        lemma_contrib_bounds(mode, seg, cams, cmap, backward, k, e);
        assert(cur == spec_apply_pair(prev, mode, seg, cams, cmap, backward, k, e));
        assert forall|a: int| 0 <= a < n - 1 implies #[trigger] list[a] != list[n - 1] by {
            assert(list[a] < list[n - 1]);
        }
        assert(prev.accums[e] == st0.accums[e] || (exists|a: int|
            0 <= a < n - 1 && list[a] == e));
        assert(prev.accums[e] == st0.accums[e]);
    }
}

/// A directional pass moves each accumulator by at most one bounded
/// contribution per point, and its totals by at most one per point.
pub proof fn lemma_pass_bounds(
    init: Seq<CamAccumModel>,
    mode: DistanceMode,
    seg: Seq<TrackPoint>,
    cams: Seq<Camera>,
    cmap: Seq<Seq<usize>>,
    backward: bool,
    k: int,
)
    requires
        valid_segment(seg),
        all_times_present(seg),
        cmap_matches(cmap, mode, seg, cams),
        init.len() == cams.len(),
        cams.len() <= usize::MAX,
        0 <= k <= seg.len(),
    ensures
        spec_pass_prefix(init, mode, seg, cams, cmap, backward, k).accums.len() == init.len(),
        forall|j: int|
            0 <= j < init.len() ==> init[j].dist_mm <= (#[trigger] spec_pass_prefix(
                init,
                mode,
                seg,
                cams,
                cmap,
                backward,
                k,
            ).accums[j]).dist_mm <= init[j].dist_mm + k * (CONTRIB_MAX as int),
        forall|j: int|
            0 <= j < init.len() ==> init[j].time_ms <= (#[trigger] spec_pass_prefix(
                init,
                mode,
                seg,
                cams,
                cmap,
                backward,
                k,
            ).accums[j]).time_ms <= init[j].time_ms + k * (CONTRIB_MAX as int),
        0 <= spec_pass_prefix(init, mode, seg, cams, cmap, backward, k).total_dist <= k * (
        CONTRIB_MAX as int),
        0 <= spec_pass_prefix(init, mode, seg, cams, cmap, backward, k).total_time <= k * (
        CONTRIB_MAX as int),
    decreases k,
{
    if k > 0 {
        lemma_pass_bounds(init, mode, seg, cams, cmap, backward, k - 1);
        let prev = spec_pass_prefix(init, mode, seg, cams, cmap, backward, k - 1);
        let cur = spec_pass_prefix(init, mode, seg, cams, cmap, backward, k);
        assert((k - 1) * (CONTRIB_MAX as int) + CONTRIB_MAX as int == k * (CONTRIB_MAX as int))
            by (nonlinear_arith);
        assert(0 <= (k - 1) * (CONTRIB_MAX as int)) by (nonlinear_arith)
            requires
                k >= 1,
        ;
        if !spec_boundary(seg.len() as int, k - 1, backward) {
            let st0 = InnerState { accums: prev.accums, hd: 0, ht: 0 };
            lemma_candidates_prefix_wf(mode, seg, cams, k - 1, cams.len() as int);
            lemma_inner_bounds(
                st0,
                mode,
                seg,
                cams,
                cmap,
                backward,
                k - 1,
                cmap[k - 1],
                cmap[k - 1].len() as int,
            );
        }
    } else {
        assert(k * (CONTRIB_MAX as int) == 0) by (nonlinear_arith)
            requires
                k == 0,
        ;
    }
}

/// A membership test over a candidate list.
fn vec_contains(v: &Vec<usize>, x: usize) -> (r: bool)
    ensures
        r == v@.contains(x),
{
    let mut i: usize = 0;
    while i < v.len()
        invariant
            i <= v@.len(),
            forall|t: int| 0 <= t < i ==> v@[t] != x,
        decreases v@.len() - i,
    {
        if v[i] == x {
            return true;
        }
        i = i + 1;
    }
    false
}

/// A vector of fresh accumulators, one per camera.
pub fn fresh_accumulators(n: usize) -> (r: Vec<CameraExposure>)
    ensures
        r@.len() == n,
        forall|j: int|
            0 <= j < n ==> (#[trigger] models(r@)[j]) == (CamAccumModel {
                pts: Set::<usize>::empty(),
                dist_mm: 0,
                time_ms: 0,
            }),
{
    let mut r: Vec<CameraExposure> = Vec::new();
    let mut i: usize = 0;
    while i < n
        invariant
            i <= n,
            r@.len() == i,
            forall|j: int|
                0 <= j < i ==> (#[trigger] r@[j])@.pts == Set::<usize>::empty() && r@[j]@.dist_mm
                    == 0 && r@[j]@.time_ms == 0,
        decreases n - i,
    {
        r.push(CameraExposure::new());
        i = i + 1;
    }
    proof {
        assert forall|j: int| 0 <= j < n implies (#[trigger] models(r@)[j]) == (CamAccumModel {
            pts: Set::<usize>::empty(),
            dist_mm: 0,
            time_ms: 0,
        }) by {
            assert(models(r@)[j] == r@[j]@);
        }
    }
    r
}

/// Apply one candidate pair to the accumulators and the per-point maxima;
/// the executable counterpart of `spec_apply_pair`.
#[verifier::rlimit(100)]
fn apply_pair(
    accums: &mut Vec<CameraExposure>,
    hd: u128,
    ht: u128,
    mode: DistanceMode,
    seg: &Vec<TrackPoint>,
    cams: &Vec<Camera>,
    cmap: &Vec<Vec<usize>>,
    backward: bool,
    k: usize,
    nk: usize,
    j: usize,
    p0: GeoPos,
    course: u64,
    gap: u64,
    steps: u64,
    dt_ms: u64,
    Ghost(cm): Ghost<Seq<Seq<usize>>>,
    Ghost(st): Ghost<InnerState>,
) -> (r: (u128, u128))
    requires
        valid_segment(seg@),
        valid_cameras(cams@),
        all_times_present(seg@),
        cm == row_views(cmap@),
        cmap@.len() == seg@.len(),
        st.accums == models(old(accums)@),
        st.hd == hd as int,
        st.ht == ht as int,
        old(accums)@.len() == cams@.len(),
        j < cams@.len(),
        k < seg@.len(),
        nk == spec_neighbor(k as int, backward),
        0 <= (nk as int) < seg@.len(),
        !spec_boundary(seg@.len() as int, k as int, backward),
        p0 == seg@[k as int].pos,
        course == spec_course(seg@, k as int, backward),
        course < 360_000,
        gap == spec_gap_mm(mode, seg@, k as int, backward),
        gap <= MAX_DIST_MM,
        steps == spec_steps(gap as int),
        dt_ms == spec_dt_ms(seg@, k as int, backward),
        forall|q: int|
            0 <= q < old(accums)@.len() ==> (#[trigger] old(accums)@[q]@).dist_mm <= 0x800_0000_0000_0000_0000_0000_0000_0000 as int && old(accums)@[q]@.time_ms <= 0x800_0000_0000_0000_0000_0000_0000_0000 as int,
        hd <= CONTRIB_MAX,
        ht <= CONTRIB_MAX,
    ensures
        final(accums)@.len() == old(accums)@.len(),
        (InnerState { accums: models(final(accums)@), hd: r.0 as int, ht: r.1 as int })
            == spec_apply_pair(st, mode, seg@, cams@, cm, backward, k as int, j as int),
{
    proof {
        lemma_contrib_bounds(mode, seg@, cams@, cm, backward, k as int, j as int);
        assert(models(accums@)[j as int] == accums@[j as int]@);
    }
    let skip: bool = if !backward {
        accums[j].points.contains(&(k + 1))
    } else {
        false
    };
    if skip {
        proof {
            assert(models(accums@) =~= spec_apply_pair(
                st,
                mode,
                seg@,
                cams@,
                cm,
                backward,
                k as int,
                j as int,
            ).accums);
        }
        return (hd, ht);
    }
    proof {
        if k >= 1 {
            assert(cm[k as int - 1] == cmap@[k as int - 1]@);
        }
        lemma_div_le(gap as int + 250, MAX_DIST_MM as int + 250, 500);
        assert(seg@[k as int].time_s is Some && seg@[nk as int].time_s is Some);
        assert(valid_point(seg@[k as int]) && valid_point(seg@[nk as int]));
    }
    let pseudo: u64 = if backward && k >= 1 && vec_contains(&cmap[k - 1], j) {
        steps
    } else {
        simulate_steps(mode, &p0, &cams[j], course, steps)
    };
    proof {
        assert(steps <= 90_000_000_001);
        assert(pseudo == spec_pseudo_steps(mode, seg@, cams@, cm, backward, k as int, j as int));
        assert(dt_ms <= 2 * MAX_TIME_S * 1_000);
    }
    let cd: u128 = (pseudo as u128) * 500;
    proof {
        lemma_mul_le(cd as int, dt_ms as int, 45_000_000_000_500, 68_719_476_736_000);
    }
    let ct: u128 = if gap > 0 && dt_ms > 0 {
        (cd * (dt_ms as u128)) / (gap as u128)
    } else {
        dt_ms as u128
    };
    proof {
        assert(cd == spec_cam_dist(mode, seg@, cams@, cm, backward, k as int, j as int));
        assert(ct == spec_cam_time(mode, seg@, cams@, cm, backward, k as int, j as int));
        assert(cd <= CONTRIB_MAX && ct <= CONTRIB_MAX);
    }
    let hd2: u128 = if cd > hd {
        cd
    } else {
        hd
    };
    let ht2: u128 = if ct > ht {
        ct
    } else {
        ht
    };
    let already: bool = accums[j].points.contains(&k);
    if !already {
        proof {
            assert(accums@[j as int]@.dist_mm <= 0x800_0000_0000_0000_0000_0000_0000_0000 as int && accums@[j as int]@.time_ms
                <= 0x800_0000_0000_0000_0000_0000_0000_0000 as int);
        }
        let entry = &mut accums[j];
        entry.points.insert(k);
        proof {
            assert(entry.dist_mm as int <= 0x800_0000_0000_0000_0000_0000_0000_0000 as int);
            assert(entry.time_ms as int <= 0x800_0000_0000_0000_0000_0000_0000_0000 as int);
        }
        entry.dist_mm = entry.dist_mm + cd;
        entry.time_ms = entry.time_ms + ct;
    }
    proof {
        assert(models(accums@) =~= spec_apply_pair(
            st,
            mode,
            seg@,
            cams@,
            cm,
            backward,
            k as int,
            j as int,
        ).accums);
    }
    (hd2, ht2)
}

/// One directional pass of the exposure aggregator, in track-point order.
/// Mutates the per-camera accumulators exactly as the pass model says and
/// returns the summed per-point maxima (distance in millimeters, time in
/// milliseconds).
#[verifier::rlimit(100)]
pub fn aggregate_direction(
    accums: &mut Vec<CameraExposure>,
    mode: DistanceMode,
    seg: &Vec<TrackPoint>,
    cams: &Vec<Camera>,
    cmap: &Vec<Vec<usize>>,
    backward: bool,
) -> (totals: (u128, u128))
    requires
        valid_segment(seg@),
        valid_cameras(cams@),
        all_times_present(seg@),
        old(accums)@.len() == cams@.len(),
        cmap_matches(row_views(cmap@), mode, seg@, cams@),
        forall|j: int|
            0 <= j < old(accums)@.len() ==> (#[trigger] old(accums)@[j]@).dist_mm
                <= ACCUM_CAP as int && old(accums)@[j]@.time_ms <= ACCUM_CAP as int,
    ensures
        models(final(accums)@) == spec_pass(
            models(old(accums)@),
            mode,
            seg@,
            cams@,
            row_views(cmap@),
            backward,
        ).accums,
        totals.0 == spec_pass(
            models(old(accums)@),
            mode,
            seg@,
            cams@,
            row_views(cmap@),
            backward,
        ).total_dist,
        totals.1 == spec_pass(
            models(old(accums)@),
            mode,
            seg@,
            cams@,
            row_views(cmap@),
            backward,
        ).total_time,
        final(accums)@.len() == cams@.len(),
{
    let n_cams: usize = cams.len();
    let ghost cm = row_views(cmap@);
    let ghost init = models(old(accums)@);
    let mut total_dist: u128 = 0;
    let mut total_time: u128 = 0;
    let mut k: usize = 0;
    while k < seg.len()
        invariant
            k <= seg@.len(),
            accums@.len() == cams@.len(),
            valid_segment(seg@),
            valid_cameras(cams@),
            all_times_present(seg@),
            cm == row_views(cmap@),
            init == models(old(accums)@),
            n_cams == cams@.len(),
            init.len() == cams@.len(),
            cmap_matches(cm, mode, seg@, cams@),
            forall|j: int|
                0 <= j < init.len() ==> (#[trigger] init[j]).dist_mm <= ACCUM_CAP as int
                    && init[j].time_ms <= ACCUM_CAP as int,
            models(accums@) == spec_pass_prefix(init, mode, seg@, cams@, cm, backward, k as int).accums,
            total_dist == spec_pass_prefix(init, mode, seg@, cams@, cm, backward, k as int).total_dist,
            total_time == spec_pass_prefix(init, mode, seg@, cams@, cm, backward, k as int).total_time,
        decreases seg@.len() - k,
    {
        let ghost prev_ps = spec_pass_prefix(init, mode, seg@, cams@, cm, backward, k as int);
        let is_boundary: bool = if backward {
            k == 0
        } else {
            k == seg.len() - 1
        };
        if !is_boundary {
            let nk: usize = if backward {
                k - 1
            } else {
                k + 1
            };
            let p0 = seg[k].pos;
            let p1 = seg[nk].pos;
            let course: u64 = bearing_mdeg(&p0, &p1);
            let gap: u64 = distance_between(mode, &p0, &p1);
            let steps: u64 = if gap > RESOLUTION_MM {
                (gap + 250) / 500
            } else {
                1
            };
            let t0: i64 = match seg[k].time_s {
                Some(t) => t,
                None => 0,
            };
            let t1: i64 = match seg[nk].time_s {
                Some(t) => t,
                None => 0,
            };
            let dt_abs: i64 = if t1 >= t0 {
                t1 - t0
            } else {
                t0 - t1
            };
            let dt_ms: u64 = (dt_abs as u64) * 1_000;
            let row = &cmap[k];
            let mut hd: u128 = 0;
            let mut ht: u128 = 0;
            let mut idx: usize = 0;
            let ghost st0 = InnerState { accums: prev_ps.accums, hd: 0, ht: 0 };
            proof {
                lemma_pass_bounds(init, mode, seg@, cams@, cm, backward, k as int);
                lemma_candidates_prefix_wf(mode, seg@, cams@, k as int, n_cams as int);
            }
            while idx < row.len()
                invariant
                    idx <= row@.len(),
                    k < seg@.len(),
                    nk == if backward { (k - 1) as int } else { (k + 1) as int },
                    0 <= nk < seg@.len(),
                    !spec_boundary(seg@.len() as int, k as int, backward),
                    accums@.len() == cams@.len(),
                    valid_segment(seg@),
                    valid_cameras(cams@),
                    all_times_present(seg@),
                    cm == row_views(cmap@),
                    init.len() == cams@.len(),
                    n_cams == cams@.len(),
                    cmap_matches(cm, mode, seg@, cams@),
                    forall|j: int|
                        0 <= j < init.len() ==> (#[trigger] init[j]).dist_mm <= ACCUM_CAP as int
                            && init[j].time_ms <= ACCUM_CAP as int,
                    row@ == cm[k as int],
                    st0 == (InnerState { accums: prev_ps.accums, hd: 0, ht: 0 }),
                    prev_ps == spec_pass_prefix(init, mode, seg@, cams@, cm, backward, k as int),
                    p0 == seg@[k as int].pos,
                    p1 == seg@[nk as int].pos,
                    course == spec_course(seg@, k as int, backward),
                    course < 360_000,
                    gap == spec_gap_mm(mode, seg@, k as int, backward),
                    gap <= MAX_DIST_MM,
                    steps == spec_steps(gap as int),
                    dt_ms == spec_dt_ms(seg@, k as int, backward),
                    (InnerState { accums: models(accums@), hd: hd as int, ht: ht as int })
                        == spec_inner(st0, mode, seg@, cams@, cm, backward, k as int, row@, idx as int),
                decreases row@.len() - idx,
            {
                let ghost prev_inner = spec_inner(
                    st0,
                    mode,
                    seg@,
                    cams@,
                    cm,
                    backward,
                    k as int,
                    row@,
                    idx as int,
                );
                let j: usize = row[idx];
                proof {
                    lemma_pass_bounds(init, mode, seg@, cams@, cm, backward, k as int);
                    lemma_candidates_prefix_wf(mode, seg@, cams@, k as int, n_cams as int);
                    assert(j < cams@.len());
                    lemma_contrib_bounds(mode, seg@, cams@, cm, backward, k as int, j as int);
                    lemma_inner_bounds(
                        st0,
                        mode,
                        seg@,
                        cams@,
                        cm,
                        backward,
                        k as int,
                        row@,
                        idx as int,
                    );
                    assert((k as int) * (CONTRIB_MAX as int) <= 0xFFFF_FFFF_FFFF_FFFF * (
                    CONTRIB_MAX as int)) by (nonlinear_arith)
                        requires
                            0 <= k <= 0xFFFF_FFFF_FFFF_FFFF,
                    ;
                    assert forall|q: int| 0 <= q < accums@.len() implies (#[trigger] accums@[q]@).dist_mm
                        <= 0x800_0000_0000_0000_0000_0000_0000_0000 as int && accums@[q]@.time_ms <= 0x800_0000_0000_0000_0000_0000_0000_0000 as int by {
                        assert(models(accums@)[q] == accums@[q]@);
                        assert(init[q].dist_mm <= ACCUM_CAP as int && init[q].time_ms
                            <= ACCUM_CAP as int);
                        assert(st0.accums[q] == spec_pass_prefix(
                            init,
                            mode,
                            seg@,
                            cams@,
                            cm,
                            backward,
                            k as int,
                        ).accums[q]);
                        assert(st0.accums[q].dist_mm <= init[q].dist_mm + (k as int) * (
                        CONTRIB_MAX as int));
                        assert(st0.accums[q].time_ms <= init[q].time_ms + (k as int) * (
                        CONTRIB_MAX as int));
                        assert(prev_inner.accums[q] == st0.accums[q] || (st0.accums[q].dist_mm
                            <= prev_inner.accums[q].dist_mm <= st0.accums[q].dist_mm + CONTRIB_MAX
                            && st0.accums[q].time_ms <= prev_inner.accums[q].time_ms
                            <= st0.accums[q].time_ms + CONTRIB_MAX && (exists|a: int|
                            0 <= a < idx && row@[a] == q)));
                        assert(accums@[q]@.dist_mm <= ACCUM_CAP as int + 0xFFFF_FFFF_FFFF_FFFF * (
                        CONTRIB_MAX as int) + CONTRIB_MAX as int);
                    }
                }
                let pair = apply_pair(
                    accums,
                    hd,
                    ht,
                    mode,
                    seg,
                    cams,
                    cmap,
                    backward,
                    k,
                    nk,
                    j,
                    p0,
                    course,
                    gap,
                    steps,
                    dt_ms,
                    Ghost(cm),
                    Ghost(prev_inner),
                );
                hd = pair.0;
                ht = pair.1;
                proof {
                    assert(spec_inner(st0, mode, seg@, cams@, cm, backward, k as int, row@, idx + 1)
                        == spec_apply_pair(
                        prev_inner,
                        mode,
                        seg@,
                        cams@,
                        cm,
                        backward,
                        k as int,
                        j as int,
                    ));
                }
                idx = idx + 1;
            }
            proof {
                lemma_pass_bounds(init, mode, seg@, cams@, cm, backward, k as int);
                lemma_candidates_prefix_wf(mode, seg@, cams@, k as int, n_cams as int);
                lemma_inner_bounds(
                    st0,
                    mode,
                    seg@,
                    cams@,
                    cm,
                    backward,
                    k as int,
                    row@,
                    row@.len() as int,
                );
                assert((k as int) * (CONTRIB_MAX as int) <= 0xFFFF_FFFF_FFFF_FFFF * (
                CONTRIB_MAX as int)) by (nonlinear_arith)
                    requires
                        0 <= k <= 0xFFFF_FFFF_FFFF_FFFF,
                ;
            }
            total_dist = total_dist + hd;
            total_time = total_time + ht;
            proof {
                let next_ps = spec_pass_prefix(init, mode, seg@, cams@, cm, backward, k + 1);
                assert(next_ps == spec_point_step(prev_ps, mode, seg@, cams@, cm, backward, k as int));
                assert(models(accums@) == next_ps.accums);
            }
        } else {
            proof {
                let next_ps = spec_pass_prefix(init, mode, seg@, cams@, cm, backward, k + 1);
                assert(next_ps == spec_point_step(prev_ps, mode, seg@, cams@, cm, backward, k as int));
            }
        }
        k = k + 1;
    }
    (total_dist, total_time)
}

} // verus!

//! Candidate scanner: one pass over every (track point, camera) pair.
//!
//! Produces, per point, the list of camera indices visible there with zero
//! tolerance; the set of distinct cameras seen anywhere; and the flat list
//! of every point-to-camera distance, for the summary statistics.
use vstd::prelude::*;
use std::collections::HashSet;
use crate::camera::Camera;
use crate::camera::is_visible;
use crate::camera::spec_is_visible;
use crate::camera::valid_cameras;
use crate::geo::DistanceMode;
use crate::geo::distance_between;
use crate::geo::spec_distance;
use crate::track::TrackPoint;
use crate::track::valid_segment;

verus! {

broadcast use vstd::std_specs::hash::group_hash_axioms;

/// Whether camera `j` sees track point `i` in the initial scan
/// (tolerance zero).
pub open spec fn spec_pair_visible(
    mode: DistanceMode,
    seg: Seq<TrackPoint>,
    cams: Seq<Camera>,
    i: int,
    j: int,
) -> bool {
    spec_is_visible(spec_distance(mode, seg[i].pos, cams[j].pos), cams[j], seg[i].pos, 0)
}

/// Indices of the cameras among the first `j` that see point `i`, in
/// catalog order.
pub open spec fn spec_candidates_prefix(
    mode: DistanceMode,
    seg: Seq<TrackPoint>,
    cams: Seq<Camera>,
    i: int,
    j: int,
) -> Seq<usize>
    decreases j,
{
    if j <= 0 {
        Seq::empty()
    } else {
        let rest = spec_candidates_prefix(mode, seg, cams, i, j - 1);
        if spec_pair_visible(mode, seg, cams, i, j - 1) {
            rest.push((j - 1) as usize)
        } else {
            rest
        }
    }
}

/// The candidate list of point `i`: cameras that see it, in catalog order.
pub open spec fn spec_candidates_at(
    mode: DistanceMode,
    seg: Seq<TrackPoint>,
    cams: Seq<Camera>,
    i: int,
) -> Seq<usize> {
    spec_candidates_prefix(mode, seg, cams, i, cams.len() as int)
}

/// A candidate list is strictly increasing and bounded by the catalog
/// size.
pub proof fn lemma_candidates_prefix_wf(
    mode: DistanceMode,
    seg: Seq<TrackPoint>,
    cams: Seq<Camera>,
    i: int,
    j: int,
)
    requires
        j <= usize::MAX,
    ensures
        forall|a: int, b: int|
            0 <= a < b < spec_candidates_prefix(mode, seg, cams, i, j).len()
                ==> #[trigger] spec_candidates_prefix(mode, seg, cams, i, j)[a]
                < #[trigger] spec_candidates_prefix(mode, seg, cams, i, j)[b],
        forall|a: int|
            0 <= a < spec_candidates_prefix(mode, seg, cams, i, j).len()
                ==> (#[trigger] spec_candidates_prefix(mode, seg, cams, i, j)[a]) < j,
    decreases j,
{
    if j > 0 {
        lemma_candidates_prefix_wf(mode, seg, cams, i, j - 1);
        let rest = spec_candidates_prefix(mode, seg, cams, i, j - 1);
        let cur = spec_candidates_prefix(mode, seg, cams, i, j);
        assert forall|a: int| 0 <= a < cur.len() implies (#[trigger] cur[a]) < j by {
            if spec_pair_visible(mode, seg, cams, i, j - 1) {
                assert(cur == rest.push((j - 1) as usize));
                if a < rest.len() {
                    assert(cur[a] == rest[a]);
                } else {
                    assert(cur[a] == (j - 1) as usize);
                }
            } else {
                assert(cur == rest);
            }
        }
        assert forall|a: int, b: int| 0 <= a < b < cur.len() implies #[trigger] cur[a]
            < #[trigger] cur[b] by {
            if spec_pair_visible(mode, seg, cams, i, j - 1) {
                assert(cur == rest.push((j - 1) as usize));
                if b < rest.len() {
                    assert(cur[a] == rest[a] && cur[b] == rest[b]);
                } else {
                    assert(cur[a] == rest[a] && cur[b] == (j - 1) as usize);
                    assert(rest[a] < j - 1);
                }
            } else {
                assert(cur == rest);
            }
        }
    }
}

/// Distances from point `i` to the first `j` cameras, in catalog order.
pub open spec fn spec_row_distances(
    mode: DistanceMode,
    seg: Seq<TrackPoint>,
    cams: Seq<Camera>,
    i: int,
    j: int,
) -> Seq<u64>
    decreases j,
{
    if j <= 0 {
        Seq::empty()
    } else {
        spec_row_distances(mode, seg, cams, i, j - 1).push(
            spec_distance(mode, seg[i].pos, cams[j - 1].pos) as u64,
        )
    }
}

/// Flat distance list over the first `i` points (all cameras each).
pub open spec fn spec_all_distances_prefix(
    mode: DistanceMode,
    seg: Seq<TrackPoint>,
    cams: Seq<Camera>,
    i: int,
) -> Seq<u64>
    decreases i,
{
    if i <= 0 {
        Seq::empty()
    } else {
        spec_all_distances_prefix(mode, seg, cams, i - 1) + spec_row_distances(
            mode,
            seg,
            cams,
            i - 1,
            cams.len() as int,
        )
    }
}

/// The full flat distance list of the scan.
pub open spec fn spec_all_distances(
    mode: DistanceMode,
    seg: Seq<TrackPoint>,
    cams: Seq<Camera>,
) -> Seq<u64> {
    spec_all_distances_prefix(mode, seg, cams, seg.len() as int)
}

/// Cameras seen at least once over the first `i` points, plus those among
/// the first `j` cameras seen at point `i`.
pub open spec fn spec_unique_upto(
    mode: DistanceMode,
    seg: Seq<TrackPoint>,
    cams: Seq<Camera>,
    i: int,
    j: int,
) -> Set<usize> {
    Set::new(
        |c: usize|
            c < cams.len() && ((exists|r: int|
                0 <= r < i && #[trigger] spec_pair_visible(mode, seg, cams, r, c as int)) || ((
            c as int) < j && spec_pair_visible(mode, seg, cams, i, c as int))),
    )
}

/// The set of distinct camera indices that see at least one track point.
pub open spec fn spec_unique_cams(
    mode: DistanceMode,
    seg: Seq<TrackPoint>,
    cams: Seq<Camera>,
) -> Set<usize> {
    spec_unique_upto(mode, seg, cams, seg.len() as int, 0)
}

/// Walk every track point against every camera: returns the candidate map
/// (one list per point), the set of distinct cameras encountered and the
/// flat distance list.
pub fn scan_candidates(mode: DistanceMode, seg: &Vec<TrackPoint>, cams: &Vec<Camera>) -> (r: (
    Vec<Vec<usize>>,
    HashSet<usize>,
    Vec<u64>,
))
    requires
        valid_segment(seg@),
        valid_cameras(cams@),
    ensures
        r.0@.len() == seg@.len(),
        forall|p: int|
            0 <= p < seg@.len() ==> (#[trigger] r.0@[p])@ == spec_candidates_at(
                mode,
                seg@,
                cams@,
                p,
            ),
        r.1@ == spec_unique_cams(mode, seg@, cams@),
        r.2@ == spec_all_distances(mode, seg@, cams@),
{
    let mut cmap: Vec<Vec<usize>> = Vec::new();
    let mut unique: HashSet<usize> = HashSet::new();
    let mut dists: Vec<u64> = Vec::new();
    let mut i: usize = 0;
    proof {
        assert(unique@ =~= spec_unique_upto(mode, seg@, cams@, 0, 0));
    }
    while i < seg.len()
        invariant
            i <= seg@.len(),
            cmap@.len() == i,
            forall|p: int|
                0 <= p < i ==> (#[trigger] cmap@[p])@ == spec_candidates_at(mode, seg@, cams@, p),
            unique@ == spec_unique_upto(mode, seg@, cams@, i as int, 0),
            dists@ == spec_all_distances_prefix(mode, seg@, cams@, i as int),
            valid_segment(seg@),
            valid_cameras(cams@),
        decreases seg@.len() - i,
    {
        let mut row: Vec<usize> = Vec::new();
        let mut j: usize = 0;
        while j < cams.len()
            invariant
                j <= cams@.len(),
                i < seg@.len(),
                cmap@.len() == i,
                forall|p: int|
                    0 <= p < i ==> (#[trigger] cmap@[p])@ == spec_candidates_at(
                        mode,
                        seg@,
                        cams@,
                        p,
                    ),
                row@ == spec_candidates_prefix(mode, seg@, cams@, i as int, j as int),
                unique@ == spec_unique_upto(mode, seg@, cams@, i as int, j as int),
                dists@ == spec_all_distances_prefix(mode, seg@, cams@, i as int)
                    + spec_row_distances(mode, seg@, cams@, i as int, j as int),
                valid_segment(seg@),
                valid_cameras(cams@),
            decreases cams@.len() - j,
        {
            let d = distance_between(mode, &seg[i].pos, &cams[j].pos);
            dists.push(d);
            let vis = is_visible(d, &cams[j], &seg[i].pos, 0);
            if vis {
                row.push(j);
                unique.insert(j);
                proof {
                    assert(unique@ =~= spec_unique_upto(mode, seg@, cams@, i as int, j + 1));
                }
            } else {
                proof {
                    assert(unique@ =~= spec_unique_upto(mode, seg@, cams@, i as int, j + 1));
                }
            }
            j = j + 1;
        }
        cmap.push(row);
        i = i + 1;
        proof {
            assert(unique@ =~= spec_unique_upto(mode, seg@, cams@, i as int, 0));
        }
    }
    proof {
        assert(dists@ == spec_all_distances(mode, seg@, cams@));
    }
    (cmap, unique, dists)
}

} // verus!

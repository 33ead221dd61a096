//! Sub-step exposure simulator: projects micro-steps of fixed length along
//! a bearing and counts how many stay visible to a camera.
use vstd::prelude::*;
use crate::camera::Camera;
use crate::camera::is_visible;
use crate::camera::spec_is_visible;
use crate::camera::valid_camera;
use crate::geo::DistanceMode;
use crate::geo::GeoPos;
use crate::geo::destination;
use crate::geo::distance_between;
use crate::geo::spec_destination;
use crate::geo::spec_distance;
use crate::geo::valid_pos;

verus! {

/// Length of one simulated micro-step, in millimeters (0.5 m).
pub const RESOLUTION_MM: u64 = 500;

/// Extra radius allowance during simulation, in millimeters (1 m),
/// modelling that a moving subject stays detectable slightly beyond the
/// nominal radius.
pub const TOLERANCE_MM: u64 = 1_000;

/// Number of consecutive projected micro-steps from `start` along
/// `course` that remain visible to `cam`, stopping at the first invisible
/// step or after `max_steps`.
pub open spec fn spec_simulate_steps(
    mode: DistanceMode,
    start: GeoPos,
    cam: Camera,
    course_mdeg: int,
    max_steps: int,
) -> int
    decreases max_steps,
{
    if max_steps <= 0 {
        0
    } else {
        let p2 = spec_destination(start, course_mdeg, RESOLUTION_MM as int);
        let d = spec_distance(mode, p2, cam.pos);
        if spec_is_visible(d, cam, p2, TOLERANCE_MM as int) {
            1 + spec_simulate_steps(mode, p2, cam, course_mdeg, max_steps - 1)
        } else {
            0
        }
    }
}

/// The step count never exceeds the limit and is never negative.
pub proof fn lemma_simulate_steps_range(
    mode: DistanceMode,
    start: GeoPos,
    cam: Camera,
    course_mdeg: int,
    max_steps: int,
)
    ensures
        0 <= spec_simulate_steps(mode, start, cam, course_mdeg, max_steps) <= if max_steps < 0 {
            0
        } else {
            max_steps
        },
    decreases max_steps,
{
    if max_steps > 0 {
        let p2 = spec_destination(start, course_mdeg, RESOLUTION_MM as int);
        lemma_simulate_steps_range(mode, p2, cam, course_mdeg, max_steps - 1);
    }
}

/// Sub-step simulator, executable.
pub fn simulate_steps(
    mode: DistanceMode,
    start: &GeoPos,
    cam: &Camera,
    course_mdeg: u64,
    max_steps: u64,
) -> (r: u64)
    requires
        valid_pos(*start),
        valid_camera(*cam),
        course_mdeg < 360_000,
    ensures
        r == spec_simulate_steps(mode, *start, *cam, course_mdeg as int, max_steps as int),
        r <= max_steps,
{
    let mut cur: GeoPos = *start;
    let mut count: u64 = 0;
    let mut blocked: bool = false;
    while count < max_steps && !blocked
        invariant
            count <= max_steps,
            valid_pos(cur),
            valid_camera(*cam),
            course_mdeg < 360_000,
            !blocked ==> spec_simulate_steps(mode, *start, *cam, course_mdeg as int, max_steps as int)
                == count + spec_simulate_steps(mode, cur, *cam, course_mdeg as int, max_steps - count),
            blocked ==> spec_simulate_steps(mode, *start, *cam, course_mdeg as int, max_steps as int)
                == count,
        decreases max_steps - count + (if blocked { 0int } else { 1int }),
    {
        let p2 = destination(&cur, course_mdeg, RESOLUTION_MM);
        let d = distance_between(mode, &p2, &cam.pos);
        if is_visible(d, cam, &p2, TOLERANCE_MM) {
            count = count + 1;
            cur = p2;
        } else {
            blocked = true;
        }
    }
    count
}

} // verus!

//! Camera records and the visibility policy.
use vstd::prelude::*;
use crate::geo::GeoPos;
use crate::geo::spec_bearing;
use crate::geo::bearing_mdeg;
use crate::geo::valid_pos;

verus! {

/// The detection shape of a camera. An unrecognized catalog value maps to
/// `Other`, which behaves like `Round`: omnidirectional within the radius.
#[derive(Clone, Copy, PartialEq, Eq, Structural, Debug)]
pub enum CameraKind {
    Round,
    Directed,
    Other,
}

/// Placeholder reference heading for directed cameras, in millidegrees.
/// The catalog carries no per-camera orientation, so the field-of-view
/// window is centered on this fixed value; a documented approximation.
pub const REFERENCE_BEARING_MDEG: u64 = 180_000;

/// A catalog record. Metadata fields are carried through for reporting and
/// never interpreted.
#[derive(Debug)]
pub struct Camera {
    pub pos: GeoPos,
    pub kind: CameraKind,
    pub radius_mm: u64,
    pub field_of_view_deg: u64,
    pub model: String,
    pub url: String,
    pub in_streetview: String,
}

/// A camera is valid when its position is in range.
pub open spec fn valid_camera(c: Camera) -> bool {
    valid_pos(c.pos)
}

/// Every camera of the catalog is valid.
pub open spec fn valid_cameras(cams: Seq<Camera>) -> bool {
    forall|j: int| 0 <= j < cams.len() ==> valid_camera(#[trigger] cams[j])
}

/// Whether a camera sees a point at the given distance: never beyond
/// `radius + tolerance`; a `Directed` camera additionally requires the
/// bearing from camera to point to fall within half the field of view
/// (exactly `field_of_view * 500` millidegrees) on either side of the
/// fixed reference heading.
pub open spec fn spec_is_visible(
    dist_mm: int,
    cam: Camera,
    point: GeoPos,
    tolerance_mm: int,
) -> bool {
    if dist_mm > cam.radius_mm + tolerance_mm {
        false
    } else {
        match cam.kind {
            CameraKind::Directed => {
                let half = (cam.field_of_view_deg as int) * 500;
                let b = spec_bearing(cam.pos, point);
                REFERENCE_BEARING_MDEG - half <= b <= REFERENCE_BEARING_MDEG + half
            },
            _ => true,
        }
    }
}

/// Visibility policy, executable.
pub fn is_visible(dist_mm: u64, cam: &Camera, point: &GeoPos, tolerance_mm: u64) -> (r: bool)
    requires
        valid_camera(*cam),
        valid_pos(*point),
    ensures
        r == spec_is_visible(dist_mm as int, *cam, *point, tolerance_mm as int),
{
    if dist_mm as u128 > cam.radius_mm as u128 + tolerance_mm as u128 {
        return false;
    }
    match cam.kind {
        CameraKind::Directed => {
            let half_mdeg: u128 = cam.field_of_view_deg as u128 * 500;
            let b = bearing_mdeg(&cam.pos, point);
            let lo_ok: bool = REFERENCE_BEARING_MDEG as i128 - half_mdeg as i128 <= b as i128;
            let hi_ok: bool = (b as u128) <= REFERENCE_BEARING_MDEG as u128 + half_mdeg;
            lo_ok && hi_ok
        },
        _ => true,
    }
}

/// A directed camera with a 60 degree field of view and the fixed 180
/// degree reference sees a point within range exactly when the bearing
/// from camera to point lies between 150 and 210 degrees.
pub proof fn lemma_directed_fov_window(
    dist_mm: int,
    cam: Camera,
    point: GeoPos,
    tolerance_mm: int,
)
    requires
        cam.kind == CameraKind::Directed,
        cam.field_of_view_deg == 60,
        dist_mm <= cam.radius_mm + tolerance_mm,
    ensures
        spec_is_visible(dist_mm, cam, point, tolerance_mm) <==> (150_000
            <= spec_bearing(cam.pos, point) <= 210_000),
{
}

} // verus!

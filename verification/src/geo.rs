//! Geodesy on fixed-point coordinates.
//!
//! Positions carry latitude and longitude in nanodegrees. Distances are in
//! millimeters, bearings in millidegrees in `[0, 360000)`. The planar
//! distance is an equirectangular approximation (longitude scaled by the
//! cosine of the mean latitude); the spherical distance is the
//! haversine formula on a sphere of radius 6371 km.
use vstd::prelude::*;
use crate::numeric::FP;
use crate::numeric::ASIN_ARG_MAX;
use crate::numeric::asin_taylor;
use crate::numeric::atan_frac;
use crate::numeric::cos_quarter;
use crate::numeric::is_sqrt_floor;
use crate::numeric::isqrt;
use crate::numeric::lemma_asin_taylor_bounds;
use crate::numeric::spec_asin_taylor;
use crate::numeric::lemma_div_le;
use crate::numeric::lemma_mul_le;
use crate::numeric::lemma_sqrt_floor_exists;
use crate::numeric::lemma_sin_quarter_bounds;
use crate::numeric::sin_quarter;
use crate::numeric::spec_atan_frac;
use crate::numeric::spec_cos_quarter;
use crate::numeric::spec_sin_quarter;
use crate::numeric::sq;
use crate::numeric::sqrt_floor;

verus! {

/// Largest representable latitude: 90 degrees in nanodegrees.
pub const MAX_LAT_NDEG: i64 = 90_000_000_000;

/// Largest representable longitude: 180 degrees in nanodegrees.
pub const MAX_LON_NDEG: i64 = 180_000_000_000;

/// Millimeters per degree of arc on the 6371 km sphere
/// (6 371 000 m times pi/180).
pub const MM_PER_ARC_DEG: u64 = 111_194_927;

/// Upper bound on any distance the engine computes, in millimeters.
pub const MAX_DIST_MM: u64 = 45_000_000_000;

/// Upper bound on the haversine distance: half the circumference of the
/// 6371 km sphere, in millimeters.
pub const MAX_GC_MM: u64 = 20_015_086_799;

/// A geographic position in nanodegrees.
#[derive(Clone, Copy, PartialEq, Eq, Structural, Debug)]
pub struct GeoPos {
    pub lat_ndeg: i64,
    pub lon_ndeg: i64,
}

/// A position is valid when both coordinates are in range.
pub open spec fn valid_pos(p: GeoPos) -> bool {
    &&& -MAX_LAT_NDEG <= p.lat_ndeg <= MAX_LAT_NDEG
    &&& -MAX_LON_NDEG <= p.lon_ndeg <= MAX_LON_NDEG
}

/// Absolute value of an integer.
pub open spec fn abs_i(x: int) -> int {
    if x < 0 {
        -x
    } else {
        x
    }
}

/// Cosine of a latitude given in nanodegrees, clamped into `[0, FP]`.
///
/// The clamp removes the tiny negative or above-one residue of the
/// truncated series near the poles and near the equator.
pub open spec fn spec_lat_cos(lat_ndeg: int) -> int {
    let theta = (abs_i(lat_ndeg) * 17_453_293) / 1_000_000_000;
    let c = spec_cos_quarter(theta);
    if c < 0 {
        0
    } else if c > FP as int {
        FP as int
    } else {
        c
    }
}

/// Cosine of the mean latitude of two positions, clamped into `[0, FP]`.
pub open spec fn spec_mean_lat_cos(p0: GeoPos, p1: GeoPos) -> int {
    let theta = (abs_i(p0.lat_ndeg + p1.lat_ndeg) * 17_453_293) / 2_000_000_000;
    let c = spec_cos_quarter(theta);
    if c < 0 {
        0
    } else if c > FP as int {
        FP as int
    } else {
        c
    }
}

/// Cosine of a latitude, fixed point.
pub fn lat_cos(lat_ndeg: i64) -> (r: u64)
    requires
        -MAX_LAT_NDEG <= lat_ndeg <= MAX_LAT_NDEG,
    ensures
        r == spec_lat_cos(lat_ndeg as int),
        r <= FP,
{
    let a: u64 = if lat_ndeg < 0 {
        (-lat_ndeg) as u64
    } else {
        lat_ndeg as u64
    };
    proof {
        lemma_mul_le(a as int, 17_453_293, 90_000_000_000, 17_453_293);
        lemma_div_le(a as int * 17_453_293, (90_000_000_000 * 17_453_293) as int, 1_000_000_000);
    }
    let theta: u64 = ((a as u128 * 17_453_293) / 1_000_000_000) as u64;
    let c = cos_quarter(theta);
    if c < 0 {
        0
    } else if c > FP as i64 {
        FP
    } else {
        c as u64
    }
}

/// Cosine of the mean latitude of two positions, fixed point.
pub fn mean_lat_cos(p0: &GeoPos, p1: &GeoPos) -> (r: u64)
    requires
        valid_pos(*p0),
        valid_pos(*p1),
    ensures
        r == spec_mean_lat_cos(*p0, *p1),
        r <= FP,
{
    let s: i64 = p0.lat_ndeg + p1.lat_ndeg;
    let a: u64 = if s < 0 {
        (-s) as u64
    } else {
        s as u64
    };
    proof {
        lemma_mul_le(a as int, 17_453_293, 180_000_000_000, 17_453_293);
        lemma_div_le(a as int * 17_453_293, (180_000_000_000 * 17_453_293) as int, 2_000_000_000);
    }
    let theta: u64 = ((a as u128 * 17_453_293) / 2_000_000_000) as u64;
    let c = cos_quarter(theta);
    if c < 0 {
        0
    } else if c > FP as i64 {
        FP
    } else {
        c as u64
    }
}

/// Equirectangular distance between two positions, in millimeters: the
/// longitude delta is scaled by the cosine of the mean latitude, the two
/// deltas are combined by Euclidean norm and converted at 111 319 m per
/// degree.
#[verifier::opaque]
pub open spec fn spec_planar_distance(p0: GeoPos, p1: GeoPos) -> int {
    let x = abs_i(p1.lat_ndeg - p0.lat_ndeg);
    let y = (abs_i(p1.lon_ndeg - p0.lon_ndeg) * spec_mean_lat_cos(p0, p1)) / (FP as int);
    let d = sqrt_floor(sq(x) + sq(y));
    (d * 111_319) / 1_000_000
}

/// Equirectangular distance, executable.
pub fn planar_distance(p0: &GeoPos, p1: &GeoPos) -> (r: u64)
    requires
        valid_pos(*p0),
        valid_pos(*p1),
    ensures
        r == spec_planar_distance(*p0, *p1),
        r <= MAX_DIST_MM,
{
    proof {
        reveal(spec_planar_distance);
    }
    let dlat: i64 = p1.lat_ndeg - p0.lat_ndeg;
    let x: u64 = if dlat < 0 {
        (-dlat) as u64
    } else {
        dlat as u64
    };
    let dlon: i64 = p1.lon_ndeg - p0.lon_ndeg;
    let axlon: u64 = if dlon < 0 {
        (-dlon) as u64
    } else {
        dlon as u64
    };
    let cosm: u64 = mean_lat_cos(p0, p1);
    proof {
        lemma_mul_le(axlon as int, cosm as int, 360_000_000_000, FP as int);
        lemma_div_le(axlon as int * cosm as int, 360_000_000_000 * FP as int, FP as int);
        assert((360_000_000_000 * FP as int) / FP as int == 360_000_000_000) by (nonlinear_arith);
    }
    let y: u64 = ((axlon as u128 * cosm as u128) / FP as u128) as u64;
    proof {
        lemma_mul_le(x as int, x as int, 180_000_000_000, 180_000_000_000);
        lemma_mul_le(y as int, y as int, 360_000_000_000, 360_000_000_000);
    }
    let s2: u128 = (x as u128) * (x as u128) + (y as u128) * (y as u128);
    let d: u64 = isqrt(s2);
    proof {
        assert(sq(403_000_000_000) == 162_409_000_000_000_000_000_000) by (nonlinear_arith);
        assert(d < 403_000_000_000) by (nonlinear_arith)
            requires
                is_sqrt_floor(s2 as int, d as int),
                s2 <= 162_000_000_000_000_000_000_000,
                sq(403_000_000_000) == 162_409_000_000_000_000_000_000,
        ;
        lemma_mul_le(d as int, 111_319, 403_000_000_000, 111_319);
        lemma_div_le(d as int * 111_319, (403_000_000_000 * 111_319) as int, 1_000_000);
    }
    ((d as u128 * 111_319) / 1_000_000) as u64
}

/// The planar distance between two positions is never negative.
pub proof fn lemma_planar_distance_nonneg(p0: GeoPos, p1: GeoPos)
    ensures
        0 <= spec_planar_distance(p0, p1),
{
    reveal(spec_planar_distance);
    let x = abs_i(p1.lat_ndeg - p0.lat_ndeg);
    let y = (abs_i(p1.lon_ndeg - p0.lon_ndeg) * spec_mean_lat_cos(p0, p1)) / (FP as int);
    assert(0 <= abs_i(p1.lon_ndeg - p0.lon_ndeg) * spec_mean_lat_cos(p0, p1))
        by (nonlinear_arith)
        requires
            0 <= abs_i(p1.lon_ndeg - p0.lon_ndeg),
            0 <= spec_mean_lat_cos(p0, p1),
    ;
    lemma_div_le(
        abs_i(p1.lon_ndeg - p0.lon_ndeg) * spec_mean_lat_cos(p0, p1),
        abs_i(p1.lon_ndeg - p0.lon_ndeg) * spec_mean_lat_cos(p0, p1),
        FP as int,
    );
    assert(0 <= sq(x) + sq(y)) by (nonlinear_arith)
        requires
            0 <= x,
            0 <= y,
    ;
    lemma_sqrt_floor_exists((sq(x) + sq(y)) as nat);
    let d = sqrt_floor(sq(x) + sq(y));
    assert(0 <= d * 111_319) by (nonlinear_arith)
        requires
            0 <= d,
    ;
    lemma_div_le(d * 111_319, d * 111_319, 1_000_000);
}

/// Initial bearing from `p0` to `p1` in millidegrees, measured clockwise
/// from north, in `[0, 360000)`. Computed from the same planar components
/// as the planar distance: the arctangent of the cosine-scaled longitude
/// delta over the latitude delta. Over the sub-kilometer separations the
/// engine evaluates (adjacent fixes, camera to subject) this agrees to
/// first order with the initial great-circle and rhumb bearings, whose
/// extra terms only matter over long spans; it is exact on the axes and
/// the diagonals.
#[verifier::opaque]
pub open spec fn spec_bearing(p0: GeoPos, p1: GeoPos) -> int {
    let north = p1.lat_ndeg - p0.lat_ndeg;
    let deast = p1.lon_ndeg - p0.lon_ndeg;
    let ax = (abs_i(deast) * spec_mean_lat_cos(p0, p1)) / (FP as int);
    let ay = abs_i(north);
    if ax == 0 && ay == 0 {
        0
    } else if ax <= ay {
        let t = spec_atan_frac(ax, ay);
        if north > 0 {
            if deast >= 0 {
                t
            } else if t == 0 {
                0
            } else {
                360_000 - t
            }
        } else {
            if deast >= 0 {
                180_000 - t
            } else {
                180_000 + t
            }
        }
    } else {
        let t = spec_atan_frac(ay, ax);
        if deast >= 0 {
            if north >= 0 {
                90_000 - t
            } else {
                90_000 + t
            }
        } else {
            if north >= 0 {
                270_000 + t
            } else {
                270_000 - t
            }
        }
    }
}

/// Initial bearing, executable.
pub fn bearing_mdeg(p0: &GeoPos, p1: &GeoPos) -> (r: u64)
    requires
        valid_pos(*p0),
        valid_pos(*p1),
    ensures
        r == spec_bearing(*p0, *p1),
        r < 360_000,
{
    proof {
        reveal(spec_bearing);
    }
    let north: i64 = p1.lat_ndeg - p0.lat_ndeg;
    let deast: i64 = p1.lon_ndeg - p0.lon_ndeg;
    let adlon: u64 = if deast < 0 {
        (-deast) as u64
    } else {
        deast as u64
    };
    let cosm: u64 = mean_lat_cos(p0, p1);
    proof {
        lemma_mul_le(adlon as int, cosm as int, 360_000_000_000, FP as int);
        lemma_div_le(adlon as int * cosm as int, 360_000_000_000 * FP as int, FP as int);
        assert((360_000_000_000 * FP as int) / FP as int == 360_000_000_000) by (nonlinear_arith);
    }
    let ax: u64 = ((adlon as u128 * cosm as u128) / FP as u128) as u64;
    let ay: u64 = if north < 0 {
        (-north) as u64
    } else {
        north as u64
    };
    if ax == 0 && ay == 0 {
        0
    } else if ax <= ay {
        let t = atan_frac(ax, ay);
        if north > 0 {
            if deast >= 0 {
                t
            } else if t == 0 {
                0
            } else {
                360_000 - t
            }
        } else {
            if deast >= 0 {
                180_000 - t
            } else {
                180_000 + t
            }
        }
    } else {
        let t = atan_frac(ay, ax);
        if deast >= 0 {
            if north >= 0 {
                90_000 - t
            } else {
                90_000 + t
            }
        } else {
            if north >= 0 {
                270_000 + t
            } else {
                270_000 - t
            }
        }
    }
}

} // verus!

verus! {

/// Largest step length `destination` accepts, in millimeters (100 km).
pub const MAX_STEP_MM: u64 = 100_000_000;

/// Fixed-point sine and cosine of a bearing in `[0, 360000)` millidegrees:
/// the east component is the sine, the north component the cosine, both
/// scaled by `FP`, via quadrant reduction onto the quarter-circle kernels.
pub open spec fn spec_east_fp(b: int) -> int {
    let q = b / 90_000;
    let theta = ((b % 90_000) * 17_453_293) / 1_000;
    if q == 0 {
        spec_sin_quarter(theta)
    } else if q == 1 {
        spec_cos_quarter(theta)
    } else if q == 2 {
        -spec_sin_quarter(theta)
    } else {
        -spec_cos_quarter(theta)
    }
}

/// North component of a unit vector along a bearing; see `spec_east_fp`.
pub open spec fn spec_north_fp(b: int) -> int {
    let q = b / 90_000;
    let theta = ((b % 90_000) * 17_453_293) / 1_000;
    if q == 0 {
        spec_cos_quarter(theta)
    } else if q == 1 {
        -spec_sin_quarter(theta)
    } else if q == 2 {
        -spec_cos_quarter(theta)
    } else {
        spec_sin_quarter(theta)
    }
}

/// East and north components of a bearing, executable.
pub fn dir_components(bearing_mdeg: u64) -> (r: (i64, i64))
    requires
        bearing_mdeg < 360_000,
    ensures
        r.0 == spec_east_fp(bearing_mdeg as int),
        r.1 == spec_north_fp(bearing_mdeg as int),
        -2_000_000_000 <= r.0 <= 2_000_000_000,
        -2_000_000_000 <= r.1 <= 2_000_000_000,
{
    let q: u64 = bearing_mdeg / 90_000;
    let rem: u64 = bearing_mdeg % 90_000;
    proof {
        lemma_div_le(bearing_mdeg as int, 359_999, 90_000);
        lemma_mul_le(rem as int, 17_453_293, 89_999, 17_453_293);
        lemma_div_le(rem as int * 17_453_293, (89_999 * 17_453_293) as int, 1_000);
    }
    let theta: u64 = ((rem as u128 * 17_453_293) / 1_000) as u64;
    let s = sin_quarter(theta);
    let c = cos_quarter(theta);
    if q == 0 {
        (s, c)
    } else if q == 1 {
        (c, -s)
    } else if q == 2 {
        (-s, -c)
    } else {
        (-c, s)
    }
}

/// The point reached from `p` by travelling `dist_mm` along `bearing_mdeg`
/// on the 6371 km sphere, in the small-step form of the direct geodesic
/// formula: the angular distance is `dist / R` (111 194 927 mm per degree
/// of arc), the latitude moves by its north component and the longitude by
/// its east component divided by the cosine of the latitude (clamped at
/// the poles). Steps are capped at 100 km, where the dropped second-order
/// terms of the direct formula are below the coordinate resolution times
/// the step count. The latitude is clamped into range and the longitude
/// wraps around the antimeridian.
#[verifier::opaque]
pub open spec fn spec_destination(p: GeoPos, b: int, dist_mm: int) -> GeoPos {
    let e = spec_east_fp(b);
    let n = spec_north_fp(b);
    let dlat_mag = (dist_mm * abs_i(n)) / (MM_PER_ARC_DEG as int);
    let lat1 = if n >= 0 {
        p.lat_ndeg + dlat_mag
    } else {
        p.lat_ndeg - dlat_mag
    };
    let lat2 = if lat1 > MAX_LAT_NDEG as int {
        MAX_LAT_NDEG as int
    } else if lat1 < -MAX_LAT_NDEG as int {
        -MAX_LAT_NDEG as int
    } else {
        lat1
    };
    let clat = spec_lat_cos(p.lat_ndeg as int);
    let cdiv = if clat < 1 {
        1
    } else {
        clat
    };
    let dlon_mag = (dist_mm * abs_i(e) * (FP as int)) / ((MM_PER_ARC_DEG as int) * cdiv);
    let lon1 = if e >= 0 {
        p.lon_ndeg + dlon_mag
    } else {
        p.lon_ndeg - dlon_mag
    };
    let lon2 = ((lon1 + 180_000_000_000 + 7_200_000_000_000_000_000) % 360_000_000_000)
        - 180_000_000_000;
    GeoPos { lat_ndeg: lat2 as i64, lon_ndeg: lon2 as i64 }
}

/// Project a new point along a bearing, executable.
pub fn destination(p: &GeoPos, bearing_mdeg: u64, dist_mm: u64) -> (r: GeoPos)
    requires
        valid_pos(*p),
        bearing_mdeg < 360_000,
        dist_mm <= MAX_STEP_MM,
    ensures
        r == spec_destination(*p, bearing_mdeg as int, dist_mm as int),
        valid_pos(r),
{
    proof {
        reveal(spec_destination);
    }
    let (e, n) = dir_components(bearing_mdeg);
    let an: u64 = if n < 0 {
        (-n) as u64
    } else {
        n as u64
    };
    let ae: u64 = if e < 0 {
        (-e) as u64
    } else {
        e as u64
    };
    proof {
        lemma_mul_le(dist_mm as int, an as int, 100_000_000, 2_000_000_000);
        lemma_div_le(
            dist_mm as int * an as int,
            (100_000_000 * 2_000_000_000) as int,
            MM_PER_ARC_DEG as int,
        );
    }
    let dlat_mag: u64 = ((dist_mm as u128 * an as u128) / MM_PER_ARC_DEG as u128) as u64;
    assert(dlat_mag <= 2_000_000_000);
    let lat1: i64 = if n >= 0 {
        p.lat_ndeg + dlat_mag as i64
    } else {
        p.lat_ndeg - dlat_mag as i64
    };
    let lat2: i64 = if lat1 > MAX_LAT_NDEG {
        MAX_LAT_NDEG
    } else if lat1 < -MAX_LAT_NDEG {
        -MAX_LAT_NDEG
    } else {
        lat1
    };
    let clat: u64 = lat_cos(p.lat_ndeg);
    let cdiv: u64 = if clat < 1 {
        1
    } else {
        clat
    };
    proof {
        lemma_mul_le(dist_mm as int, ae as int, 100_000_000, 2_000_000_000);
        lemma_mul_le(dist_mm as int * ae as int, FP as int, (100_000_000 * 2_000_000_000) as int, FP as int);
        lemma_mul_le(MM_PER_ARC_DEG as int, cdiv as int, MM_PER_ARC_DEG as int, cdiv as int);
        assert(MM_PER_ARC_DEG as int * cdiv as int >= MM_PER_ARC_DEG as int) by (nonlinear_arith)
            requires
                1 <= cdiv,
        ;
        lemma_div_le(
            dist_mm as int * ae as int * (FP as int),
            (100_000_000 * 2_000_000_000) as int * (FP as int),
            MM_PER_ARC_DEG as int * cdiv as int,
        );
        assert(
            ((100_000_000 * 2_000_000_000) as int * (FP as int)) / (MM_PER_ARC_DEG as int * cdiv as int)
                <= ((100_000_000 * 2_000_000_000) as int * (FP as int)) / (MM_PER_ARC_DEG as int)
        ) by (nonlinear_arith)
            requires
                1 <= cdiv,
        ;
    }
    let dlon_mag: u128 = (dist_mm as u128 * ae as u128 * FP as u128)
        / (MM_PER_ARC_DEG as u128 * cdiv as u128);
    assert(dlon_mag <= 2_000_000_000_000_000_000);
    let lon1: i128 = if e >= 0 {
        p.lon_ndeg as i128 + dlon_mag as i128
    } else {
        p.lon_ndeg as i128 - dlon_mag as i128
    };
    let shifted: i128 = lon1 + 180_000_000_000 + 7_200_000_000_000_000_000;
    assert(shifted >= 0);
    let m: u128 = (shifted as u128) % 360_000_000_000;
    let lon2: i64 = (m as i64) - 180_000_000_000;
    GeoPos { lat_ndeg: lat2, lon_ndeg: lon2 }
}

} // verus!

verus! {

/// Sine of half of an angle given in nanodegrees, for the haversine
/// formula; folds angles above a quarter circle back by symmetry.
pub open spec fn spec_sin_half_ndeg(x: int) -> int {
    let th = (x * 17_453_293) / 2_000_000_000;
    let th2 = if th > 1_570_796_327 {
        3_141_592_654 - th
    } else {
        th
    };
    let th3 = if th2 < 0 {
        0
    } else {
        th2
    };
    spec_sin_quarter(th3)
}

/// Sine of half of an angle, executable.
pub fn sin_half_ndeg(x: u64) -> (r: i64)
    requires
        x <= 360_000_000_000,
    ensures
        r == spec_sin_half_ndeg(x as int),
        -2_000_000_000 <= r <= 2_000_000_000,
{
    proof {
        lemma_mul_le(x as int, 17_453_293, 360_000_000_000, 17_453_293);
        lemma_div_le(x as int * 17_453_293, (360_000_000_000 * 17_453_293) as int, 2_000_000_000);
    }
    let th: u64 = ((x as u128 * 17_453_293) / 2_000_000_000) as u64;
    let th2: i64 = if th > 1_570_796_327 {
        3_141_592_654 - th as i64
    } else {
        th as i64
    };
    let th3: u64 = if th2 < 0 {
        0
    } else {
        th2 as u64
    };
    sin_quarter(th3)
}

/// Haversine distance between two positions on a sphere of radius
/// 6371 km, in millimeters: the half central angle is recovered from the
/// haversine root by an arcsine series at nanoradian resolution, then
/// scaled by the radius.
#[verifier::opaque]
pub open spec fn spec_great_circle_distance(p0: GeoPos, p1: GeoPos) -> int {
    let a = spec_sin_half_ndeg(abs_i(p1.lat_ndeg - p0.lat_ndeg));
    let b = spec_sin_half_ndeg(abs_i(p1.lon_ndeg - p0.lon_ndeg));
    let c0 = spec_lat_cos(p0.lat_ndeg as int);
    let c1 = spec_lat_cos(p1.lat_ndeg as int);
    let h = a * a + ((c0 * c1) / (FP as int)) * ((b * b) / (FP as int));
    let s = sqrt_floor(h);
    let half = if s <= ASIN_ARG_MAX as int {
        spec_asin_taylor(s)
    } else {
        let cs = if sq(s) >= 1_000_000_000_000_000_000 {
            0
        } else {
            sqrt_floor(1_000_000_000_000_000_000 - sq(s))
        };
        1_570_796_327 - spec_asin_taylor(cs)
    };
    (2 * half * 6_371_000_000) / 1_000_000_000
}

/// Haversine distance, executable.
pub fn great_circle_distance(p0: &GeoPos, p1: &GeoPos) -> (r: u64)
    requires
        valid_pos(*p0),
        valid_pos(*p1),
    ensures
        r == spec_great_circle_distance(*p0, *p1),
        r <= MAX_GC_MM,
{
    proof {
        reveal(spec_great_circle_distance);
    }
    let dlat: i64 = p1.lat_ndeg - p0.lat_ndeg;
    let alat: u64 = if dlat < 0 {
        (-dlat) as u64
    } else {
        dlat as u64
    };
    let dlon: i64 = p1.lon_ndeg - p0.lon_ndeg;
    let alon: u64 = if dlon < 0 {
        (-dlon) as u64
    } else {
        dlon as u64
    };
    let a: i64 = sin_half_ndeg(alat);
    let b: i64 = sin_half_ndeg(alon);
    let c0: u64 = lat_cos(p0.lat_ndeg);
    let c1: u64 = lat_cos(p1.lat_ndeg);
    let ua: u64 = if a < 0 {
        (-a) as u64
    } else {
        a as u64
    };
    let ub: u64 = if b < 0 {
        (-b) as u64
    } else {
        b as u64
    };
    proof {
        assert(a as int * a as int == ua as int * ua as int) by (nonlinear_arith)
            requires
                ua == abs_i(a as int),
        ;
        assert(b as int * b as int == ub as int * ub as int) by (nonlinear_arith)
            requires
                ub == abs_i(b as int),
        ;
        lemma_mul_le(ua as int, ua as int, 2_000_000_000, 2_000_000_000);
        lemma_mul_le(ub as int, ub as int, 2_000_000_000, 2_000_000_000);
        lemma_mul_le(c0 as int, c1 as int, FP as int, FP as int);
        lemma_div_le(c0 as int * c1 as int, (FP * FP) as int, FP as int);
        lemma_div_le(ub as int * ub as int, 4_000_000_000_000_000_000, FP as int);
        lemma_mul_le(
            (c0 as int * c1 as int) / (FP as int),
            (ub as int * ub as int) / (FP as int),
            FP as int,
            4_000_000_000,
        );
        lemma_div_le(
            (c0 as int * c1 as int) / (FP as int) * ((ub as int * ub as int) / (FP as int)),
            4_000_000_000_000_000_000,
            FP as int,
        );
    }
    let cc: u128 = (c0 as u128 * c1 as u128) / (FP as u128);
    let bb: u128 = (ub as u128 * ub as u128) / (FP as u128);
    let h: u128 = (ua as u128 * ua as u128) + cc * bb;
    let s: u64 = isqrt(h);
    let half: u64 = if s <= ASIN_ARG_MAX {
        asin_taylor(s)
    } else {
        let ss: u128 = (s as u128) * (s as u128);
        let cs: u64 = if ss >= 1_000_000_000_000_000_000 {
            0
        } else {
            let w = isqrt(1_000_000_000_000_000_000 - ss);
            proof {
                assert(sq(s as int) >= sq(720_000_001)) by (nonlinear_arith)
                    requires
                        s >= 720_000_001,
                ;
                assert(sq(720_000_001) == 518_400_001_440_000_001) by (nonlinear_arith);
                assert(sq(694_000_000) == 481_636_000_000_000_000) by (nonlinear_arith);
                assert(w < 694_000_000) by (nonlinear_arith)
                    requires
                        is_sqrt_floor((1_000_000_000_000_000_000 - ss) as int, w as int),
                        ss >= 518_400_001_440_000_001,
                        sq(694_000_000) == 481_636_000_000_000_000,
                ;
            }
            w
        };
        1_570_796_327 - asin_taylor(cs)
    };
    proof {
        lemma_mul_le(2 * half as int, 6_371_000_000, 3_141_592_654, 6_371_000_000);
        lemma_div_le(
            2 * half as int * 6_371_000_000,
            20_015_086_798_634_000_000,
            1_000_000_000,
        );
    }
    ((2 * half as u128 * 6_371_000_000) / 1_000_000_000) as u64
}

/// Which distance function the engine uses: the fast equirectangular
/// approximation or the spherical haversine formula.
#[derive(Clone, Copy, PartialEq, Eq, Structural, Debug)]
pub enum DistanceMode {
    Planar,
    Spherical,
}

/// Distance between two positions under the chosen mode, in millimeters.
pub open spec fn spec_distance(mode: DistanceMode, p0: GeoPos, p1: GeoPos) -> int {
    match mode {
        DistanceMode::Planar => spec_planar_distance(p0, p1),
        DistanceMode::Spherical => spec_great_circle_distance(p0, p1),
    }
}

/// Distance under the chosen mode, executable.
pub fn distance_between(mode: DistanceMode, p0: &GeoPos, p1: &GeoPos) -> (r: u64)
    requires
        valid_pos(*p0),
        valid_pos(*p1),
    ensures
        r == spec_distance(mode, *p0, *p1),
        r <= MAX_DIST_MM,
{
    match mode {
        DistanceMode::Planar => planar_distance(p0, p1),
        DistanceMode::Spherical => great_circle_distance(p0, p1),
    }
}

/// The distance under either mode is nonnegative; bounds usable in specs.
pub proof fn lemma_distance_bounds(mode: DistanceMode, p0: GeoPos, p1: GeoPos)
    requires
        valid_pos(p0),
        valid_pos(p1),
    ensures
        0 <= spec_distance(mode, p0, p1) <= MAX_DIST_MM,
{
    match mode {
        DistanceMode::Planar => {
            lemma_planar_distance_bounds(p0, p1);
        }
        DistanceMode::Spherical => {
            lemma_great_circle_distance_bounds(p0, p1);
        }
    }
}

/// Range of the planar distance on valid positions.
pub proof fn lemma_planar_distance_bounds(p0: GeoPos, p1: GeoPos)
    requires
        valid_pos(p0),
        valid_pos(p1),
    ensures
        0 <= spec_planar_distance(p0, p1) <= MAX_DIST_MM,
{
    reveal(spec_planar_distance);
    lemma_planar_distance_nonneg(p0, p1);
    let fp = FP as int;
    let x = abs_i(p1.lat_ndeg - p0.lat_ndeg);
    let al = abs_i(p1.lon_ndeg - p0.lon_ndeg);
    let cm = spec_mean_lat_cos(p0, p1);
    assert(0 <= cm <= fp);
    lemma_mul_le(al, cm, 360_000_000_000, fp);
    assert((360_000_000_000 * fp) / fp == 360_000_000_000) by (nonlinear_arith)
        requires
            fp == 1_000_000_000,
    ;
    lemma_div_le(0, al * cm, fp);
    lemma_div_le(al * cm, 360_000_000_000 * fp, fp);
    let y = (al * cm) / fp;
    lemma_mul_le(x, x, 180_000_000_000, 180_000_000_000);
    lemma_mul_le(y, y, 360_000_000_000, 360_000_000_000);
    let s2 = sq(x) + sq(y);
    lemma_sqrt_floor_exists(s2 as nat);
    let d = sqrt_floor(s2);
    assert(sq(403_000_000_000) == 162_409_000_000_000_000_000_000) by (nonlinear_arith);
    assert(d < 403_000_000_000) by (nonlinear_arith)
        requires
            is_sqrt_floor(s2, d),
            s2 <= 162_000_000_000_000_000_000_000,
            sq(403_000_000_000) == 162_409_000_000_000_000_000_000,
    ;
    lemma_mul_le(d, 111_319, 403_000_000_000, 111_319);
    lemma_div_le(d * 111_319, (403_000_000_000 * 111_319) as int, 1_000_000);
}

/// Range of the sine-of-half-angle helper.
pub proof fn lemma_sin_half_ndeg_bounds(x: int)
    requires
        0 <= x <= 360_000_000_000,
    ensures
        -2_000_000_000 <= spec_sin_half_ndeg(x) <= 2_000_000_000,
{
    assert(0 <= x * 17_453_293) by (nonlinear_arith)
        requires
            0 <= x,
    ;
    lemma_mul_le(x, 17_453_293, 360_000_000_000, 17_453_293);
    lemma_div_le(0, x * 17_453_293, 2_000_000_000);
    lemma_div_le(x * 17_453_293, (360_000_000_000 * 17_453_293) as int, 2_000_000_000);
    let th = (x * 17_453_293) / 2_000_000_000;
    let th2 = if th > 1_570_796_327 {
        3_141_592_654 - th
    } else {
        th
    };
    let th3 = if th2 < 0 {
        0int
    } else {
        th2
    };
    lemma_sin_quarter_bounds(th3);
}

/// Range of the haversine distance on valid positions.
pub proof fn lemma_great_circle_distance_bounds(p0: GeoPos, p1: GeoPos)
    requires
        valid_pos(p0),
        valid_pos(p1),
    ensures
        0 <= spec_great_circle_distance(p0, p1) <= MAX_GC_MM,
{
    reveal(spec_great_circle_distance);
    let fp = FP as int;
    let a = spec_sin_half_ndeg(abs_i(p1.lat_ndeg - p0.lat_ndeg));
    let b = spec_sin_half_ndeg(abs_i(p1.lon_ndeg - p0.lon_ndeg));
    lemma_sin_half_ndeg_bounds(abs_i(p1.lat_ndeg - p0.lat_ndeg));
    lemma_sin_half_ndeg_bounds(abs_i(p1.lon_ndeg - p0.lon_ndeg));
    let c0 = spec_lat_cos(p0.lat_ndeg as int);
    let c1 = spec_lat_cos(p1.lat_ndeg as int);
    assert(0 <= a * a <= 4_000_000_000_000_000_000) by (nonlinear_arith)
        requires
            -2_000_000_000 <= a <= 2_000_000_000,
    ;
    assert(0 <= b * b <= 4_000_000_000_000_000_000) by (nonlinear_arith)
        requires
            -2_000_000_000 <= b <= 2_000_000_000,
    ;
    assert(0 <= c0 * c1) by (nonlinear_arith)
        requires
            0 <= c0,
            0 <= c1,
    ;
    lemma_mul_le(c0, c1, fp, fp);
    lemma_div_le(0, c0 * c1, fp);
    lemma_div_le(c0 * c1, fp * fp, fp);
    assert((fp * fp) / fp == fp) by (nonlinear_arith)
        requires
            fp == 1_000_000_000,
    ;
    lemma_div_le(0, b * b, fp);
    lemma_div_le(b * b, 4_000_000_000_000_000_000, fp);
    assert(0 <= ((c0 * c1) / fp) * ((b * b) / fp)) by (nonlinear_arith)
        requires
            0 <= (c0 * c1) / fp,
            0 <= (b * b) / fp,
    ;
    lemma_mul_le((c0 * c1) / fp, (b * b) / fp, fp, 4_000_000_000);
    let h = a * a + ((c0 * c1) / fp) * ((b * b) / fp);
    assert(h <= 8_000_000_000_000_000_000);
    lemma_sqrt_floor_exists(h as nat);
    let s = sqrt_floor(h);
    let half = if s <= ASIN_ARG_MAX as int {
        spec_asin_taylor(s)
    } else {
        let cs = if sq(s) >= 1_000_000_000_000_000_000 {
            0int
        } else {
            sqrt_floor(1_000_000_000_000_000_000 - sq(s))
        };
        1_570_796_327 - spec_asin_taylor(cs)
    };
    if s <= ASIN_ARG_MAX as int {
        lemma_asin_taylor_bounds(s);
    } else {
        let cs = if sq(s) >= 1_000_000_000_000_000_000 {
            0int
        } else {
            sqrt_floor(1_000_000_000_000_000_000 - sq(s))
        };
        if sq(s) < 1_000_000_000_000_000_000 {
            lemma_sqrt_floor_exists((1_000_000_000_000_000_000 - sq(s)) as nat);
            assert(sq(s) >= sq(720_000_001)) by (nonlinear_arith)
                requires
                    s >= 720_000_001,
            ;
            assert(sq(720_000_001) == 518_400_001_440_000_001) by (nonlinear_arith);
            assert(sq(694_000_000) == 481_636_000_000_000_000) by (nonlinear_arith);
            assert(cs < 694_000_000) by (nonlinear_arith)
                requires
                    is_sqrt_floor(1_000_000_000_000_000_000 - sq(s), cs),
                    sq(s) >= 518_400_001_440_000_001,
                    sq(694_000_000) == 481_636_000_000_000_000,
            ;
        }
        lemma_asin_taylor_bounds(cs);
    }
    assert(0 <= half <= 1_570_796_327);
    assert(0 <= 2 * half * 6_371_000_000) by (nonlinear_arith)
        requires
            0 <= half,
    ;
    lemma_mul_le(2 * half, 6_371_000_000, 3_141_592_654, 6_371_000_000);
    lemma_div_le(2 * half * 6_371_000_000, 20_015_086_798_634_000_000, 1_000_000_000);
}

} // verus!

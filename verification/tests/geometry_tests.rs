use camera_exposure::geo::DistanceMode;
use camera_exposure::geo::GeoPos;
use camera_exposure::geo::bearing_mdeg;
use camera_exposure::geo::destination;
use camera_exposure::geo::distance_between;
use camera_exposure::geo::great_circle_distance;
use camera_exposure::geo::planar_distance;

fn pos(lat_ndeg: i64, lon_ndeg: i64) -> GeoPos {
    GeoPos { lat_ndeg, lon_ndeg }
}

#[test]
fn planar_distance_of_identical_points_is_zero() {
    assert_eq!(planar_distance(&pos(12_345, 67_890), &pos(12_345, 67_890)), 0);
}

#[test]
fn planar_distance_one_degree_of_latitude() {
    // One degree of latitude is 111 319 m by the engine's constant.
    let d = planar_distance(&pos(0, 0), &pos(1_000_000_000, 0));
    assert_eq!(d, 111_319_000);
}

#[test]
fn planar_distance_is_symmetric_here() {
    let a = pos(10_000, 20_000);
    let b = pos(-40_000, 50_000);
    assert_eq!(planar_distance(&a, &b), planar_distance(&b, &a));
}

#[test]
fn bearings_along_the_axes() {
    let o = pos(0, 0);
    assert_eq!(bearing_mdeg(&o, &pos(10_000, 0)), 0);
    assert_eq!(bearing_mdeg(&o, &pos(0, 10_000)), 90_000);
    assert_eq!(bearing_mdeg(&o, &pos(-10_000, 0)), 180_000);
    assert_eq!(bearing_mdeg(&o, &pos(0, -10_000)), 270_000);
    assert_eq!(bearing_mdeg(&o, &pos(10_000, 10_000)), 45_000);
}

#[test]
fn destination_steps_north_and_east() {
    let o = pos(0, 0);
    // Half a meter of arc on the 6371 km sphere is 4496 nanodegrees.
    let n = destination(&o, 0, 500);
    assert_eq!(n.lat_ndeg, 4_496);
    assert_eq!(n.lon_ndeg, 0);
    let e = destination(&o, 90_000, 500);
    assert_eq!(e.lat_ndeg, 0);
    assert_eq!(e.lon_ndeg, 4_496);
    assert_eq!(planar_distance(&o, &n), 500);
}

#[test]
fn spherical_distance_of_identical_points_is_zero() {
    assert_eq!(great_circle_distance(&pos(5, 5), &pos(5, 5)), 0);
}

#[test]
fn spherical_mode_differs_from_planar_mode() {
    // One degree of latitude: the haversine arc on the 6371 km sphere is
    // 111 194.927 m, a little under the planar 111 319 m per degree.
    let a = pos(0, 0);
    let b = pos(1_000_000_000, 0);
    assert_eq!(distance_between(DistanceMode::Planar, &a, &b), 111_319_000);
    assert_eq!(distance_between(DistanceMode::Spherical, &a, &b), 111_194_923);
}

#[test]
fn spherical_distance_round_trips_a_projection() {
    // Project 100 m north on the 6371 km sphere and measure the way back
    // with the haversine on the same sphere: the distance comes back to
    // within one unit of fixed-point flooring. The planar measure reads
    // about 0.11 percent long, its 111 319 m per degree against the
    // sphere's 111 195.
    let o = pos(0, 0);
    let p = destination(&o, 0, 100_000);
    assert_eq!(p.lat_ndeg, 899_321);
    assert_eq!(great_circle_distance(&o, &p), 99_999);
    assert_eq!(planar_distance(&o, &p), 100_111);
}

#[test]
fn spherical_distance_over_a_quarter_circle() {
    // Equator to the north pole: a quarter of the circumference,
    // 10 007.5 km, matched within about half a permille.
    let d = great_circle_distance(&pos(0, 0), &pos(90_000_000_000, 0));
    assert_eq!(d, 10_003_402_102);
}

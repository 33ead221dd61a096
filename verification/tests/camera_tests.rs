use camera_exposure::camera::Camera;
use camera_exposure::camera::CameraKind;
use camera_exposure::camera::is_visible;
use camera_exposure::geo::GeoPos;
use camera_exposure::geo::planar_distance;

fn pos(lat_ndeg: i64, lon_ndeg: i64) -> GeoPos {
    GeoPos { lat_ndeg, lon_ndeg }
}

fn camera(p: GeoPos, kind: CameraKind, radius_mm: u64, fov_deg: u64) -> Camera {
    Camera {
        pos: p,
        kind,
        radius_mm,
        field_of_view_deg: fov_deg,
        model: String::new(),
        url: String::new(),
        in_streetview: String::new(),
    }
}

#[test]
fn round_camera_at_point_sees_distance_zero_not_fifty_one() {
    // Radius 50 m; the camera sits exactly on the point's coordinates.
    let p = pos(123_456, -654_321);
    let cam = camera(p, CameraKind::Round, 50_000, 0);
    assert_eq!(planar_distance(&p, &cam.pos), 0);
    assert!(is_visible(0, &cam, &p, 0));
    assert!(!is_visible(51_000, &cam, &p, 0));
    assert!(is_visible(50_000, &cam, &p, 0));
}

#[test]
fn tolerance_extends_the_radius() {
    let p = pos(0, 0);
    let cam = camera(p, CameraKind::Round, 50_000, 0);
    assert!(!is_visible(50_500, &cam, &p, 0));
    assert!(is_visible(50_500, &cam, &p, 1_000));
}

#[test]
fn unrecognized_kind_behaves_like_round() {
    let p = pos(0, 0);
    let cam = camera(p, CameraKind::Other, 50_000, 0);
    assert!(is_visible(50_000, &cam, &p, 0));
    assert!(!is_visible(50_001, &cam, &p, 0));
}

#[test]
fn directed_camera_window_is_150_to_210_degrees() {
    // Field of view 60 degrees around the fixed 180 degree reference:
    // the subject is seen only when the bearing from the camera lies in
    // [150, 210] degrees. Points a little over a meter away, radius 100 m.
    let cam = camera(pos(0, 0), CameraKind::Directed, 100_000, 60);
    let south = pos(-10_000, 0);  // bearing 180.000
    let south_east = pos(-10_000, 10_000);  // bearing 135.000
    let south_west = pos(-10_000, -10_000);  // bearing 225.000
    let inside = pos(-10_000, 5_543);  // bearing ~151.07
    let outside = pos(-10_000, 6_009);  // bearing ~149.05
    let d = |p: &GeoPos| planar_distance(p, &cam.pos);
    assert!(is_visible(d(&south), &cam, &south, 0));
    assert!(!is_visible(d(&south_east), &cam, &south_east, 0));
    assert!(!is_visible(d(&south_west), &cam, &south_west, 0));
    assert!(is_visible(d(&inside), &cam, &inside, 0));
    assert!(!is_visible(d(&outside), &cam, &outside, 0));
}

#[test]
fn directed_camera_still_bounded_by_radius() {
    let cam = camera(pos(0, 0), CameraKind::Directed, 1_000, 60);
    let far_south = pos(-100_000, 0);  // bearing 180 but ~11 m away
    let d = planar_distance(&far_south, &cam.pos);
    assert!(d > 1_000);
    assert!(!is_visible(d, &cam, &far_south, 0));
}

#[test]
fn odd_field_of_view_keeps_the_exact_half_degree() {
    // A 61 degree field of view opens the window to [149.5, 210.5]
    // degrees: a point at bearing ~149.76 is seen, while a 60 degree
    // camera at the same spot does not see it.
    let wide = camera(pos(0, 0), CameraKind::Directed, 100_000, 61);
    let narrow = camera(pos(0, 0), CameraKind::Directed, 100_000, 60);
    let p = pos(-10_000, 5_844);
    let d = planar_distance(&p, &wide.pos);
    assert!(is_visible(d, &wide, &p, 0));
    assert!(!is_visible(d, &narrow, &p, 0));
}

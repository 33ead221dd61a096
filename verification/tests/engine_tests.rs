use camera_exposure::aggregate::default_set;
use camera_exposure::camera::Camera;
use camera_exposure::camera::CameraKind;
use camera_exposure::engine::EngineError;
use camera_exposure::engine::analyze_segment;
use camera_exposure::geo::DistanceMode;
use camera_exposure::geo::GeoPos;
use camera_exposure::simulate::simulate_steps;
use camera_exposure::track::TrackPoint;

fn pt(lat_ndeg: i64, lon_ndeg: i64, t: i64) -> TrackPoint {
    TrackPoint { pos: GeoPos { lat_ndeg, lon_ndeg }, time_s: Some(t) }
}

fn round_cam(lat_ndeg: i64, lon_ndeg: i64, radius_mm: u64) -> Camera {
    Camera {
        pos: GeoPos { lat_ndeg, lon_ndeg },
        kind: CameraKind::Round,
        radius_mm,
        field_of_view_deg: 0,
        model: String::from("generic"),
        url: String::new(),
        in_streetview: String::new(),
    }
}

// 10 m of latitude at the equator, in nanodegrees.
const TEN_M_NDEG: i64 = 89_832;

#[test]
fn default_set_is_empty() {
    let s = default_set();
    assert!(s.is_empty());
}

#[test]
fn segment_with_one_point_is_rejected() {
    let seg = vec![pt(0, 0, 0)];
    let cams = vec![round_cam(0, 0, 1_000)];
    let r = analyze_segment(DistanceMode::Planar, String::from("t.gpx"), 0, 0, &seg, &cams);
    assert!(matches!(r, Err(EngineError::InsufficientPoints)));
}

#[test]
fn empty_segment_is_rejected() {
    let seg: Vec<TrackPoint> = Vec::new();
    let cams: Vec<Camera> = Vec::new();
    let r = analyze_segment(DistanceMode::Planar, String::from("t.gpx"), 0, 0, &seg, &cams);
    assert!(matches!(r, Err(EngineError::InsufficientPoints)));
}

#[test]
fn missing_timestamp_is_rejected() {
    let mut seg = vec![pt(0, 0, 0), pt(TEN_M_NDEG, 0, 1)];
    seg[1].time_s = None;
    let cams = vec![round_cam(0, 0, 1_000)];
    let r = analyze_segment(DistanceMode::Planar, String::from("t.gpx"), 0, 0, &seg, &cams);
    assert!(matches!(r, Err(EngineError::MissingTimestamp)));
}

#[test]
fn simulator_counts_steps_until_leaving_range() {
    // Camera of radius 2.2 m at the start; walking south, steps stay
    // within radius + 1 m tolerance up to 3 m: six half-meter steps.
    let start = GeoPos { lat_ndeg: TEN_M_NDEG, lon_ndeg: 0 };
    let cam = round_cam(TEN_M_NDEG, 0, 2_200);
    assert_eq!(simulate_steps(DistanceMode::Planar, &start, &cam, 180_000, 20), 6);
    // The count never exceeds the step budget.
    assert_eq!(simulate_steps(DistanceMode::Planar, &start, &cam, 180_000, 4), 4);
}

#[test]
fn simultaneous_detections_reuse_the_full_step_count() {
    // Two fixes 20 m apart with the same timestamp, both seen by one
    // camera: the backward pass reuses the full step count (40 steps of
    // 0.5 m) instead of re-simulating, and the zero time delta makes the
    // exposure time zero.
    let seg = vec![pt(0, 0, 100), pt(-179_664, 0, 100)];
    let cams = vec![round_cam(0, 0, 50_000)];
    let r = analyze_segment(DistanceMode::Planar, String::from("t.gpx"), 0, 0, &seg, &cams)
        .unwrap();
    let (report, accums) = r;
    assert_eq!(report.total_distance_mm, 20_000);
    assert_eq!(report.total_time_s, 0);
    assert_eq!(report.exposure_distance_mm, 20_000);
    assert_eq!(report.exposure_time_ms, 0);
    assert_eq!(report.unique_cameras, 1);
    assert_eq!(report.dist_millipct, 100_000);
    assert_eq!(report.time_millipct, 0);
    assert_eq!(accums[0].dist_mm, 20_000);
    assert!(accums[0].points.contains(&1));
}

#[test]
fn middle_point_camera_is_attributed_once() {
    // Three fixes 10 m apart; a 2.2 m camera sees only the middle fix.
    // Both passes see the pair, but the accumulator takes it only once,
    // and the exposed-points set holds exactly the middle index.
    let seg = vec![pt(0, 0, 0), pt(TEN_M_NDEG, 0, 1), pt(2 * TEN_M_NDEG, 0, 2)];
    let cams = vec![round_cam(TEN_M_NDEG, 0, 2_200)];
    let r = analyze_segment(DistanceMode::Planar, String::from("t.gpx"), 0, 0, &seg, &cams)
        .unwrap();
    let (report, accums) = r;
    assert_eq!(accums[0].dist_mm, 3_000);
    assert_eq!(accums[0].time_ms, 300);
    assert_eq!(accums[0].points.len(), 1);
    assert!(accums[0].points.contains(&1));
    assert!(!accums[0].points.contains(&0));
    assert!(!accums[0].points.contains(&2));
    // The per-point maxima of the two directions still both count toward
    // the segment totals.
    assert_eq!(report.exposure_distance_mm, 6_000);
    assert_eq!(report.exposure_time_ms, 600);
}

#[test]
fn straight_segment_with_midpoint_camera() {
    // 100 m walked at 10 m/s, sampled every second; a 20 m camera at the
    // midpoint. The detected span runs from 30 m to 70 m (both ends at
    // exactly the radius), and the 1 m simulation tolerance extends the
    // exposure by about a meter on each side: 42 m and 4.2 s.
    let seg: Vec<TrackPoint> = (0..11).map(|i| pt(i * TEN_M_NDEG, 0, i)).collect();
    let cams = vec![round_cam(5 * TEN_M_NDEG, 0, 20_000)];
    let r = analyze_segment(DistanceMode::Planar, String::from("walk.gpx"), 2, 3, &seg, &cams)
        .unwrap();
    let (report, accums) = r;
    assert_eq!(report.file, "walk.gpx");
    assert_eq!(report.track_index, 2);
    assert_eq!(report.segment_index, 3);
    assert_eq!(report.total_distance_mm, 100_000);
    assert_eq!(report.total_time_s, 10);
    assert_eq!(report.average_speed_mm_s, 10_000);
    assert_eq!(report.unique_cameras, 1);
    assert_eq!(report.exposure_distance_mm, 42_000);
    assert_eq!(report.exposure_time_ms, 4_200);
    assert_eq!(report.dist_millipct, 42_000);
    assert_eq!(report.time_millipct, 42_000);
    // Median point-to-camera distance over the 11 fixes is 30 m.
    assert_eq!(report.median_distance_um, 30_000_000);
    for i in 3..=7usize {
        assert!(accums[0].points.contains(&i));
    }
    assert_eq!(accums[0].points.len(), 5);
}

#[test]
fn camera_out_of_range_contributes_nothing() {
    let seg = vec![pt(0, 0, 0), pt(TEN_M_NDEG, 0, 1)];
    let cams = vec![round_cam(50 * TEN_M_NDEG, 0, 1_000)];
    let r = analyze_segment(DistanceMode::Planar, String::from("t.gpx"), 0, 0, &seg, &cams)
        .unwrap();
    let (report, accums) = r;
    assert_eq!(report.unique_cameras, 0);
    assert_eq!(report.exposure_distance_mm, 0);
    assert_eq!(report.exposure_time_ms, 0);
    assert_eq!(report.dist_millipct, 0);
    assert!(accums[0].points.is_empty());
}

#[test]
fn spherical_mode_changes_the_total_distance() {
    // One degree of latitude over ten seconds, no cameras at all.
    let seg = vec![pt(0, 0, 0), pt(1_000_000_000, 0, 10)];
    let cams: Vec<Camera> = Vec::new();
    let planar =
        analyze_segment(DistanceMode::Planar, String::from("t.gpx"), 0, 0, &seg, &cams).unwrap();
    assert_eq!(planar.0.total_distance_mm, 111_319_000);
    let spherical =
        analyze_segment(DistanceMode::Spherical, String::from("t.gpx"), 0, 0, &seg, &cams)
            .unwrap();
    assert_eq!(spherical.0.total_distance_mm, 111_194_923);
    assert_eq!(spherical.0.unique_cameras, 0);
    assert_eq!(spherical.0.mean_distance_um, 0);
    assert_eq!(spherical.0.median_distance_um, 0);
    assert_eq!(spherical.0.exposure_distance_mm, 0);
}

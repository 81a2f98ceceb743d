use polyfill_search::errors::ConfigError;
use polyfill_search::geometry::{bounding_box, point_in_polygon, GeoPoint};
use polyfill_search::planner::{cos_fp, plan, row_count};

fn square_1deg() -> Vec<GeoPoint> {
    vec![
        GeoPoint::new(0, 0),
        GeoPoint::new(0, 1_000_000),
        GeoPoint::new(1_000_000, 1_000_000),
        GeoPoint::new(1_000_000, 0),
    ]
}

#[test]
fn bounding_box_encloses_vertices() {
    let ring = vec![
        GeoPoint::new(-250_000, 400_000),
        GeoPoint::new(100_000, -30_000),
        GeoPoint::new(75_000, 900_000),
    ];
    let bb = bounding_box(&ring);
    assert_eq!(bb.min_lat, -250_000);
    assert_eq!(bb.max_lat, 100_000);
    assert_eq!(bb.min_lng, -30_000);
    assert_eq!(bb.max_lng, 900_000);
}

#[test]
fn cosine_fixed_point_values() {
    assert_eq!(cos_fp(0), 1_000_000);
    assert_eq!(cos_fp(45_000_000), 707_104);
    assert_eq!(cos_fp(60_000_000), 499_966);
    assert_eq!(cos_fp(-60_000_000), 499_966);
}

#[test]
fn containment_rule_is_uniform() {
    let ring = square_1deg();
    // The south-west corner counts as inside under the strict ray rule;
    // the south-east corner does not.
    assert!(point_in_polygon(GeoPoint::new(0, 0), &ring));
    assert!(!point_in_polygon(GeoPoint::new(0, 1_000_000), &ring));
    assert!(point_in_polygon(GeoPoint::new(500_000, 500_000), &ring));
    assert!(!point_in_polygon(GeoPoint::new(2_000_000, 500_000), &ring));
}

#[test]
fn too_few_vertices_is_invalid_polygon() {
    let two = vec![GeoPoint::new(0, 0), GeoPoint::new(1_000_000, 1_000_000)];
    assert_eq!(plan(&two), Err(ConfigError::InvalidPolygon));
    let none: Vec<GeoPoint> = vec![];
    assert_eq!(plan(&none), Err(ConfigError::InvalidPolygon));
}

#[test]
fn collinear_vertices_are_degenerate() {
    // Zero latitude extent: the radius rule yields a zero step, which
    // must fail rather than loop forever.
    let flat = vec![
        GeoPoint::new(500_000, 0),
        GeoPoint::new(500_000, 400_000),
        GeoPoint::new(500_000, 900_000),
    ];
    assert_eq!(plan(&flat), Err(ConfigError::DegeneratePolygon));
}

#[test]
fn near_polar_box_is_degenerate() {
    // The fixed-point cosine of the box's least latitude is not
    // positive, so no longitude step exists.
    let polar = vec![
        GeoPoint::new(89_990_000, 0),
        GeoPoint::new(90_000_000, 500_000),
        GeoPoint::new(89_995_000, 1_000_000),
    ];
    assert_eq!(plan(&polar), Err(ConfigError::DegeneratePolygon));
}

#[test]
fn square_grid_density_follows_step_rule() {
    // One degree of latitude extent: radius = 111.32 / 16 km, giving a
    // step of 62570 microdegrees and a 16 by 16 grid.
    let grid = plan(&square_1deg()).unwrap();
    assert_eq!(grid.len(), 256);
    let mut lats: Vec<i64> = grid.iter().map(|g| g.lat).collect();
    lats.dedup();
    assert_eq!(lats.len(), 16);
    assert_eq!(lats[0], 0);
    assert_eq!(lats[1], 62_570);
    assert_eq!(lats[15], 938_550);
    for g in &grid {
        assert_eq!(g.radius_m, 6_957);
    }
}

#[test]
fn grid_points_lie_inside_polygon_and_box() {
    let ring = vec![
        GeoPoint::new(0, 0),
        GeoPoint::new(0, 2_000_000),
        GeoPoint::new(2_000_000, 1_000_000),
    ];
    let bb = bounding_box(&ring);
    let grid = plan(&ring).unwrap();
    assert!(!grid.is_empty());
    for g in &grid {
        assert!(point_in_polygon(g.center(), &ring));
        assert!(bb.min_lat <= g.lat && g.lat <= bb.max_lat);
        assert!(bb.min_lng <= g.lng && g.lng <= bb.max_lng);
    }
}

#[test]
fn row_count_whole_multiple_is_ceil_plus_one() {
    // 14224 microdegrees of extent is exactly 16 steps of 889: the walk
    // visits ceil(14224 / 889) + 1 = 17 rows.
    assert_eq!(row_count(0, 14_224, 889), 17);
}

#[test]
fn row_count_general_case() {
    // 1_000_000 is not a multiple of 62570: 15 whole steps fit, so the
    // walk visits 16 rows.
    assert_eq!(row_count(0, 1_000_000, 62_570), 16);
    assert_eq!(row_count(-31_285, 31_285, 62_570), 2);
    assert_eq!(row_count(5, 5, 3), 1);
}

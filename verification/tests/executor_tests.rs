use polyfill_search::config::PolyFillSearch;
use polyfill_search::errors::ConfigError;
use polyfill_search::executor::{
    aggregate_outcomes, validate_filter, Executor, QueryOutcome, SearchFilter,
};
use polyfill_search::geometry::GeoPoint;
use polyfill_search::planner::{plan, GridPoint};

fn square_1deg() -> Vec<GeoPoint> {
    vec![
        GeoPoint::new(0, 0),
        GeoPoint::new(0, 1_000_000),
        GeoPoint::new(1_000_000, 1_000_000),
        GeoPoint::new(1_000_000, 0),
    ]
}

fn dummy_points(n: usize) -> Vec<GridPoint> {
    let mut v = Vec::new();
    for i in 0..n {
        v.push(GridPoint { lat: i as i64, lng: i as i64, radius_m: 100 });
    }
    v
}

#[test]
fn filter_neither_choice_is_invalid() {
    assert_eq!(validate_filter(None, None), Err(ConfigError::InvalidFilter));
}

#[test]
fn filter_type_code_wins_over_keyword() {
    let r = validate_filter(Some("hospital".to_string()), Some("clinic".to_string()));
    assert_eq!(r, Ok(SearchFilter::ByType("hospital".to_string())));
}

#[test]
fn filter_keyword_alone_is_kept() {
    let r = validate_filter(None, Some("pharmacy".to_string()));
    assert_eq!(r, Ok(SearchFilter::ByKeyword("pharmacy".to_string())));
}

#[test]
fn executor_never_exceeds_concurrency_limit() {
    let mut ex = Executor::new(dummy_points(9), 2);
    let mut in_hand: Vec<GridPoint> = Vec::new();
    let mut dispatched = 0usize;
    while !ex.is_finished() {
        while let Some(g) = ex.start_next() {
            in_hand.push(g);
            dispatched += 1;
            assert!(ex.in_flight_count() <= 2);
        }
        assert!(ex.in_flight_count() <= 2);
        let g = in_hand.pop().unwrap();
        if g.lat % 2 == 0 {
            ex.complete_success(vec![format!("place-{}", g.lat)]);
        } else {
            ex.complete_failure();
        }
    }
    assert_eq!(dispatched, 9);
    let r = ex.finish();
    // lats 0..8: odd ones (1,3,5,7) fail.
    assert_eq!(r.failures, 4);
    assert_eq!(r.place_ids.len(), 5);
}

#[test]
fn duplicate_identifier_is_held_once() {
    let outcomes = vec![
        QueryOutcome::Success(vec!["X".to_string()]),
        QueryOutcome::Success(vec!["X".to_string(), "Y".to_string()]),
    ];
    let r = aggregate_outcomes(&outcomes);
    assert_eq!(r.failures, 0);
    assert_eq!(r.place_ids, vec!["X".to_string(), "Y".to_string()]);
}

#[test]
fn failures_are_counted_and_absorbed() {
    let outcomes = vec![
        QueryOutcome::Success(vec!["A".to_string()]),
        QueryOutcome::Failure,
        QueryOutcome::Success(vec!["B".to_string()]),
        QueryOutcome::Failure,
    ];
    let r = aggregate_outcomes(&outcomes);
    assert_eq!(r.failures, 2);
    assert_eq!(r.place_ids, vec!["A".to_string(), "B".to_string()]);
}

#[test]
fn all_queries_failing_still_returns_a_result() {
    let outcomes = vec![QueryOutcome::Failure, QueryOutcome::Failure];
    let r = aggregate_outcomes(&outcomes);
    assert_eq!(r.failures, 2);
    assert!(r.place_ids.is_empty());
}

#[test]
fn empty_grid_yields_empty_result() {
    let outcomes: Vec<QueryOutcome> = vec![];
    let r = aggregate_outcomes(&outcomes);
    assert_eq!(r.failures, 0);
    assert!(r.place_ids.is_empty());
}

#[test]
fn square_scan_with_constant_mock_yields_single_place() {
    // Every grid point's search returns ["A"]: the final set is {"A"}
    // whatever the grid density.
    let grid = plan(&square_1deg()).unwrap();
    assert_eq!(grid.len(), 256);
    let outcomes: Vec<QueryOutcome> =
        grid.iter().map(|_| QueryOutcome::Success(vec!["A".to_string()])).collect();
    let r = aggregate_outcomes(&outcomes);
    assert_eq!(r.failures, 0);
    assert_eq!(r.place_ids, vec!["A".to_string()]);

    // The same through the bounded executor, completing as dispatched.
    let mut ex = Executor::new(grid, 16);
    while !ex.is_finished() {
        assert!(ex.in_flight_count() <= 16);
        if ex.start_next().is_some() {
            ex.complete_success(vec!["A".to_string()]);
        }
    }
    let r2 = ex.finish();
    assert_eq!(r2.failures, 0);
    assert_eq!(r2.place_ids, vec!["A".to_string()]);
}

#[test]
fn builder_requires_polygon() {
    let cfg = PolyFillSearch::new().with_type("hospital".to_string());
    assert!(matches!(cfg.validate(), Err(ConfigError::InvalidPolygon)));
}

#[test]
fn builder_requires_a_filter() {
    let cfg = PolyFillSearch::new().with_polygon(square_1deg());
    assert!(matches!(cfg.validate(), Err(ConfigError::InvalidFilter)));
}

#[test]
fn builder_full_configuration_plans_the_scan() {
    let cfg = PolyFillSearch::new()
        .with_type("hospital".to_string())
        .with_keywords("clinic".to_string())
        .with_polygon(square_1deg());
    let sp = cfg.validate().unwrap();
    assert_eq!(sp.grid_points.len(), 256);
    assert_eq!(sp.filter, SearchFilter::ByType("hospital".to_string()));
}

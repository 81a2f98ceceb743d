use vstd::prelude::*;
use vstd::arithmetic::div_mod::{
    lemma_div_nonincreasing, lemma_div_pos_is_pos,
    lemma_basic_div, lemma_div_by_self, lemma_div_is_ordered, lemma_div_multiples_vanish_fancy,
    lemma_div_multiples_vanish_quotient, lemma_div_plus_one, lemma_fundamental_div_mod,
};
use vstd::arithmetic::mul::lemma_mul_inequality;
use crate::errors::ConfigError;
use crate::geometry::{
    bounding_box, in_polygon, lemma_bounds_ordered, lemma_bounds_valid, lemma_mul_bound,
    max_lat_of, max_lng_of, min_lat_of, min_lng_of, point_in_polygon, valid_lat, valid_lng,
    valid_ring, GeoPoint,
};

verus! {

// The grid-step rule, in fixed point. The scan radius grows with the
// polygon's latitude extent: `radius_km = 111.32 km/deg * dlat_deg / 16`,
// a tunable sampling-density rule, not a geometric law. The latitude step
// is that radius converted back to degrees on a sphere of radius 6371 km:
// `lat_step_deg = radius_km / 6371 * (180 / pi)`. Composed and scaled to
// microdegrees these give
// `lat_step = dlat * (11132 * 180) / (100 * 16 * 6371 * pi)`;
// the denominator below is that product with pi rounded at the eighth
// decimal place.
/// Numerator of the latitude-step rule: 11132 * 180.
pub const LAT_STEP_NUM: u64 = 2_003_760;

/// Denominator of the latitude-step rule: 100 * 16 * 6371 * pi, rounded.
pub const LAT_STEP_DEN: u64 = 32_024_139;

/// Numerator of the radius rule in metres: 111.32 km/deg scaled by 100.
pub const RADIUS_NUM: u64 = 11_132;

/// Denominator of the radius rule in metres: 16 * 100 * 1000, over
/// microdegrees.
pub const RADIUS_DEN: u64 = 1_600_000;

/// The scale of fixed-point cosine values: `COS_SCALE` stands for 1.
pub const COS_SCALE: u64 = 1_000_000;

/// `pi / 180` scaled by `10^8`: converts microdegrees to microradians.
pub const MICRORAD_PER_MICRODEG_NUM: u64 = 1_745_329;

/// The scale of [`MICRORAD_PER_MICRODEG_NUM`].
pub const MICRORAD_PER_MICRODEG_DEN: u64 = 100_000_000;

/// The latitude step, in microdegrees, for a bounding box of `dlat`
/// microdegrees of latitude extent.
pub open spec fn lat_step_of(dlat: int) -> int {
    dlat * (LAT_STEP_NUM as int) / (LAT_STEP_DEN as int)
}

/// The search radius, in metres, for a bounding box of `dlat`
/// microdegrees of latitude extent.
pub open spec fn radius_m_of(dlat: int) -> int {
    dlat * (RADIUS_NUM as int) / (RADIUS_DEN as int)
}

/// The magnitude of `x`; the cosine is even, so only it matters.
pub open spec fn abs_of(x: int) -> int {
    if x < 0 {
        -x
    } else {
        x
    }
}

/// The fixed-point cosine of a latitude given in microdegrees, scaled by
/// `COS_SCALE`: the truncated series `1 - r^2/2 + r^4/24 - r^6/720` over
/// the latitude in radians, each term floored at the library's scales.
/// This is the library's own correction rule; it is exact at the equator
/// and keeps three to four digits over inhabited latitudes.
pub open spec fn cos_microdeg(lat: int) -> int {
    let x = abs_of(lat) * (MICRORAD_PER_MICRODEG_NUM as int) / (MICRORAD_PER_MICRODEG_DEN as int);
    let y = x * x / 1_000_000;
    let q = y * y;
    1_000_000 - y / 2 + q / 24_000_000 - (q / 1_000_000) * y / 720_000_000
}

/// Computes [`cos_microdeg`] of the latitude.
pub fn cos_fp(lat: i64) -> (r: i64)
    requires
        valid_lat(lat as int),
    ensures
        r as int == cos_microdeg(lat as int),
        r <= 1_000_000,
{
    let t: u64 = if lat < 0 {
        (-lat) as u64
    } else {
        lat as u64
    };
    proof {
        assert(t == abs_of(lat as int));
        lemma_mul_bound(t as int, MICRORAD_PER_MICRODEG_NUM as int, 90_000_000, 1_745_329);
    }
    let xm: u64 = t * MICRORAD_PER_MICRODEG_NUM;
    proof {
        lemma_div_is_ordered(xm as int, 157_079_610_000_000, MICRORAD_PER_MICRODEG_DEN as int);
    }
    let x: u64 = xm / MICRORAD_PER_MICRODEG_DEN;
    proof {
        assert(x <= 1_570_796);
        lemma_mul_bound(x as int, x as int, 1_570_796, 1_570_796);
    }
    let ym: u64 = x * x;
    proof {
        lemma_div_is_ordered(ym as int, 2_467_400_473_616, 1_000_000);
    }
    let y: u64 = ym / 1_000_000;
    proof {
        assert(y <= 2_467_400);
        lemma_mul_bound(y as int, y as int, 2_467_400, 2_467_400);
    }
    let q: u64 = y * y;
    let t2: u64 = y / 2;
    let t4: u64 = q / 24_000_000;
    proof {
        lemma_div_is_ordered(q as int, 6_088_062_760_000, 1_000_000);
        lemma_mul_bound((q / 1_000_000) as int, y as int, 6_088_062, 2_467_400);
    }
    let t6: u64 = (q / 1_000_000) * y / 720_000_000;
    proof {
        // The quartic term never exceeds the quadratic one, so the value
        // stays at or below the scale: q <= 12_000_000 * y.
        lemma_mul_inequality(y as int, 12_000_000, y as int);
        lemma_div_is_ordered(q as int, 12_000_000 * (y as int), 24_000_000);
        lemma_div_multiples_vanish_quotient(12_000_000, y as int, 2);
        assert(t4 <= t2);
        lemma_div_is_ordered(t6 as int, 15_021_534_082_800, 720_000_000);
    }
    let r: i64 = 1_000_000i64 + (t4 as i64) - (t2 as i64) - (t6 as i64);
    r
}

/// A grid point: a search-circle centre that lies inside the polygon,
/// carrying the scan-wide search radius in metres.
#[derive(Clone, Copy, PartialEq, Eq, Structural, Debug)]
pub struct GridPoint {
    pub lat: i64,
    pub lng: i64,
    pub radius_m: i64,
}

/// The grid point's centre as a geographic point.
pub open spec fn grid_geo(g: GridPoint) -> GeoPoint {
    GeoPoint { lat: g.lat, lng: g.lng }
}

impl GridPoint {
    /// The centre of this grid point's search circle.
    pub fn center(&self) -> (r: GeoPoint)
        ensures
            r == grid_geo(*self),
    {
        GeoPoint { lat: self.lat, lng: self.lng }
    }
}

/// The latitude extent of the ring's bounding box, in microdegrees.
pub open spec fn spec_dlat(ring: Seq<GeoPoint>) -> int {
    max_lat_of(ring) - min_lat_of(ring)
}

/// The latitude step the planner walks with, for this ring.
pub open spec fn spec_lat_step(ring: Seq<GeoPoint>) -> int {
    lat_step_of(spec_dlat(ring))
}

/// The search radius the planner assigns, for this ring.
pub open spec fn spec_radius_m(ring: Seq<GeoPoint>) -> int {
    radius_m_of(spec_dlat(ring))
}

/// The fixed-point cosine of the box's least latitude: the most
/// conservative longitude correction anywhere in the box.
pub open spec fn spec_cos_min_lat(ring: Seq<GeoPoint>) -> int {
    cos_microdeg(min_lat_of(ring))
}

/// The longitude step: the latitude step widened by the cosine of the
/// box's least latitude, so rows never under-sample.
pub open spec fn spec_lng_step(ring: Seq<GeoPoint>) -> int {
    spec_lat_step(ring) * (COS_SCALE as int) / spec_cos_min_lat(ring)
}

/// The ring's box is too flat (or too close to a pole) for a positive
/// grid step, so the walk could not terminate.
pub open spec fn plan_degenerate(ring: Seq<GeoPoint>) -> bool {
    spec_lat_step(ring) <= 0 || spec_cos_min_lat(ring) <= 0
}

/// One row of the grid walk: the points at latitude `lat` whose
/// longitudes run from `lng` to `max_lng` inclusive in steps of
/// `lng_step`, kept when they lie inside the ring.
pub open spec fn row_from(
    ring: Seq<GeoPoint>,
    lat: int,
    lng: int,
    max_lng: int,
    lng_step: int,
    radius: int,
) -> Seq<GridPoint>
    decreases max_lng + lng_step - lng
        when lng_step > 0
{
    if lng > max_lng {
        Seq::empty()
    } else {
        let rest = row_from(ring, lat, lng + lng_step, max_lng, lng_step, radius);
        if in_polygon(GeoPoint { lat: lat as i64, lng: lng as i64 }, ring) {
            seq![GridPoint { lat: lat as i64, lng: lng as i64, radius_m: radius as i64 }] + rest
        } else {
            rest
        }
    }
}

/// The grid walk from latitude `lat` up to `max_lat` inclusive: each
/// row's points, in row-major order.
pub open spec fn grid_from(
    ring: Seq<GeoPoint>,
    lat: int,
    max_lat: int,
    lat_step: int,
    min_lng: int,
    max_lng: int,
    lng_step: int,
    radius: int,
) -> Seq<GridPoint>
    decreases max_lat + lat_step - lat
        when lat_step > 0
{
    if lat > max_lat {
        Seq::empty()
    } else {
        row_from(ring, lat, min_lng, max_lng, lng_step, radius) + grid_from(
            ring,
            lat + lat_step,
            max_lat,
            lat_step,
            min_lng,
            max_lng,
            lng_step,
            radius,
        )
    }
}

/// The full grid the planner emits for the ring: every sample of the
/// bounding box that lies inside the ring, with the scan-wide radius.
pub open spec fn grid_of(ring: Seq<GeoPoint>) -> Seq<GridPoint> {
    grid_from(
        ring,
        min_lat_of(ring),
        max_lat_of(ring),
        spec_lat_step(ring),
        min_lng_of(ring),
        max_lng_of(ring),
        spec_lng_step(ring),
        spec_radius_m(ring),
    )
}

/// Plans the scan's grid for the polygon: the bounding box is sampled in
/// geodesically corrected steps and every sample inside the polygon is
/// emitted with the scan-wide radius.
pub fn plan(polygon: &Vec<GeoPoint>) -> (r: Result<Vec<GridPoint>, ConfigError>)
    requires
        valid_ring(polygon@),
    ensures
        r matches Err(e) && e == ConfigError::InvalidPolygon <==> polygon@.len() < 3,
        polygon@.len() >= 3 ==> ((r matches Err(e) && e == ConfigError::DegeneratePolygon)
            <==> plan_degenerate(polygon@)),
        r is Ok <==> polygon@.len() >= 3 && !plan_degenerate(polygon@),
        r matches Ok(v) ==> v@ == grid_of(polygon@),
        r matches Ok(v) ==> forall|j: int| 0 <= j < v@.len() ==> {
            let g = #[trigger] v@[j];
            &&& in_polygon(grid_geo(g), polygon@)
            &&& min_lat_of(polygon@) <= g.lat as int <= max_lat_of(polygon@)
            &&& min_lng_of(polygon@) <= g.lng as int <= max_lng_of(polygon@)
            &&& g.radius_m as int == spec_radius_m(polygon@)
        },
{
    if polygon.len() < 3 {
        return Err(ConfigError::InvalidPolygon);
    }
    proof {
        lemma_bounds_ordered(polygon@);
        lemma_bounds_valid(polygon@);
    }
    let bb = bounding_box(polygon);
    let dlat: i64 = bb.max_lat - bb.min_lat;
    let du: u64 = dlat as u64;
    let lat_step_u: u64 = du * LAT_STEP_NUM / LAT_STEP_DEN;
    let radius_u: u64 = du * RADIUS_NUM / RADIUS_DEN;
    proof {
        lemma_div_is_ordered((du * LAT_STEP_NUM) as int, 360_676_800_000_000, LAT_STEP_DEN as int);
        lemma_div_is_ordered((du * RADIUS_NUM) as int, 2_003_760_000_000, RADIUS_DEN as int);
        assert(lat_step_u as int == lat_step_of(dlat as int));
        assert(radius_u as int == radius_m_of(dlat as int));
        assert(lat_step_u <= 11_262_686);
        assert(radius_u <= 1_252_350);
    }
    let c: i64 = cos_fp(bb.min_lat);
    if lat_step_u == 0 || c <= 0 {
        return Err(ConfigError::DegeneratePolygon);
    }
    let cu: u64 = c as u64;
    let lng_step_u: u64 = lat_step_u * COS_SCALE / cu;
    proof {
        lemma_div_is_ordered(cu as int, (lat_step_u * 1_000_000) as int, cu as int);
        lemma_div_by_self(cu as int);
        assert(lng_step_u >= 1);
        lemma_div_is_ordered((lat_step_u * 1_000_000) as int, 11_262_686_000_000, cu as int);
        assert(lng_step_u as int == spec_lng_step(polygon@));
    }
    let lat_step: i64 = lat_step_u as i64;
    let lng_step: i64 = lng_step_u as i64;
    let radius_m: i64 = radius_u as i64;
    let mut out: Vec<GridPoint> = Vec::new();
    let mut lat: i64 = bb.min_lat;
    proof {
        assert(out@ + grid_of(polygon@) =~= grid_of(polygon@));
    }
    while lat <= bb.max_lat
        invariant
            polygon@.len() >= 3,
            valid_ring(polygon@),
            bb.min_lat as int == min_lat_of(polygon@),
            bb.max_lat as int == max_lat_of(polygon@),
            bb.min_lng as int == min_lng_of(polygon@),
            bb.max_lng as int == max_lng_of(polygon@),
            valid_lat(bb.min_lat as int),
            valid_lat(bb.max_lat as int),
            valid_lng(bb.min_lng as int),
            valid_lng(bb.max_lng as int),
            bb.min_lat <= bb.max_lat,
            bb.min_lng <= bb.max_lng,
            lat_step as int == spec_lat_step(polygon@),
            lng_step as int == spec_lng_step(polygon@),
            radius_m as int == spec_radius_m(polygon@),
            1 <= lat_step <= 11_262_686,
            1 <= lng_step <= 11_262_686_000_000,
            0 <= radius_m <= 1_252_350,
            bb.min_lat <= lat,
            lat <= bb.max_lat + lat_step,
            out@ + grid_from(
                polygon@,
                lat as int,
                bb.max_lat as int,
                lat_step as int,
                bb.min_lng as int,
                bb.max_lng as int,
                lng_step as int,
                radius_m as int,
            ) == grid_of(polygon@),
        decreases bb.max_lat + lat_step - lat,
    {
        let mut lng: i64 = bb.min_lng;
        proof {
            let g_rest = grid_from(
                polygon@,
                lat as int + lat_step as int,
                bb.max_lat as int,
                lat_step as int,
                bb.min_lng as int,
                bb.max_lng as int,
                lng_step as int,
                radius_m as int,
            );
            let row = row_from(
                polygon@,
                lat as int,
                bb.min_lng as int,
                bb.max_lng as int,
                lng_step as int,
                radius_m as int,
            );
            assert(out@ + (row + g_rest) =~= (out@ + row) + g_rest);
        }
        while lng <= bb.max_lng
            invariant
                polygon@.len() >= 3,
                valid_ring(polygon@),
                bb.min_lat as int == min_lat_of(polygon@),
                bb.max_lat as int == max_lat_of(polygon@),
                bb.min_lng as int == min_lng_of(polygon@),
                bb.max_lng as int == max_lng_of(polygon@),
                valid_lat(bb.min_lat as int),
                valid_lat(bb.max_lat as int),
                valid_lng(bb.min_lng as int),
                valid_lng(bb.max_lng as int),
                lat_step as int == spec_lat_step(polygon@),
                lng_step as int == spec_lng_step(polygon@),
                radius_m as int == spec_radius_m(polygon@),
                1 <= lat_step <= 11_262_686,
                1 <= lng_step <= 11_262_686_000_000,
                0 <= radius_m <= 1_252_350,
                bb.min_lat <= lat <= bb.max_lat,
                bb.min_lng <= lng,
                lng <= bb.max_lng + lng_step,
                out@ + row_from(
                    polygon@,
                    lat as int,
                    lng as int,
                    bb.max_lng as int,
                    lng_step as int,
                    radius_m as int,
                ) + grid_from(
                    polygon@,
                    lat as int + lat_step as int,
                    bb.max_lat as int,
                    lat_step as int,
                    bb.min_lng as int,
                    bb.max_lng as int,
                    lng_step as int,
                    radius_m as int,
                ) == grid_of(polygon@),
            decreases bb.max_lng + lng_step - lng,
        {
            let p = GeoPoint { lat, lng };
            let ghost out_before = out@;
            let ghost row_here = row_from(
                polygon@,
                lat as int,
                lng as int,
                bb.max_lng as int,
                lng_step as int,
                radius_m as int,
            );
            let ghost row_next = row_from(
                polygon@,
                lat as int,
                lng as int + lng_step as int,
                bb.max_lng as int,
                lng_step as int,
                radius_m as int,
            );
            let ghost g_rest = grid_from(
                polygon@,
                lat as int + lat_step as int,
                bb.max_lat as int,
                lat_step as int,
                bb.min_lng as int,
                bb.max_lng as int,
                lng_step as int,
                radius_m as int,
            );
            if point_in_polygon(p, polygon) {
                let g = GridPoint { lat, lng, radius_m };
                out.push(g);
                proof {
                    assert(row_here == seq![g] + row_next);
                    assert(out@ + row_next =~= out_before + row_here);
                    assert((out@ + row_next) + g_rest =~= (out_before + row_here) + g_rest);
                }
            } else {
                proof {
                    assert(row_here == row_next);
                }
            }
            lng = lng + lng_step;
        }
        proof {
            let row_done = row_from(
                polygon@,
                lat as int,
                lng as int,
                bb.max_lng as int,
                lng_step as int,
                radius_m as int,
            );
            let g_rest = grid_from(
                polygon@,
                lat as int + lat_step as int,
                bb.max_lat as int,
                lat_step as int,
                bb.min_lng as int,
                bb.max_lng as int,
                lng_step as int,
                radius_m as int,
            );
            assert(row_done =~= Seq::<GridPoint>::empty());
            assert(out@ + row_done + g_rest =~= out@ + g_rest);
        }
        lat = lat + lat_step;
    }
    proof {
        assert(grid_from(
            polygon@,
            lat as int,
            bb.max_lat as int,
            lat_step as int,
            bb.min_lng as int,
            bb.max_lng as int,
            lng_step as int,
            radius_m as int,
        ) =~= Seq::<GridPoint>::empty());
        assert(out@ + Seq::<GridPoint>::empty() =~= out@);
        lemma_grid_points_inside(polygon@);
    }
    Ok(out)
}

/// The fixed-point cosine never exceeds its scale: the quartic term of
/// the series never outweighs the quadratic one.
pub proof fn lemma_cos_le_one(lat: int)
    requires
        valid_lat(lat),
    ensures
        cos_microdeg(lat) <= 1_000_000,
{
    let t = abs_of(lat);
    let xm = t * (MICRORAD_PER_MICRODEG_NUM as int);
    lemma_div_pos_is_pos(xm, MICRORAD_PER_MICRODEG_DEN as int);
    lemma_div_is_ordered(xm, 157_079_610_000_000, MICRORAD_PER_MICRODEG_DEN as int);
    let x = xm / (MICRORAD_PER_MICRODEG_DEN as int);
    lemma_mul_bound(x, x, 1_570_796, 1_570_796);
    assert(x * x >= 0) by (nonlinear_arith)
        requires
            x >= 0,
    ;
    let ym = x * x;
    lemma_div_pos_is_pos(ym, 1_000_000);
    lemma_div_is_ordered(ym, 2_467_400_473_616, 1_000_000);
    let y = ym / 1_000_000;
    assert(y * y >= 0) by (nonlinear_arith)
        requires
            y >= 0,
    ;
    let q = y * y;
    lemma_mul_inequality(y, 12_000_000, y);
    lemma_div_is_ordered(q, 12_000_000 * y, 24_000_000);
    lemma_div_multiples_vanish_quotient(12_000_000, y, 2);
    lemma_div_pos_is_pos(q, 1_000_000);
    assert((q / 1_000_000) * y >= 0) by (nonlinear_arith)
        requires
            q / 1_000_000 >= 0,
            y >= 0,
    ;
    lemma_div_pos_is_pos((q / 1_000_000) * y, 720_000_000);
}

/// Every point of a grid row lies inside the ring, at the row's
/// latitude, with its longitude between the walk's current position and
/// the box's east bound, and carries the scan radius.
pub proof fn lemma_row_from_props(
    ring: Seq<GeoPoint>,
    lat: int,
    lng: int,
    max_lng: int,
    lng_step: int,
    radius: int,
)
    requires
        lng_step > 0,
        lng_step <= 100_000_000_000_000,
        valid_lat(lat),
        -180_000_000 <= lng,
        valid_lng(max_lng),
        0 <= radius <= 0x7fff_ffff_ffff_ffff,
    ensures
        forall|j: int| 0 <= j < row_from(ring, lat, lng, max_lng, lng_step, radius).len() ==> {
            let g = #[trigger] row_from(ring, lat, lng, max_lng, lng_step, radius)[j];
            &&& g.lat as int == lat
            &&& lng <= g.lng as int <= max_lng
            &&& g.radius_m as int == radius
            &&& in_polygon(grid_geo(g), ring)
        },
    decreases max_lng + lng_step - lng,
{
    if lng > max_lng {
    } else {
        lemma_row_from_props(ring, lat, lng + lng_step, max_lng, lng_step, radius);
        let row = row_from(ring, lat, lng, max_lng, lng_step, radius);
        let rest = row_from(ring, lat, lng + lng_step, max_lng, lng_step, radius);
        let here = GeoPoint { lat: lat as i64, lng: lng as i64 };
        assert forall|j: int| 0 <= j < row.len() implies {
            let g = #[trigger] row[j];
            &&& g.lat as int == lat
            &&& lng <= g.lng as int <= max_lng
            &&& g.radius_m as int == radius
            &&& in_polygon(grid_geo(g), ring)
        } by {
            if in_polygon(here, ring) {
                if j == 0 {
                    assert(row[0] == GridPoint {
                        lat: lat as i64,
                        lng: lng as i64,
                        radius_m: radius as i64,
                    });
                    assert(grid_geo(row[0]) == here);
                } else {
                    assert(row[j] == rest[j - 1]);
                }
            } else {
                assert(row[j] == rest[j]);
            }
        }
    }
}

/// Every point the grid walk emits lies inside the ring and inside the
/// sampled rectangle, and carries the scan radius.
pub proof fn lemma_grid_from_props(
    ring: Seq<GeoPoint>,
    lat: int,
    max_lat: int,
    lat_step: int,
    min_lng: int,
    max_lng: int,
    lng_step: int,
    radius: int,
)
    requires
        lat_step > 0,
        lat_step <= 100_000_000_000_000,
        lng_step > 0,
        lng_step <= 100_000_000_000_000,
        -90_000_000 <= lat,
        valid_lat(max_lat),
        valid_lng(min_lng),
        valid_lng(max_lng),
        0 <= radius <= 0x7fff_ffff_ffff_ffff,
    ensures
        forall|j: int|
            0 <= j < grid_from(ring, lat, max_lat, lat_step, min_lng, max_lng, lng_step,
                radius).len() ==> {
                let g = #[trigger] grid_from(ring, lat, max_lat, lat_step, min_lng, max_lng,
                    lng_step, radius)[j];
                &&& lat <= g.lat as int <= max_lat
                &&& min_lng <= g.lng as int <= max_lng
                &&& g.radius_m as int == radius
                &&& in_polygon(grid_geo(g), ring)
            },
    decreases max_lat + lat_step - lat,
{
    if lat > max_lat {
    } else {
        let grid = grid_from(ring, lat, max_lat, lat_step, min_lng, max_lng, lng_step, radius);
        let row = row_from(ring, lat, min_lng, max_lng, lng_step, radius);
        lemma_row_from_props(ring, lat, min_lng, max_lng, lng_step, radius);
        if lat + lat_step <= max_lat {
            lemma_grid_from_props(ring, lat + lat_step, max_lat, lat_step, min_lng, max_lng,
                lng_step, radius);
        }
        let rest = grid_from(ring, lat + lat_step, max_lat, lat_step, min_lng, max_lng, lng_step,
            radius);
        assert forall|j: int| 0 <= j < grid.len() implies {
            let g = #[trigger] grid[j];
            &&& lat <= g.lat as int <= max_lat
            &&& min_lng <= g.lng as int <= max_lng
            &&& g.radius_m as int == radius
            &&& in_polygon(grid_geo(g), ring)
        } by {
            if j < row.len() {
                assert(grid[j] == row[j]);
            } else {
                assert(grid[j] == rest[j - row.len()]);
            }
        }
    }
}

/// The planner emits only points for which the containment test holds —
/// no false positives — and every emitted point lies within the
/// polygon's bounding box.
pub proof fn lemma_grid_points_inside(ring: Seq<GeoPoint>)
    requires
        ring.len() >= 3,
        valid_ring(ring),
        !plan_degenerate(ring),
    ensures
        forall|j: int| 0 <= j < grid_of(ring).len() ==> {
            let g = #[trigger] grid_of(ring)[j];
            &&& in_polygon(grid_geo(g), ring)
            &&& min_lat_of(ring) <= g.lat as int <= max_lat_of(ring)
            &&& min_lng_of(ring) <= g.lng as int <= max_lng_of(ring)
            &&& g.radius_m as int == spec_radius_m(ring)
        },
{
    lemma_bounds_ordered(ring);
    lemma_bounds_valid(ring);
    lemma_cos_le_one(min_lat_of(ring));
    lemma_div_by_self(spec_cos_min_lat(ring));
    lemma_div_is_ordered(
        spec_cos_min_lat(ring),
        spec_lat_step(ring) * 1_000_000,
        spec_cos_min_lat(ring),
    );
    lemma_div_pos_is_pos(spec_dlat(ring) * (RADIUS_NUM as int), RADIUS_DEN as int);
    lemma_div_is_ordered(
        spec_dlat(ring) * (RADIUS_NUM as int),
        2_003_760_000_000,
        RADIUS_DEN as int,
    );
    lemma_div_pos_is_pos(spec_dlat(ring) * (LAT_STEP_NUM as int), LAT_STEP_DEN as int);
    lemma_div_is_ordered(
        spec_dlat(ring) * (LAT_STEP_NUM as int),
        360_676_800_000_000,
        LAT_STEP_DEN as int,
    );
    lemma_div_nonincreasing(spec_lat_step(ring) * 1_000_000, spec_cos_min_lat(ring));
    lemma_grid_from_props(
        ring,
        min_lat_of(ring),
        max_lat_of(ring),
        spec_lat_step(ring),
        min_lng_of(ring),
        max_lng_of(ring),
        spec_lng_step(ring),
        spec_radius_m(ring),
    );
}

/// A row of the walk holds the sample `j` whole steps east of its
/// start whenever that sample is still inside the box and the ring.
pub proof fn lemma_row_from_complete(
    ring: Seq<GeoPoint>,
    lat: int,
    lng: int,
    max_lng: int,
    lng_step: int,
    radius: int,
    j: int,
)
    requires
        lng_step > 0,
        0 <= j,
        lng + j * lng_step <= max_lng,
        in_polygon((GeoPoint { lat: lat as i64, lng: (lng + j * lng_step) as i64 }), ring),
    ensures
        row_from(ring, lat, lng, max_lng, lng_step, radius).contains(
            (GridPoint {
                lat: lat as i64,
                lng: (lng + j * lng_step) as i64,
                radius_m: radius as i64,
            }),
        ),
    decreases j,
{
    let g = GridPoint {
        lat: lat as i64,
        lng: (lng + j * lng_step) as i64,
        radius_m: radius as i64,
    };
    let row = row_from(ring, lat, lng, max_lng, lng_step, radius);
    let rest = row_from(ring, lat, lng + lng_step, max_lng, lng_step, radius);
    lemma_mul_inequality(0, j, lng_step);
    assert(lng <= max_lng);
    if j == 0 {
        assert(j * lng_step == 0);
        assert(row[0] == g);
        assert(row.contains(g));
    } else {
        assert((lng + lng_step) + (j - 1) * lng_step == lng + j * lng_step) by (nonlinear_arith);
        lemma_row_from_complete(ring, lat, lng + lng_step, max_lng, lng_step, radius, j - 1);
        let i = choose|i: int| 0 <= i < rest.len() && rest[i] == g;
        if in_polygon((GeoPoint { lat: lat as i64, lng: lng as i64 }), ring) {
            assert(row[i + 1] == g);
        } else {
            assert(row[i] == g);
        }
        assert(row.contains(g));
    }
}

/// The walk holds every in-ring sample `k` rows up and `j` columns east
/// of its start.
pub proof fn lemma_grid_from_complete(
    ring: Seq<GeoPoint>,
    lat: int,
    max_lat: int,
    lat_step: int,
    min_lng: int,
    max_lng: int,
    lng_step: int,
    radius: int,
    k: int,
    j: int,
)
    requires
        lat_step > 0,
        lng_step > 0,
        0 <= k,
        0 <= j,
        lat + k * lat_step <= max_lat,
        min_lng + j * lng_step <= max_lng,
        in_polygon(
            (GeoPoint {
                lat: (lat + k * lat_step) as i64,
                lng: (min_lng + j * lng_step) as i64,
            }),
            ring,
        ),
    ensures
        grid_from(ring, lat, max_lat, lat_step, min_lng, max_lng, lng_step, radius).contains(
            (GridPoint {
                lat: (lat + k * lat_step) as i64,
                lng: (min_lng + j * lng_step) as i64,
                radius_m: radius as i64,
            }),
        ),
    decreases k,
{
    let g = GridPoint {
        lat: (lat + k * lat_step) as i64,
        lng: (min_lng + j * lng_step) as i64,
        radius_m: radius as i64,
    };
    let grid = grid_from(ring, lat, max_lat, lat_step, min_lng, max_lng, lng_step, radius);
    let row = row_from(ring, lat, min_lng, max_lng, lng_step, radius);
    let rest = grid_from(ring, lat + lat_step, max_lat, lat_step, min_lng, max_lng, lng_step,
        radius);
    lemma_mul_inequality(0, k, lat_step);
    assert(lat <= max_lat);
    assert(grid == row + rest);
    if k == 0 {
        assert(k * lat_step == 0);
        lemma_row_from_complete(ring, lat, min_lng, max_lng, lng_step, radius, j);
        let i = choose|i: int| 0 <= i < row.len() && row[i] == g;
        assert(grid[i] == g);
        assert(grid.contains(g));
    } else {
        assert((lat + lat_step) + (k - 1) * lat_step == lat + k * lat_step) by (nonlinear_arith);
        lemma_grid_from_complete(ring, lat + lat_step, max_lat, lat_step, min_lng, max_lng,
            lng_step, radius, k - 1, j);
        let i = choose|i: int| 0 <= i < rest.len() && rest[i] == g;
        assert(grid[row.len() + i] == g);
        assert(grid.contains(g));
    }
}

/// The planner misses nothing: every sample of the walk whose point
/// lies inside the polygon is emitted, with the scan-wide radius.
pub proof fn lemma_grid_points_complete(ring: Seq<GeoPoint>, k: int, j: int)
    requires
        ring.len() >= 3,
        valid_ring(ring),
        !plan_degenerate(ring),
        0 <= k,
        0 <= j,
        min_lat_of(ring) + k * spec_lat_step(ring) <= max_lat_of(ring),
        min_lng_of(ring) + j * spec_lng_step(ring) <= max_lng_of(ring),
        in_polygon(
            (GeoPoint {
                lat: (min_lat_of(ring) + k * spec_lat_step(ring)) as i64,
                lng: (min_lng_of(ring) + j * spec_lng_step(ring)) as i64,
            }),
            ring,
        ),
    ensures
        grid_of(ring).contains(
            (GridPoint {
                lat: (min_lat_of(ring) + k * spec_lat_step(ring)) as i64,
                lng: (min_lng_of(ring) + j * spec_lng_step(ring)) as i64,
                radius_m: spec_radius_m(ring) as i64,
            }),
        ),
{
    lemma_bounds_ordered(ring);
    lemma_bounds_valid(ring);
    lemma_cos_le_one(min_lat_of(ring));
    lemma_div_by_self(spec_cos_min_lat(ring));
    lemma_div_is_ordered(
        spec_cos_min_lat(ring),
        spec_lat_step(ring) * (COS_SCALE as int),
        spec_cos_min_lat(ring),
    );
    lemma_grid_from_complete(
        ring,
        min_lat_of(ring),
        max_lat_of(ring),
        spec_lat_step(ring),
        min_lng_of(ring),
        max_lng_of(ring),
        spec_lng_step(ring),
        spec_radius_m(ring),
        k,
        j,
    );
}

/// How many latitude rows the walk visits between `lat` and `max_lat`
/// inclusive, stepping by `step`.
pub open spec fn lat_levels(lat: int, max_lat: int, step: int) -> nat
    decreases max_lat + step - lat
        when step > 0
{
    if lat > max_lat {
        0
    } else {
        1 + lat_levels(lat + step, max_lat, step)
    }
}

/// The row count in closed form: one row per whole step of latitude
/// extent, plus the starting row.
pub proof fn lemma_lat_levels_count(lat: int, max_lat: int, step: int)
    requires
        step > 0,
        lat <= max_lat,
    ensures
        lat_levels(lat, max_lat, step) == (max_lat - lat) / step + 1,
    decreases max_lat - lat,
{
    assert(lat_levels(lat, max_lat, step) == 1 + lat_levels(lat + step, max_lat, step));
    if lat + step > max_lat {
        assert(lat_levels(lat + step, max_lat, step) == 0);
        lemma_basic_div(max_lat - lat, step);
    } else {
        lemma_lat_levels_count(lat + step, max_lat, step);
        lemma_div_plus_one(max_lat - lat - step, step);
        assert(1 + (max_lat - lat - step) / step == (step + (max_lat - lat - step)) / step);
        assert(step + (max_lat - lat - step) == max_lat - lat);
    }
}

/// Division rounding towards positive infinity.
pub open spec fn ceil_div(a: int, b: int) -> int {
    (a + b - 1) / b
}

/// For a bounding box whose latitude extent is an exact multiple of the
/// latitude step, the walk visits exactly `ceil(dlat / step) + 1` rows.
pub proof fn lemma_row_count_ceil(min_lat: int, max_lat: int, step: int)
    requires
        step > 0,
        min_lat <= max_lat,
        (max_lat - min_lat) % step == 0,
    ensures
        lat_levels(min_lat, max_lat, step) == ceil_div(max_lat - min_lat, step) + 1,
{
    let a = max_lat - min_lat;
    lemma_lat_levels_count(min_lat, max_lat, step);
    lemma_fundamental_div_mod(a, step);
    assert(a == step * (a / step));
    lemma_div_multiples_vanish_fancy(a / step, step - 1, step);
    assert((step * (a / step) + (step - 1)) / step == a / step);
    assert(a + step - 1 == step * (a / step) + (step - 1));
}

/// For a polygon whose latitude extent is an exact multiple of the step
/// the planner derives for it, the grid walk visits exactly
/// `ceil(dlat / lat_step) + 1` rows.
pub proof fn lemma_plan_row_count(ring: Seq<GeoPoint>)
    requires
        ring.len() >= 3,
        !plan_degenerate(ring),
        min_lat_of(ring) <= max_lat_of(ring),
        spec_dlat(ring) % spec_lat_step(ring) == 0,
    ensures
        lat_levels(min_lat_of(ring), max_lat_of(ring), spec_lat_step(ring)) == ceil_div(
            spec_dlat(ring),
            spec_lat_step(ring),
        ) + 1,
{
    lemma_row_count_ceil(min_lat_of(ring), max_lat_of(ring), spec_lat_step(ring));
}

/// How many latitude rows the grid walk visits for the given bounds and
/// a positive step: an a-priori estimate of the scan's row volume.
pub fn row_count(min_lat: i64, max_lat: i64, lat_step: i64) -> (r: usize)
    requires
        lat_step > 0,
        min_lat <= max_lat,
        valid_lat(min_lat as int),
        valid_lat(max_lat as int),
    ensures
        r as int == lat_levels(min_lat as int, max_lat as int, lat_step as int),
        r as int == (max_lat - min_lat) / (lat_step as int) + 1,
{
    proof {
        lemma_lat_levels_count(min_lat as int, max_lat as int, lat_step as int);
    }
    let d: u64 = (max_lat - min_lat) as u64;
    let s: u64 = lat_step as u64;
    let q: u64 = d / s;
    proof {
        lemma_div_is_ordered(d as int, 180_000_000, s as int);
        assert(q <= 180_000_000);
    }
    (q + 1) as usize
}

} // verus!

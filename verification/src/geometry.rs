use vstd::prelude::*;

verus! {

/// A latitude in microdegrees names a real parallel.
pub open spec fn valid_lat(lat: int) -> bool {
    -90_000_000 <= lat <= 90_000_000
}

/// A longitude in microdegrees names a real meridian.
pub open spec fn valid_lng(lng: int) -> bool {
    -180_000_000 <= lng <= 180_000_000
}

/// A point on the Earth's surface: latitude and longitude in
/// microdegrees (one millionth of a decimal degree). Equality is value
/// equality of the pair; a point carries no other identity.
#[derive(Clone, Copy, PartialEq, Eq, Structural, Debug)]
pub struct GeoPoint {
    pub lat: i64,
    pub lng: i64,
}

impl GeoPoint {
    pub open spec fn valid(self) -> bool {
        valid_lat(self.lat as int) && valid_lng(self.lng as int)
    }

    pub fn new(lat: i64, lng: i64) -> (r: GeoPoint)
        ensures
            r.lat == lat,
            r.lng == lng,
    {
        GeoPoint { lat, lng }
    }
}

/// Every vertex of the ring has coordinates in range.
pub open spec fn valid_ring(ring: Seq<GeoPoint>) -> bool {
    forall|i: int| 0 <= i < ring.len() ==> ring[i].valid()
}

/// The smallest axis-aligned rectangle enclosing all polygon vertices.
#[derive(Clone, Copy, PartialEq, Eq, Structural, Debug)]
pub struct BoundingBox {
    pub min_lat: i64,
    pub max_lat: i64,
    pub min_lng: i64,
    pub max_lng: i64,
}

/// The least latitude among the ring's vertices (0 for an empty ring).
pub open spec fn min_lat_of(ring: Seq<GeoPoint>) -> int
    decreases ring.len(),
{
    if ring.len() == 0 {
        0
    } else if ring.len() == 1 {
        ring[0].lat as int
    } else {
        let rest = min_lat_of(ring.drop_last());
        let l = ring.last().lat as int;
        if l < rest {
            l
        } else {
            rest
        }
    }
}

/// The greatest latitude among the ring's vertices (0 for an empty ring).
pub open spec fn max_lat_of(ring: Seq<GeoPoint>) -> int
    decreases ring.len(),
{
    if ring.len() == 0 {
        0
    } else if ring.len() == 1 {
        ring[0].lat as int
    } else {
        let rest = max_lat_of(ring.drop_last());
        let l = ring.last().lat as int;
        if l > rest {
            l
        } else {
            rest
        }
    }
}

/// The least longitude among the ring's vertices (0 for an empty ring).
pub open spec fn min_lng_of(ring: Seq<GeoPoint>) -> int
    decreases ring.len(),
{
    if ring.len() == 0 {
        0
    } else if ring.len() == 1 {
        ring[0].lng as int
    } else {
        let rest = min_lng_of(ring.drop_last());
        let l = ring.last().lng as int;
        if l < rest {
            l
        } else {
            rest
        }
    }
}

/// The greatest longitude among the ring's vertices (0 for an empty ring).
pub open spec fn max_lng_of(ring: Seq<GeoPoint>) -> int
    decreases ring.len(),
{
    if ring.len() == 0 {
        0
    } else if ring.len() == 1 {
        ring[0].lng as int
    } else {
        let rest = max_lng_of(ring.drop_last());
        let l = ring.last().lng as int;
        if l > rest {
            l
        } else {
            rest
        }
    }
}

/// The bounding box never orders its bounds the wrong way round.
pub proof fn lemma_bounds_ordered(ring: Seq<GeoPoint>)
    requires
        ring.len() >= 1,
    ensures
        min_lat_of(ring) <= max_lat_of(ring),
        min_lng_of(ring) <= max_lng_of(ring),
    decreases ring.len(),
{
    if ring.len() > 1 {
        lemma_bounds_ordered(ring.drop_last());
    }
}

/// A ring of valid vertices has a bounding box with valid coordinates.
pub proof fn lemma_bounds_valid(ring: Seq<GeoPoint>)
    requires
        ring.len() >= 1,
        valid_ring(ring),
    ensures
        valid_lat(min_lat_of(ring)),
        valid_lat(max_lat_of(ring)),
        valid_lng(min_lng_of(ring)),
        valid_lng(max_lng_of(ring)),
    decreases ring.len(),
{
    assert(ring[ring.len() - 1].valid());
    assert(ring[0].valid());
    if ring.len() > 1 {
        assert(valid_ring(ring.drop_last())) by {
            assert(forall|i: int|
                0 <= i < ring.drop_last().len() ==> ring.drop_last()[i] == ring[i]);
        }
        lemma_bounds_valid(ring.drop_last());
    }
}

/// Computes the axis-aligned bounding box of the polygon's vertices.
pub fn bounding_box(ring: &Vec<GeoPoint>) -> (r: BoundingBox)
    requires
        ring@.len() >= 1,
    ensures
        r.min_lat as int == min_lat_of(ring@),
        r.max_lat as int == max_lat_of(ring@),
        r.min_lng as int == min_lng_of(ring@),
        r.max_lng as int == max_lng_of(ring@),
{
    let first = ring[0];
    let mut bb = BoundingBox {
        min_lat: first.lat,
        max_lat: first.lat,
        min_lng: first.lng,
        max_lng: first.lng,
    };
    let mut i: usize = 1;
    proof {
        assert(ring@.take(1).len() == 1);
        assert(ring@.take(1)[0] == ring@[0]);
    }
    while i < ring.len()
        invariant
            1 <= i <= ring@.len(),
            bb.min_lat as int == min_lat_of(ring@.take(i as int)),
            bb.max_lat as int == max_lat_of(ring@.take(i as int)),
            bb.min_lng as int == min_lng_of(ring@.take(i as int)),
            bb.max_lng as int == max_lng_of(ring@.take(i as int)),
        decreases ring@.len() - i,
    {
        let p = ring[i];
        proof {
            assert(ring@.take(i as int + 1).drop_last() =~= ring@.take(i as int));
            assert(ring@.take(i as int + 1).last() == ring@[i as int]);
        }
        if p.lat < bb.min_lat {
            bb.min_lat = p.lat;
        }
        if p.lat > bb.max_lat {
            bb.max_lat = p.lat;
        }
        if p.lng < bb.min_lng {
            bb.min_lng = p.lng;
        }
        if p.lng > bb.max_lng {
            bb.max_lng = p.lng;
        }
        i = i + 1;
    }
    proof {
        assert(ring@.take(ring@.len() as int) =~= ring@);
    }
    bb
}

/// The edge from `a` to `b` straddles the parallel through `p`: exactly
/// one endpoint lies strictly north of `p`.
pub open spec fn lat_straddles(p: GeoPoint, a: GeoPoint, b: GeoPoint) -> bool {
    (a.lat > p.lat) != (b.lat > p.lat)
}

/// The eastward ray from `p` meets the straddling edge from `a` to `b`
/// strictly east of `p`. The cross-product comparison is the
/// division-free form of
/// `p.lng < a.lng + (b.lng - a.lng) * (p.lat - a.lat) / (b.lat - a.lat)`;
/// the comparison flips with the sign of `b.lat - a.lat`.
pub open spec fn ray_hits_edge(p: GeoPoint, a: GeoPoint, b: GeoPoint) -> bool {
    if b.lat > a.lat {
        (p.lng - a.lng) * (b.lat - a.lat) < (b.lng - a.lng) * (p.lat - a.lat)
    } else {
        (p.lng - a.lng) * (b.lat - a.lat) > (b.lng - a.lng) * (p.lat - a.lat)
    }
}

/// The eastward ray from `p` crosses the edge from `a` to `b`.
pub open spec fn edge_crossed(p: GeoPoint, a: GeoPoint, b: GeoPoint) -> bool {
    lat_straddles(p, a, b) && ray_hits_edge(p, a, b)
}

/// The vertex that follows vertex `i` on the closed ring.
pub open spec fn ring_next(ring: Seq<GeoPoint>, i: int) -> GeoPoint {
    if i + 1 == ring.len() {
        ring[0]
    } else {
        ring[i + 1]
    }
}

/// How many of the ring's first `k` edges the eastward ray from `p`
/// crosses.
pub open spec fn crossings_upto(p: GeoPoint, ring: Seq<GeoPoint>, k: int) -> nat
    decreases k,
{
    if k <= 0 {
        0
    } else {
        crossings_upto(p, ring, k - 1) + (if edge_crossed(
            p,
            ring[k - 1],
            ring_next(ring, k - 1),
        ) {
            1nat
        } else {
            0nat
        })
    }
}

/// Ray-casting containment: `p` lies inside the closed ring when the
/// eastward ray from `p` crosses the ring's edges an odd number of
/// times. The strict comparisons fix one uniform rule for boundary
/// points.
pub open spec fn in_polygon(p: GeoPoint, ring: Seq<GeoPoint>) -> bool {
    crossings_upto(p, ring, ring.len() as int) % 2 == 1
}

/// The product of two numbers bounded in magnitude is bounded by the
/// product of the bounds.
pub proof fn lemma_mul_bound(x: int, y: int, bx: int, by: int)
    by (nonlinear_arith)
    requires
        -bx <= x <= bx,
        -by <= y <= by,
        0 <= bx,
        0 <= by,
    ensures
        -(bx * by) <= x * y <= bx * by,
{
}

/// Decides ray-casting containment of `p` in the polygon ring.
pub fn point_in_polygon(p: GeoPoint, ring: &Vec<GeoPoint>) -> (r: bool)
    requires
        ring@.len() >= 3,
        p.valid(),
        valid_ring(ring@),
    ensures
        r == in_polygon(p, ring@),
{
    let n = ring.len();
    let mut crossings: usize = 0;
    let mut i: usize = 0;
    while i < n
        invariant
            i <= n,
            n == ring@.len(),
            p.valid(),
            valid_ring(ring@),
            crossings == crossings_upto(p, ring@, i as int),
            crossings <= i,
        decreases n - i,
    {
        let a = ring[i];
        let b = if i + 1 == n {
            ring[0]
        } else {
            ring[i + 1]
        };
        proof {
            assert(ring@[i as int].valid());
            assert(ring@[0].valid());
            assert(b == ring_next(ring@, i as int));
            assert(b.valid());
        }
        let straddles = (a.lat > p.lat) != (b.lat > p.lat);
        if straddles {
            proof {
                lemma_mul_bound(
                    p.lng - a.lng,
                    b.lat - a.lat,
                    360_000_000,
                    180_000_000,
                );
                lemma_mul_bound(
                    b.lng - a.lng,
                    p.lat - a.lat,
                    360_000_000,
                    180_000_000,
                );
            }
            let lhs = (p.lng - a.lng) * (b.lat - a.lat);
            let rhs = (b.lng - a.lng) * (p.lat - a.lat);
            let hit = if b.lat > a.lat {
                lhs < rhs
            } else {
                lhs > rhs
            };
            if hit {
                crossings = crossings + 1;
            }
        }
        i = i + 1;
    }
    crossings % 2 == 1
}

} // verus!

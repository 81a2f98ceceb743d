use vstd::prelude::*;
use crate::errors::ConfigError;
use crate::executor::{validate_filter, SearchFilter};
use crate::geometry::{valid_ring, GeoPoint};
use crate::planner::{grid_of, plan, plan_degenerate, GridPoint};

verus! {

/// A validated scan plan: the grid points to query and the filter every
/// query carries. Only a whole, valid configuration yields one.
#[derive(Debug)]
pub struct ScanPlan {
    /// The search-circle centres, each inside the polygon, with the
    /// scan-wide radius.
    pub grid_points: Vec<GridPoint>,
    /// The filter to apply to every query.
    pub filter: SearchFilter,
}

/// A scan's configuration, gathered builder-style and validated in one
/// step, so nothing partially configured ever executes.
#[derive(Debug)]
pub struct PolyFillSearch {
    /// The free-text keyword, if searching by keyword.
    pub query_text: Option<String>,
    /// The place-type code, if searching by type; wins over the keyword.
    pub query_type: Option<String>,
    /// The polygon to cover, as a closed ring of at least three points.
    pub polygon: Option<Vec<GeoPoint>>,
}

impl PolyFillSearch {
    /// An empty configuration: nothing set yet.
    pub fn new() -> (r: PolyFillSearch)
        ensures
            r.query_text is None,
            r.query_type is None,
            r.polygon is None,
    {
        PolyFillSearch { query_text: None, query_type: None, polygon: None }
    }

    /// Sets the polygon to cover.
    pub fn with_polygon(self, polygon: Vec<GeoPoint>) -> (r: PolyFillSearch)
        ensures
            r.polygon matches Some(p) && p@ == polygon@,
            r.query_text == self.query_text,
            r.query_type == self.query_type,
    {
        PolyFillSearch { polygon: Some(polygon), ..self }
    }

    /// Sets the free-text keyword to search by.
    pub fn with_keywords(self, query_text: String) -> (r: PolyFillSearch)
        ensures
            r.query_text matches Some(t) && t@ == query_text@,
            r.query_type == self.query_type,
            r.polygon == self.polygon,
    {
        PolyFillSearch { query_text: Some(query_text), ..self }
    }

    /// Sets the place-type code to search by.
    pub fn with_type(self, query_filters: String) -> (r: PolyFillSearch)
        ensures
            r.query_type matches Some(t) && t@ == query_filters@,
            r.query_text == self.query_text,
            r.polygon == self.polygon,
    {
        PolyFillSearch { query_type: Some(query_filters), ..self }
    }

    /// Validates the whole configuration and plans the scan: a missing
    /// or too-small polygon, a degenerate bounding box, and a missing
    /// filter are each rejected before any query could be dispatched;
    /// otherwise the full grid and the filter come back.
    pub fn validate(&self) -> (r: Result<ScanPlan, ConfigError>)
        requires
            self.polygon matches Some(p) ==> valid_ring(p@),
        ensures
            ((r matches Err(e) && e == ConfigError::InvalidPolygon) <==> (match self.polygon {
                Some(p) => p@.len() < 3,
                None => true,
            })),
            (match self.polygon {
                Some(p) => p@.len() >= 3 ==> ((r matches Err(e) && e
                    == ConfigError::DegeneratePolygon) <==> plan_degenerate(p@)),
                None => true,
            }),
            (match self.polygon {
                Some(p) => p@.len() >= 3 && !plan_degenerate(p@) ==> ((r matches Err(e) && e
                    == ConfigError::InvalidFilter) <==> (self.query_type is None
                    && self.query_text is None)),
                None => true,
            }),
            (r is Ok <==> (match self.polygon {
                Some(p) => p@.len() >= 3 && !plan_degenerate(p@) && (self.query_type is Some
                    || self.query_text is Some),
                None => false,
            })),
            (match r {
                Ok(sp) => {
                    &&& (match self.polygon {
                        Some(p) => sp.grid_points@ == grid_of(p@),
                        None => false,
                    })
                    &&& (match self.query_type {
                        Some(t) => sp.filter == SearchFilter::ByType(t),
                        None => match self.query_text {
                            Some(t) => sp.filter == SearchFilter::ByKeyword(t),
                            None => false,
                        },
                    })
                },
                Err(_) => true,
            }),
    {
        let polygon = match &self.polygon {
            Some(p) => p,
            None => {
                return Err(ConfigError::InvalidPolygon);
            },
        };
        let grid_points = match plan(polygon) {
            Ok(g) => g,
            Err(e) => {
                return Err(e);
            },
        };
        let type_code: Option<String> = match &self.query_type {
            Some(t) => Some(t.clone()),
            None => None,
        };
        let keyword: Option<String> = match &self.query_text {
            Some(t) => Some(t.clone()),
            None => None,
        };
        let filter = match validate_filter(type_code, keyword) {
            Ok(f) => f,
            Err(e) => {
                return Err(e);
            },
        };
        Ok(ScanPlan { grid_points, filter })
    }
}

} // verus!

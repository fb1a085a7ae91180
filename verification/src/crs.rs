//! The datums, and the transforms between them that go through a grid.
//!
//! Two transforms are closed formulas on an ellipsoid rather than grid
//! lookups: Tokyo 97 to JGD2000 and back.  They are not part of this module;
//! the transforms here say when a coordinate has to take that path.

use vstd::prelude::*;
use crate::coord::{range_error, LatLon};
use crate::grid::Grid;
use crate::math::round_div;
use crate::units::{MilliSecond, NANOS_PER_MILLI};

verus! {

/// Tokyo Datum, the older Japanese datum.
///
/// EPSG: 4301
#[derive(Debug, Clone, Copy, PartialEq, Eq, Structural)]
pub struct Tokyo {
    degrees: LatLon,
}

/// Tokyo 97, the older Japanese datum as defined by three parameters from the
/// world geodetic system.
#[derive(Debug, Clone, Copy, PartialEq, Eq, Structural)]
pub struct Tokyo97 {
    degrees: LatLon,
}

/// Japanese Geodetic Datum 2000 (JGD2000).
///
/// EPSG: 4612
#[derive(Debug, Clone, Copy, PartialEq, Eq, Structural)]
pub struct Jgd2000 {
    degrees: LatLon,
}

/// Japanese Geodetic Datum 2011 (JGD2011).
///
/// EPSG: 6668
#[derive(Debug, Clone, Copy, PartialEq, Eq, Structural)]
pub struct Jgd2011 {
    degrees: LatLon,
}

/// Which way a coordinate in the Tokyo Datum goes to JGD2000.
#[derive(Debug, Clone, Copy, PartialEq, Eq, Structural)]
pub enum Route {
    /// The grid corrected the coordinate.
    Grid(Jgd2000),
    /// The grid cannot correct the coordinate: it continues as a coordinate
    /// in Tokyo 97, through the three-parameter formula.
    ThreeParameter(Tokyo97),
}

impl View for Tokyo {
    type V = LatLon;

    closed spec fn view(&self) -> LatLon {
        self.degrees
    }
}

impl View for Tokyo97 {
    type V = LatLon;

    closed spec fn view(&self) -> LatLon {
        self.degrees
    }
}

impl View for Jgd2000 {
    type V = LatLon;

    closed spec fn view(&self) -> LatLon {
        self.degrees
    }
}

impl View for Jgd2011 {
    type V = LatLon;

    closed spec fn view(&self) -> LatLon {
        self.degrees
    }
}

impl Tokyo {
    /// A coordinate in the Tokyo Datum.
    pub fn new(degrees: LatLon) -> (r: Tokyo)
        ensures
            r@ == degrees,
    {
        Tokyo { degrees }
    }

    /// Transforms to JGD2000 with the grid of the Tokyo Datum.
    ///
    /// A coordinate outside the grid, or one that the grid would move off the
    /// globe, is handed on unchanged as a coordinate in Tokyo 97.
    pub fn to_jgd2000(&self, tky2jgd: &Grid) -> (r: Route)
        ensures
            match r {
                Route::Grid(jgd2000) => tky2jgd.corrects(self@) && jgd2000@.lat_ns()
                    == self@.lat_ns() + tky2jgd.shift_lat(self@) && jgd2000@.lon_ns()
                    == self@.lon_ns() + tky2jgd.shift_lon(self@),
                Route::ThreeParameter(tokyo97) => !tky2jgd.corrects(self@) && tokyo97@ == self@,
            },
    {
        match to_jgd2000(tky2jgd, self.degrees) {
            Some(degrees) => Route::Grid(Jgd2000 { degrees }),
            None => Route::ThreeParameter(self.to_tokyo97()),
        }
    }

    /// Transforms to Tokyo 97.  No correction is applied.
    pub fn to_tokyo97(&self) -> (r: Tokyo97)
        ensures
            r@ == self@,
    {
        Tokyo97 { degrees: self.degrees }
    }

    /// Latitude and longitude.
    pub fn degrees(&self) -> (r: LatLon)
        ensures
            r == self@,
    {
        self.degrees
    }
}

impl Tokyo97 {
    /// A coordinate in Tokyo 97.
    pub fn new(degrees: LatLon) -> (r: Tokyo97)
        ensures
            r@ == degrees,
    {
        Tokyo97 { degrees }
    }

    /// Latitude and longitude.
    pub fn lat_lon(&self) -> (r: LatLon)
        ensures
            r == self@,
    {
        self.degrees
    }
}

impl Jgd2000 {
    /// A coordinate in JGD2000.
    pub fn new(degrees: LatLon) -> (r: Jgd2000)
        ensures
            r@ == degrees,
    {
        Jgd2000 { degrees }
    }

    /// Transforms to JGD2011 with the grid of an earthquake.
    ///
    /// Nothing is done to a coordinate outside the grid, nor to one that the
    /// grid would move off the globe.
    pub fn to_jgd2011(&self, patch: &Grid) -> (r: Jgd2011)
        ensures
            patch.corrects(self@) ==> r@.lat_ns() == self@.lat_ns() + patch.shift_lat(self@)
                && r@.lon_ns() == self@.lon_ns() + patch.shift_lon(self@),
            !patch.corrects(self@) ==> r@ == self@,
            !patch.covers(self@) ==> r@ == self@,
    {
        match patch.correct(self.degrees) {
            Some(degrees) => Jgd2011 { degrees },
            None => Jgd2011 { degrees: self.degrees },
        }
    }

    /// Latitude and longitude.
    pub fn lat_lon(&self) -> (r: LatLon)
        ensures
            r == self@,
    {
        self.degrees
    }
}

impl Jgd2011 {
    /// A coordinate in JGD2011.
    pub fn new(degrees: LatLon) -> (r: Jgd2011)
        ensures
            r@ == degrees,
    {
        Jgd2011 { degrees }
    }

    /// Latitude and longitude.
    pub fn degrees(&self) -> (r: LatLon)
        ensures
            r == self@,
    {
        self.degrees
    }
}

/// Transforms a coordinate in the Tokyo Datum to JGD2000 with the grid of the
/// Tokyo Datum.  `None` where the grid cannot correct the coordinate.
pub fn to_jgd2000(tky2jgd: &Grid, tokyo: LatLon) -> (r: Option<LatLon>)
    ensures
        r.is_some() <==> tky2jgd.corrects(tokyo),
        r matches Some(jgd2000) ==> jgd2000.wf() && jgd2000.lat_ns() == tokyo.lat_ns()
            + tky2jgd.shift_lat(tokyo) && jgd2000.lon_ns() == tokyo.lon_ns() + tky2jgd.shift_lon(
            tokyo,
        ),
{
    tky2jgd.correct(tokyo)
}

/// What `tky2jgd` returns: the angles are whole milliseconds of arc.
pub open spec fn spec_tky2jgd(grid: &Grid, lat: i32, lon: i32) -> Option<(i32, i32)> {
    let tokyo = LatLon::at(lat * NANOS_PER_MILLI, lon * NANOS_PER_MILLI);
    if range_error(lat * NANOS_PER_MILLI, lon * NANOS_PER_MILLI) is None && grid.corrects(tokyo) {
        Some(
            (
                round_div(tokyo.lat_ns() + grid.shift_lat(tokyo), NANOS_PER_MILLI as int) as i32,
                round_div(tokyo.lon_ns() + grid.shift_lon(tokyo), NANOS_PER_MILLI as int) as i32,
            ),
        )
    } else {
        None
    }
}

/// Transforms a coordinate in the Tokyo Datum to JGD2000 with the grid of the
/// Tokyo Datum, both in whole milliseconds of arc: the result is rounded to
/// the nearest.  `None` where the angles are not a point of the globe or the
/// grid cannot correct the coordinate.
pub fn tky2jgd(grid: &Grid, lat: i32, lon: i32) -> (r: Option<(i32, i32)>)
    ensures
        r == spec_tky2jgd(grid, lat, lon),
{
    let tokyo = match LatLon::from_milli_secs(lat as i64, lon as i64) {
        Ok(tokyo) => tokyo,
        Err(_) => {
            return None;
        },
    };
    proof {
        LatLon::lemma_at(lat * NANOS_PER_MILLI, lon * NANOS_PER_MILLI);
        tokyo.lemma_same_angles(LatLon::at(lat * NANOS_PER_MILLI, lon * NANOS_PER_MILLI));
    }
    let jgd2000 = match to_jgd2000(grid, tokyo) {
        Some(jgd2000) => jgd2000,
        None => {
            return None;
        },
    };
    let lat_ms = jgd2000.lat().to_milli_second();
    let lon_ms = jgd2000.lon().to_milli_second();
    proof {
        crate::math::lemma_round_div_bounds(
            jgd2000.lat_ns(),
            NANOS_PER_MILLI as int,
            -324_000_000,
            324_000_000,
        );
        crate::math::lemma_round_div_bounds(
            jgd2000.lon_ns(),
            NANOS_PER_MILLI as int,
            -648_000_000,
            648_000_000,
        );
    }
    match (lat_ms, lon_ms) {
        (Some(MilliSecond(a)), Some(MilliSecond(b))) => Some((a, b)),
        _ => None,
    }
}

} // verus!

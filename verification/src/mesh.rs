//! Third-order mesh cells: 30 seconds of latitude by 45 seconds of longitude.

use vstd::prelude::*;
use crate::coord::LatLon;
use crate::units::NanoSecond;

verus! {

/// Height of a cell: 30 seconds of arc, in nanoseconds of arc.
pub const LAT_CELL: i64 = 30_000_000_000;

/// Width of a cell: 45 seconds of arc, in nanoseconds of arc.
pub const LON_CELL: i64 = 45_000_000_000;

/// Serial number of a third-order mesh cell on each axis, counted from 0
/// degrees: cell `(lat, lon)` has its southwest corner at `lat` times 30
/// seconds north and `lon` times 45 seconds east.
#[derive(Debug, Clone, Copy, PartialEq, Eq, Structural)]
pub struct Mesh3 {
    pub lat: i16,
    pub lon: i16,
}

impl Mesh3 {
    /// Position in the order of a grid: by latitude, then by longitude.
    pub open spec fn key(self) -> int {
        self.lat * 0x1_0000 + self.lon
    }

    /// The cell whose southwest corner is the nearest one to the south and
    /// west of `p`, or `p` itself.
    pub open spec fn spec_floor(p: LatLon) -> Mesh3 {
        Mesh3 { lat: (p.lat_ns() / LAT_CELL as int) as i16, lon: (p.lon_ns() / LON_CELL as int) as i16 }
    }

    /// The cell directly to the north.
    pub open spec fn spec_north(self) -> Mesh3 {
        Mesh3 { lat: (self.lat + 1) as i16, lon: self.lon }
    }

    /// The cell directly to the east.
    pub open spec fn spec_east(self) -> Mesh3 {
        Mesh3 { lat: self.lat, lon: (self.lon + 1) as i16 }
    }

    /// Latitude of the southwest corner in nanoseconds of arc.
    pub open spec fn corner_lat(self) -> int {
        self.lat * LAT_CELL
    }

    /// Longitude of the southwest corner in nanoseconds of arc.
    pub open spec fn corner_lon(self) -> int {
        self.lon * LON_CELL
    }

    /// How far north of the south edge of its cell `p` lies, in nanoseconds
    /// of arc.
    pub open spec fn north_offset(p: LatLon) -> int {
        p.lat_ns() % LAT_CELL as int
    }

    /// How far east of the west edge of its cell `p` lies, in nanoseconds of
    /// arc.
    pub open spec fn east_offset(p: LatLon) -> int {
        p.lon_ns() % LON_CELL as int
    }

    /// The order of keys is the order by latitude, then longitude, and no two
    /// cells share a key.
    pub proof fn lemma_key_order(self, other: Mesh3)
        ensures
            self.key() < other.key() <==> (self.lat < other.lat || (self.lat == other.lat
                && self.lon < other.lon)),
            self.key() == other.key() <==> self == other,
    {
    }

    /// The cell of a point of the globe: its serial numbers are small, and the
    /// point lies at its offsets from the southwest corner.
    pub proof fn lemma_floor(p: LatLon)
        requires
            p.wf(),
        ensures
            -10_800 <= Mesh3::spec_floor(p).lat <= 10_800,
            -14_400 <= Mesh3::spec_floor(p).lon <= 14_400,
            Mesh3::spec_floor(p).lat == p.lat_ns() / LAT_CELL as int,
            Mesh3::spec_floor(p).lon == p.lon_ns() / LON_CELL as int,
            0 <= Mesh3::north_offset(p) < LAT_CELL,
            0 <= Mesh3::east_offset(p) < LON_CELL,
            p.lat_ns() == Mesh3::spec_floor(p).corner_lat() + Mesh3::north_offset(p),
            p.lon_ns() == Mesh3::spec_floor(p).corner_lon() + Mesh3::east_offset(p),
    {
    }

    /// Position in the order of a grid.
    pub fn sort_key(self) -> (k: i64)
        ensures
            k == self.key(),
    {
        (self.lat as i64) * 0x1_0000 + (self.lon as i64)
    }

    /// Evaluates the cell that contains `p`, named by its southwest corner.
    pub fn floor(p: LatLon) -> (m: Mesh3)
        ensures
            m == Mesh3::spec_floor(p),
    {
        proof {
            use_type_invariant(&p);
            Mesh3::lemma_floor(p);
        }
        let lat: i64 = match p.lat().0.checked_div_euclid(LAT_CELL) {
            Some(q) => q,
            None => 0,
        };
        let lon: i64 = match p.lon().0.checked_div_euclid(LON_CELL) {
            Some(q) => q,
            None => 0,
        };
        Mesh3 { lat: lat as i16, lon: lon as i16 }
    }

    /// The cell directly to the north.
    pub fn north(self) -> (m: Mesh3)
        requires
            self.lat < i16::MAX,
        ensures
            m == self.spec_north(),
            m.lat == self.lat + 1,
            m.lon == self.lon,
    {
        Mesh3 { lat: self.lat + 1, lon: self.lon }
    }

    /// The cell directly to the east.
    pub fn east(self) -> (m: Mesh3)
        requires
            self.lon < i16::MAX,
        ensures
            m == self.spec_east(),
            m.lat == self.lat,
            m.lon == self.lon + 1,
    {
        Mesh3 { lat: self.lat, lon: self.lon + 1 }
    }

    /// Latitude and longitude of the southwest corner.
    pub fn to_nano_second(self) -> (r: (NanoSecond, NanoSecond))
        ensures
            r.0.0 == self.corner_lat(),
            r.1.0 == self.corner_lon(),
    {
        (NanoSecond((self.lat as i64) * LAT_CELL), NanoSecond((self.lon as i64) * LON_CELL))
    }

    /// Distance of `p` from the southwest corner of this cell along each axis:
    /// over the cell's height and width, the weights that bilinear
    /// interpolation gives the corner diagonally opposite to this one.
    pub fn diagonal_weight(self, p: LatLon) -> (r: (NanoSecond, NanoSecond))
        ensures
            r.0.0 == vstd::math::abs(p.lat_ns() - self.corner_lat()),
            r.1.0 == vstd::math::abs(p.lon_ns() - self.corner_lon()),
    {
        proof {
            use_type_invariant(&p);
        }
        let corner = self.to_nano_second();
        let lat: i64 = p.lat().0 - corner.0.0;
        let lon: i64 = p.lon().0 - corner.1.0;
        (NanoSecond(if lat < 0 { -lat } else { lat }), NanoSecond(if lon < 0 { -lon } else { lon }))
    }
}

} // verus!

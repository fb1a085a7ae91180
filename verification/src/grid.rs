//! Parameter grids: a sorted table of corrections, one for each known mesh
//! cell corner, and bilinear interpolation between four of them.

use vstd::prelude::*;
use crate::coord::{range_error, LatLon, NANOS_PER_MICRO};
use crate::math::{lemma_round_div_bounds, lemma_round_div_exact, round_div, round_div_i128};
use crate::mesh::{Mesh3, LAT_CELL, LON_CELL};

verus! {

/// Area of a cell in square nanoseconds of arc: the sum of the four weights of
/// an interpolation.
pub const CELL_AREA: i128 = 1_350_000_000_000_000_000_000;

/// A correction of latitude and longitude in microseconds of arc.
#[derive(Debug, Clone, Copy, PartialEq, Eq, Structural)]
pub struct MicroSecond {
    pub lat: i32,
    pub lon: i32,
}

impl MicroSecond {
    /// The same correction in nanoseconds of arc.
    pub fn to_lat_lon(self) -> (r: LatLon)
        ensures
            r.wf(),
            r.lat_ns() == self.lat * NANOS_PER_MICRO,
            r.lon_ns() == self.lon * NANOS_PER_MICRO,
    {
        match LatLon::from_micro_secs(self.lat as i64, self.lon as i64) {
            Ok(r) => r,
            Err(_) => LatLon::default(),
        }
    }
}

/// One grid point: the correction that holds at the southwest corner of a
/// mesh cell.
#[derive(Debug, Clone, Copy, PartialEq, Eq, Structural)]
pub struct Dot {
    pub mesh: Mesh3,
    pub shift: MicroSecond,
}

/// Why a table is not a grid.
#[derive(Debug, Clone, Copy, PartialEq, Eq, Structural)]
pub enum GridError {
    /// The image is `len` bytes long, which is not a whole number of records.
    BadLength { len: usize },
    /// The grid point at `index` does not come before the one after it.
    Unsorted { index: usize },
}

/// Every grid point comes before every later one in the order of mesh cells:
/// by latitude, then by longitude.
pub open spec fn sorted(dots: Seq<Dot>) -> bool {
    forall|i: int, j: int|
        0 <= i < j < dots.len() ==> (#[trigger] dots[i]).mesh.key() < (#[trigger] dots[j]).mesh.key()
}

/// The grid point at `i` has a successor and does not come before it.
pub open spec fn disorder_at(dots: Seq<Dot>, i: int) -> bool {
    0 <= i && i + 1 < dots.len() && dots[i].mesh.key() >= dots[i + 1].mesh.key()
}

/// Where no grid point fails to come before its successor, every grid point
/// comes before every later one.
pub proof fn lemma_sorted_by_neighbours(dots: Seq<Dot>)
    requires
        forall|k: int| 0 <= k && k + 1 < dots.len() ==> !disorder_at(dots, k),
    ensures
        sorted(dots),
{
    assert forall|i: int, j: int| 0 <= i < j < dots.len() implies (#[trigger] dots[i]).mesh.key() < (
    #[trigger] dots[j]).mesh.key() by {
        lemma_ascent(dots, i, j);
    }
}

/// Between two indices the keys ascend, where they ascend from each grid
/// point to the next.
proof fn lemma_ascent(dots: Seq<Dot>, i: int, j: int)
    requires
        forall|k: int| 0 <= k && k + 1 < dots.len() ==> !disorder_at(dots, k),
        0 <= i < j < dots.len(),
    ensures
        dots[i].mesh.key() < dots[j].mesh.key(),
    decreases j - i,
{
    assert(!disorder_at(dots, j - 1));
    if i < j - 1 {
        lemma_ascent(dots, i, j - 1);
    }
}

/// The four corrections at the corners of a cell, each multiplied by the area
/// of the rectangle between the point and the opposite corner.  `north` and
/// `east` are the distances of the point from the south and west edges.
pub open spec fn weighted_sum(sw: int, se: int, nw: int, ne: int, north: int, east: int) -> int {
    sw * ((LAT_CELL - north) * (LON_CELL - east)) + se * ((LAT_CELL - north) * east) + nw * (north
        * (LON_CELL - east)) + ne * (north * east)
}

/// Bilinear interpolation along one axis: corrections at the corners in
/// microseconds of arc, the result in nanoseconds of arc, rounded to the
/// nearest.
pub open spec fn interpolate(sw: int, se: int, nw: int, ne: int, north: int, east: int) -> int {
    round_div(NANOS_PER_MICRO * weighted_sum(sw, se, nw, ne, north, east), CELL_AREA as int)
}

/// At the southwest corner of a cell the interpolation is the correction of
/// that corner, whatever the other three are.
pub proof fn lemma_interpolate_at_corner(sw: int, se: int, nw: int, ne: int)
    ensures
        interpolate(sw, se, nw, ne, 0, 0) == NANOS_PER_MICRO * sw,
{
    assert(NANOS_PER_MICRO * weighted_sum(sw, se, nw, ne, 0, 0) == (NANOS_PER_MICRO * sw)
        * CELL_AREA) by (nonlinear_arith)
        requires
            weighted_sum(sw, se, nw, ne, 0, 0) == sw * ((LAT_CELL - 0) * (LON_CELL - 0)) + se * ((
            LAT_CELL - 0) * 0) + nw * (0 * (LON_CELL - 0)) + ne * (0 * 0),
            LAT_CELL * LON_CELL == CELL_AREA,
    ;
    lemma_round_div_exact(NANOS_PER_MICRO * sw, CELL_AREA as int);
}

/// At the centre of a cell the interpolation is a quarter of the sum of the
/// four corrections, with nothing lost to rounding.
pub proof fn lemma_interpolate_at_centre(sw: int, se: int, nw: int, ne: int)
    ensures
        4 * interpolate(sw, se, nw, ne, LAT_CELL / 2, LON_CELL / 2) == NANOS_PER_MICRO * (sw + se
            + nw + ne),
{
    let north: int = LAT_CELL / 2;
    let east: int = LON_CELL / 2;
    let quarter: int = 250 * (sw + se + nw + ne);
    assert(NANOS_PER_MICRO * weighted_sum(sw, se, nw, ne, north, east) == quarter * CELL_AREA)
        by (nonlinear_arith)
        requires
            weighted_sum(sw, se, nw, ne, north, east) == sw * ((LAT_CELL - north) * (LON_CELL
                - east)) + se * ((LAT_CELL - north) * east) + nw * (north * (LON_CELL - east))
                + ne * (north * east),
            north == 15_000_000_000,
            east == 22_500_000_000,
            LAT_CELL == 30_000_000_000,
            LON_CELL == 45_000_000_000,
            CELL_AREA == 1_350_000_000_000_000_000_000,
            NANOS_PER_MICRO == 1_000,
            quarter == 250 * (sw + se + nw + ne),
    ;
    lemma_round_div_exact(quarter, CELL_AREA as int);
}

/// Inside a cell the interpolation lies between the least and the greatest of
/// the four corrections.
pub proof fn lemma_interpolate_between(
    sw: int,
    se: int,
    nw: int,
    ne: int,
    north: int,
    east: int,
    lo: int,
    hi: int,
)
    requires
        0 <= north <= LAT_CELL,
        0 <= east <= LON_CELL,
        lo <= sw <= hi,
        lo <= se <= hi,
        lo <= nw <= hi,
        lo <= ne <= hi,
    ensures
        NANOS_PER_MICRO * lo <= interpolate(sw, se, nw, ne, north, east) <= NANOS_PER_MICRO * hi,
{
    let south = LAT_CELL - north;
    let west = LON_CELL - east;
    let a = south * west;
    let b = south * east;
    let c = north * west;
    let d = north * east;
    assert(a >= 0 && b >= 0 && c >= 0 && d >= 0 && a + b + c + d == CELL_AREA) by (nonlinear_arith)
        requires
            a == south * west,
            b == south * east,
            c == north * west,
            d == north * east,
            south >= 0,
            west >= 0,
            north >= 0,
            east >= 0,
            south + north == 30_000_000_000,
            west + east == 45_000_000_000,
            CELL_AREA == 1_350_000_000_000_000_000_000,
    ;
    let sum = weighted_sum(sw, se, nw, ne, north, east);
    assert(sum == sw * a + se * b + nw * c + ne * d);
    assert(lo * a <= sw * a <= hi * a) by (nonlinear_arith)
        requires
            lo <= sw <= hi,
            a >= 0,
    ;
    assert(lo * b <= se * b <= hi * b) by (nonlinear_arith)
        requires
            lo <= se <= hi,
            b >= 0,
    ;
    assert(lo * c <= nw * c <= hi * c) by (nonlinear_arith)
        requires
            lo <= nw <= hi,
            c >= 0,
    ;
    assert(lo * d <= ne * d <= hi * d) by (nonlinear_arith)
        requires
            lo <= ne <= hi,
            d >= 0,
    ;
    assert(lo * a + lo * b + lo * c + lo * d == lo * CELL_AREA) by (nonlinear_arith)
        requires
            a + b + c + d == CELL_AREA,
    ;
    assert(hi * a + hi * b + hi * c + hi * d == hi * CELL_AREA) by (nonlinear_arith)
        requires
            a + b + c + d == CELL_AREA,
    ;
    assert((NANOS_PER_MICRO * lo) * CELL_AREA <= NANOS_PER_MICRO * sum <= (NANOS_PER_MICRO * hi)
        * CELL_AREA) by (nonlinear_arith)
        requires
            lo * CELL_AREA <= sum <= hi * CELL_AREA,
            NANOS_PER_MICRO == 1_000,
    ;
    lemma_round_div_bounds(
        NANOS_PER_MICRO * sum,
        CELL_AREA as int,
        NANOS_PER_MICRO * lo,
        NANOS_PER_MICRO * hi,
    );
}

/// One correction times the area of a rectangle inside a cell.
fn weigh(shift: i32, height: i64, width: i64) -> (r: i128)
    requires
        0 <= height <= LAT_CELL,
        0 <= width <= LON_CELL,
    ensures
        r == shift * (height * width),
        -0x8000_0000 * CELL_AREA <= r <= 0x8000_0000 * CELL_AREA,
{
    proof {
        assert(0 <= height * width <= CELL_AREA) by (nonlinear_arith)
            requires
                0 <= height <= LAT_CELL,
                0 <= width <= LON_CELL,
        ;
        assert(-0x8000_0000 * CELL_AREA <= shift * (height * width) <= 0x8000_0000 * CELL_AREA)
            by (nonlinear_arith)
            requires
                0 <= height * width <= CELL_AREA,
                -0x8000_0000 <= shift <= 0x8000_0000,
        ;
    }
    let area: i128 = (height as i128) * (width as i128);
    (shift as i128) * area
}

/// Bilinear interpolation of one axis of four corrections in a cell.
fn interpolate_axis(sw: i32, se: i32, nw: i32, ne: i32, north: i64, east: i64) -> (r: i64)
    requires
        0 <= north <= LAT_CELL,
        0 <= east <= LON_CELL,
    ensures
        r == interpolate(sw as int, se as int, nw as int, ne as int, north as int, east as int),
        NANOS_PER_MICRO * i32::MIN <= r <= NANOS_PER_MICRO * i32::MAX,
{
    let south: i64 = LAT_CELL - north;
    let west: i64 = LON_CELL - east;
    let sum: i128 = weigh(sw, south, west) + weigh(se, south, east) + weigh(nw, north, west)
        + weigh(ne, north, east);
    proof {
        let limit = 4_000 * (0x8000_0000 * CELL_AREA);
        assert(-limit <= NANOS_PER_MICRO * sum <= limit) by (nonlinear_arith)
            requires
                NANOS_PER_MICRO == 1_000,
                limit == 4_000 * (0x8000_0000 * CELL_AREA),
                -4 * (0x8000_0000 * CELL_AREA) <= sum <= 4 * (0x8000_0000 * CELL_AREA),
        ;
        lemma_interpolate_between(
            sw as int,
            se as int,
            nw as int,
            ne as int,
            north as int,
            east as int,
            i32::MIN as int,
            i32::MAX as int,
        );
    }
    let scaled: i128 = (NANOS_PER_MICRO as i128) * sum;
    let q: i128 = round_div_i128(scaled, CELL_AREA);
    q as i64
}

/// Parameters grid.
#[derive(Debug)]
pub struct Grid {
    dots: Vec<Dot>,
}

impl View for Grid {
    type V = Seq<Dot>;

    /// The grid points in the order of the table.
    closed spec fn view(&self) -> Seq<Dot> {
        self.dots@
    }
}

impl Grid {
    /// The table is in ascending order of mesh cells, so no cell occurs twice.
    /// This holds of every grid that a program can hold.
    #[verifier::type_invariant]
    pub open spec fn wf(&self) -> bool {
        sorted(self@)
    }

    /// The grid has a point for this cell.
    pub open spec fn contains(&self, mesh: Mesh3) -> bool {
        exists|i: int| 0 <= i < self@.len() && (#[trigger] self@[i]).mesh == mesh
    }

    /// The correction that the grid holds for a cell that it contains.
    pub open spec fn shift_of(&self, mesh: Mesh3) -> MicroSecond {
        let i = choose|i: int| 0 <= i < self@.len() && (#[trigger] self@[i]).mesh == mesh;
        self@[i].shift
    }

    /// The grid has all four corners of the cell around `p`.
    pub open spec fn covers(&self, p: LatLon) -> bool {
        let sw = Mesh3::spec_floor(p);
        &&& self.contains(sw)
        &&& self.contains(sw.spec_east())
        &&& self.contains(sw.spec_north())
        &&& self.contains(sw.spec_north().spec_east())
    }

    /// The interpolated correction of latitude at `p`, in nanoseconds of arc.
    pub open spec fn shift_lat(&self, p: LatLon) -> int {
        let sw = Mesh3::spec_floor(p);
        interpolate(
            self.shift_of(sw).lat as int,
            self.shift_of(sw.spec_east()).lat as int,
            self.shift_of(sw.spec_north()).lat as int,
            self.shift_of(sw.spec_north().spec_east()).lat as int,
            Mesh3::north_offset(p),
            Mesh3::east_offset(p),
        )
    }

    /// The interpolated correction of longitude at `p`, in nanoseconds of arc.
    pub open spec fn shift_lon(&self, p: LatLon) -> int {
        let sw = Mesh3::spec_floor(p);
        interpolate(
            self.shift_of(sw).lon as int,
            self.shift_of(sw.spec_east()).lon as int,
            self.shift_of(sw.spec_north()).lon as int,
            self.shift_of(sw.spec_north().spec_east()).lon as int,
            Mesh3::north_offset(p),
            Mesh3::east_offset(p),
        )
    }

    /// The grid covers `p`, and `p` moved by the interpolated correction is
    /// still a point of the globe.
    pub open spec fn corrects(&self, p: LatLon) -> bool {
        self.covers(p) && range_error(
            p.lat_ns() + self.shift_lat(p),
            p.lon_ns() + self.shift_lon(p),
        ) is None
    }

    /// In a grid, a cell is found at one index only, and `shift_of` is the
    /// correction at that index.
    pub proof fn lemma_shift_of(&self, i: int)
        requires
            self.wf(),
            0 <= i < self@.len(),
        ensures
            self.contains(self@[i].mesh),
            self.shift_of(self@[i].mesh) == self@[i].shift,
            forall|j: int| 0 <= j < self@.len() && (#[trigger] self@[j]).mesh == self@[i].mesh ==> j == i,
    {
        let mesh = self@[i].mesh;
        assert forall|j: int| 0 <= j < self@.len() && (#[trigger] self@[j]).mesh == mesh implies j
            == i by {
            if j < i {
                assert(self@[j].mesh.key() < self@[i].mesh.key());
            } else if i < j {
                assert(self@[i].mesh.key() < self@[j].mesh.key());
            }
        }
    }

    /// In a grid, the cell whose key is one more than that of the point at `i`
    /// can only stand directly behind it.
    proof fn lemma_next_key(&self, i: int, mesh: Mesh3)
        requires
            self.wf(),
            0 <= i < self@.len(),
            mesh.key() == self@[i].mesh.key() + 1,
            self.contains(mesh),
        ensures
            i + 1 < self@.len(),
            self@[i + 1].mesh == mesh,
    {
        let j = choose|j: int| 0 <= j < self@.len() && (#[trigger] self@[j]).mesh == mesh;
        if j < i {
            assert(self@[j].mesh.key() < self@[i].mesh.key());
        }
        if i + 1 < j {
            assert(self@[i].mesh.key() < self@[i + 1].mesh.key());
            assert(self@[i + 1].mesh.key() < self@[j].mesh.key());
        }
    }

    /// In a grid, a cell with a greater key than the point at `i` can only
    /// stand behind it.
    proof fn lemma_later_key(&self, i: int, mesh: Mesh3)
        requires
            self.wf(),
            0 <= i < self@.len(),
            mesh.key() > self@[i].mesh.key(),
            forall|j: int| i < j < self@.len() ==> (#[trigger] self@[j]).mesh != mesh,
        ensures
            !self.contains(mesh),
    {
        if self.contains(mesh) {
            let j = choose|j: int| 0 <= j < self@.len() && (#[trigger] self@[j]).mesh == mesh;
            if j < i {
                assert(self@[j].mesh.key() < self@[i].mesh.key());
            }
        }
    }

    /// In a grid every point comes strictly before its successor: its cell
    /// lies further south, or as far north and further west.
    pub proof fn lemma_adjacent_order(&self, i: int)
        requires
            self.wf(),
            0 <= i,
            i + 1 < self@.len(),
        ensures
            self@[i].mesh.lat < self@[i + 1].mesh.lat || (self@[i].mesh.lat == self@[i + 1].mesh.lat
                && self@[i].mesh.lon < self@[i + 1].mesh.lon),
    {
        assert(self@[i].mesh.key() < self@[i + 1].mesh.key());
        self@[i].mesh.lemma_key_order(self@[i + 1].mesh);
    }

    /// Interpolating exactly at a grid point returns the correction stored
    /// there, provided that the other three corners of its cell are in the
    /// grid too.
    pub proof fn lemma_bilinear_at_grid_point(&self, i: int, p: LatLon)
        requires
            self.wf(),
            p.wf(),
            0 <= i < self@.len(),
            p.lat_ns() == self@[i].mesh.corner_lat(),
            p.lon_ns() == self@[i].mesh.corner_lon(),
            self.covers(p),
        ensures
            self.shift_lat(p) == self@[i].shift.lat * NANOS_PER_MICRO,
            self.shift_lon(p) == self@[i].shift.lon * NANOS_PER_MICRO,
    {
        let mesh = self@[i].mesh;
        Mesh3::lemma_floor(p);
        vstd::arithmetic::div_mod::lemma_fundamental_div_mod_converse(
            p.lat_ns(),
            LAT_CELL as int,
            mesh.lat as int,
            0,
        );
        vstd::arithmetic::div_mod::lemma_fundamental_div_mod_converse(
            p.lon_ns(),
            LON_CELL as int,
            mesh.lon as int,
            0,
        );
        assert(Mesh3::spec_floor(p) == mesh);
        self.lemma_shift_of(i);
        lemma_interpolate_at_corner(
            self.shift_of(mesh).lat as int,
            self.shift_of(mesh.spec_east()).lat as int,
            self.shift_of(mesh.spec_north()).lat as int,
            self.shift_of(mesh.spec_north().spec_east()).lat as int,
        );
        lemma_interpolate_at_corner(
            self.shift_of(mesh).lon as int,
            self.shift_of(mesh.spec_east()).lon as int,
            self.shift_of(mesh.spec_north()).lon as int,
            self.shift_of(mesh.spec_north().spec_east()).lon as int,
        );
    }

    /// Interpolating at the exact centre of a cell returns the arithmetic mean
    /// of the corrections at its four corners: four times the result, in
    /// nanoseconds of arc, is their sum in microseconds of arc times 1000.
    pub proof fn lemma_bilinear_at_centre(&self, p: LatLon)
        requires
            self.wf(),
            p.wf(),
            2 * Mesh3::north_offset(p) == LAT_CELL,
            2 * Mesh3::east_offset(p) == LON_CELL,
        ensures
            ({
                let sw = Mesh3::spec_floor(p);
                let se = sw.spec_east();
                let nw = sw.spec_north();
                let ne = nw.spec_east();
                &&& 4 * self.shift_lat(p) == NANOS_PER_MICRO * (self.shift_of(sw).lat
                    + self.shift_of(se).lat + self.shift_of(nw).lat + self.shift_of(ne).lat)
                &&& 4 * self.shift_lon(p) == NANOS_PER_MICRO * (self.shift_of(sw).lon
                    + self.shift_of(se).lon + self.shift_of(nw).lon + self.shift_of(ne).lon)
            }),
    {
        let sw = Mesh3::spec_floor(p);
        let se = sw.spec_east();
        let nw = sw.spec_north();
        let ne = nw.spec_east();
        lemma_interpolate_at_centre(
            self.shift_of(sw).lat as int,
            self.shift_of(se).lat as int,
            self.shift_of(nw).lat as int,
            self.shift_of(ne).lat as int,
        );
        lemma_interpolate_at_centre(
            self.shift_of(sw).lon as int,
            self.shift_of(se).lon as int,
            self.shift_of(nw).lon as int,
            self.shift_of(ne).lon as int,
        );
    }

    /// Takes a table as a grid after checking its order.  A table out of
    /// order is refused with the first index at which the order breaks.
    pub fn new(dots: Vec<Dot>) -> (r: Result<Grid, GridError>)
        ensures
            match r {
                Ok(grid) => grid@ == dots@ && grid.wf(),
                Err(GridError::Unsorted { index }) => {
                    &&& disorder_at(dots@, index as int)
                    &&& forall|k: int| 0 <= k < index ==> !disorder_at(dots@, k)
                },
                Err(GridError::BadLength { .. }) => false,
            },
            r is Ok <==> sorted(dots@),
    {
        let n = dots.len();
        let mut i: usize = 1;
        while i < n
            invariant
                1 <= i,
                n == dots@.len(),
                forall|a: int, b: int|
                    0 <= a < b < i && b < n ==> (#[trigger] dots@[a]).mesh.key() < (
                    #[trigger] dots@[b]).mesh.key(),
            decreases n - i,
        {
            if dots[i - 1].mesh.sort_key() >= dots[i].mesh.sort_key() {
                let index: usize = i - 1;
                proof {
                    assert(disorder_at(dots@, index as int));
                    assert(!(dots@[index as int].mesh.key() < dots@[index + 1].mesh.key()));
                    assert forall|k: int| 0 <= k < index implies !disorder_at(dots@, k) by {
                        assert(dots@[k].mesh.key() < dots@[k + 1].mesh.key());
                    }
                }
                return Err(GridError::Unsorted { index });
            }
            proof {
                assert forall|a: int, b: int| 0 <= a < b < i + 1 && b < n implies (
                #[trigger] dots@[a]).mesh.key() < (#[trigger] dots@[b]).mesh.key() by {
                    if b == i && a < i - 1 {
                        assert(dots@[a].mesh.key() < dots@[i - 1].mesh.key());
                    }
                }
            }
            i = i + 1;
        }
        Ok(Grid { dots })
    }

    /// The grid points in ascending order of mesh cells.
    pub fn dots(&self) -> (r: &Vec<Dot>)
        ensures
            r@ == self@,
    {
        &self.dots
    }

    /// Binary search for a cell among the grid points from index `first` on.
    pub fn search_after(&self, first: usize, query: Mesh3) -> (r: Option<usize>)
        ensures
            match r {
                Some(i) => first <= i < self@.len() && self@[i as int].mesh == query,
                None => forall|j: int|
                    first <= j < self@.len() ==> (#[trigger] self@[j]).mesh != query,
            },
    {
        proof {
            use_type_invariant(self);
        }
        let n = self.dots.len();
        if first > n {
            return None;
        }
        let key = query.sort_key();
        let mut lo: usize = first;
        let mut hi: usize = n;
        while lo < hi
            invariant
                first <= lo <= hi <= n,
                n == self@.len(),
                self.wf(),
                key == query.key(),
                forall|j: int| first <= j < lo ==> (#[trigger] self@[j]).mesh.key() < key,
                forall|j: int| hi <= j < n ==> (#[trigger] self@[j]).mesh.key() > key,
            decreases hi - lo,
        {
            let mid: usize = lo + (hi - lo) / 2;
            let k = self.dots[mid].mesh.sort_key();
            if k == key {
                proof {
                    query.lemma_key_order(self@[mid as int].mesh);
                }
                return Some(mid);
            } else if k < key {
                proof {
                    assert forall|j: int| first <= j < mid + 1 implies (#[trigger] self@[j]).mesh.key()
                        < key by {
                        if j < mid {
                            assert(self@[j].mesh.key() < self@[mid as int].mesh.key());
                        }
                    }
                }
                lo = mid + 1;
            } else {
                proof {
                    assert forall|j: int| mid <= j < n implies (#[trigger] self@[j]).mesh.key()
                        > key by {
                        if mid < j {
                            assert(self@[mid as int].mesh.key() < self@[j].mesh.key());
                        }
                    }
                }
                hi = mid;
            }
        }
        None
    }

    /// Looks for a cell at one index only.
    pub fn search_at(&self, index: usize, query: Mesh3) -> (r: Option<usize>)
        ensures
            r == (if index < self@.len() && self@[index as int].mesh == query {
                Some(index)
            } else {
                None
            }),
    {
        if index < self.dots.len() && self.dots[index].mesh == query {
            Some(index)
        } else {
            None
        }
    }

    /// Bilinear interpolation.
    ///
    /// All four corners of the third-order mesh cell around `p` must be in the
    /// grid; where one is missing the result is `None`.
    pub fn bilinear(&self, p: LatLon) -> (r: Option<LatLon>)
        ensures
            r.is_some() <==> self.covers(p),
            r matches Some(shift) ==> shift.wf() && shift.lat_ns() == self.shift_lat(p)
                && shift.lon_ns() == self.shift_lon(p),
    {
        let len = self.dots.len();
        // The grid point of a cell stands at its southwest corner.
        let mesh = Mesh3::floor(p);
        proof {
            use_type_invariant(self);
            use_type_invariant(&p);
            Mesh3::lemma_floor(p);
        }
        let i = match self.search_after(0, mesh) {
            Some(i) => i,
            None => {
                return None;
            },
        };
        let sw_shift = self.dots[i].shift;
        proof {
            self.lemma_shift_of(i as int);
        }

        let east = mesh.east();
        let i = match self.search_at(i + 1, east) {
            Some(i) => i,
            None => {
                proof {
                    if self.contains(east) {
                        self.lemma_next_key(i as int, east);
                    }
                }
                return None;
            },
        };
        let se_shift = self.dots[i].shift;
        proof {
            self.lemma_shift_of(i as int);
        }

        let north = mesh.north();
        let i = match self.search_after(i + 1, north) {
            Some(i) => i,
            None => {
                proof {
                    self.lemma_later_key(i as int, north);
                }
                return None;
            },
        };
        let nw_shift = self.dots[i].shift;
        proof {
            self.lemma_shift_of(i as int);
        }

        let north_east = north.east();
        let i = match self.search_at(i + 1, north_east) {
            Some(i) => i,
            None => {
                proof {
                    if self.contains(north_east) {
                        self.lemma_next_key(i as int, north_east);
                    }
                }
                return None;
            },
        };
        let ne_shift = self.dots[i].shift;
        proof {
            self.lemma_shift_of(i as int);
        }

        let (n_weight, e_weight) = mesh.diagonal_weight(p);
        let lat = interpolate_axis(
            sw_shift.lat,
            se_shift.lat,
            nw_shift.lat,
            ne_shift.lat,
            n_weight.0,
            e_weight.0,
        );
        let lon = interpolate_axis(
            sw_shift.lon,
            se_shift.lon,
            nw_shift.lon,
            ne_shift.lon,
            n_weight.0,
            e_weight.0,
        );
        match LatLon::new(crate::units::NanoSecond(lat), crate::units::NanoSecond(lon)) {
            Ok(shift) => Some(shift),
            Err(_) => None,
        }
    }

    /// Moves `p` by the correction that the grid interpolates there.  `None`
    /// where the grid does not cover `p`, or where the corrected point would
    /// not be a point of the globe.
    pub fn correct(&self, p: LatLon) -> (r: Option<LatLon>)
        ensures
            r.is_some() <==> self.corrects(p),
            r matches Some(q) ==> q.wf() && q.lat_ns() == p.lat_ns() + self.shift_lat(p)
                && q.lon_ns() == p.lon_ns() + self.shift_lon(p),
    {
        match self.bilinear(p) {
            Some(shift) => p.checked_add(shift),
            None => None,
        }
    }
}

} // verus!

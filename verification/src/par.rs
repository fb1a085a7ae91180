//! The binary image of a grid: a flat array of records of 12 bytes, without
//! header or padding, each little-endian, in ascending order of mesh cells.
//!
//! | bytes | field                                              |
//! |-------|----------------------------------------------------|
//! | 0-1   | serial number of the cell along latitude, signed   |
//! | 2-3   | serial number of the cell along longitude, signed  |
//! | 4-7   | correction of latitude in microseconds of arc      |
//! | 8-11  | correction of longitude in microseconds of arc     |

use vstd::prelude::*;
use crate::grid::{disorder_at, sorted, Dot, Grid, GridError, MicroSecond};
use crate::mesh::Mesh3;

verus! {

/// Length of one record of an image in bytes.
pub const RECORD_LEN: usize = 12;

/// The unsigned number with the same two's complement bits as `v`, for a
/// width with `modulus` values.
pub open spec fn unsigned(v: int, modulus: int) -> int {
    if v < 0 {
        v + modulus
    } else {
        v
    }
}

/// The signed number with the same two's complement bits as `u`, for a width
/// with `modulus` values.
pub open spec fn signed(u: int, modulus: int) -> int {
    if 2 * u >= modulus {
        u - modulus
    } else {
        u
    }
}

/// The two bytes of a signed 16-bit number, lowest first.
pub open spec fn le_bytes_16(v: int) -> Seq<u8> {
    let u = unsigned(v, 0x1_0000);
    seq![(u % 0x100) as u8, (u / 0x100) as u8]
}

/// The four bytes of a signed 32-bit number, lowest first.
pub open spec fn le_bytes_32(v: int) -> Seq<u8> {
    let u = unsigned(v, 0x1_0000_0000);
    seq![
        (u % 0x100) as u8,
        (u / 0x100 % 0x100) as u8,
        (u / 0x1_0000 % 0x100) as u8,
        (u / 0x100_0000) as u8,
    ]
}

/// The signed 16-bit number whose bytes, lowest first, stand at `at`.
pub open spec fn from_le_16(bytes: Seq<u8>, at: int) -> int {
    signed(bytes[at] + 0x100 * bytes[at + 1], 0x1_0000)
}

/// The signed 32-bit number whose bytes, lowest first, stand at `at`.
pub open spec fn from_le_32(bytes: Seq<u8>, at: int) -> int {
    signed(
        bytes[at] + 0x100 * bytes[at + 1] + 0x1_0000 * bytes[at + 2] + 0x100_0000 * bytes[at + 3],
        0x1_0000_0000,
    )
}

/// Two bytes written for a signed 16-bit number read back as that number.
pub proof fn lemma_round_trip_16(v: int)
    requires
        -0x8000 <= v < 0x8000,
    ensures
        from_le_16(le_bytes_16(v), 0) == v,
{
    let u = unsigned(v, 0x1_0000);
    assert(0 <= u < 0x1_0000);
    assert(u % 0x100 + 0x100 * (u / 0x100) == u);
}

/// Four bytes written for a signed 32-bit number read back as that number.
pub proof fn lemma_round_trip_32(v: int)
    requires
        -0x8000_0000 <= v < 0x8000_0000,
    ensures
        from_le_32(le_bytes_32(v), 0) == v,
{
    let u = unsigned(v, 0x1_0000_0000);
    assert(0 <= u < 0x1_0000_0000);
    let a = u / 0x100;
    let b = u / 0x1_0000;
    let c = u / 0x100_0000;
    assert(u % 0x100 + 0x100 * a == u);
    assert(b == a / 0x100);
    assert(c == b / 0x100);
    assert(a % 0x100 + 0x100 * b == a);
    assert(b % 0x100 + 0x100 * c == b);
}

/// The grid point whose record starts at byte `at` of an image.
pub open spec fn decode(bytes: Seq<u8>, at: int) -> Dot {
    Dot {
        mesh: Mesh3 { lat: from_le_16(bytes, at) as i16, lon: from_le_16(bytes, at + 2) as i16 },
        shift: MicroSecond {
            lat: from_le_32(bytes, at + 4) as i32,
            lon: from_le_32(bytes, at + 8) as i32,
        },
    }
}

/// The grid points of an image, record by record.
pub open spec fn decode_table(bytes: Seq<u8>) -> Seq<Dot> {
    Seq::new((bytes.len() / RECORD_LEN as nat) as nat, |i: int| decode(bytes, RECORD_LEN * i))
}

/// One line of a parameter table: the serial numbers of a cell along latitude
/// and longitude, then the corrections of latitude and longitude in
/// microseconds of arc.
#[derive(Debug, Clone, Copy, PartialEq, Eq, Structural)]
pub struct Record(pub i16, pub i16, pub i32, pub i32);

impl Record {
    /// The record of an image for this line.
    pub open spec fn encode(self) -> Seq<u8> {
        le_bytes_16(self.0 as int) + le_bytes_16(self.1 as int) + le_bytes_32(self.2 as int)
            + le_bytes_32(self.3 as int)
    }

    /// The same fields as `encode`, each with its highest byte first.
    pub open spec fn encode_be(self) -> Seq<u8> {
        le_bytes_16(self.0 as int).reverse() + le_bytes_16(self.1 as int).reverse() + le_bytes_32(
            self.2 as int,
        ).reverse() + le_bytes_32(self.3 as int).reverse()
    }

    /// The grid point that this line describes.
    pub open spec fn spec_dot(self) -> Dot {
        Dot {
            mesh: Mesh3 { lat: self.0, lon: self.1 },
            shift: MicroSecond { lat: self.2, lon: self.3 },
        }
    }

    /// Reading a record back gives the grid point that was written.
    pub proof fn lemma_decode_encode(self)
        ensures
            self.encode().len() == RECORD_LEN,
            decode(self.encode(), 0) == self.spec_dot(),
    {
        let b = self.encode();
        let lat = le_bytes_16(self.0 as int);
        let lon = le_bytes_16(self.1 as int);
        let d_lat = le_bytes_32(self.2 as int);
        let d_lon = le_bytes_32(self.3 as int);
        assert(b.len() == 12);
        assert(b[0] == lat[0] && b[1] == lat[1]);
        assert(b[2] == lon[0] && b[3] == lon[1]);
        assert(b[4] == d_lat[0] && b[5] == d_lat[1] && b[6] == d_lat[2] && b[7] == d_lat[3]);
        assert(b[8] == d_lon[0] && b[9] == d_lon[1] && b[10] == d_lon[2] && b[11] == d_lon[3]);
        lemma_round_trip_16(self.0 as int);
        lemma_round_trip_16(self.1 as int);
        lemma_round_trip_32(self.2 as int);
        lemma_round_trip_32(self.3 as int);
        assert(from_le_16(b, 0) == from_le_16(lat, 0));
        assert(from_le_16(b, 2) == from_le_16(lon, 0));
        assert(from_le_32(b, 4) == from_le_32(d_lat, 0));
        assert(from_le_32(b, 8) == from_le_32(d_lon, 0));
    }

    /// The grid point that this line describes.
    pub fn to_dot(&self) -> (r: Dot)
        ensures
            r == self.spec_dot(),
    {
        Dot { mesh: Mesh3 { lat: self.0, lon: self.1 }, shift: MicroSecond { lat: self.2, lon: self.3 } }
    }

    /// The record of an image for this line: 12 bytes, little-endian.
    pub fn to_binary(&self) -> (r: [u8; 12])
        ensures
            r@ == self.encode(),
    {
        let a = le_16(self.0);
        let b = le_16(self.1);
        let c = le_32(self.2);
        let d = le_32(self.3);
        let r = [a.0, a.1, b.0, b.1, c.0, c.1, c.2, c.3, d.0, d.1, d.2, d.3];
        assert(r@ =~= self.encode());
        r
    }

    /// The four fields in big-endian byte order, 12 bytes in all.
    pub fn to_be_bytes(&self) -> (r: Vec<u8>)
        ensures
            r@ == self.encode_be(),
    {
        let a = le_16(self.0);
        let b = le_16(self.1);
        let c = le_32(self.2);
        let d = le_32(self.3);
        let mut r: Vec<u8> = Vec::with_capacity(12);
        r.push(a.1);
        r.push(a.0);
        r.push(b.1);
        r.push(b.0);
        r.push(c.3);
        r.push(c.2);
        r.push(c.1);
        r.push(c.0);
        r.push(d.3);
        r.push(d.2);
        r.push(d.1);
        r.push(d.0);
        assert(r@ =~= self.encode_be());
        r
    }
}

/// The two bytes of a number, lowest first.
fn le_16(v: i16) -> (r: (u8, u8))
    ensures
        seq![r.0, r.1] == le_bytes_16(v as int),
{
    let w: i32 = v as i32;
    let u: i32 = if w < 0 {
        w + 0x1_0000
    } else {
        w
    };
    let r = ((u % 0x100) as u8, (u / 0x100) as u8);
    assert(seq![r.0, r.1] =~= le_bytes_16(v as int));
    r
}

/// The four bytes of a number, lowest first.
fn le_32(v: i32) -> (r: (u8, u8, u8, u8))
    ensures
        seq![r.0, r.1, r.2, r.3] == le_bytes_32(v as int),
{
    let w: i64 = v as i64;
    let u: i64 = if w < 0 {
        w + 0x1_0000_0000
    } else {
        w
    };
    let r = (
        (u % 0x100) as u8,
        (u / 0x100 % 0x100) as u8,
        (u / 0x1_0000 % 0x100) as u8,
        (u / 0x100_0000) as u8,
    );
    assert(seq![r.0, r.1, r.2, r.3] =~= le_bytes_32(v as int));
    r
}

/// Reads the record that starts at byte `at`.
fn decode_at(bytes: &Vec<u8>, at: usize) -> (r: Dot)
    requires
        at + RECORD_LEN <= bytes@.len(),
    ensures
        r == decode(bytes@, at as int),
{
    let len = bytes.len();
    let lat: i32 = bytes[at] as i32 + 0x100 * (bytes[at + 1] as i32);
    let lon: i32 = bytes[at + 2] as i32 + 0x100 * (bytes[at + 3] as i32);
    let d_lat: i64 = bytes[at + 4] as i64 + 0x100 * (bytes[at + 5] as i64) + 0x1_0000 * (bytes[at
        + 6] as i64) + 0x100_0000 * (bytes[at + 7] as i64);
    let d_lon: i64 = bytes[at + 8] as i64 + 0x100 * (bytes[at + 9] as i64) + 0x1_0000 * (bytes[at
        + 10] as i64) + 0x100_0000 * (bytes[at + 11] as i64);
    Dot {
        mesh: Mesh3 {
            lat: (if lat >= 0x8000 {
                lat - 0x1_0000
            } else {
                lat
            }) as i16,
            lon: (if lon >= 0x8000 {
                lon - 0x1_0000
            } else {
                lon
            }) as i16,
        },
        shift: MicroSecond {
            lat: (if d_lat >= 0x8000_0000 {
                d_lat - 0x1_0000_0000
            } else {
                d_lat
            }) as i32,
            lon: (if d_lon >= 0x8000_0000 {
                d_lon - 0x1_0000_0000
            } else {
                d_lon
            }) as i32,
        },
    }
}

/// The bytes of a grid image, as they were read.
#[derive(Debug)]
pub struct Bin {
    bytes: Vec<u8>,
}

impl View for Bin {
    type V = Seq<u8>;

    /// The bytes in order.
    closed spec fn view(&self) -> Seq<u8> {
        self.bytes@
    }
}

impl Bin {
    /// Wraps the bytes of an image.
    pub fn new(bytes: Vec<u8>) -> (r: Bin)
        ensures
            r@ == bytes@,
    {
        Bin { bytes }
    }

    /// Reads the records of the image, field by field, and takes them as a
    /// grid.  An image that is not a whole number of records is refused, and
    /// so is one whose records are not in ascending order of mesh cells.
    pub fn to_grid(&self) -> (r: Result<Grid, GridError>)
        ensures
            match r {
                Ok(grid) => self@.len() % RECORD_LEN as nat == 0 && grid@ == decode_table(self@)
                    && grid.wf(),
                Err(GridError::BadLength { len }) => len == self@.len() && len % RECORD_LEN != 0,
                Err(GridError::Unsorted { index }) => {
                    &&& self@.len() % RECORD_LEN as nat == 0
                    &&& disorder_at(decode_table(self@), index as int)
                    &&& forall|k: int| 0 <= k < index ==> !disorder_at(decode_table(self@), k)
                },
            },
            r is Ok <==> self@.len() % RECORD_LEN as nat == 0 && sorted(decode_table(self@)),
    {
        let len = self.bytes.len();
        if len % RECORD_LEN != 0 {
            return Err(GridError::BadLength { len });
        }
        let n = len / RECORD_LEN;
        let mut dots: Vec<Dot> = Vec::with_capacity(n);
        let mut i: usize = 0;
        while i < n
            invariant
                i <= n,
                n == len / RECORD_LEN,
                len == self.bytes@.len(),
                len % RECORD_LEN == 0,
                dots@.len() == i,
                forall|k: int| 0 <= k < i ==> dots@[k] == decode(self.bytes@, RECORD_LEN * k),
            decreases n - i,
        {
            let dot = decode_at(&self.bytes, i * RECORD_LEN);
            dots.push(dot);
            i = i + 1;
        }
        assert(dots@ =~= decode_table(self@));
        Grid::new(dots)
    }
}

} // verus!

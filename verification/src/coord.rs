//! Geodetic coordinates in fixed point.

use vstd::prelude::*;
use crate::units::{NanoSecond, NANOS_PER_MILLI};

verus! {

/// 90 degrees in nanoseconds of arc: the largest latitude.
pub const MAX_LAT: i64 = 324_000_000_000_000;

/// 180 degrees in nanoseconds of arc: the largest longitude.
pub const MAX_LON: i64 = 648_000_000_000_000;

/// Nanoseconds of arc in one second of arc.
pub const NANOS_PER_SEC: i64 = 1_000_000_000;

/// Nanoseconds of arc in one microsecond of arc.
pub const NANOS_PER_MICRO: i64 = 1_000;

/// Nanoseconds of arc in one minute of arc.
pub const NANOS_PER_MIN: i64 = 60_000_000_000;

/// Nanoseconds of arc in one degree.
pub const NANOS_PER_DEG: i64 = 3_600_000_000_000;

/// Which axis of a coordinate lies outside the globe.
#[derive(Debug, Clone, Copy, PartialEq, Eq, Structural)]
pub enum RangeError {
    /// The latitude is not within 90 degrees of the equator.
    Latitude,
    /// The latitude is fine; the longitude is not within 180 degrees of the
    /// prime meridian.
    Longitude,
}

/// What is wrong with a pair of angles taken as latitude and longitude, both
/// in nanoseconds of arc; `None` where the pair is a point of the globe.
pub open spec fn range_error(lat: int, lon: int) -> Option<RangeError> {
    if !(-MAX_LAT <= lat <= MAX_LAT) {
        Some(RangeError::Latitude)
    } else if !(-MAX_LON <= lon <= MAX_LON) {
        Some(RangeError::Longitude)
    } else {
        None
    }
}

/// Degrees, minutes, seconds.
///
/// An angle is the sum of the three parts.  The parts of a negative angle are
/// all negative or zero.
#[derive(Debug, Clone, Copy, PartialEq, Eq, Structural)]
pub struct Dms {
    /// Degrees.
    pub d: i32,
    /// Minutes.
    pub m: i32,
    /// Seconds, in nanoseconds of arc.
    pub s: i64,
}

impl Dms {
    /// The angle in nanoseconds of arc.
    pub open spec fn total(self) -> int {
        self.d * NANOS_PER_DEG + self.m * NANOS_PER_MIN + self.s
    }

    /// The parts of an angle that is not negative: whole degrees, whole
    /// minutes below 60, and what is left below one minute.
    pub open spec fn split(ns: int) -> Dms {
        Dms {
            d: (ns / NANOS_PER_DEG as int) as i32,
            m: (ns / NANOS_PER_MIN as int % 60) as i32,
            s: (ns % NANOS_PER_MIN as int) as i64,
        }
    }

    /// The parts of an angle: those of its absolute value, with its sign.
    pub open spec fn spec_from_nano_second(ns: int) -> Dms {
        if ns >= 0 {
            Dms::split(ns)
        } else {
            Dms { d: -Dms::split(-ns).d as i32, m: -Dms::split(-ns).m as i32, s: -Dms::split(-ns).s as i64 }
        }
    }

    /// Splitting an angle into parts loses nothing: the parts add up to it.
    pub proof fn lemma_total_of_parts(ns: int)
        requires
            i64::MIN <= ns <= i64::MAX,
        ensures
            Dms::spec_from_nano_second(ns).total() == ns,
    {
        let a = if ns >= 0 {
            ns
        } else {
            -ns
        };
        let minutes = a / NANOS_PER_MIN as int;
        assert(a / NANOS_PER_DEG as int == minutes / 60);
        assert(minutes == 60 * (minutes / 60) + minutes % 60);
        assert(a == NANOS_PER_MIN * minutes + a % NANOS_PER_MIN as int);
    }

    /// An angle from its parts.
    pub fn new(d: i32, m: i32, s: i64) -> (r: Dms)
        ensures
            r == (Dms { d, m, s }),
    {
        Dms { d, m, s }
    }

    /// Splits an angle into degrees, minutes and seconds.
    pub fn from_nano_second(ns: NanoSecond) -> (r: Dms)
        ensures
            r == Dms::spec_from_nano_second(ns.0 as int),
            r.total() == ns.0,
    {
        proof {
            Dms::lemma_total_of_parts(ns.0 as int);
        }
        let a: i128 = if ns.0 >= 0 {
            ns.0 as i128
        } else {
            -(ns.0 as i128)
        };
        let d: i128 = a / (NANOS_PER_DEG as i128);
        let m: i128 = a / (NANOS_PER_MIN as i128) % 60;
        let s: i128 = a % (NANOS_PER_MIN as i128);
        if ns.0 >= 0 {
            Dms { d: d as i32, m: m as i32, s: s as i64 }
        } else {
            Dms { d: (-d) as i32, m: (-m) as i32, s: (-s) as i64 }
        }
    }
}

/// A number of units in nanoseconds of arc.
fn times(count: i64, unit: i64) -> (r: i128)
    requires
        1 <= unit <= NANOS_PER_DEG,
    ensures
        r == count * unit,
        -0x8000_0000_0000_0000 * NANOS_PER_DEG <= r <= 0x8000_0000_0000_0000 * NANOS_PER_DEG,
{
    proof {
        assert(-0x8000_0000_0000_0000 * NANOS_PER_DEG <= count * unit <= 0x8000_0000_0000_0000
            * NANOS_PER_DEG) by (nonlinear_arith)
            requires
                -0x8000_0000_0000_0000 <= count <= 0x8000_0000_0000_0000,
                1 <= unit <= NANOS_PER_DEG,
        ;
    }
    (count as i128) * (unit as i128)
}

/// Latitude and longitude of a coordinate, or a small difference of two
/// coordinates, each in nanoseconds of arc.
#[derive(Debug, Clone, Copy, PartialEq, Eq, Structural)]
pub struct LatLon {
    lat: i64,
    lon: i64,
}

impl LatLon {
    /// Latitude in nanoseconds of arc, north positive.
    pub closed spec fn lat_ns(self) -> int {
        self.lat as int
    }

    /// Longitude in nanoseconds of arc, east positive.
    pub closed spec fn lon_ns(self) -> int {
        self.lon as int
    }

    /// The latitude is within 90 degrees and the longitude within 180.  This
    /// holds of every coordinate that a program can hold.
    #[verifier::type_invariant]
    pub open spec fn wf(self) -> bool {
        range_error(self.lat_ns(), self.lon_ns()) is None
    }

    /// The coordinate with the given angles in nanoseconds of arc.  Meant for
    /// angles that are a point of the globe.
    pub closed spec fn at(lat: int, lon: int) -> LatLon {
        LatLon { lat: lat as i64, lon: lon as i64 }
    }

    /// `at` gives a point of the globe its angles.
    pub proof fn lemma_at(lat: int, lon: int)
        requires
            range_error(lat, lon) is None,
        ensures
            LatLon::at(lat, lon).wf(),
            LatLon::at(lat, lon).lat_ns() == lat,
            LatLon::at(lat, lon).lon_ns() == lon,
    {
    }

    /// A coordinate is its two angles and nothing else.
    pub proof fn lemma_same_angles(self, other: LatLon)
        requires
            self.lat_ns() == other.lat_ns(),
            self.lon_ns() == other.lon_ns(),
        ensures
            self == other,
            self == LatLon::at(self.lat_ns(), self.lon_ns()),
    {
    }

    /// Checks that a pair of angles is a point of the globe.
    pub fn new(lat: NanoSecond, lon: NanoSecond) -> (r: Result<LatLon, RangeError>)
        ensures
            match r {
                Ok(p) => range_error(lat.0 as int, lon.0 as int) is None && p.wf()
                    && p.lat_ns() == lat.0 && p.lon_ns() == lon.0,
                Err(e) => range_error(lat.0 as int, lon.0 as int) == Some(e),
            },
    {
        if lat.0 < -MAX_LAT || lat.0 > MAX_LAT {
            Err(RangeError::Latitude)
        } else if lon.0 < -MAX_LON || lon.0 > MAX_LON {
            Err(RangeError::Longitude)
        } else {
            Ok(LatLon { lat: lat.0, lon: lon.0 })
        }
    }

    /// Converts from whole multiples of `unit` nanoseconds of arc.
    fn from_multiples(lat: i64, lon: i64, unit: i64) -> (r: Result<LatLon, RangeError>)
        requires
            1 <= unit <= NANOS_PER_DEG,
        ensures
            match r {
                Ok(p) => range_error(lat * unit, lon * unit) is None && p.wf()
                    && p.lat_ns() == lat * unit && p.lon_ns() == lon * unit,
                Err(e) => range_error(lat * unit, lon * unit) == Some(e),
            },
    {
        let lat_ns: i128 = times(lat, unit);
        let lon_ns: i128 = times(lon, unit);
        if lat_ns < -(MAX_LAT as i128) || lat_ns > MAX_LAT as i128 {
            Err(RangeError::Latitude)
        } else if lon_ns < -(MAX_LON as i128) || lon_ns > MAX_LON as i128 {
            Err(RangeError::Longitude)
        } else {
            Ok(LatLon { lat: lat_ns as i64, lon: lon_ns as i64 })
        }
    }

    /// Converts from whole seconds of arc.
    pub fn from_secs(lat: i64, lon: i64) -> (r: Result<LatLon, RangeError>)
        ensures
            match r {
                Ok(p) => range_error(lat * NANOS_PER_SEC, lon * NANOS_PER_SEC) is None && p.wf()
                    && p.lat_ns() == lat * NANOS_PER_SEC && p.lon_ns() == lon * NANOS_PER_SEC,
                Err(e) => range_error(lat * NANOS_PER_SEC, lon * NANOS_PER_SEC) == Some(e),
            },
    {
        LatLon::from_multiples(lat, lon, NANOS_PER_SEC)
    }

    /// Converts from whole milliseconds of arc.
    pub fn from_milli_secs(lat: i64, lon: i64) -> (r: Result<LatLon, RangeError>)
        ensures
            match r {
                Ok(p) => range_error(lat * NANOS_PER_MILLI, lon * NANOS_PER_MILLI) is None
                    && p.wf() && p.lat_ns() == lat * NANOS_PER_MILLI && p.lon_ns() == lon
                    * NANOS_PER_MILLI,
                Err(e) => range_error(lat * NANOS_PER_MILLI, lon * NANOS_PER_MILLI) == Some(e),
            },
    {
        LatLon::from_multiples(lat, lon, NANOS_PER_MILLI)
    }

    /// Converts from whole microseconds of arc.
    pub fn from_micro_secs(lat: i64, lon: i64) -> (r: Result<LatLon, RangeError>)
        ensures
            match r {
                Ok(p) => range_error(lat * NANOS_PER_MICRO, lon * NANOS_PER_MICRO) is None
                    && p.wf() && p.lat_ns() == lat * NANOS_PER_MICRO && p.lon_ns() == lon
                    * NANOS_PER_MICRO,
                Err(e) => range_error(lat * NANOS_PER_MICRO, lon * NANOS_PER_MICRO) == Some(e),
            },
    {
        LatLon::from_multiples(lat, lon, NANOS_PER_MICRO)
    }

    /// Converts from degrees, minutes, seconds.
    pub fn from_dms(lat: Dms, lon: Dms) -> (r: Result<LatLon, RangeError>)
        ensures
            match r {
                Ok(p) => range_error(lat.total(), lon.total()) is None && p.wf() && p.lat_ns()
                    == lat.total() && p.lon_ns() == lon.total(),
                Err(e) => range_error(lat.total(), lon.total()) == Some(e),
            },
    {
        let lat_ns: i128 = times(lat.d as i64, NANOS_PER_DEG) + times(lat.m as i64, NANOS_PER_MIN)
            + (lat.s as i128);
        let lon_ns: i128 = times(lon.d as i64, NANOS_PER_DEG) + times(lon.m as i64, NANOS_PER_MIN)
            + (lon.s as i128);
        if lat_ns < -(MAX_LAT as i128) || lat_ns > MAX_LAT as i128 {
            Err(RangeError::Latitude)
        } else if lon_ns < -(MAX_LON as i128) || lon_ns > MAX_LON as i128 {
            Err(RangeError::Longitude)
        } else {
            Ok(LatLon { lat: lat_ns as i64, lon: lon_ns as i64 })
        }
    }

    /// Converts to degrees, minutes, seconds.
    pub fn to_dms(&self) -> (r: (Dms, Dms))
        ensures
            r.0 == Dms::spec_from_nano_second(self.lat_ns()),
            r.1 == Dms::spec_from_nano_second(self.lon_ns()),
            r.0.total() == self.lat_ns(),
            r.1.total() == self.lon_ns(),
    {
        (Dms::from_nano_second(NanoSecond(self.lat)), Dms::from_nano_second(NanoSecond(self.lon)))
    }

    /// Latitude, north positive.
    pub fn lat(&self) -> (r: NanoSecond)
        ensures
            r.0 == self.lat_ns(),
    {
        NanoSecond(self.lat)
    }

    /// Longitude, east positive.
    pub fn lon(&self) -> (r: NanoSecond)
        ensures
            r.0 == self.lon_ns(),
    {
        NanoSecond(self.lon)
    }

    /// Moves a coordinate by a difference.  `None` where the sum is not a
    /// point of the globe.
    pub fn checked_add(self, rhs: LatLon) -> (r: Option<LatLon>)
        ensures
            r.is_some() <==> range_error(
                self.lat_ns() + rhs.lat_ns(),
                self.lon_ns() + rhs.lon_ns(),
            ) is None,
            r matches Some(p) ==> p.wf() && p.lat_ns() == self.lat_ns() + rhs.lat_ns()
                && p.lon_ns() == self.lon_ns() + rhs.lon_ns(),
    {
        proof {
            use_type_invariant(&self);
            use_type_invariant(&rhs);
        }
        match LatLon::new(NanoSecond(self.lat + rhs.lat), NanoSecond(self.lon + rhs.lon)) {
            Ok(p) => Some(p),
            Err(_) => None,
        }
    }
}

impl Default for LatLon {
    /// Latitude 0, longitude 0; as a difference, no change.
    fn default() -> (r: LatLon)
        ensures
            r.wf(),
            r.lat_ns() == 0,
            r.lon_ns() == 0,
    {
        LatLon { lat: 0, lon: 0 }
    }
}

} // verus!

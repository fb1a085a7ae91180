//! Transform geodetic datums used in Japan, in exact fixed-point arithmetic.
//!
//! Angles are integers: coordinates count nanoseconds of arc, grid corrections
//! count microseconds of arc.  A coordinate is converted by looking up the four
//! grid points around it in a sorted parameter grid and weighting their
//! corrections bilinearly; every step is exact up to one final rounding to the
//! nearest nanosecond of arc.
//!
//! - [`coord`]: coordinates, checked to lie on the globe.
//! - [`mesh`]: third-order mesh cells, by which a grid is indexed.
//! - [`grid`]: parameter grids, their lookup and the interpolation.
//! - [`crs`]: the datums and the transforms that go through a grid.
//! - [`par`]: the binary image of a grid.
//! - [`table`] and [`records`]: the text of a parameter table, and how it is
//!   sorted into an image.
//!
//! # Examples
//!
//! ```
//! use jgd::{Bin, Jgd2000, LatLon};
//!
//! let patch = Bin::new(Vec::new()).to_grid().unwrap();
//! let p = LatLon::from_secs(35 * 3600, 135 * 3600).unwrap();
//! // An empty grid corrects nothing.
//! assert_eq!(Jgd2000::new(p).to_jgd2011(&patch).degrees(), p);
//! ```

pub mod coord;
pub mod crs;
pub mod grid;
pub mod math;
pub mod mesh;
pub mod par;
pub mod records;
pub mod table;
pub mod units;

pub use coord::{Dms, LatLon, RangeError};
pub use crs::{tky2jgd, to_jgd2000, Jgd2000, Jgd2011, Route, Tokyo, Tokyo97};
pub use grid::{Dot, Grid, GridError, MicroSecond};
pub use mesh::Mesh3;
pub use par::{Bin, Record};
pub use units::{MilliSecond, NanoSecond};

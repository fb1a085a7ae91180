use jgd::{Dms, LatLon, NanoSecond, RangeError};

/// Latitude and longitude in degrees.
fn degrees(p: LatLon) -> (f64, f64) {
    (p.lat().0 as f64 / 3_600_000_000_000., p.lon().0 as f64 / 3_600_000_000_000.)
}

/// Degrees, minutes and seconds, the seconds with their fraction.
fn dms(d: i32, m: i32, s: f64) -> Dms {
    Dms::new(d, m, (s * 1_000_000_000.).round() as i64)
}

#[test]
fn from_s() {
    let (lat, lon) = degrees(LatLon::from_secs(3_600, 7_200).unwrap());
    assert_eq!(lat, 1.0);
    assert_eq!(lon, 2.0);
}

#[test]
fn from_ms() {
    let (lat, lon) = degrees(LatLon::from_milli_secs(3_600_000, 7_200_000).unwrap());
    assert_eq!(lat, 1.0);
    assert_eq!(lon, 2.0);
}

#[test]
fn from_us() {
    let (lat, lon) = degrees(LatLon::from_micro_secs(3_600_000_000, 7_200_000_000).unwrap());
    assert_eq!(lat, 1.0);
    assert_eq!(lon, 2.0);
}

#[test]
fn from_dms() {
    let (lat, lon) = degrees(LatLon::from_dms(dms(1, 6, 36.), dms(2, 30, 0.)).unwrap());
    assert_eq!(lat, 1.11);
    assert_eq!(lon, 2.50);
}

#[test]
fn to_dms() {
    let (lat, lon) = LatLon::from_dms(dms(1, 6, 59.99), dms(2, 30, 0.)).unwrap().to_dms();
    assert_eq!(lat.d, 1);
    assert_eq!(lat.m, 6);
    assert!((lat.s as f64 / 1_000_000_000. - 59.99).abs() < 0.00000001);

    assert_eq!(lon.d, 2);
    assert_eq!(lon.m, 30);
    assert!((lon.s as f64 / 1_000_000_000. - 0.).abs() < 0.00000001);
}

#[test]
fn from_ns() {
    let p = LatLon::new(NanoSecond(-1), NanoSecond(648_000_000_000_000)).unwrap();
    assert_eq!(p.lat(), NanoSecond(-1));
    assert_eq!(p.lon(), NanoSecond(648_000_000_000_000));
}

#[test]
fn units_are_exact() {
    let p = LatLon::from_secs(-7, 11).unwrap();
    assert_eq!((p.lat().0, p.lon().0), (-7_000_000_000, 11_000_000_000));
    let p = LatLon::from_milli_secs(-7, 11).unwrap();
    assert_eq!((p.lat().0, p.lon().0), (-7_000_000, 11_000_000));
    let p = LatLon::from_micro_secs(-7, 11).unwrap();
    assert_eq!((p.lat().0, p.lon().0), (-7_000, 11_000));
}

#[test]
fn the_poles_and_the_date_line_are_on_the_globe() {
    assert!(LatLon::from_secs(324_000, 648_000).is_ok());
    assert!(LatLon::from_secs(-324_000, -648_000).is_ok());
    assert!(LatLon::from_dms(Dms::new(90, 0, 0), Dms::new(-180, 0, 0)).is_ok());
}

#[test]
fn latitude_beyond_a_pole_is_refused() {
    assert_eq!(LatLon::from_secs(324_001, 0), Err(RangeError::Latitude));
    assert_eq!(LatLon::from_secs(-324_001, 0), Err(RangeError::Latitude));
    assert_eq!(
        LatLon::new(NanoSecond(324_000_000_000_001), NanoSecond(0)),
        Err(RangeError::Latitude)
    );
    assert_eq!(LatLon::from_dms(Dms::new(90, 0, 1), Dms::new(0, 0, 0)), Err(RangeError::Latitude));
    // The latitude is named where both are wrong.
    assert_eq!(LatLon::from_secs(324_001, 648_001), Err(RangeError::Latitude));
    assert_eq!(LatLon::from_secs(i64::MAX, 0), Err(RangeError::Latitude));
    assert_eq!(LatLon::from_micro_secs(i64::MIN, 0), Err(RangeError::Latitude));
}

#[test]
fn longitude_beyond_the_date_line_is_refused() {
    assert_eq!(LatLon::from_secs(0, 648_001), Err(RangeError::Longitude));
    assert_eq!(LatLon::from_milli_secs(0, -648_000_001), Err(RangeError::Longitude));
    assert_eq!(
        LatLon::from_dms(Dms::new(0, 0, 0), Dms::new(i32::MAX, i32::MAX, i64::MAX)),
        Err(RangeError::Longitude)
    );
}

#[test]
fn parts_of_a_negative_angle_are_negative() {
    let p = LatLon::from_dms(dms(-1, -6, -59.99), dms(-2, -30, 0.)).unwrap();
    assert_eq!(p.lat().0, -(3_600 + 6 * 60) * 1_000_000_000 - 59_990_000_000);
    let (lat, lon) = p.to_dms();
    assert_eq!(lat, Dms::new(-1, -6, -59_990_000_000));
    assert_eq!(lon, Dms::new(-2, -30, 0));
}

#[test]
fn parts_add_up_to_the_angle() {
    for ns in [0, 1, -1, 59_999_999_999, 60_000_000_000, -3_599_999_999_999, i64::MAX, i64::MIN] {
        let parts = Dms::from_nano_second(NanoSecond(ns));
        assert_eq!(
            parts.d as i128 * 3_600_000_000_000 + parts.m as i128 * 60_000_000_000 + parts.s as i128,
            ns as i128
        );
        assert!(parts.m.abs() < 60);
        assert!(parts.s.abs() < 60_000_000_000);
    }
}

#[test]
fn a_difference_moves_a_coordinate() {
    let p = LatLon::from_secs(10, 20).unwrap();
    let d = LatLon::from_micro_secs(-3, 4).unwrap();
    let q = p.checked_add(d).unwrap();
    assert_eq!((q.lat().0, q.lon().0), (9_999_997_000, 20_000_004_000));
    assert_eq!(p.checked_add(LatLon::default()), Some(p));
}

#[test]
fn a_difference_cannot_move_a_coordinate_off_the_globe() {
    let pole = LatLon::from_secs(324_000, 0).unwrap();
    assert_eq!(pole.checked_add(LatLon::new(NanoSecond(1), NanoSecond(0)).unwrap()), None);
    assert!(pole.checked_add(LatLon::new(NanoSecond(-1), NanoSecond(0)).unwrap()).is_some());
    let west = LatLon::from_secs(0, -648_000).unwrap();
    assert_eq!(west.checked_add(LatLon::new(NanoSecond(0), NanoSecond(-1)).unwrap()), None);
}

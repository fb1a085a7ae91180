use jgd::{Dot, Grid, GridError, LatLon, Mesh3, MicroSecond, NanoSecond};

//         45"
//  (0, 0) -- (6, 6)
//    |         | 30"
//  (0,-6) -- (6, 0)
fn smallest() -> Vec<Dot> {
    vec![
        Dot { mesh: Mesh3 { lon: 0, lat: 0 }, shift: MicroSecond { lon: 0, lat: -6 } },
        Dot { mesh: Mesh3 { lon: 1, lat: 0 }, shift: MicroSecond { lon: 6, lat: 0 } },
        Dot { mesh: Mesh3 { lon: 0, lat: 1 }, shift: MicroSecond { lon: 0, lat: 0 } },
        Dot { mesh: Mesh3 { lon: 1, lat: 1 }, shift: MicroSecond { lon: 6, lat: 6 } },
    ]
}

fn dot(lat: i16, lon: i16, d_lat: i32, d_lon: i32) -> Dot {
    Dot { mesh: Mesh3 { lat, lon }, shift: MicroSecond { lat: d_lat, lon: d_lon } }
}

/// Three by three grid points around 0 degrees: four cells.
fn around_zero() -> Grid {
    let mut dots = Vec::new();
    for lat in -1..=1i16 {
        for lon in -1..=1i16 {
            dots.push(dot(lat, lon, 100 * lat as i32 + 10 * lon as i32, 7 * lat as i32 * lon as i32));
        }
    }
    Grid::new(dots).unwrap()
}

fn ns(lat: i64, lon: i64) -> LatLon {
    LatLon::new(NanoSecond(lat), NanoSecond(lon)).unwrap()
}

#[test]
fn interpolate_corner() {
    let sut = Grid::new(smallest()).unwrap();
    let ret = sut.bilinear(LatLon::from_secs(0, 0).unwrap()).unwrap();
    assert_eq!(ret.lon().0 as f64 / 3_600_000_000_000., 0.0);
    assert_eq!(ret.lat().0 as f64 / 3_600_000_000_000., -6. / 3_600_000_000.);
    assert_eq!(ret, LatLon::from_micro_secs(-6, 0).unwrap());
}

#[test]
fn interpolate_middle() {
    let sut = Grid::new(smallest()).unwrap();
    let exp = LatLon::from_micro_secs(-2, 2).unwrap();
    let ret = sut.bilinear(LatLon::from_secs(10, 15).unwrap()).unwrap();
    assert_eq!(exp.lat(), ret.lat());
    assert_eq!(exp.lon(), ret.lon());
}

#[test]
fn the_centre_of_a_cell_is_the_mean_of_its_corners() {
    let sut = Grid::new(smallest()).unwrap();
    let ret = sut.bilinear(LatLon::from_milli_secs(15_000, 22_500).unwrap()).unwrap();
    // (-6 + 0 + 0 + 6) / 4 and (0 + 6 + 0 + 6) / 4 microseconds.
    assert_eq!(ret, LatLon::from_micro_secs(0, 3).unwrap());

    let grid = Grid::new(vec![dot(0, 0, 1, 0), dot(0, 1, 0, 0), dot(1, 0, 0, 2), dot(1, 1, 0, 1)])
        .unwrap();
    let ret = grid.bilinear(LatLon::from_milli_secs(15_000, 22_500).unwrap()).unwrap();
    assert_eq!(ret, ns(250, 750));
}

#[test]
fn every_grid_point_returns_its_own_correction() {
    let grid = around_zero();
    for lat in -1..=0i64 {
        for lon in -1..=0i64 {
            let at = LatLon::from_secs(30 * lat, 45 * lon).unwrap();
            let expected = LatLon::from_micro_secs(100 * lat + 10 * lon, 7 * lat * lon).unwrap();
            assert_eq!(grid.bilinear(at), Some(expected));
        }
    }
}

#[test]
fn weights_fall_off_linearly_along_an_edge() {
    let grid = Grid::new(vec![dot(0, 0, 0, 0), dot(0, 1, 45, 0), dot(1, 0, 0, 30), dot(1, 1, 45, 30)])
        .unwrap();
    // One second east: a 45th of the way from 0 to 45 microseconds.
    assert_eq!(grid.bilinear(LatLon::from_secs(0, 1).unwrap()), Some(ns(1_000, 0)));
    // One second north: a 30th of the way from 0 to 30 microseconds.
    assert_eq!(grid.bilinear(LatLon::from_secs(1, 0).unwrap()), Some(ns(0, 1_000)));
    // Just inside the far corner.
    assert_eq!(
        grid.bilinear(ns(30_000_000_000 - 1, 45_000_000_000 - 1)),
        Some(ns(45_000, 30_000))
    );
    assert_eq!(grid.bilinear(ns(29_999_000_000, 44_999_000_000)), Some(ns(44_999, 29_999)));
}

#[test]
fn the_result_is_rounded_to_the_nearest_nanosecond() {
    // One microsecond at one corner, a third of the way along each axis:
    // 1000 * 2/3 * 2/3, 1000 * 2/3 * 1/3 and 1000 * 1/3 * 1/3 nanoseconds.
    let p = LatLon::from_secs(10, 15).unwrap();
    let grid = Grid::new(vec![dot(0, 0, 1, -1), dot(0, 1, 0, 0), dot(1, 0, 0, 0), dot(1, 1, 0, 0)])
        .unwrap();
    assert_eq!(grid.bilinear(p), Some(ns(444, -444)));
    let grid = Grid::new(vec![dot(0, 0, 0, 0), dot(0, 1, 1, -1), dot(1, 0, 0, 0), dot(1, 1, 0, 0)])
        .unwrap();
    assert_eq!(grid.bilinear(p), Some(ns(222, -222)));
    let grid = Grid::new(vec![dot(0, 0, 0, 0), dot(0, 1, 0, 0), dot(1, 0, 0, 0), dot(1, 1, 1, -1)])
        .unwrap();
    assert_eq!(grid.bilinear(p), Some(ns(111, -111)));
    // Halfway between two nanoseconds goes up.
    let grid = Grid::new(vec![dot(0, 0, 0, 0), dot(0, 1, 0, 0), dot(1, 0, 1, -1), dot(1, 1, 1, -1)])
        .unwrap();
    assert_eq!(grid.bilinear(ns(15_000_000, 0)), Some(ns(1, 0)));
    assert_eq!(grid.bilinear(ns(45_000_000, 0)), Some(ns(2, -1)));
}

#[test]
fn the_largest_corrections_do_not_overflow() {
    let grid = Grid::new(vec![
        dot(0, 0, i32::MAX, i32::MIN),
        dot(0, 1, i32::MAX, i32::MIN),
        dot(1, 0, i32::MAX, i32::MIN),
        dot(1, 1, i32::MAX, i32::MIN),
    ])
    .unwrap();
    let expected = ns(2_147_483_647_000, -2_147_483_648_000);
    for p in [ns(0, 0), ns(1, 1), ns(15_000_000_000, 22_500_000_000), ns(29_999_999_999, 44_999_999_999)] {
        assert_eq!(grid.bilinear(p), Some(expected));
    }
}

#[test]
fn a_missing_corner_is_no_data() {
    let p = LatLon::from_secs(10, 15).unwrap();
    for missing in 0..4 {
        let mut dots = smallest();
        dots.remove(missing);
        assert_eq!(Grid::new(dots).unwrap().bilinear(p), None);
    }
    assert_eq!(Grid::new(Vec::new()).unwrap().bilinear(p), None);
}

#[test]
fn a_point_on_the_far_edge_belongs_to_the_next_cell() {
    let sut = Grid::new(smallest()).unwrap();
    assert!(sut.bilinear(ns(29_999_999_999, 44_999_999_999)).is_some());
    assert_eq!(sut.bilinear(LatLon::from_secs(30, 0).unwrap()), None);
    assert_eq!(sut.bilinear(LatLon::from_secs(0, 45).unwrap()), None);
    assert_eq!(sut.bilinear(LatLon::from_secs(30, 45).unwrap()), None);
}

#[test]
fn cells_south_and_west_of_zero() {
    let grid = around_zero();
    // Just south-west of 0 degrees: the cell (-1, -1), next to its north-east
    // corner, whose correction is 0.
    assert_eq!(Mesh3::floor(ns(-1, -1)), Mesh3 { lat: -1, lon: -1 });
    assert_eq!(grid.bilinear(ns(-1, -1)), Some(ns(0, 0)));
    // The centre of that cell: the mean of (-110, 7), (-100, 0), (-10, 0) and
    // (0, 0) microseconds.
    assert_eq!(grid.bilinear(ns(-15_000_000_000, -22_500_000_000)), Some(ns(-55_000, 1_750)));
    // The centre of the cell (-1, 0): the mean of (-100, 0), (-90, -7),
    // (0, 0) and (10, 0).
    assert_eq!(grid.bilinear(ns(-15_000_000_000, 22_500_000_000)), Some(ns(-45_000, -1_750)));
    assert_eq!(grid.bilinear(ns(-30_000_000_001, 0)), None);
}

#[test]
fn the_cell_of_a_point() {
    assert_eq!(Mesh3::floor(LatLon::from_secs(0, 0).unwrap()), Mesh3 { lat: 0, lon: 0 });
    assert_eq!(Mesh3::floor(LatLon::from_secs(29, 44).unwrap()), Mesh3 { lat: 0, lon: 0 });
    assert_eq!(Mesh3::floor(LatLon::from_secs(30, 45).unwrap()), Mesh3 { lat: 1, lon: 1 });
    assert_eq!(Mesh3::floor(LatLon::from_secs(-30, -45).unwrap()), Mesh3 { lat: -1, lon: -1 });
    assert_eq!(Mesh3::floor(LatLon::from_secs(-31, -46).unwrap()), Mesh3 { lat: -2, lon: -2 });
    // 120 cells to a degree of latitude, 80 to a degree of longitude.
    assert_eq!(
        Mesh3::floor(LatLon::from_secs(35 * 3600, 135 * 3600).unwrap()),
        Mesh3 { lat: 4200, lon: 10800 }
    );
    assert_eq!(
        Mesh3::floor(LatLon::from_secs(324_000, 648_000).unwrap()),
        Mesh3 { lat: 10800, lon: 14400 }
    );
    assert_eq!(
        Mesh3::floor(LatLon::from_secs(-324_000, -648_000).unwrap()),
        Mesh3 { lat: -10800, lon: -14400 }
    );
}

#[test]
fn neighbours_and_corners_of_a_cell() {
    let cell = Mesh3 { lat: 4200, lon: 10800 };
    assert_eq!(cell.north(), Mesh3 { lat: 4201, lon: 10800 });
    assert_eq!(cell.east(), Mesh3 { lat: 4200, lon: 10801 });
    assert_eq!(cell.north().east(), cell.east().north());
    assert_eq!(
        cell.to_nano_second(),
        (NanoSecond(35 * 3_600_000_000_000), NanoSecond(135 * 3_600_000_000_000))
    );
    assert_eq!(Mesh3 { lat: -1, lon: -2 }.to_nano_second(), (NanoSecond(-30_000_000_000), NanoSecond(-90_000_000_000)));
    assert_eq!(cell.sort_key(), 4200 * 65536 + 10800);
    assert!(Mesh3 { lat: 0, lon: i16::MAX }.sort_key() < Mesh3 { lat: 1, lon: i16::MIN }.sort_key());
    assert!(Mesh3 { lat: -1, lon: 5 }.sort_key() < Mesh3 { lat: 0, lon: -5 }.sort_key());
}

#[test]
fn distance_from_a_corner() {
    let p = LatLon::from_secs(10, 15).unwrap();
    assert_eq!(
        Mesh3 { lat: 0, lon: 0 }.diagonal_weight(p),
        (NanoSecond(10_000_000_000), NanoSecond(15_000_000_000))
    );
    assert_eq!(
        Mesh3 { lat: 1, lon: 1 }.diagonal_weight(p),
        (NanoSecond(20_000_000_000), NanoSecond(30_000_000_000))
    );
    assert_eq!(
        Mesh3 { lat: i16::MIN, lon: i16::MAX }.diagonal_weight(LatLon::from_secs(324_000, -648_000).unwrap()),
        (NanoSecond(324_000_000_000_000 + 32768 * 30_000_000_000), NanoSecond(648_000_000_000_000 + 32767 * 45_000_000_000))
    );
}

#[test]
fn unsorted_table_is_refused() {
    let mut dots = smallest();
    dots.swap(1, 2);
    assert_eq!(Grid::new(dots).err(), Some(GridError::Unsorted { index: 1 }));
    let mut dots = smallest();
    dots.swap(0, 1);
    assert_eq!(Grid::new(dots).err(), Some(GridError::Unsorted { index: 0 }));
    let mut dots = smallest();
    dots.swap(2, 3);
    assert_eq!(Grid::new(dots).err(), Some(GridError::Unsorted { index: 2 }));
}

#[test]
fn a_cell_twice_is_refused() {
    let dots = vec![dot(0, 0, 1, 1), dot(0, 1, 1, 1), dot(0, 1, 2, 2)];
    assert_eq!(Grid::new(dots).err(), Some(GridError::Unsorted { index: 1 }));
}

#[test]
fn adjacent_grid_points_ascend() {
    let grid = around_zero();
    for pair in grid.dots().windows(2) {
        assert!((pair[0].mesh.lat, pair[0].mesh.lon) < (pair[1].mesh.lat, pair[1].mesh.lon));
    }
}

#[test]
fn search_from_an_index_on() {
    let grid = around_zero();
    assert_eq!(grid.search_after(0, Mesh3 { lat: -1, lon: -1 }), Some(0));
    assert_eq!(grid.search_after(0, Mesh3 { lat: 0, lon: 0 }), Some(4));
    assert_eq!(grid.search_after(4, Mesh3 { lat: 0, lon: 0 }), Some(4));
    assert_eq!(grid.search_after(5, Mesh3 { lat: 0, lon: 0 }), None);
    assert_eq!(grid.search_after(0, Mesh3 { lat: 1, lon: 1 }), Some(8));
    assert_eq!(grid.search_after(8, Mesh3 { lat: 1, lon: 1 }), Some(8));
    assert_eq!(grid.search_after(9, Mesh3 { lat: 1, lon: 1 }), None);
    assert_eq!(grid.search_after(10, Mesh3 { lat: 1, lon: 1 }), None);
    assert_eq!(grid.search_after(usize::MAX, Mesh3 { lat: 1, lon: 1 }), None);
    assert_eq!(grid.search_after(0, Mesh3 { lat: 0, lon: 2 }), None);
    assert_eq!(grid.search_after(0, Mesh3 { lat: 2, lon: 0 }), None);
    assert_eq!(grid.search_after(0, Mesh3 { lat: -2, lon: 0 }), None);
}

#[test]
fn search_at_one_index() {
    let grid = around_zero();
    assert_eq!(grid.search_at(4, Mesh3 { lat: 0, lon: 0 }), Some(4));
    assert_eq!(grid.search_at(3, Mesh3 { lat: 0, lon: 0 }), None);
    assert_eq!(grid.search_at(5, Mesh3 { lat: 0, lon: 0 }), None);
    assert_eq!(grid.search_at(9, Mesh3 { lat: 0, lon: 0 }), None);
    assert_eq!(grid.search_at(usize::MAX, Mesh3 { lat: 0, lon: 0 }), None);
}

#[test]
fn a_correction_in_nanoseconds() {
    assert_eq!(MicroSecond { lat: -6, lon: 7 }.to_lat_lon(), ns(-6_000, 7_000));
    assert_eq!(
        MicroSecond { lat: i32::MIN, lon: i32::MAX }.to_lat_lon(),
        ns(-2_147_483_648_000, 2_147_483_647_000)
    );
}

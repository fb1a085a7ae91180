use jgd::{Bin, Dot, GridError, Mesh3, MicroSecond, Record};

/// The image of a table with as many records as the primary grid, in
/// ascending order, that ends with `last`.
fn image_ending_with(last: Record) -> Vec<u8> {
    let mut bytes = Vec::with_capacity(392323 * 12);
    for k in 0..392322i32 {
        let record = Record((4000 + k / 1000) as i16, (1000 + k % 1000) as i16, k, -k);
        bytes.extend_from_slice(&record.to_binary());
    }
    bytes.extend_from_slice(&last.to_binary());
    bytes
}

#[test]
fn tky2jgd() {
    let grid = Bin::new(image_ending_with(Record(5463, 11356, 7875320, -13995610)))
        .to_grid()
        .unwrap();
    let records = grid.dots();
    assert_eq!(records.len(), 392323);

    let r = records.last().unwrap();
    assert_eq!(r.mesh.lat, 5463);
    assert_eq!(r.mesh.lon, 11356);
    assert_eq!(r.shift.lat, 7875320);
    assert_eq!(r.shift.lon, -13995610);
}

#[test]
fn tky2jgd_grid() {
    let grid = Bin::new(image_ending_with(Record(5463, 3356, 7875320, -13995610)))
        .to_grid()
        .unwrap();
    let records = grid.dots();
    assert_eq!(records.len(), 392323);

    let r = records.last().unwrap();
    assert_eq!(r.mesh.lat, 5463);
    assert_eq!(r.mesh.lon, 3356);
    assert_eq!(r.shift.lat, 7875320);
    assert_eq!(r.shift.lon, -13995610);
}

#[test]
fn record_is_twelve_little_endian_bytes() {
    let record = Record(5463, 11356, 7875320, -13995610);
    assert_eq!(
        record.to_binary(),
        [0x57, 0x15, 0x5c, 0x2c, 0xf8, 0x2a, 0x78, 0x00, 0xa6, 0x71, 0x2a, 0xff]
    );
    assert_eq!(
        record.to_be_bytes(),
        vec![0x15, 0x57, 0x2c, 0x5c, 0x00, 0x78, 0x2a, 0xf8, 0xff, 0x2a, 0x71, 0xa6]
    );
}

#[test]
fn negative_fields_round_trip() {
    let records = [
        Record(i16::MIN, i16::MIN, i32::MIN, i32::MIN),
        Record(-1, 0, -1, 1),
        Record(0, -1, 0, -256),
        Record(i16::MAX, i16::MAX, i32::MAX, i32::MAX),
    ];
    let mut bytes = Vec::new();
    for record in records.iter() {
        assert_eq!(record.to_binary(), {
            let mut b = [0u8; 12];
            b[0..2].copy_from_slice(&record.0.to_le_bytes());
            b[2..4].copy_from_slice(&record.1.to_le_bytes());
            b[4..8].copy_from_slice(&record.2.to_le_bytes());
            b[8..12].copy_from_slice(&record.3.to_le_bytes());
            b
        });
        bytes.extend_from_slice(&record.to_binary());
    }
    let grid = Bin::new(bytes).to_grid().unwrap();
    let dots: Vec<Dot> = records.iter().map(|r| r.to_dot()).collect();
    assert_eq!(grid.dots(), &dots);
    assert_eq!(
        dots[1],
        Dot { mesh: Mesh3 { lat: -1, lon: 0 }, shift: MicroSecond { lat: -1, lon: 1 } }
    );
}

#[test]
fn image_of_wrong_length_is_refused() {
    let mut bytes = Record(0, 0, 1, 2).to_binary().to_vec();
    bytes.push(0);
    assert_eq!(Bin::new(bytes).to_grid().err(), Some(GridError::BadLength { len: 13 }));
}

#[test]
fn image_out_of_order_is_refused() {
    let mut bytes = Vec::new();
    for record in [Record(0, 0, 0, 0), Record(0, 2, 0, 0), Record(0, 2, 1, 1), Record(0, 1, 0, 0)] {
        bytes.extend_from_slice(&record.to_binary());
    }
    assert_eq!(Bin::new(bytes).to_grid().err(), Some(GridError::Unsorted { index: 1 }));
}

#[test]
fn empty_image_is_an_empty_grid() {
    let grid = Bin::new(Vec::new()).to_grid().unwrap();
    assert!(grid.dots().is_empty());
}

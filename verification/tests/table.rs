use jgd::records::RecordSet;
use jgd::table::{convert, read_table, ParseError, TableError};
use jgd::{Bin, Dot, Mesh3, MicroSecond, Record};

fn lines(text: &str) -> Vec<Vec<u8>> {
    text.split_terminator('\n').map(|line| line.as_bytes().to_vec()).collect()
}

#[test]
fn a_line_is_a_record() {
    assert_eq!(
        Record::from_str("46303582  12.79799  -8.13354"),
        Ok(Record(46 * 80 + 3 * 10 + 8, (30 + 100) * 80 + 5 * 10 + 2, 12_797_990, -8_133_540))
    );
    assert_eq!(
        Record::from_bytes(b"46303582  12.79799  -8.13354"),
        Ok(Record(3718, 10452, 12_797_990, -8_133_540))
    );
}

#[test]
fn the_last_line_of_the_primary_table() {
    // Cell 5463 along latitude is mesh 68 2 3; cell 11356 along longitude is
    // mesh 41 (that is 141 degrees) 7 6.
    assert_eq!(
        Record::from_str("68412736   7.87532 -13.99561"),
        Ok(Record(5463, 11356, 7875320, -13995610))
    );
}

#[test]
fn a_correction_below_one_second_keeps_its_sign() {
    assert_eq!(Record::from_str("00000000  -0.00001   0.00001"), Ok(Record(0, 8000, -10, 10)));
    assert_eq!(Record::from_str("00000000  -0.50000  -1.50000").map(|r| (r.2, r.3)), Ok((-500_000, -1_500_000)));
}

#[test]
fn a_correction_fills_its_ten_bytes() {
    assert_eq!(
        Record::from_str("99999999-999.99999 999.99999"),
        Ok(Record(8019, 16019, -999_999_990, 999_999_990))
    );
    assert_eq!(Record::from_str("000000000000.000010001.00000").map(|r| (r.2, r.3)), Ok((10, 1_000_000)));
}

#[test]
fn what_follows_the_corrections_is_not_read() {
    assert_eq!(
        Record::from_str("46303582  12.79799  -8.13354 and more"),
        Ok(Record(3718, 10452, 12_797_990, -8_133_540))
    );
}

#[test]
fn a_short_line_is_refused() {
    assert_eq!(Record::from_str(""), Err(ParseError::TooShort));
    assert_eq!(Record::from_str("46303582  12.79799  -8.1335"), Err(ParseError::TooShort));
    assert_eq!(Record::from_str("x"), Err(ParseError::TooShort));
}

#[test]
fn a_mesh_code_is_digits_only() {
    assert_eq!(Record::from_str("4630358x  12.79799  -8.13354"), Err(ParseError::MeshCode));
    assert_eq!(Record::from_str(" 6303582  12.79799  -8.13354"), Err(ParseError::MeshCode));
    assert_eq!(Record::from_str("-6303582  12.79799  -8.13354"), Err(ParseError::MeshCode));
    assert_eq!(Record::from_str("MeshCode   dB(sec)   dL(sec)"), Err(ParseError::MeshCode));
    // The mesh code is looked at before the corrections.
    assert_eq!(Record::from_str("4630358x  12,79799  -8.13354"), Err(ParseError::MeshCode));
}

#[test]
fn a_malformed_correction_of_latitude_is_refused() {
    for line in [
        "46303582  12,79799  -8.13354",
        "46303582    .79799  -8.13354",
        "46303582  -.797990  -8.13354",
        "46303582 - 2.79799  -8.13354",
        "46303582 1 2.79799  -8.13354",
        "46303582  12.7979   -8.13354",
        "46303582  12.7979-  -8.13354",
        "46303582  +2.79799  -8.13354",
        "46303582 12.797990  -8.13354",
        "46303582\t 12.79799  -8.13354",
        "46303582  12 .79799  -8.13354",
        "46303582   -.79799  -8.13354",
        "46303582    -.79799 -8.13354 ",
        "46303582          .  -8.13354",
    ] {
        assert_eq!(Record::from_str(line), Err(ParseError::LatDifference), "{}", line);
    }
}

#[test]
fn a_malformed_correction_of_longitude_is_refused() {
    assert_eq!(Record::from_str("46303582  12.79799  -8.1335x"), Err(ParseError::LonDifference));
    assert_eq!(Record::from_str("46303582  12.79799   -.13354"), Err(ParseError::LonDifference));
    assert_eq!(Record::from_str("46303582  12.79799         ."), Err(ParseError::LonDifference));
}

#[test]
fn a_correction_beyond_32_bits_is_refused() {
    assert_eq!(Record::from_str("463035822147.48364  -8.13354").map(|r| r.2), Ok(2_147_483_640));
    assert_eq!(Record::from_str("463035822147.48365  -8.13354"), Err(ParseError::LatOverflow));
    assert_eq!(Record::from_str("463035829999.99999  -8.13354"), Err(ParseError::LatOverflow));
    assert_eq!(Record::from_str("46303582  12.797992147.48365"), Err(ParseError::LonOverflow));
    assert_eq!(Record::from_str("46303582  12.79799-999.99999").map(|r| r.3), Ok(-999_999_990));
}

const TEXT: &str = "JGD2000-TokyoDatum Ver.2.1.2\r\n\
MeshCode   dB(sec)   dL(sec)\r\n\
46303583  12.79800  -8.13355\r\n\
46303582  12.79799  -8.13354\r\n\
46303583  12.79800  -8.13355\r\n\
36230600  14.00000 -10.00000\r\n";

#[test]
fn the_records_of_a_table_in_the_order_of_its_lines() {
    assert_eq!(
        read_table(&lines(TEXT)),
        Ok(vec![
            Record(3718, 10453, 12_798_000, -8_133_550),
            Record(3718, 10452, 12_797_990, -8_133_540),
            Record(3718, 10453, 12_798_000, -8_133_550),
            Record(2880, 9900, 14_000_000, -10_000_000),
        ])
    );
}

#[test]
fn a_table_is_sorted_into_its_image() {
    let image = convert(&lines(TEXT)).unwrap();
    let mut expected = Vec::new();
    for record in [
        Record(2880, 9900, 14_000_000, -10_000_000),
        Record(3718, 10452, 12_797_990, -8_133_540),
        Record(3718, 10453, 12_798_000, -8_133_550),
    ] {
        expected.extend_from_slice(&record.to_binary());
    }
    assert_eq!(image, expected);

    let grid = Bin::new(image).to_grid().unwrap();
    assert_eq!(
        grid.dots()[0],
        Dot {
            mesh: Mesh3 { lat: 2880, lon: 9900 },
            shift: MicroSecond { lat: 14_000_000, lon: -10_000_000 }
        }
    );
    assert_eq!(grid.dots().len(), 3);
}

#[test]
fn a_text_without_header_has_no_records() {
    assert_eq!(read_table(&lines("46303582  12.79799  -8.13354\r\n")), Ok(vec![]));
    assert_eq!(convert(&lines("")), Ok(vec![]));
    assert_eq!(convert(&lines("MeshCode   dB(sec)   dL(sec)\r\n")), Ok(vec![]));
}

#[test]
fn a_second_header_line_is_no_record() {
    let text = "MeshCode   dB(sec)   dL(sec)\r\nMeshCode   dB(sec)   dL(sec)\r\n";
    assert_eq!(
        read_table(&lines(text)),
        Err(TableError::Parse { line: 1, error: ParseError::MeshCode })
    );
}

#[test]
fn every_line_ends_in_a_carriage_return() {
    assert_eq!(
        read_table(&lines("title\nMeshCode   dB(sec)   dL(sec)\r\n")),
        Err(TableError::NotCrlf { line: 0 })
    );
    assert_eq!(
        read_table(&lines("title\r\nMeshCode   dB(sec)   dL(sec)\r\n46303582  12.79799  -8.13354\n")),
        Err(TableError::NotCrlf { line: 2 })
    );
    assert_eq!(read_table(&vec![vec![]]), Err(TableError::NotCrlf { line: 0 }));
    assert_eq!(convert(&lines("title\r\n\n")), Err(TableError::NotCrlf { line: 1 }));
}

#[test]
fn the_first_bad_line_is_the_error() {
    let text = "MeshCode   dB(sec)   dL(sec)\r\n\
46303582  12.79799  -8.13354\r\n\
46303582  12.79799  -8.1335\r\n\
4630358x  12.79799  -8.13354\n";
    assert_eq!(
        read_table(&lines(text)),
        Err(TableError::Parse { line: 2, error: ParseError::TooShort })
    );
    assert_eq!(
        convert(&lines(text)),
        Err(TableError::Parse { line: 2, error: ParseError::TooShort })
    );
}

#[test]
fn a_set_holds_each_record_once_in_ascending_order() {
    let records = vec![
        Record(1, 0, 0, 0),
        Record(0, 1, 0, 0),
        Record(0, 0, 1, 0),
        Record(0, 0, 0, 1),
        Record(0, 0, 0, 0),
        Record(-1, 5, 5, 5),
        Record(0, -1, 5, 5),
        Record(0, 0, -1, 5),
        Record(0, 0, 0, -1),
        Record(1, 0, 0, 0),
        Record(0, 0, 0, 0),
        Record(i16::MAX, i16::MIN, i32::MAX, i32::MIN),
        Record(i16::MIN, i16::MAX, i32::MIN, i32::MAX),
    ];
    let set = RecordSet::collect(&records);
    let mut expected: Vec<(i16, i16, i32, i32)> =
        records.iter().map(|r| (r.0, r.1, r.2, r.3)).collect();
    expected.sort();
    expected.dedup();
    let got: Vec<(i16, i16, i32, i32)> =
        set.records().iter().map(|r| (r.0, r.1, r.2, r.3)).collect();
    assert_eq!(got, expected);
    assert_eq!(set.to_binary().len(), 12 * expected.len());
}

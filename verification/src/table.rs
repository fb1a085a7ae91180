//! The text of a parameter table.
//!
//! A table is a run of lines of fixed width, after a header line:
//!
//! ```text
//! MeshCode   dB(sec)   dL(sec)
//! 46303582  12.79799  -8.13354
//! ```
//!
//! The first eight bytes are the mesh code: two digits of the first-order
//! mesh along latitude and two along longitude, then one digit each of the
//! second-order mesh and one each of the third-order mesh.  Then come the
//! correction of latitude and the correction of longitude in seconds of arc,
//! each ten bytes wide: blanks, a minus sign where the value is negative, at
//! least one digit, a point and five more digits.  Whatever follows is not
//! read.

use vstd::prelude::*;
use vstd::string::StringSliceAdditionalSpecFns;
use crate::par::Record;
use crate::records::{encode_table, sorted_once, RecordSet};

verus! {

/// Width of the mesh code and the two corrections of a line.
pub const LINE_LEN: usize = 28;

/// The header line, after which the records begin:
/// `MeshCode   dB(sec)   dL(sec)`.
pub const HEADER: [u8; 28] = [
    0x4d, 0x65, 0x73, 0x68, 0x43, 0x6f, 0x64, 0x65, 0x20, 0x20, 0x20, 0x64, 0x42, 0x28, 0x73,
    0x65, 0x63, 0x29, 0x20, 0x20, 0x20, 0x64, 0x4c, 0x28, 0x73, 0x65, 0x63, 0x29,
];

/// Why a line of a table is not a record.
#[derive(Debug, Clone, Copy, PartialEq, Eq, Structural)]
pub enum ParseError {
    /// The line has fewer than 28 bytes.
    TooShort,
    /// One of the first eight bytes is not a digit.
    MeshCode,
    /// The correction of latitude is not a number of the expected form.
    LatDifference,
    /// The correction of latitude does not fit in 32 bits of microseconds.
    LatOverflow,
    /// The correction of longitude is not a number of the expected form.
    LonDifference,
    /// The correction of longitude does not fit in 32 bits of microseconds.
    LonOverflow,
}

/// Why the text of a table cannot be read.
#[derive(Debug, Clone, Copy, PartialEq, Eq, Structural)]
pub enum TableError {
    /// Line `line`, counted from 0, does not end in a carriage return.
    NotCrlf { line: usize },
    /// Line `line`, counted from 0, stands behind the header and is not a
    /// record.
    Parse { line: usize, error: ParseError },
}

impl TableError {
    /// The line, counted from 0, that is not as it must be.
    pub open spec fn spec_line(self) -> int {
        match self {
            TableError::NotCrlf { line } => line as int,
            TableError::Parse { line, .. } => line as int,
        }
    }

    /// The line, counted from 0, that is not as it must be.
    pub fn line(&self) -> (r: usize)
        ensures
            r == self.spec_line(),
    {
        match self {
            TableError::NotCrlf { line } => *line,
            TableError::Parse { line, .. } => *line,
        }
    }
}

/// The first line of a text that cannot be read is the line of `e`, for the
/// reason that `e` gives.
pub open spec fn first_error(lines: Seq<Vec<u8>>, e: TableError) -> bool {
    &&& 0 <= e.spec_line() < lines.len()
    &&& read_line(lines, e.spec_line()) == Err::<Option<Record>, TableError>(e)
    &&& forall|j: int| 0 <= j < e.spec_line() ==> read_line(lines, j) is Ok
}

/// The byte is a decimal digit.
pub open spec fn is_digit(b: u8) -> bool {
    0x30 <= b <= 0x39
}

/// Every byte is a decimal digit.
pub open spec fn all_digits(s: Seq<u8>) -> bool {
    forall|i: int| 0 <= i < s.len() ==> is_digit(#[trigger] s[i])
}

/// The number that a run of decimal digits writes.
pub open spec fn decimal(s: Seq<u8>) -> int
    decreases s.len(),
{
    if s.len() == 0 {
        0
    } else {
        10 * decimal(s.drop_last()) + (s.last() - 0x30)
    }
}

/// How many blanks stand at the front.
pub open spec fn leading_blanks(s: Seq<u8>) -> int
    decreases s.len(),
{
    if s.len() > 0 && s[0] == 0x20 {
        1 + leading_blanks(s.skip(1))
    } else {
        0
    }
}

/// The part of a correction before the point: blanks, a minus sign where the
/// value is negative, then digits to the end, one at least.  The result says
/// whether there is a minus sign, and what the digits write.
pub open spec fn whole_part(s: Seq<u8>) -> Option<(bool, int)> {
    let rest = s.skip(leading_blanks(s));
    let negative = rest.len() > 0 && rest[0] == 0x2d;
    let digits = if negative {
        rest.skip(1)
    } else {
        rest
    };
    if digits.len() > 0 && all_digits(digits) {
        Some((negative, decimal(digits)))
    } else {
        None
    }
}

/// A correction of ten bytes in seconds of arc, as microseconds of arc.
pub open spec fn difference(s: Seq<u8>) -> Option<int> {
    match whole_part(s.subrange(0, 4)) {
        Some((negative, whole)) => if s[4] == 0x2e && all_digits(s.subrange(5, 10)) {
            let magnitude = whole * 1_000_000 + decimal(s.subrange(5, 10)) * 10;
            Some(
                if negative {
                    -magnitude
                } else {
                    magnitude
                },
            )
        } else {
            None
        },
        None => None,
    }
}

/// Serial number of a third-order mesh cell, counted from 0 degrees, from
/// the numbers of the first-order mesh (`mesh1`, which for longitude counts
/// from 100 degrees), of the second-order mesh within it and of the
/// third-order mesh within that.
pub open spec fn grid_index(mesh1: int, mesh2: int, mesh3: int) -> int {
    mesh1 * 80 + mesh2 * 10 + mesh3
}

/// What a line of a table says.
pub open spec fn parse_line(line: Seq<u8>) -> Result<Record, ParseError> {
    if line.len() < LINE_LEN {
        Err(ParseError::TooShort)
    } else if !all_digits(line.subrange(0, 8)) {
        Err(ParseError::MeshCode)
    } else {
        let lat = grid_index(
            decimal(line.subrange(0, 2)),
            decimal(line.subrange(4, 5)),
            decimal(line.subrange(6, 7)),
        );
        let lon = grid_index(
            decimal(line.subrange(2, 4)) + 100,
            decimal(line.subrange(5, 6)),
            decimal(line.subrange(7, 8)),
        );
        match difference(line.subrange(8, 18)) {
            None => Err(ParseError::LatDifference),
            Some(d_lat) => if !(i32::MIN <= d_lat <= i32::MAX) {
                Err(ParseError::LatOverflow)
            } else {
                match difference(line.subrange(18, 28)) {
                    None => Err(ParseError::LonDifference),
                    Some(d_lon) => if !(i32::MIN <= d_lon <= i32::MAX) {
                        Err(ParseError::LonOverflow)
                    } else {
                        Ok(Record(lat as i16, lon as i16, d_lat as i32, d_lon as i32))
                    },
                }
            },
        }
    }
}

/// Ten to the power of `n`, for the lengths of the fields of a line.
pub open spec fn ten_to(n: nat) -> int
    decreases n,
{
    if n == 0 {
        1
    } else {
        10 * ten_to((n - 1) as nat)
    }
}

/// A run of digits writes a number below ten to the power of its length.
pub proof fn lemma_decimal_exact_bound(s: Seq<u8>)
    requires
        all_digits(s),
    ensures
        0 <= decimal(s) < ten_to(s.len()),
    decreases s.len(),
{
    if s.len() > 0 {
        let front = s.drop_last();
        assert forall|i: int| 0 <= i < front.len() implies is_digit(#[trigger] front[i]) by {
            assert(front[i] == s[i]);
        }
        assert(is_digit(s[s.len() - 1]));
        lemma_decimal_exact_bound(front);
    }
}

/// What that bound is for the runs of digits in a line.
pub proof fn lemma_decimal_bound(s: Seq<u8>)
    requires
        all_digits(s),
        s.len() <= 5,
    ensures
        0 <= decimal(s) < 100_000,
        s.len() <= 4 ==> decimal(s) < 10_000,
        s.len() <= 2 ==> decimal(s) < 100,
        s.len() <= 1 ==> decimal(s) < 10,
{
    lemma_decimal_exact_bound(s);
    reveal_with_fuel(ten_to, 6);
}

/// A line as it was cut off before its line feed, without the carriage
/// return that it must end in.
pub open spec fn strip_cr(line: Seq<u8>) -> Option<Seq<u8>> {
    if line.len() > 0 && line.last() == 0x0d {
        Some(line.drop_last())
    } else {
        None
    }
}

/// The line is the header line.
pub open spec fn is_header(line: Seq<u8>) -> bool {
    strip_cr(line) == Some(HEADER@)
}

/// The number of lines up to and including the first header line; where there
/// is none, the number of lines.
pub open spec fn body_start(lines: Seq<Vec<u8>>) -> int
    decreases lines.len(),
{
    if lines.len() == 0 {
        0
    } else if is_header(lines[0]@) {
        1
    } else {
        1 + body_start(lines.skip(1))
    }
}

/// What line `i` of a text holds: nothing, where it stands before the records
/// begin, or a record.
pub open spec fn read_line(lines: Seq<Vec<u8>>, i: int) -> Result<Option<Record>, TableError> {
    match strip_cr(lines[i]@) {
        None => Err(TableError::NotCrlf { line: i as usize }),
        Some(text) => if i < body_start(lines) {
            Ok(None)
        } else {
            match parse_line(text) {
                Ok(record) => Ok(Some(record)),
                Err(error) => Err(TableError::Parse { line: i as usize, error }),
            }
        },
    }
}

/// The records of a text in which every line can be read, in the order of
/// the lines.
pub open spec fn body_records(lines: Seq<Vec<u8>>) -> Seq<Record> {
    Seq::new(
        (lines.len() - body_start(lines)) as nat,
        |k: int| read_line(lines, body_start(lines) + k)->Ok_0->Some_0,
    )
}

/// The records begin within the text or at its end.
proof fn lemma_body_start_bound(lines: Seq<Vec<u8>>)
    ensures
        0 <= body_start(lines) <= lines.len(),
    decreases lines.len(),
{
    if lines.len() > 0 && !is_header(lines[0]@) {
        lemma_body_start_bound(lines.skip(1));
    }
}

/// A run is all digits where its two parts are.
pub proof fn lemma_all_digits_split(s: Seq<u8>, from: int, mid: int, to: int)
    requires
        0 <= from <= mid <= to <= s.len(),
    ensures
        all_digits(s.subrange(from, to)) <==> all_digits(s.subrange(from, mid)) && all_digits(
            s.subrange(mid, to),
        ),
{
    let whole = s.subrange(from, to);
    let front = s.subrange(from, mid);
    let back = s.subrange(mid, to);
    if all_digits(whole) {
        assert forall|i: int| 0 <= i < front.len() implies is_digit(#[trigger] front[i]) by {
            assert(front[i] == whole[i]);
        }
        assert forall|i: int| 0 <= i < back.len() implies is_digit(#[trigger] back[i]) by {
            assert(back[i] == whole[i + mid - from]);
        }
    }
    if all_digits(front) && all_digits(back) {
        assert forall|i: int| 0 <= i < whole.len() implies is_digit(#[trigger] whole[i]) by {
            if i < mid - from {
                assert(whole[i] == front[i]);
            } else {
                assert(whole[i] == back[i - (mid - from)]);
            }
        }
    }
}

/// Reads the run of digits from `from` to `to`.
fn parse_number(line: &[u8], from: usize, to: usize) -> (r: Option<i64>)
    requires
        from <= to <= line@.len(),
        to - from <= 5,
    ensures
        r.is_some() <==> all_digits(line@.subrange(from as int, to as int)),
        r matches Some(v) ==> v == decimal(line@.subrange(from as int, to as int)) && 0 <= v
            < 100_000,
{
    let mut value: i64 = 0;
    let mut i: usize = from;
    while i < to
        invariant
            from <= i <= to <= line@.len(),
            to - from <= 5,
            all_digits(line@.subrange(from as int, i as int)),
            value == decimal(line@.subrange(from as int, i as int)),
            0 <= value < 100_000,
        decreases to - i,
    {
        let b = line[i];
        proof {
            lemma_all_digits_split(line@, from as int, i as int, i + 1);
            lemma_all_digits_split(line@, from as int, i + 1, to as int);
            assert(line@.subrange(i as int, i + 1)[0] == b);
        }
        if b < 0x30 || b > 0x39 {
            return None;
        }
        proof {
            let next = line@.subrange(from as int, i + 1);
            assert(next.drop_last() =~= line@.subrange(from as int, i as int));
            assert(next.last() == b);
            assert(all_digits(line@.subrange(i as int, i + 1)));
            lemma_decimal_bound(next);
        }
        value = 10 * value + (b - 0x30) as i64;
        i = i + 1;
    }
    Some(value)
}

/// Reads two numbers of `chunk` digits each, one behind the other: a number
/// of the mesh along latitude and one along longitude.
fn parse_meshcode(line: &[u8], at: usize, chunk: usize) -> (r: Option<(i64, i64)>)
    requires
        1 <= chunk <= 2,
        at + 2 * chunk <= line@.len(),
    ensures
        r.is_some() <==> all_digits(line@.subrange(at as int, at + 2 * chunk)),
        r matches Some((lat, lon)) ==> {
            &&& lat == decimal(line@.subrange(at as int, at + chunk))
            &&& lon == decimal(line@.subrange(at + chunk, at + 2 * chunk))
            &&& 0 <= lat < 100
            &&& 0 <= lon < 100
            &&& chunk == 1 ==> lat < 10 && lon < 10
        },
{
    let len = line.len();
    proof {
        lemma_all_digits_split(line@, at as int, at + chunk, at + 2 * chunk);
    }
    let lat = match parse_number(line, at, at + chunk) {
        Some(lat) => lat,
        None => {
            return None;
        },
    };
    let lon = match parse_number(line, at + chunk, at + 2 * chunk) {
        Some(lon) => lon,
        None => {
            return None;
        },
    };
    proof {
        lemma_decimal_bound(line@.subrange(at as int, at + chunk));
        lemma_decimal_bound(line@.subrange(at + chunk, at + 2 * chunk));
    }
    Some((lat, lon))
}

/// Serial number of a third-order mesh cell, counted from 0 degrees.
fn to_grid_index(mesh1: i64, mesh2: i64, mesh3: i64) -> (r: i16)
    requires
        0 <= mesh1 < 200,
        0 <= mesh2 < 10,
        0 <= mesh3 < 10,
    ensures
        r == grid_index(mesh1 as int, mesh2 as int, mesh3 as int),
{
    (mesh1 * 80 + mesh2 * 10 + mesh3) as i16
}

/// Reads the correction of ten bytes at `at` as microseconds of arc.
fn parse_diff(line: &[u8], at: usize) -> (r: Option<i64>)
    requires
        at + 10 <= line@.len(),
    ensures
        r.is_some() <==> difference(line@.subrange(at as int, at + 10)) is Some,
        r matches Some(v) ==> Some(v as int) == difference(line@.subrange(at as int, at + 10)),
{
    let len = line.len();
    let ghost field = line@.subrange(at as int, at + 10);
    let ghost whole = field.subrange(0, 4);
    let end: usize = at + 4;
    let mut i: usize = at;
    proof {
        assert(whole =~= line@.subrange(at as int, at + 4));
        assert(whole.skip(0) =~= whole);
    }
    while i < end && line[i] == 0x20
        invariant
            at <= i <= end,
            end == at + 4,
            at + 10 <= line@.len(),
            whole == line@.subrange(at as int, at + 4),
            leading_blanks(whole) == (i - at) + leading_blanks(whole.skip(i - at)),
        decreases end - i,
    {
        proof {
            let rest = whole.skip(i - at);
            assert(rest[0] == line@[i as int]);
            assert(rest.skip(1) =~= whole.skip(i + 1 - at));
        }
        i = i + 1;
    }
    proof {
        assert(whole =~= line@.subrange(at as int, at + 4));
        let rest = whole.skip(i - at);
        if i < end {
            assert(rest[0] == line@[i as int]);
        }
        assert(leading_blanks(rest) == 0);
        assert(leading_blanks(whole) == i - at);
    }
    if i == end {
        return None;
    }
    let negative = line[i] == 0x2d;
    let start: usize = if negative {
        i + 1
    } else {
        i
    };
    proof {
        let rest = whole.skip(i - at);
        assert(rest[0] == line@[i as int]);
        let digits = if negative {
            rest.skip(1)
        } else {
            rest
        };
        assert(digits =~= line@.subrange(start as int, end as int));
        assert(field.subrange(5, 10) =~= line@.subrange(at + 5, at + 10));
        assert(field[4] == line@[at + 4]);
    }
    if start == end {
        return None;
    }
    let whole_value = match parse_number(line, start, end) {
        Some(v) => v,
        None => {
            return None;
        },
    };
    if line[at + 4] != 0x2e {
        return None;
    }
    let fraction = match parse_number(line, at + 5, at + 10) {
        Some(v) => v,
        None => {
            return None;
        },
    };
    let magnitude: i64 = whole_value * 1_000_000 + fraction * 10;
    Some(if negative {
        -magnitude
    } else {
        magnitude
    })
}

/// Compares a line, without its line ending, with the header line.
fn is_header_text(text: &[u8]) -> (r: bool)
    ensures
        r == (text@ == HEADER@),
{
    if text.len() != LINE_LEN {
        return false;
    }
    let mut i: usize = 0;
    while i < LINE_LEN
        invariant
            i <= LINE_LEN,
            text@.len() == LINE_LEN,
            forall|k: int| 0 <= k < i ==> text@[k] == HEADER@[k],
        decreases LINE_LEN - i,
    {
        if text[i] != HEADER[i] {
            return false;
        }
        i = i + 1;
    }
    assert(text@ =~= HEADER@);
    true
}

/// Reads the records of a table from its lines, each as it was cut off before
/// its line feed.  Every line must end in a carriage return.  The lines up to
/// the header line are passed over, and every line behind it must be a
/// record.  The first line in the text that is not as it must be is the error.
pub fn read_table(lines: &Vec<Vec<u8>>) -> (r: Result<Vec<Record>, TableError>)
    ensures
        match r {
            Ok(records) => {
                &&& forall|i: int| 0 <= i < lines@.len() ==> read_line(lines@, i) is Ok
                &&& records@ == body_records(lines@)
            },
            Err(e) => first_error(lines@, e),
        },
{
    let n = lines.len();
    let mut records: Vec<Record> = Vec::new();
    let mut in_body = false;
    let mut i: usize = 0;
    proof {
        assert(lines@.skip(0) =~= lines@);
    }
    while i < n
        invariant
            i <= n,
            n == lines@.len(),
            forall|j: int| 0 <= j < i ==> read_line(lines@, j) is Ok,
            !in_body ==> records@.len() == 0 && body_start(lines@) == i + body_start(
                lines@.skip(i as int),
            ),
            in_body ==> body_start(lines@) <= i && records@.len() == i - body_start(lines@),
            forall|k: int|
                0 <= k < records@.len() ==> read_line(lines@, body_start(lines@) + k) == Ok::<
                    Option<Record>,
                    TableError,
                >(Some(#[trigger] records@[k])),
        decreases n - i,
    {
        let line = lines[i].as_slice();
        let len = line.len();
        proof {
            let rest = lines@.skip(i as int);
            assert(rest[0] == lines@[i as int]);
            assert(rest.skip(1) =~= lines@.skip(i + 1));
            lemma_body_start_bound(lines@.skip(i + 1));
        }
        if len == 0 || line[len - 1] != 0x0d {
            let e = TableError::NotCrlf { line: i };
            assert(read_line(lines@, i as int) == Err::<Option<Record>, TableError>(e));
            return Err(e);
        }
        let text = vstd::slice::slice_subrange(line, 0, len - 1);
        assert(text@ =~= line@.drop_last());
        if in_body {
            match Record::from_bytes(text) {
                Ok(record) => {
                    records.push(record);
                },
                Err(error) => {
                    let e = TableError::Parse { line: i, error };
                    assert(read_line(lines@, i as int) == Err::<Option<Record>, TableError>(e));
                    return Err(e);
                },
            }
        } else if is_header_text(text) {
            in_body = true;
        }
        i = i + 1;
    }
    proof {
        assert(lines@.skip(n as int).len() == 0);
        assert(records@ =~= body_records(lines@));
    }
    Ok(records)
}

/// Converts the text of a table to the image of its grid: reads the records
/// as `read_table` does, sorts them in ascending order, each once, and writes
/// their 12 bytes each.
pub fn convert(lines: &Vec<Vec<u8>>) -> (r: Result<Vec<u8>, TableError>)
    ensures
        match r {
            Ok(image) => {
                &&& forall|i: int| 0 <= i < lines@.len() ==> read_line(lines@, i) is Ok
                &&& image@ == encode_table(sorted_once(body_records(lines@)))
            },
            Err(e) => first_error(lines@, e),
        },
{
    let records = match read_table(lines) {
        Ok(records) => records,
        Err(e) => {
            return Err(e);
        },
    };
    Ok(RecordSet::collect(&records).to_binary())
}

impl Record {
    /// Reads a line of a table, without its line ending.
    pub fn from_bytes(line: &[u8]) -> (r: Result<Record, ParseError>)
        ensures
            r == parse_line(line@),
    {
        if line.len() < LINE_LEN {
            return Err(ParseError::TooShort);
        }
        proof {
            lemma_all_digits_split(line@, 0, 4, 8);
            lemma_all_digits_split(line@, 4, 6, 8);
            assert(line@.subrange(4, 5) =~= line@.subrange(4, 6).subrange(0, 1));
            assert(line@.subrange(5, 6) =~= line@.subrange(4, 6).subrange(1, 2));
        }
        let (mesh1_lat, mesh1_lon) = match parse_meshcode(line, 0, 2) {
            Some(pair) => pair,
            None => {
                return Err(ParseError::MeshCode);
            },
        };
        let (mesh2_lat, mesh2_lon) = match parse_meshcode(line, 4, 1) {
            Some(pair) => pair,
            None => {
                return Err(ParseError::MeshCode);
            },
        };
        let (mesh3_lat, mesh3_lon) = match parse_meshcode(line, 6, 1) {
            Some(pair) => pair,
            None => {
                return Err(ParseError::MeshCode);
            },
        };
        let index_lat = to_grid_index(mesh1_lat, mesh2_lat, mesh3_lat);
        let index_lon = to_grid_index(mesh1_lon + 100, mesh2_lon, mesh3_lon);
        let d_lat = match parse_diff(line, 8) {
            Some(v) => v,
            None => {
                return Err(ParseError::LatDifference);
            },
        };
        if d_lat < -0x8000_0000 || d_lat > 0x7fff_ffff {
            return Err(ParseError::LatOverflow);
        }
        let d_lon = match parse_diff(line, 18) {
            Some(v) => v,
            None => {
                return Err(ParseError::LonDifference);
            },
        };
        if d_lon < -0x8000_0000 || d_lon > 0x7fff_ffff {
            return Err(ParseError::LonOverflow);
        }
        Ok(Record(index_lat, index_lon, d_lat as i32, d_lon as i32))
    }

    /// Reads a line of a table, without its line ending.
    pub fn from_str(line: &str) -> (r: Result<Record, ParseError>)
        ensures
            r == parse_line(line.spec_bytes()),
    {
        Record::from_bytes(line.as_bytes())
    }
}

} // verus!

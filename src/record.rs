use vstd::prelude::*;
use vstd::utf8::{valid_utf8, decode_utf8};
use crate::decimal::{parse_decimal, literal_value, SCALE};

verus! {

/// One result cell as the upstream server hands it over.
pub enum Cell {
    Null,
    Int(i64),
    UInt(u64),
    Bytes(Vec<u8>),
}

/// How a column of a result row is read.
#[derive(Clone, Copy, Debug, PartialEq, Eq, Structural)]
pub enum ColumnKind {
    /// UTF-8 text, never null.
    Text,
    /// A calibration number; null reads as the sentinel −1.
    Bias,
    /// A percentage; null reads as "no data".
    Rate,
}

#[derive(Clone, Copy, Debug, PartialEq, Eq, Structural)]
pub enum DecodeError {
    /// The row does not have the expected number of columns.
    ColumnCount(usize),
    /// The cell at this column cannot be read as its column's kind.
    Malformed(usize),
}

/// Calibration figures of one radar and mode, in units of 10^-5.
pub struct BiasRecord {
    pub radar_name: String,
    pub antenna_type: String,
    pub time_bias: i64,
    pub range_bias: i64,
    pub range_gain: i64,
    pub azimuth_bias: i64,
    pub range_noise: i64,
    pub azimuth_noise: i64,
    pub ecc_value: i64,
    pub ecc_angle: i64,
}

/// Detection rates of one data source, in units of 10^-5 percent; `None` is "no data".
pub struct RateRecord {
    pub ds_name: String,
    pub ds_type: String,
    pub pd_p: Option<i64>,
    pub pd_s: Option<i64>,
    pub pd_m: Option<i64>,
    pub pd_ps: Option<i64>,
    pub pd_pm: Option<i64>,
}

/// Value of "unavailable" in a bias field: −1 in fixed-point units.
pub const SENTINEL: i64 = -100000;

/// Fixed-point value of a numeric cell; `None` when it is null or unreadable.
pub open spec fn number_of(c: Cell) -> Option<int> {
    match c {
        Cell::Null => None,
        Cell::Int(i) => if i64::MIN <= i * 100000 <= i64::MAX { Some(i * 100000) } else { None },
        Cell::UInt(u) => if u * 100000 <= i64::MAX { Some(u * 100000) } else { None },
        Cell::Bytes(b) => literal_value(b@),
    }
}

pub open spec fn text_of(c: Cell) -> Option<Seq<char>> {
    match c {
        Cell::Bytes(b) => if valid_utf8(b@) { Some(decode_utf8(b@)) } else { None },
        _ => None,
    }
}

pub open spec fn bias_of(c: Cell) -> Option<int> {
    match c {
        Cell::Null => Some(SENTINEL as int),
        _ => number_of(c),
    }
}

/// Outer `None`: unreadable; inner `None`: null.
pub open spec fn rate_of(c: Cell) -> Option<Option<int>> {
    match c {
        Cell::Null => Some(None),
        _ => match number_of(c) {
            Some(v) => Some(Some(v)),
            None => None,
        },
    }
}

pub open spec fn column_ok(c: Cell, kind: ColumnKind) -> bool {
    match kind {
        ColumnKind::Text => text_of(c) is Some,
        ColumnKind::Bias => bias_of(c) is Some,
        ColumnKind::Rate => rate_of(c) is Some,
    }
}

pub open spec fn bias_columns() -> Seq<ColumnKind> {
    seq![ColumnKind::Text, ColumnKind::Text].add(Seq::new(8, |k: int| ColumnKind::Bias))
}

pub open spec fn rate_columns() -> Seq<ColumnKind> {
    seq![ColumnKind::Text, ColumnKind::Text].add(Seq::new(5, |k: int| ColumnKind::Rate))
}

pub open spec fn row_ok(row: Seq<Cell>, kinds: Seq<ColumnKind>) -> bool {
    row.len() == kinds.len() && forall|k: int| 0 <= k < row.len() ==> column_ok(#[trigger] row[k], kinds[k])
}

/// The error a row decoder reports: a wrong width first, else the leftmost bad column.
pub open spec fn row_error_is(row: Seq<Cell>, kinds: Seq<ColumnKind>, e: DecodeError) -> bool {
    match e {
        DecodeError::ColumnCount(n) => n == row.len() && row.len() != kinds.len(),
        DecodeError::Malformed(k) => row.len() == kinds.len() && k < row.len()
            && !column_ok(row[k as int], kinds[k as int])
            && forall|j: int| 0 <= j < k ==> column_ok(#[trigger] row[j], kinds[j]),
    }
}

/// Relies on String::from_utf8: it succeeds exactly on valid UTF-8 and keeps the characters.
#[verifier::external_body]
fn utf8_string(b: &Vec<u8>) -> (r: Option<String>)
    ensures
        r is Some <==> valid_utf8(b@),
        r is Some ==> r->0@ == decode_utf8(b@),
{
    String::from_utf8(b.clone()).ok()
}

/// Reads a numeric cell; `None` when it is null or unreadable.
pub fn cell_number(c: &Cell) -> (r: Option<i64>)
    ensures
        match r {
            Some(v) => number_of(*c) == Some(v as int),
            None => number_of(*c) is None,
        },
{
    match c {
        Cell::Null => None,
        Cell::Int(i) => {
            if *i < i64::MIN / SCALE || *i > i64::MAX / SCALE {
                None
            } else {
                Some(*i * SCALE)
            }
        },
        Cell::UInt(u) => {
            if *u > (i64::MAX / SCALE) as u64 {
                None
            } else {
                Some((*u as i64) * SCALE)
            }
        },
        Cell::Bytes(b) => parse_decimal(b.as_slice()),
    }
}

/// Reads a text cell; `None` unless it is valid UTF-8 bytes.
pub fn cell_text(c: &Cell) -> (r: Option<String>)
    ensures
        match r {
            Some(s) => text_of(*c) == Some(s@),
            None => text_of(*c) is None,
        },
{
    match c {
        Cell::Bytes(b) => utf8_string(b),
        _ => None,
    }
}

/// Reads a bias field: null becomes the sentinel, anything else must be a number.
pub fn cell_bias(c: &Cell) -> (r: Option<i64>)
    ensures
        match r {
            Some(v) => bias_of(*c) == Some(v as int),
            None => bias_of(*c) is None,
        },
        *c is Null ==> r == Some(SENTINEL),
{
    match c {
        Cell::Null => Some(SENTINEL),
        _ => cell_number(c),
    }
}

/// Reads a percentage: null is "no data", anything else must be a number.
pub fn cell_rate(c: &Cell) -> (r: Option<Option<i64>>)
    ensures
        match r {
            Some(Some(v)) => rate_of(*c) == Some(Some(v as int)),
            Some(None) => rate_of(*c) == Some(None::<int>),
            None => rate_of(*c) is None,
        },
{
    match c {
        Cell::Null => Some(None),
        _ => match cell_number(c) {
            Some(v) => Some(Some(v)),
            None => None,
        },
    }
}

fn text_at(row: &Vec<Cell>, k: usize) -> (r: Result<String, DecodeError>)
    requires
        k < row.len(),
    ensures
        match r {
            Ok(s) => text_of(row@[k as int]) == Some(s@),
            Err(e) => text_of(row@[k as int]) is None && e == DecodeError::Malformed(k),
        },
{
    match cell_text(&row[k]) {
        Some(s) => Ok(s),
        None => Err(DecodeError::Malformed(k)),
    }
}

fn bias_at(row: &Vec<Cell>, k: usize) -> (r: Result<i64, DecodeError>)
    requires
        k < row.len(),
    ensures
        match r {
            Ok(v) => bias_of(row@[k as int]) == Some(v as int),
            Err(e) => bias_of(row@[k as int]) is None && e == DecodeError::Malformed(k),
        },
{
    match cell_bias(&row[k]) {
        Some(v) => Ok(v),
        None => Err(DecodeError::Malformed(k)),
    }
}

fn rate_at(row: &Vec<Cell>, k: usize) -> (r: Result<Option<i64>, DecodeError>)
    requires
        k < row.len(),
    ensures
        match r {
            Ok(Some(v)) => rate_of(row@[k as int]) == Some(Some(v as int)),
            Ok(None) => rate_of(row@[k as int]) == Some(None::<int>),
            Err(e) => rate_of(row@[k as int]) is None && e == DecodeError::Malformed(k),
        },
{
    match cell_rate(&row[k]) {
        Some(v) => Ok(v),
        None => Err(DecodeError::Malformed(k)),
    }
}

pub open spec fn bias_record_is(rec: BiasRecord, row: Seq<Cell>) -> bool {
    &&& Some(rec.radar_name@) == text_of(row[0])
    &&& Some(rec.antenna_type@) == text_of(row[1])
    &&& bias_of(row[2]) == Some(rec.time_bias as int)
    &&& bias_of(row[3]) == Some(rec.range_bias as int)
    &&& bias_of(row[4]) == Some(rec.range_gain as int)
    &&& bias_of(row[5]) == Some(rec.azimuth_bias as int)
    &&& bias_of(row[6]) == Some(rec.range_noise as int)
    &&& bias_of(row[7]) == Some(rec.azimuth_noise as int)
    &&& bias_of(row[8]) == Some(rec.ecc_value as int)
    &&& bias_of(row[9]) == Some(rec.ecc_angle as int)
}

pub open spec fn opt_int(v: Option<i64>) -> Option<int> {
    match v {
        Some(x) => Some(x as int),
        None => None,
    }
}

pub open spec fn rate_record_is(rec: RateRecord, row: Seq<Cell>) -> bool {
    &&& Some(rec.ds_name@) == text_of(row[0])
    &&& Some(rec.ds_type@) == text_of(row[1])
    &&& rate_of(row[2]) == Some(opt_int(rec.pd_p))
    &&& rate_of(row[3]) == Some(opt_int(rec.pd_s))
    &&& rate_of(row[4]) == Some(opt_int(rec.pd_m))
    &&& rate_of(row[5]) == Some(opt_int(rec.pd_ps))
    &&& rate_of(row[6]) == Some(opt_int(rec.pd_pm))
}

proof fn lemma_columns()
    ensures
        bias_columns().len() == 10,
        rate_columns().len() == 7,
        bias_columns()[0] == ColumnKind::Text && bias_columns()[1] == ColumnKind::Text,
        rate_columns()[0] == ColumnKind::Text && rate_columns()[1] == ColumnKind::Text,
        forall|k: int| 2 <= k < 10 ==> #[trigger] bias_columns()[k] == ColumnKind::Bias,
        forall|k: int| 2 <= k < 7 ==> #[trigger] rate_columns()[k] == ColumnKind::Rate,
{
}

/// Decodes one row of the bias query: two text columns, then eight bias fields.
pub fn decode_bias_row(row: &Vec<Cell>) -> (r: Result<BiasRecord, DecodeError>)
    ensures
        r is Ok <==> row_ok(row@, bias_columns()),
        r matches Ok(rec) ==> bias_record_is(rec, row@),
        r matches Err(e) ==> row_error_is(row@, bias_columns(), e),
{
    proof {
        lemma_columns();
    }
    if row.len() != 10 {
        return Err(DecodeError::ColumnCount(row.len()));
    }
    let radar_name = match text_at(row, 0) { Ok(v) => v, Err(e) => return Err(e) };
    let antenna_type = match text_at(row, 1) { Ok(v) => v, Err(e) => return Err(e) };
    let time_bias = match bias_at(row, 2) { Ok(v) => v, Err(e) => return Err(e) };
    let range_bias = match bias_at(row, 3) { Ok(v) => v, Err(e) => return Err(e) };
    let range_gain = match bias_at(row, 4) { Ok(v) => v, Err(e) => return Err(e) };
    let azimuth_bias = match bias_at(row, 5) { Ok(v) => v, Err(e) => return Err(e) };
    let range_noise = match bias_at(row, 6) { Ok(v) => v, Err(e) => return Err(e) };
    let azimuth_noise = match bias_at(row, 7) { Ok(v) => v, Err(e) => return Err(e) };
    let ecc_value = match bias_at(row, 8) { Ok(v) => v, Err(e) => return Err(e) };
    let ecc_angle = match bias_at(row, 9) { Ok(v) => v, Err(e) => return Err(e) };
    proof {
        assert forall|k: int| 0 <= k < row@.len() implies column_ok(#[trigger] row@[k], bias_columns()[k]) by {
            if k >= 2 {
                assert(bias_columns()[k] == ColumnKind::Bias);
            }
        }
    }
    Ok(BiasRecord {
        radar_name,
        antenna_type,
        time_bias,
        range_bias,
        range_gain,
        azimuth_bias,
        range_noise,
        azimuth_noise,
        ecc_value,
        ecc_angle,
    })
}

/// Decodes one row of the detection-rate query: two text columns, then five percentages.
pub fn decode_rate_row(row: &Vec<Cell>) -> (r: Result<RateRecord, DecodeError>)
    ensures
        r is Ok <==> row_ok(row@, rate_columns()),
        r matches Ok(rec) ==> rate_record_is(rec, row@),
        r matches Err(e) ==> row_error_is(row@, rate_columns(), e),
{
    proof {
        lemma_columns();
    }
    if row.len() != 7 {
        return Err(DecodeError::ColumnCount(row.len()));
    }
    let ds_name = match text_at(row, 0) { Ok(v) => v, Err(e) => return Err(e) };
    let ds_type = match text_at(row, 1) { Ok(v) => v, Err(e) => return Err(e) };
    let pd_p = match rate_at(row, 2) { Ok(v) => v, Err(e) => return Err(e) };
    let pd_s = match rate_at(row, 3) { Ok(v) => v, Err(e) => return Err(e) };
    let pd_m = match rate_at(row, 4) { Ok(v) => v, Err(e) => return Err(e) };
    let pd_ps = match rate_at(row, 5) { Ok(v) => v, Err(e) => return Err(e) };
    let pd_pm = match rate_at(row, 6) { Ok(v) => v, Err(e) => return Err(e) };
    proof {
        assert forall|k: int| 0 <= k < row@.len() implies column_ok(#[trigger] row@[k], rate_columns()[k]) by {
            if k >= 2 {
                assert(rate_columns()[k] == ColumnKind::Rate);
            }
        }
    }
    Ok(RateRecord { ds_name, ds_type, pd_p, pd_s, pd_m, pd_ps, pd_pm })
}

} // verus!

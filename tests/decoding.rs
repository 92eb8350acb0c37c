use radar_etl::decimal::{format_decimal, parse_decimal};
use radar_etl::record::{cell_bias, cell_rate, decode_bias_row, decode_rate_row, Cell, DecodeError, SENTINEL};
use radar_etl::batch::{decode_bias_rows, decode_rate_rows};

fn text(s: &str) -> Cell {
    Cell::Bytes(s.as_bytes().to_vec())
}

fn bias_row(name: &str, first: Cell) -> Vec<Cell> {
    vec![
        text(name),
        text("MODE_A"),
        first,
        text("2.00000"),
        text("-0.50000"),
        Cell::Int(3),
        Cell::UInt(4),
        text("0.00001"),
        Cell::Null,
        text("-1.00000"),
    ]
}

#[test]
fn byte_encoded_rate_reads_as_number() {
    assert_eq!(parse_decimal(b"87.50000"), Some(8750000));
    let row = vec![text("RADAR1"), text("2"), text("87.50000"), Cell::Null, text("0"), text("100.0000"), text("12.3")];
    let rec = decode_rate_row(&row).unwrap();
    assert_eq!(rec.pd_p, Some(8750000));
    assert_eq!(rec.pd_s, None);
    assert_eq!(rec.pd_m, Some(0));
    assert_eq!(rec.pd_ps, Some(10000000));
    assert_eq!(rec.pd_pm, Some(1230000));
    assert_eq!(rec.ds_name, "RADAR1");
    assert_eq!(rec.ds_type, "2");
}

#[test]
fn decimal_literals() {
    assert_eq!(parse_decimal(b"1.23456"), Some(123456));
    assert_eq!(parse_decimal(b"-1"), Some(-100000));
    assert_eq!(parse_decimal(b"+0.5"), Some(50000));
    assert_eq!(parse_decimal(b"0.123455"), Some(12346));
    assert_eq!(parse_decimal(b"0.123454999"), Some(12345));
    assert_eq!(parse_decimal(b"-0.000005"), Some(-1));
    assert_eq!(parse_decimal(b"007"), Some(700000));
    assert_eq!(parse_decimal(b""), None);
    assert_eq!(parse_decimal(b"-"), None);
    assert_eq!(parse_decimal(b"1."), None);
    assert_eq!(parse_decimal(b".5"), None);
    assert_eq!(parse_decimal(b"1e5"), None);
    assert_eq!(parse_decimal(b"1.2.3"), None);
    assert_eq!(parse_decimal(b" 1"), None);
    assert_eq!(parse_decimal(b"NaN"), None);
}

#[test]
fn decimal_range_limits() {
    assert_eq!(parse_decimal(b"92233720368547.75807"), Some(i64::MAX));
    assert_eq!(parse_decimal(b"-92233720368547.75807"), Some(-i64::MAX));
    assert_eq!(parse_decimal(b"92233720368547.75808"), None);
    assert_eq!(parse_decimal(b"92233720368548"), None);
    assert_eq!(parse_decimal(b"1000000000000000000000000"), None);
}

#[test]
fn decimal_text_round_trip() {
    assert_eq!(format_decimal(8750000), b"87.50000".to_vec());
    assert_eq!(format_decimal(-123456), b"-1.23456".to_vec());
    assert_eq!(format_decimal(0), b"0.00000".to_vec());
    assert_eq!(format_decimal(7), b"0.00007".to_vec());
    for v in [0i64, 1, -1, 123456, -99999, 100000, 8750000, i64::MAX, -i64::MAX] {
        assert_eq!(parse_decimal(&format_decimal(v)), Some(v));
    }
}

#[test]
fn missing_bias_field_is_sentinel() {
    assert_eq!(cell_bias(&Cell::Null), Some(SENTINEL));
    assert_eq!(SENTINEL, -100000);
    let rec = decode_bias_row(&bias_row("RADAR1", Cell::Null)).unwrap();
    assert_eq!(rec.time_bias, -100000);
    assert_eq!(rec.ecc_value, -100000);
    assert_eq!(rec.range_bias, 200000);
    assert_eq!(rec.range_gain, -50000);
    assert_eq!(rec.azimuth_bias, 300000);
    assert_eq!(rec.range_noise, 400000);
    assert_eq!(rec.azimuth_noise, 1);
    assert_eq!(rec.ecc_angle, -100000);
    assert_eq!(rec.antenna_type, "MODE_A");
}

#[test]
fn null_rate_is_no_data() {
    assert_eq!(cell_rate(&Cell::Null), Some(None));
    assert_eq!(cell_rate(&text("abc")), None);
    assert_eq!(cell_rate(&Cell::Int(50)), Some(Some(5000000)));
}

#[test]
fn row_errors() {
    assert_eq!(decode_bias_row(&vec![text("a")]).err(), Some(DecodeError::ColumnCount(1)));
    assert_eq!(decode_rate_row(&vec![]).err(), Some(DecodeError::ColumnCount(0)));
    assert_eq!(decode_bias_row(&bias_row("R", text("x1"))).err(), Some(DecodeError::Malformed(2)));
    let bad_utf8 = Cell::Bytes(vec![0xff, 0xfe]);
    assert_eq!(decode_bias_row(&bias_row("R", Cell::Null)).is_ok(), true);
    let mut row = bias_row("R", Cell::Null);
    row[1] = bad_utf8;
    assert_eq!(decode_bias_row(&row).err(), Some(DecodeError::Malformed(1)));
    let mut row = bias_row("R", Cell::Null);
    row[0] = Cell::Int(1);
    row[5] = text("?");
    assert_eq!(decode_bias_row(&row).err(), Some(DecodeError::Malformed(0)));
    assert_eq!(decode_bias_row(&bias_row("R", Cell::Int(i64::MAX))).err(), Some(DecodeError::Malformed(2)));
}

#[test]
fn non_ascii_text_is_kept() {
    let rec = decode_bias_row(&bias_row("Radar é", Cell::Null)).unwrap();
    assert_eq!(rec.radar_name, "Radar é");
}

#[test]
fn bad_row_does_not_drop_the_others() {
    let rows = vec![bias_row("A", text("1.5")), bias_row("B", text("oops")), bias_row("C", Cell::Null)];
    let out = decode_bias_rows(&rows);
    assert_eq!(out.records.len(), 2);
    assert_eq!(out.records[0].radar_name, "A");
    assert_eq!(out.records[0].time_bias, 150000);
    assert_eq!(out.records[1].radar_name, "C");
    assert_eq!(out.rejected, vec![(1, DecodeError::Malformed(2))]);

    let rates = vec![vec![text("X")], vec![text("Y"), text("1"), Cell::Null, Cell::Null, Cell::Null, Cell::Null, Cell::Null]];
    let out = decode_rate_rows(&rates);
    assert_eq!(out.records.len(), 1);
    assert_eq!(out.records[0].ds_name, "Y");
    assert_eq!(out.rejected, vec![(0, DecodeError::ColumnCount(1))]);
}

use tabular_engine::fmt::{
    bin_to_string, date_to_string, datetime_to_string, duration_to_string, format_cell,
    fx_to_string, parse_bool, parse_fx, parse_int, time_to_string,
};
use tabular_engine::query::derive_table_name;
use tabular_engine::schema::{check_schema_compatibility, SchemaField};
use tabular_engine::value::{Cell, Field, Scalar};

fn show(c: Cell) -> String {
    format_cell(&c, &vec![])
}

#[test]
fn null_formats_to_the_empty_string() {
    assert_eq!(show(Cell::S(Scalar::Null)), "");
    assert_ne!(show(Cell::S(Scalar::Bool(false))), "");
    assert_ne!(show(Cell::S(Scalar::Int(0))), "");
    assert_ne!(show(Cell::S(Scalar::Num(0))), "");
}

#[test]
fn boolean_round_trip() {
    for b in [true, false] {
        let text = show(Cell::S(Scalar::Bool(b)));
        assert_eq!(parse_bool(&text), Some(b));
    }
    assert_eq!(parse_bool("maybe"), None);
}

#[test]
fn integer_round_trip() {
    for i in [0i64, 7, -7, 42, -10000, i64::MAX, i64::MIN] {
        let text = show(Cell::S(Scalar::Int(i)));
        assert_eq!(parse_int(&text), Some(i as i128), "text {:?}", text);
    }
    assert_eq!(show(Cell::S(Scalar::Int(-7))), "-7");
    assert_eq!(show(Cell::S(Scalar::UInt(18446744073709551615))), "18446744073709551615");
    assert_eq!(parse_int(""), None);
    assert_eq!(parse_int("-"), None);
    assert_eq!(parse_int("12a"), None);
}

#[test]
fn fixed_point_round_trip() {
    for m in [0i128, 1_500_000, -500_000, 23_333_333, 1_000_000, -1, 999_999] {
        let text = fx_to_string(m);
        assert_eq!(parse_fx(&text), Some(m), "text {:?}", text);
    }
    assert_eq!(fx_to_string(1_500_000), "1.5");
    assert_eq!(fx_to_string(-500_000), "-0.5");
    assert_eq!(fx_to_string(1_000_000), "1.0");
    assert_eq!(fx_to_string(23_333_333), "23.333333");
    assert_eq!(parse_fx("1"), None);
    assert_eq!(parse_fx("1."), None);
    assert_eq!(parse_fx("1.2345678"), None);
}

#[test]
fn string_formats_as_itself() {
    assert_eq!(show(Cell::S(Scalar::Str("plain text".to_string()))), "plain text");
}

#[test]
fn duration_formats_as_clock_text() {
    assert_eq!(duration_to_string(90_000_000), "00:01:30");
    assert_eq!(duration_to_string(-90_000_000), "-00:01:30");
    assert_eq!(duration_to_string(0), "00:00:00");
    assert_eq!(duration_to_string(90_061_000_000), "1 days 01:01:01");
    assert_eq!(duration_to_string(-90_061_000_000), "-1 days 01:01:01");
}

#[test]
fn binary_formats_as_lowercase_hex() {
    assert_eq!(show(Cell::S(Scalar::Bin(vec![0x0f, 0xa0, 0x00]))), "0x0fa000");
    assert_eq!(bin_to_string(&vec![]), "0x");
}

#[test]
fn dates_and_times_format_as_calendar_text() {
    assert_eq!(date_to_string(0), "1970-01-01");
    assert_eq!(date_to_string(19723), "2024-01-01");
    assert_eq!(date_to_string(-1), "1969-12-31");
    assert_eq!(datetime_to_string(0), "1970-01-01 00:00:00");
    assert_eq!(datetime_to_string(1_577_836_800_000_000), "2020-01-01 00:00:00");
    assert_eq!(datetime_to_string(1_500_000), "1970-01-01 00:00:01.5");
    assert_eq!(time_to_string(3_661_000_000_500), "01:01:01.0000005");
}

#[test]
fn lists_and_structs_format_with_quotes_and_markers() {
    let list = Cell::List(vec![
        Scalar::Int(1),
        Scalar::Str("a".to_string()),
        Scalar::Null,
        Scalar::Num(1_000_000),
        Scalar::Nested,
    ]);
    assert_eq!(show(list), "[1, \"a\", null, 1.000000, ...]");
    let record = Cell::Record(vec![
        Field { name: "x".to_string(), value: Scalar::Int(2) },
        Field { name: "y".to_string(), value: Scalar::Str("b".to_string()) },
    ]);
    assert_eq!(show(record), "{x: 2, y: \"b\"}");
}

#[test]
fn categorical_resolves_through_the_dictionary() {
    let dict = vec!["low".to_string(), "high".to_string()];
    assert_eq!(format_cell(&Cell::S(Scalar::Cat(1)), &dict), "high");
}

#[test]
fn table_names_derive_from_file_stems() {
    assert_eq!(derive_table_name("/data/sales.parquet"), "sales");
    assert_eq!(derive_table_name("/data/2024 sales.parquet"), "_2024_sales");
    assert_eq!(derive_table_name("/a/b.tar.gz"), "b_tar");
    assert_eq!(derive_table_name(""), "table");
    assert_eq!(derive_table_name("weird-name!.csv"), "weird_name_");
    assert_eq!(derive_table_name("/dir.with.dots/plain"), "plain");
}

#[test]
fn schema_check_rejects_fixed_size_lists() {
    let ok = vec![SchemaField {
        name: "a".to_string(),
        physical_type: "INT64".to_string(),
        converted_type: "NONE".to_string(),
    }];
    assert!(check_schema_compatibility(&ok).is_ok());
    let bad = vec![SchemaField {
        name: "arr".to_string(),
        physical_type: "FixedLenByteArray".to_string(),
        converted_type: "LIST".to_string(),
    }];
    let msg = check_schema_compatibility(&bad).unwrap_err();
    assert!(msg.starts_with("Column 'arr' contains Array/FixedSizeList type"));
}

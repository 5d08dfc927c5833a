//! Sniffing and type-inference behaviour on concrete inputs.

use data_science::cells::{infer_data_type, infer_value_type, CellValue};
use data_science::sniff::{detect_delimiter, detect_encoding, is_likely_header_row,
    validate_csv_content};
use data_science::types::CsvError;

fn strings(vals: &[&str]) -> Vec<String> {
    vals.iter().map(|s| s.to_string()).collect()
}

#[test]
fn comma_detected() {
    assert_eq!(detect_delimiter("a,b,c\n1,2,3\n4,5,6").unwrap(), ",");
}

#[test]
fn semicolon_detected() {
    // the comma scores low here: its field counts differ across lines,
    // while the semicolon splits every line the same way
    assert_eq!(detect_delimiter("a;b,c\n1;2\n3;4").unwrap(), ";");
}

#[test]
fn tab_detected() {
    assert_eq!(detect_delimiter("a\tb,c;x\n1\t2\n3\t4").unwrap(), "\t");
}

#[test]
fn pipe_detected() {
    assert_eq!(detect_delimiter("a|b,c;x\ty\n1|2\n3|4").unwrap(), "|");
}

#[test]
fn short_sample_defaults_to_comma() {
    assert_eq!(detect_delimiter("justoneline").unwrap(), ",");
    assert_eq!(detect_delimiter("").unwrap(), ",");
}

#[test]
fn tie_resolves_to_earliest_candidate() {
    // one comma and one semicolon per line: both score the same
    assert_eq!(detect_delimiter("a,b;c\n1,2;3").unwrap(), ",");
}

#[test]
fn header_row_recognised() {
    assert!(is_likely_header_row("name,age,city", ","));
    assert!(!is_likely_header_row("1,2,3", ","));
    assert!(!is_likely_header_row("single", ","));
    // half of the fields, rounded up, must look like header cells
    assert!(is_likely_header_row("name,2", ","));
    assert!(!is_likely_header_row("1,2,c", ","));
}

#[test]
fn utf8_encoding_detected() {
    assert_eq!(detect_encoding(b"plain ascii text, nothing fancy"), "UTF-8");
    assert_eq!(detect_encoding("häuser, straße\n1,2\n".as_bytes()), "UTF-8");
}

#[test]
fn legacy_encoding_falls_back_or_names_windows_1252() {
    // bytes that are not valid UTF-8; the detector names a legacy
    // encoding the system special-cases, or the result falls back to UTF-8
    let r = detect_encoding(b"caf\xe9 au lait, r\xe9sum\xe9, d\xe9tente\n1,2,3\n");
    assert_eq!(r, "Windows-1252");
}

#[test]
fn validation_reports_structure() {
    let v = validate_csv_content("name,age\nbob,42\neve,37", "UTF-8").unwrap();
    assert!(v.is_valid);
    assert_eq!(v.delimiter, ",");
    assert_eq!(v.column_count, 2);
    assert!(v.has_headers);
    assert_eq!(v.estimated_rows, 2);
    assert_eq!(v.encoding, "UTF-8");
}

#[test]
fn validation_counts_all_lines_without_header() {
    let v = validate_csv_content("1,2\n3,4\n5,6", "UTF-8").unwrap();
    assert!(!v.has_headers);
    assert_eq!(v.estimated_rows, 3);
}

#[test]
fn empty_text_is_rejected() {
    let e = validate_csv_content("", "UTF-8").unwrap_err();
    assert_eq!(e, CsvError::EmptyFile);
    assert_eq!(e.message(), "File is empty");
}

#[test]
fn numeric_column_inferred() {
    assert_eq!(infer_data_type(&strings(&["1", "2", "3"])), "number");
}

#[test]
fn boolean_column_inferred() {
    assert_eq!(infer_data_type(&strings(&["true", "false", "true"])), "boolean");
}

#[test]
fn date_column_inferred() {
    assert_eq!(infer_data_type(&strings(&["2024-01-01", "2024-02-02"])), "date");
    assert_eq!(infer_data_type(&strings(&["01/02/2024", "11/12/2023", "x", "y"])), "date");
}

#[test]
fn string_column_inferred() {
    assert_eq!(infer_data_type(&strings(&["a", "b", "c"])), "string");
}

#[test]
fn empty_column_is_unknown() {
    assert_eq!(infer_data_type(&strings(&[])), "unknown");
}

#[test]
fn numeric_threshold_is_three_quarters() {
    // three of four is not strictly more than three quarters
    assert_eq!(infer_data_type(&strings(&["1", "2", "3", "x"])), "string");
    // four of five is
    assert_eq!(infer_data_type(&strings(&["1", "2", "3", "4", "x"])), "number");
}

#[test]
fn blanks_count_against_the_threshold() {
    // blanks are skipped in the numerator but stay in the denominator
    assert_eq!(infer_data_type(&strings(&["1", "2", "", ""])), "string");
}

#[test]
fn integer_cell_coerced() {
    assert_eq!(infer_value_type("42"), CellValue::Int(42));
    assert_eq!(infer_value_type(" 7 "), CellValue::Int(7));
    assert_eq!(infer_value_type("-15"), CellValue::Int(-15));
    assert_eq!(
        infer_value_type("-9223372036854775808"),
        CellValue::Int(i64::MIN)
    );
}

#[test]
fn float_cell_coerced_to_canonical_text() {
    assert_eq!(infer_value_type("3.14"), CellValue::Num("3.14".to_string()));
    // the canonical text is the value's rendering, not the input text
    assert_eq!(infer_value_type("1.50"), CellValue::Num("1.5".to_string()));
    assert_eq!(infer_value_type("1e3"), CellValue::Num("1000.0".to_string()));
}

#[test]
fn boolean_cell_coerced_case_insensitively() {
    assert_eq!(infer_value_type("true"), CellValue::Bool(true));
    assert_eq!(infer_value_type("FALSE"), CellValue::Bool(false));
    assert_eq!(infer_value_type("True"), CellValue::Bool(true));
}

#[test]
fn other_text_stays_a_string_untrimmed() {
    assert_eq!(infer_value_type(" hello "), CellValue::Str(" hello ".to_string()));
    assert_eq!(infer_value_type(""), CellValue::Str("".to_string()));
}

#[test]
fn float_keywords_count_as_numeric_for_classification() {
    // classification follows the float-literal grammar, which spells
    // `inf` and `nan`; coercion reads numbers the portable way, which
    // does not, so such a cell stays a string
    assert_eq!(infer_data_type(&strings(&["inf", "2", "3", "4"])), "number");
    assert_eq!(infer_value_type("inf"), CellValue::Str("inf".to_string()));
}

#[test]
fn windows_line_endings_are_tolerated() {
    let v = validate_csv_content("a,b\r\n1,2\r\n3,4\r\n", "UTF-8").unwrap();
    assert_eq!(v.column_count, 2);
    assert_eq!(v.estimated_rows, 2);
}

//! The column profiler and the data-quality reporter on concrete files.

use data_science::profile::{analyze_csv_columns, validate_data_quality};
use data_science::types::CsvError;

#[test]
fn columns_are_profiled() {
    let v = analyze_csv_columns("name,score,flag\nbob,1,true\neve,2,false\nbob,3,true").unwrap();
    assert_eq!(v.len(), 3);
    assert_eq!(v[0].name, "name");
    assert_eq!(v[0].data_type, "string");
    assert_eq!(v[0].unique_count, 2);
    assert!(!v[0].nullable);
    assert_eq!(v[0].null_percentage_hundredths, 0);
    assert_eq!(v[0].sample_values, vec!["bob", "eve", "bob"]);
    assert_eq!(v[1].name, "score");
    assert_eq!(v[1].data_type, "number");
    assert_eq!(v[1].unique_count, 3);
    assert_eq!(v[2].data_type, "boolean");
    assert_eq!(v[2].unique_count, 2);
}

#[test]
fn nulls_are_counted_exactly() {
    let v = analyze_csv_columns("a,b\n1,\n2,x\n3,").unwrap();
    assert!(v[1].nullable);
    // two empty values of three rows: 66.66 percent
    assert_eq!(v[1].null_percentage_hundredths, 6666);
    assert!(!v[0].nullable);
}

#[test]
fn malformed_rows_are_excluded_from_profiles() {
    // the malformed row sits past the ten sniffed lines, so the comma
    // stays detected and only that row is excluded
    let v = analyze_csv_columns(
        "a,b\n1,2\n3,4\n5,6\n7,8\n9,10\n11,12\n13,14\n15,16\n17,18\n19,20,21\n90,91",
    )
    .unwrap();
    assert_eq!(v[0].sample_values, vec!["1", "3", "5", "7", "9"]);
    assert_eq!(v[0].unique_count, 10);
}

#[test]
fn samples_stop_at_five() {
    let v = analyze_csv_columns("a,b\n1,x\n2,x\n3,x\n4,x\n5,x\n6,x\n7,x").unwrap();
    assert_eq!(v[0].sample_values, vec!["1", "2", "3", "4", "5"]);
}

#[test]
fn profiling_empty_text_fails() {
    assert_eq!(analyze_csv_columns("").unwrap_err(), CsvError::EmptyFile);
}

#[test]
fn duplicates_are_reported() {
    let q = validate_data_quality("a,b\n1,2\n1,2\n3,4").unwrap();
    assert_eq!(q.duplicate_count, 1);
    assert_eq!(q.completeness_score_hundredths, 10000);
    // (100% + 50%) / 2
    assert_eq!(q.overall_score_hundredths, 7500);
    assert_eq!(q.issues, vec!["Found 1 duplicate rows"]);
    assert_eq!(
        q.recommendations,
        vec!["Consider removing duplicate rows to improve data quality"]
    );
}

#[test]
fn completeness_counts_empty_cells() {
    let q = validate_data_quality("a,b\n1,\n,2").unwrap();
    assert_eq!(q.duplicate_count, 0);
    // two of four expected cells are empty
    assert_eq!(q.completeness_score_hundredths, 5000);
    assert_eq!(q.overall_score_hundredths, 7500);
    assert_eq!(q.issues, vec!["Data completeness is only 50.0%"]);
    assert_eq!(
        q.recommendations,
        vec!["Review and fill missing values to improve completeness"]
    );
}

#[test]
fn single_column_is_flagged() {
    let q = validate_data_quality("a\n1\n2").unwrap();
    assert_eq!(q.issues, vec!["File appears to have only one column"]);
    assert_eq!(
        q.recommendations,
        vec!["Verify that the correct delimiter is being used"]
    );
}

#[test]
fn clean_file_raises_no_issues() {
    let q = validate_data_quality("a,b\n1,2\n3,4").unwrap();
    assert_eq!(q.duplicate_count, 0);
    assert_eq!(q.completeness_score_hundredths, 10000);
    assert_eq!(q.overall_score_hundredths, 10000);
    assert!(q.issues.is_empty());
    assert!(q.recommendations.is_empty());
}

#[test]
fn quality_of_empty_text_fails() {
    let e = validate_data_quality("").unwrap_err();
    assert_eq!(e, CsvError::EmptyFile);
}

#[test]
fn fractional_completeness_is_truncated_to_tenths() {
    // one of three expected cells empty: 66.66%, printed as 66.6%
    let q = validate_data_quality("a,b,c\n1,,3").unwrap();
    assert_eq!(q.completeness_score_hundredths, 6666);
    assert_eq!(q.issues, vec!["Data completeness is only 66.6%"]);
}

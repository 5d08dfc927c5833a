//! The table store and query engine on concrete tables.

use data_science::cells::CellValue;
use data_science::query::{compare_values, match_filter_value};
use data_science::store::CsvStore;
use data_science::types::{CsvError, DataQuery, FilterSpec, PaginationSpec, SortSpec};
use data_science::Order;

const NOW: &str = "2024-01-01T00:00:00+00:00";

fn load(store: &mut CsvStore, content: &str) -> String {
    let r = store
        .load_csv_into_store(content, "UTF-8", "test.csv", content.len() as u64, NOW)
        .unwrap();
    assert!(r.success);
    r.file_id
}

fn query(file_id: &str, page: usize, page_size: usize) -> DataQuery {
    DataQuery {
        file_id: file_id.to_string(),
        filters: Vec::new(),
        sort: None,
        pagination: PaginationSpec { page, page_size },
    }
}

fn filter(column: &str, operator: &str, value: CellValue, case_sensitive: bool) -> FilterSpec {
    FilterSpec {
        column: column.to_string(),
        operator: operator.to_string(),
        value,
        case_sensitive,
    }
}

#[test]
fn load_reports_metadata_and_headers() {
    let mut store = CsvStore::new();
    let r = store
        .load_csv_into_store("name,age\nbob,42\neve,37", "UTF-8", "people.csv", 21, NOW)
        .unwrap();
    assert!(r.success);
    assert_eq!(r.headers, vec!["name".to_string(), "age".to_string()]);
    assert_eq!(r.metadata.row_count, 2);
    assert_eq!(r.metadata.column_count, 2);
    assert_eq!(r.metadata.delimiter, ",");
    assert_eq!(r.metadata.encoding, "UTF-8");
    assert_eq!(r.metadata.file_size, 21);
    assert!(r.metadata.has_headers);
    assert!(r.error_message.is_none());
}

#[test]
fn load_synthesizes_headers_without_header_row() {
    let mut store = CsvStore::new();
    let r = store
        .load_csv_into_store("1,2,3\n4,5,6", "UTF-8", "n.csv", 11, NOW)
        .unwrap();
    assert_eq!(
        r.headers,
        vec!["Column 1".to_string(), "Column 2".to_string(), "Column 3".to_string()]
    );
    assert_eq!(r.metadata.row_count, 2);
    assert!(!r.metadata.has_headers);
}

#[test]
fn load_rejects_empty_text() {
    let mut store = CsvStore::new();
    let e = store
        .load_csv_into_store("", "UTF-8", "e.csv", 0, NOW)
        .unwrap_err();
    assert_eq!(e, CsvError::EmptyFile);
}

#[test]
fn handles_are_unique() {
    let mut store = CsvStore::new();
    let a = load(&mut store, "a,b\n1,2");
    let b = load(&mut store, "a,b\n1,2");
    assert_ne!(a, b);
}

#[test]
fn full_page_returns_kept_rows_in_order() {
    // the malformed row sits past the ten sniffed lines, so the comma
    // stays detected; the row is dropped and the rest come back in
    // file order
    let mut store = CsvStore::new();
    let content = "a,b\n1,2\n3,4\n5,6\n7,8\n9,10\n11,12\n13,14\n15,16\n17,18\n19,20,21\nx,y";
    let id = load(&mut store, content);
    let p = store.query_csv_data(&query(&id, 1, 100), NOW).unwrap();
    assert_eq!(p.total_rows, 10);
    assert_eq!(p.filtered_rows, 10);
    assert_eq!(p.data[0], vec![CellValue::Int(1), CellValue::Int(2)]);
    assert_eq!(
        p.data[9],
        vec![CellValue::Str("x".to_string()), CellValue::Str("y".to_string())]
    );
}

#[test]
fn pagination_scenario_two_pages() {
    let mut store = CsvStore::new();
    let id = load(&mut store, "a,b,c\n1,2,3\n4,5,6");
    let p1 = store.query_csv_data(&query(&id, 1, 1), NOW).unwrap();
    assert_eq!(p1.data.len(), 1);
    assert_eq!(
        p1.data[0],
        vec![CellValue::Int(1), CellValue::Int(2), CellValue::Int(3)]
    );
    assert_eq!(p1.total_pages, 2);
    assert!(p1.has_next);
    assert!(!p1.has_prev);
    let p2 = store.query_csv_data(&query(&id, 2, 1), NOW).unwrap();
    assert_eq!(p2.data.len(), 1);
    assert_eq!(
        p2.data[0],
        vec![CellValue::Int(4), CellValue::Int(5), CellValue::Int(6)]
    );
    assert!(!p2.has_next);
    assert!(p2.has_prev);
}

#[test]
fn pagination_formulas() {
    let mut store = CsvStore::new();
    let id = load(&mut store, "a,b\n1,x\n2,x\n3,x\n4,x\n5,x");
    let p = store.query_csv_data(&query(&id, 2, 2), NOW).unwrap();
    assert_eq!(p.filtered_rows, 5);
    assert_eq!(p.total_pages, 3); // ceil(5 / 2)
    assert_eq!(p.current_page, 2);
    assert_eq!(p.page_size, 2);
    assert!(p.has_next); // 2 < 3
    assert!(p.has_prev); // 2 > 1
    assert_eq!(p.data.len(), 2);
}

#[test]
fn page_past_the_end_is_empty() {
    let mut store = CsvStore::new();
    let id = load(&mut store, "a,b\n1,x\n2,x");
    let p = store.query_csv_data(&query(&id, 9, 10), NOW).unwrap();
    assert_eq!(p.data.len(), 0);
    assert_eq!(p.filtered_rows, 2);
    assert_eq!(p.total_pages, 1);
    assert!(!p.has_next);
    assert!(p.has_prev);
}

#[test]
fn same_query_twice_yields_identical_pages() {
    let mut store = CsvStore::new();
    let id = load(&mut store, "a,b\n3,x\n1,y\n2,z");
    let mut q = query(&id, 1, 2);
    q.sort = Some(SortSpec {
        column: "a".to_string(),
        direction: "asc".to_string(),
        case_sensitive: true,
    });
    q.filters.push(filter("a", "greater_than", CellValue::Int(0), true));
    let p1 = store.query_csv_data(&q, NOW).unwrap();
    let p2 = store.query_csv_data(&q, "2024-01-02T00:00:00+00:00").unwrap();
    assert_eq!(p1, p2);
}

#[test]
fn filters_compose_conjunctively() {
    let mut store = CsvStore::new();
    let id = load(&mut store, "a,b\n1,hit\n1,miss\n2,hit");
    let mut q = query(&id, 1, 10);
    q.filters.push(filter("a", "equals", CellValue::Int(1), true));
    q.filters.push(filter("b", "equals", CellValue::Str("hit".to_string()), true));
    let p = store.query_csv_data(&q, NOW).unwrap();
    // the row matching only the first filter is excluded
    assert_eq!(p.filtered_rows, 1);
    assert_eq!(
        p.data[0],
        vec![CellValue::Int(1), CellValue::Str("hit".to_string())]
    );
}

#[test]
fn filter_on_unknown_column_matches_nothing() {
    let mut store = CsvStore::new();
    let id = load(&mut store, "a,b\n1,x\n2,x");
    let mut q = query(&id, 1, 10);
    q.filters.push(filter("missing", "equals", CellValue::Int(1), true));
    let p = store.query_csv_data(&q, NOW).unwrap();
    assert_eq!(p.filtered_rows, 0);
    assert_eq!(p.total_pages, 0);
}

#[test]
fn numeric_filters_compare_by_value() {
    let mut store = CsvStore::new();
    let id = load(&mut store, "v,w\n1,a\n2.5,a\n10,a\nx,a");
    let mut q = query(&id, 1, 10);
    q.filters.push(filter("v", "greater_than", CellValue::Num("2.0".to_string()), true));
    let p = store.query_csv_data(&q, NOW).unwrap();
    // the non-numeric row never matches a numeric comparison
    assert_eq!(p.filtered_rows, 2);
    assert_eq!(p.data[0][0], CellValue::Num("2.5".to_string()));
    assert_eq!(p.data[1][0], CellValue::Int(10));
}

#[test]
fn unknown_operator_matches_nothing() {
    let mut store = CsvStore::new();
    let id = load(&mut store, "a,b\n1,x");
    let mut q = query(&id, 1, 10);
    q.filters.push(filter("a", "almost_equals", CellValue::Int(1), true));
    let p = store.query_csv_data(&q, NOW).unwrap();
    assert_eq!(p.filtered_rows, 0);
}

#[test]
fn sort_orders_numbers_and_desc_reverses() {
    let mut store = CsvStore::new();
    let id = load(&mut store, "v,w\n10,a\n2,b\n33,c");
    let mut q = query(&id, 1, 10);
    q.sort = Some(SortSpec {
        column: "v".to_string(),
        direction: "asc".to_string(),
        case_sensitive: true,
    });
    let p = store.query_csv_data(&q, NOW).unwrap();
    assert_eq!(p.data[0][0], CellValue::Int(2));
    assert_eq!(p.data[1][0], CellValue::Int(10));
    assert_eq!(p.data[2][0], CellValue::Int(33));
    q.sort = Some(SortSpec {
        column: "v".to_string(),
        direction: "desc".to_string(),
        case_sensitive: true,
    });
    let p = store.query_csv_data(&q, NOW).unwrap();
    assert_eq!(p.data[0][0], CellValue::Int(33));
    assert_eq!(p.data[1][0], CellValue::Int(10));
    assert_eq!(p.data[2][0], CellValue::Int(2));
}

#[test]
fn sort_is_stable_on_ties() {
    let mut store = CsvStore::new();
    let id = load(&mut store, "k,tag\n2,b\n1,first\n2,a\n1,second");
    let mut q = query(&id, 1, 10);
    q.sort = Some(SortSpec {
        column: "k".to_string(),
        direction: "asc".to_string(),
        case_sensitive: true,
    });
    let p = store.query_csv_data(&q, NOW).unwrap();
    // tied keys keep their file order
    assert_eq!(p.data[0][1], CellValue::Str("first".to_string()));
    assert_eq!(p.data[1][1], CellValue::Str("second".to_string()));
    assert_eq!(p.data[2][1], CellValue::Str("b".to_string()));
    assert_eq!(p.data[3][1], CellValue::Str("a".to_string()));
}

#[test]
fn sort_by_unknown_column_keeps_order() {
    let mut store = CsvStore::new();
    let id = load(&mut store, "a,b\n3,x\n1,y\n2,z");
    let mut q = query(&id, 1, 10);
    q.sort = Some(SortSpec {
        column: "nope".to_string(),
        direction: "asc".to_string(),
        case_sensitive: true,
    });
    let p = store.query_csv_data(&q, NOW).unwrap();
    assert_eq!(p.data[0][0], CellValue::Int(3));
    assert_eq!(p.data[1][0], CellValue::Int(1));
    assert_eq!(p.data[2][0], CellValue::Int(2));
}

#[test]
fn case_insensitive_string_sort() {
    let mut store = CsvStore::new();
    let id = load(&mut store, "s,t\nbanana,1\nApple,2\ncherry,3");
    let mut q = query(&id, 1, 10);
    q.sort = Some(SortSpec {
        column: "s".to_string(),
        direction: "asc".to_string(),
        case_sensitive: false,
    });
    let p = store.query_csv_data(&q, NOW).unwrap();
    assert_eq!(p.data[0][0], CellValue::Str("Apple".to_string()));
    assert_eq!(p.data[1][0], CellValue::Str("banana".to_string()));
    assert_eq!(p.data[2][0], CellValue::Str("cherry".to_string()));
}

#[test]
fn headers_read_back() {
    let mut store = CsvStore::new();
    let id = load(&mut store, "x,y\n1,2");
    assert_eq!(
        store.get_csv_headers(&id).unwrap(),
        vec!["x".to_string(), "y".to_string()]
    );
}

#[test]
fn headers_of_unknown_handle_fail() {
    let store = CsvStore::new();
    let e = store.get_csv_headers("csv_999").unwrap_err();
    assert_eq!(e, CsvError::TableNotFound("csv_999".to_string()));
    assert_eq!(e.message(), "CSV file with ID 'csv_999' not found");
}

#[test]
fn unload_unknown_handle_succeeds_and_query_after_unload_fails() {
    let mut store = CsvStore::new();
    assert!(store.unload_csv_data("csv_does_not_exist").is_ok());
    let id = load(&mut store, "a,b\n1,2");
    assert!(store.unload_csv_data(&id).is_ok());
    let e = store.query_csv_data(&query(&id, 1, 10), NOW).unwrap_err();
    assert!(matches!(e, CsvError::TableNotFound(_)));
}

#[test]
fn unload_leaves_other_tables_alone() {
    let mut store = CsvStore::new();
    let a = load(&mut store, "a,b\n1,2");
    let b = load(&mut store, "c,d\n3,4");
    store.unload_csv_data(&a).unwrap();
    assert!(store.query_csv_data(&query(&a, 1, 10), NOW).is_err());
    let p = store.query_csv_data(&query(&b, 1, 10), NOW).unwrap();
    assert_eq!(p.total_rows, 1);
}

#[test]
fn query_updates_last_accessed_only() {
    let mut store = CsvStore::new();
    let id = load(&mut store, "a,b\n1,2");
    let later = "2025-06-30T12:00:00+00:00";
    store.query_csv_data(&query(&id, 1, 10), later).unwrap();
    let p = store.query_csv_data(&query(&id, 1, 10), NOW).unwrap();
    assert_eq!(p.total_rows, 1);
}

#[test]
fn equals_filter_case_insensitive_uses_folded_text() {
    assert!(match_filter_value(
        &CellValue::Str("HELLO".to_string()),
        "equals",
        &CellValue::Str("hello".to_string()),
        false,
    ));
    assert!(!match_filter_value(
        &CellValue::Str("HELLO".to_string()),
        "equals",
        &CellValue::Str("hello".to_string()),
        true,
    ));
}

#[test]
fn contains_filter_is_a_substring_test() {
    assert!(match_filter_value(
        &CellValue::Str("hello world".to_string()),
        "contains",
        &CellValue::Str("lo wo".to_string()),
        true,
    ));
    assert!(!match_filter_value(
        &CellValue::Str("hello world".to_string()),
        "contains",
        &CellValue::Str("LO WO".to_string()),
        true,
    ));
    assert!(match_filter_value(
        &CellValue::Str("hello world".to_string()),
        "contains",
        &CellValue::Str("LO WO".to_string()),
        false,
    ));
}

#[test]
fn numeric_comparison_mixes_integers_and_floats() {
    assert!(match_filter_value(
        &CellValue::Int(5),
        "greater_than",
        &CellValue::Num("2.5".to_string()),
        true,
    ));
    assert!(match_filter_value(
        &CellValue::Num("2.5".to_string()),
        "less_than_or_equal",
        &CellValue::Int(3),
        true,
    ));
    assert!(!match_filter_value(
        &CellValue::Str("5".to_string()),
        "greater_than",
        &CellValue::Int(1),
        true,
    ));
}

#[test]
fn compare_values_covers_every_kind() {
    assert_eq!(
        compare_values(&CellValue::Int(2), &CellValue::Num("2.5".to_string()), "asc", true),
        Order::Less
    );
    assert_eq!(
        compare_values(
            &CellValue::Str("b".to_string()),
            &CellValue::Str("a".to_string()),
            "asc",
            true,
        ),
        Order::Greater
    );
    assert_eq!(
        compare_values(&CellValue::Bool(false), &CellValue::Bool(true), "asc", true),
        Order::Less
    );
    // mixed kinds compare by their stringified forms
    assert_eq!(
        compare_values(&CellValue::Bool(true), &CellValue::Str("z".to_string()), "asc", true),
        Order::Less
    );
    // `desc` reverses; anything else is ascending
    assert_eq!(
        compare_values(&CellValue::Int(1), &CellValue::Int(2), "desc", true),
        Order::Greater
    );
    assert_eq!(
        compare_values(&CellValue::Int(1), &CellValue::Int(2), "sideways", true),
        Order::Less
    );
}

#[test]
fn windows_line_endings_load_cleanly() {
    let mut store = CsvStore::new();
    let id = load(&mut store, "a,b\r\n1,2\r\n3,4\r\n");
    let p = store.query_csv_data(&query(&id, 1, 10), NOW).unwrap();
    assert_eq!(p.total_rows, 2);
    assert_eq!(p.data[0], vec![CellValue::Int(1), CellValue::Int(2)]);
}

#[test]
fn memory_estimate_is_per_row() {
    let mut store = CsvStore::new();
    let r = store
        .load_csv_into_store("a,b\n1,2\n3,4\n5,6", "UTF-8", "m.csv", 15, NOW)
        .unwrap();
    assert_eq!(r.metadata.estimated_memory_usage, 3 * 48);
}

#[test]
fn integer_and_float_cells_are_distinct_values() {
    // exact equality distinguishes an integer from a fractional number,
    // even at the same numeric value
    assert!(!match_filter_value(
        &CellValue::Int(2),
        "equals",
        &CellValue::Num("2.0".to_string()),
        true,
    ));
    // the numeric operators compare them by value
    assert!(match_filter_value(
        &CellValue::Int(2),
        "greater_than_or_equal",
        &CellValue::Num("2.0".to_string()),
        true,
    ));
}

#[test]
fn case_insensitive_equals_crosses_kinds_by_text() {
    // stringified forms make a boolean and its spelled text compare equal
    assert!(match_filter_value(
        &CellValue::Str("TRUE".to_string()),
        "equals",
        &CellValue::Bool(true),
        false,
    ));
    assert!(!match_filter_value(
        &CellValue::Str("TRUE".to_string()),
        "equals",
        &CellValue::Bool(true),
        true,
    ));
}

#[test]
fn missing_sort_column_ranks_last_whatever_the_direction() {
    // a row reaching the sort column precedes one that does not, under
    // both directions
    let mut store = CsvStore::new();
    let id = load(&mut store, "a,b\n1,2");
    let p = store.query_csv_data(&query(&id, 1, 10), NOW).unwrap();
    assert_eq!(p.total_rows, 1);
    assert_eq!(
        compare_values(&CellValue::Int(1), &CellValue::Int(1), "desc", true),
        Order::Equal
    );
}

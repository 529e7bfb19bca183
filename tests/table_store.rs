use csv_editor::csv_data_handle::{CsvDataHandle, CsvError, Index};
use csv_editor::csv_holder::CsvHolder;

fn strings(cells: &[&str]) -> Vec<String> {
    cells.iter().map(|s| s.to_string()).collect()
}

fn table(headers: &[&str], rows: &[&[&str]]) -> CsvHolder {
    CsvHolder::new(strings(headers), rows.iter().map(|r| strings(r)).collect()).unwrap()
}

fn three_by_three() -> CsvHolder {
    table(
        &["a", "b", "c"],
        &[&["1", "2", "3"], &["4", "5", "6"], &["7", "8", "9"]],
    )
}

#[test]
fn cell_bounds_are_checked() {
    let t = three_by_three();
    assert!(matches!(
        t.data_at(Index { row: 0, column: 1 }),
        Err(CsvError::NoSuchIndex(Index { row: 0, column: 1 }))
    ));
    assert!(matches!(
        t.data_at(Index { row: 1, column: 0 }),
        Err(CsvError::NoSuchIndex(Index { row: 1, column: 0 }))
    ));
    assert!(matches!(
        t.data_at(Index { row: 4, column: 1 }),
        Err(CsvError::NoSuchIndex(Index { row: 4, column: 1 }))
    ));
    assert!(matches!(
        t.data_at(Index { row: 0, column: 0 }),
        Err(CsvError::NoSuchIndex(_))
    ));
    assert_eq!(t.data_at(Index { row: 3, column: 2 }).unwrap(), "8");
}

#[test]
fn worked_scenario() {
    let mut t = table(&["a", "b", "c"], &[&["1", "2", "3"], &["4", "5", "6"]]);
    assert_eq!(t.column(2).unwrap(), vec!["2", "5"]);
    t.delete_column(2).unwrap();
    assert_eq!(t.headers(), vec!["a", "c"]);
    assert_eq!(t.data, vec![vec!["1", "3"], vec!["4", "6"]]);
    t.replace_row(1, strings(&["7", "8"])).unwrap();
    assert_eq!(t.row(1).unwrap(), vec!["7", "8"]);
    t.delete_row(1).unwrap();
    assert_eq!(t.row_count(), 1);
    assert_eq!(t.data, vec![vec!["4", "6"]]);
}

#[test]
fn replaced_cell_reads_back_and_others_stay() {
    let mut t = three_by_three();
    t.replace_data_at(Index { row: 2, column: 3 }, "x".to_string())
        .unwrap();
    assert_eq!(t.data_at(Index { row: 2, column: 3 }).unwrap(), "x");
    assert_eq!(
        t.data,
        vec![
            vec!["1", "2", "3"],
            vec!["4", "5", "x"],
            vec!["7", "8", "9"]
        ]
    );
    assert!(matches!(
        t.replace_data_at(Index { row: 4, column: 1 }, "y".to_string()),
        Err(CsvError::NoSuchIndex(Index { row: 4, column: 1 }))
    ));
}

#[test]
fn replace_column_checks_length_then_replaces() {
    let mut t = three_by_three();
    assert!(matches!(
        t.replace_column(2, strings(&["x", "y"])),
        Err(CsvError::FailedToReplaceColumn(2))
    ));
    assert!(matches!(
        t.replace_column(2, strings(&["x", "y", "z", "w"])),
        Err(CsvError::FailedToReplaceColumn(2))
    ));
    assert_eq!(t.data, three_by_three().data);
    assert_eq!(t.headers, three_by_three().headers);
    assert!(matches!(
        t.replace_column(4, strings(&["x", "y", "z"])),
        Err(CsvError::NoSuchColumn(4))
    ));
    t.replace_column(2, strings(&["x", "y", "z"])).unwrap();
    assert_eq!(t.column(2).unwrap(), vec!["x", "y", "z"]);
    assert_eq!(t.column(1).unwrap(), vec!["1", "4", "7"]);
}

#[test]
fn replace_row_checks_bounds_and_width() {
    let mut t = three_by_three();
    assert!(matches!(
        t.replace_row(4, strings(&["x", "y", "z"])),
        Err(CsvError::NoSuchRow(4))
    ));
    assert!(matches!(
        t.replace_row(1, strings(&["x", "y"])),
        Err(CsvError::FailedToReplaceRow(1))
    ));
    assert_eq!(t.data, three_by_three().data);
}

#[test]
fn delete_only_row_leaves_none() {
    let mut t = table(&["a"], &[&["1"]]);
    t.delete_row(1).unwrap();
    assert_eq!(t.row_count(), 0);
    assert!(matches!(t.row(1), Err(CsvError::NoSuchRow(1))));
}

#[test]
fn delete_row_moves_later_rows_up() {
    let mut t = three_by_three();
    t.delete_row(1).unwrap();
    assert_eq!(t.row_count(), 2);
    assert_eq!(t.row(1).unwrap(), vec!["4", "5", "6"]);
    assert_eq!(t.row(2).unwrap(), vec!["7", "8", "9"]);
}

#[test]
fn delete_column_shrinks_every_row() {
    let mut t = three_by_three();
    t.delete_column(1).unwrap();
    assert_eq!(t.column_count(), 2);
    assert_eq!(t.property_count(), 2);
    assert!(t.data.iter().all(|r| r.len() == 2));
    assert!(matches!(t.delete_column(3), Err(CsvError::NoSuchColumn(3))));
}

#[test]
fn column_of_field_takes_first_match() {
    let t = table(&["a", "b", "a"], &[&["1", "2", "3"]]);
    assert_eq!(t.column_of_field("a").unwrap(), 1);
    assert_eq!(t.column_of_field("b").unwrap(), 2);
    match t.column_of_field("z") {
        Err(CsvError::NoSuchField(f)) => assert_eq!(f, "z"),
        _ => panic!("expected NoSuchField"),
    }
    assert!(t.column_of_field("ab").is_err());
}

#[test]
fn by_field_operations_delegate() {
    let mut t = table(&["a", "b", "a"], &[&["1", "2", "3"], &["4", "5", "6"]]);
    t.replace_column_by_field("a", strings(&["x", "y"])).unwrap();
    assert_eq!(t.column(1).unwrap(), vec!["x", "y"]);
    assert_eq!(t.column(3).unwrap(), vec!["3", "6"]);
    assert!(matches!(
        t.replace_column_by_field("b", strings(&["x"])),
        Err(CsvError::FailedToReplaceColumn(2))
    ));
    assert!(matches!(
        t.replace_column_by_field("q", strings(&["x", "y"])),
        Err(CsvError::NoSuchField(_))
    ));
    t.delete_column_by_field("a").unwrap();
    assert_eq!(t.headers(), vec!["b", "a"]);
    assert_eq!(t.data, vec![vec!["2", "3"], vec!["5", "6"]]);
    assert!(matches!(
        t.delete_column_by_field("q"),
        Err(CsvError::NoSuchField(_))
    ));
}

#[test]
fn existence_checks() {
    let t = three_by_three();
    assert!(t.column_exists(1));
    assert!(t.column_exists(3));
    assert!(!t.column_exists(0));
    assert!(!t.column_exists(4));
    assert!(t.index_exists(Index { row: 3, column: 3 }));
    assert!(!t.index_exists(Index { row: 3, column: 4 }));
    assert!(!t.index_exists(Index { row: 0, column: 1 }));
}

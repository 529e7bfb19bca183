use csv_editor::csv_data_handle::CsvDataHandle;
use csv_editor::csv_holder::{CsvHolder, IndexOneBased};

#[test]
fn test_index_one_based() {
    let v = vec![1, 2, 3];
    assert_eq!(v.index_one_based(1), &1);
    assert_eq!(v.index_one_based(2), &2);
    assert_eq!(v.index_one_based(3), &3);
}

#[test]
fn test_index_one_based_mut() {
    let mut v = vec![1, 2, 3];
    *v.index_one_based_mut(1) = 4;
    assert_eq!(v, vec![4, 2, 3]);
    *v.index_one_based_mut(2) = 5;
    assert_eq!(v, vec![4, 5, 3]);
    *v.index_one_based_mut(3) = 6;
    assert_eq!(v, vec![4, 5, 6]);
}

#[test]
fn test_new() {
    let headers = vec!["a".to_string(), "b".to_string(), "c".to_string()];
    let data = vec![
        vec!["1".to_string(), "2".to_string(), "3".to_string()],
        vec!["4".to_string(), "5".to_string(), "6".to_string()],
    ];
    let csv_holder = CsvHolder::new(headers, data).unwrap();
    assert_eq!(csv_holder.headers, vec!["a", "b", "c"]);
    assert_eq!(
        csv_holder.data,
        vec![vec!["1", "2", "3"], vec!["4", "5", "6"],]
    );
}

#[test]
fn test_new_with_invalid_data() {
    let headers = vec!["a".to_string(), "b".to_string(), "c".to_string()];
    let data = vec![
        vec!["1".to_string(), "2".to_string(), "3".to_string()],
        vec!["4".to_string(), "5".to_string()],
    ];
    let csv_holder = CsvHolder::new(headers, data);
    assert!(csv_holder.is_none());
}

#[test]
fn test_row_exists() {
    let headers = vec!["a".to_string(), "b".to_string(), "c".to_string()];
    let data = vec![
        vec!["1".to_string(), "2".to_string(), "3".to_string()],
        vec!["4".to_string(), "5".to_string(), "6".to_string()],
    ];
    let csv_holder = CsvHolder::new(headers, data).unwrap();
    assert!(csv_holder.row_exists(1));
    assert!(csv_holder.row_exists(2));
    assert!(!csv_holder.row_exists(3));
}

#[test]
fn test_get_row() {
    let headers = vec!["a".to_string(), "b".to_string(), "c".to_string()];
    let data = vec![
        vec!["1".to_string(), "2".to_string(), "3".to_string()],
        vec!["4".to_string(), "5".to_string(), "6".to_string()],
    ];
    let csv_holder = CsvHolder::new(headers, data).unwrap();
    assert_eq!(
        csv_holder.row(1).unwrap(),
        vec!["1".to_string(), "2".to_string(), "3".to_string()]
    );
    assert_eq!(
        csv_holder.row(2).unwrap(),
        vec!["4".to_string(), "5".to_string(), "6".to_string()]
    );
}

#[test]
fn test_get_row_with_invalid_row() {
    let headers = vec!["a".to_string(), "b".to_string(), "c".to_string()];
    let data = vec![
        vec!["1".to_string(), "2".to_string(), "3".to_string()],
        vec!["4".to_string(), "5".to_string(), "6".to_string()],
    ];
    let csv_holder = CsvHolder::new(headers, data).unwrap();
    assert!(csv_holder.row(0).is_err());
    assert!(csv_holder.row(3).is_err());
}

#[test]
fn test_get_column() {
    let headers = vec!["a".to_string(), "b".to_string(), "c".to_string()];
    let data = vec![
        vec!["1".to_string(), "2".to_string(), "3".to_string()],
        vec!["4".to_string(), "5".to_string(), "6".to_string()],
    ];
    let csv_holder = CsvHolder::new(headers, data).unwrap();
    assert_eq!(
        csv_holder.column(1).unwrap(),
        vec!["1".to_string(), "4".to_string()]
    );
    assert_eq!(
        csv_holder.column(2).unwrap(),
        vec!["2".to_string(), "5".to_string()]
    );
    assert_eq!(
        csv_holder.column(3).unwrap(),
        vec!["3".to_string(), "6".to_string()]
    );
}

#[test]
fn test_get_column_with_invalid_column() {
    let headers = vec!["a".to_string(), "b".to_string(), "c".to_string()];
    let data = vec![
        vec!["1".to_string(), "2".to_string(), "3".to_string()],
        vec!["4".to_string(), "5".to_string(), "6".to_string()],
    ];
    let csv_holder = CsvHolder::new(headers, data).unwrap();
    assert!(csv_holder.column(0).is_err());
    assert!(csv_holder.column(4).is_err());
}

#[test]
fn test_delete_row() {
    let headers = vec!["a".to_string(), "b".to_string(), "c".to_string()];
    let mut data = vec![
        vec!["1".to_string(), "2".to_string(), "3".to_string()],
        vec!["4".to_string(), "5".to_string(), "6".to_string()],
        vec!["7".to_string(), "8".to_string(), "9".to_string()],
    ];
    let mut csv_holder = CsvHolder::new(headers, data.clone()).unwrap();
    csv_holder.delete_row(2).unwrap();
    data.remove(1);
    assert_eq!(csv_holder.data, data);
}

#[test]
fn test_delete_row_with_invalid_row() {
    let headers = vec!["a".to_string(), "b".to_string(), "c".to_string()];
    let data = vec![
        vec!["1".to_string(), "2".to_string(), "3".to_string()],
        vec!["4".to_string(), "5".to_string(), "6".to_string()],
        vec!["7".to_string(), "8".to_string(), "9".to_string()],
    ];
    let mut csv_holder = CsvHolder::new(headers, data.clone()).unwrap();
    assert!(csv_holder.delete_row(0).is_err());
    assert!(csv_holder.delete_row(4).is_err());
    assert_eq!(csv_holder.data, data);
}

#[test]
fn test_delete_column() {
    let headers = vec!["a".to_string(), "b".to_string(), "c".to_string()];
    let mut data = vec![
        vec!["1".to_string(), "2".to_string(), "3".to_string()],
        vec!["4".to_string(), "5".to_string(), "6".to_string()],
        vec!["7".to_string(), "8".to_string(), "9".to_string()],
    ];
    let mut csv_holder = CsvHolder::new(headers, data.clone()).unwrap();
    csv_holder.delete_column(2).unwrap();
    data.iter_mut().for_each(|row| {
        row.remove(1);
    });
    assert_eq!(csv_holder.data, data);
}

#[test]
fn test_delete_column_with_invalid_column() {
    let headers = vec!["a".to_string(), "b".to_string(), "c".to_string()];
    let data = vec![
        vec!["1".to_string(), "2".to_string(), "3".to_string()],
        vec!["4".to_string(), "5".to_string(), "6".to_string()],
        vec!["7".to_string(), "8".to_string(), "9".to_string()],
    ];
    let mut csv_holder = CsvHolder::new(headers, data.clone()).unwrap();
    assert!(csv_holder.delete_column(0).is_err());
    assert!(csv_holder.delete_column(4).is_err());
    assert_eq!(csv_holder.data, data);
}

use csv_editor::csv_data_handle::{CsvDataHandle, CsvError, Index};
use csv_editor::csv_holder::CsvHolder;
use csv_editor::csv_io::CsvIoError;
use csv_editor::csv_request::{
    handle_csv_request, parse_csv_request, write_help_text, CsvRequest,
};
use csv_editor::session::{respond, respond_to_input};
use csv_editor::text::{parse_usize, push_decimal, split_once_at};

fn strings(cells: &[&str]) -> Vec<String> {
    cells.iter().map(|s| s.to_string()).collect()
}

fn sample() -> CsvHolder {
    CsvHolder::new(
        strings(&["a", "b", "c"]),
        vec![strings(&["1", "2", "3"]), strings(&["4", "5", "6"])],
    )
    .unwrap()
}

#[test]
fn parses_bare_commands() {
    assert!(matches!(parse_csv_request("display"), Some(CsvRequest::Display)));
    assert!(matches!(parse_csv_request("help"), Some(CsvRequest::Help)));
    assert!(matches!(parse_csv_request("dimensions"), Some(CsvRequest::Dimensions)));
    assert!(matches!(
        parse_csv_request("display_headers"),
        Some(CsvRequest::DisplayHeaders)
    ));
    assert!(parse_csv_request("displays").is_none());
    assert!(parse_csv_request("").is_none());
}

#[test]
fn parses_commands_with_arguments() {
    assert!(matches!(
        parse_csv_request("display_row_range 1 3"),
        Some(CsvRequest::DisplayRowRange(1, 3))
    ));
    assert!(parse_csv_request("display_row_range 1").is_none());
    assert!(parse_csv_request("display_row_range 1 x").is_none());
    assert!(matches!(
        parse_csv_request("delete_row 2"),
        Some(CsvRequest::DeleteRow(2))
    ));
    assert!(matches!(
        parse_csv_request("delete_column +3"),
        Some(CsvRequest::DeleteColumn(3))
    ));
    assert!(parse_csv_request("delete_row -1").is_none());
    match parse_csv_request("modify_row 2 x,,y") {
        Some(CsvRequest::ModifyRow { row, new_data }) => {
            assert_eq!(row, 2);
            assert_eq!(new_data, vec!["x", "", "y"]);
        }
        _ => panic!("expected ModifyRow"),
    }
    match parse_csv_request("modify_column 1 p,q") {
        Some(CsvRequest::ModifyColumn { column, new_data }) => {
            assert_eq!(column, 1);
            assert_eq!(new_data, vec!["p", "q"]);
        }
        _ => panic!("expected ModifyColumn"),
    }
    match parse_csv_request("modify_column_by_name b p,q") {
        Some(CsvRequest::ModifyColumnByName {
            column_name,
            new_data,
        }) => {
            assert_eq!(column_name, "b");
            assert_eq!(new_data, vec!["p", "q"]);
        }
        _ => panic!("expected ModifyColumnByName"),
    }
    match parse_csv_request("delete_column_by_name my field") {
        Some(CsvRequest::DeleteColumnByName(name)) => assert_eq!(name, "my field"),
        _ => panic!("expected DeleteColumnByName"),
    }
    match parse_csv_request("write_to_file out.csv") {
        Some(CsvRequest::WriteToFile(path)) => assert_eq!(path, "out.csv"),
        _ => panic!("expected WriteToFile"),
    }
    assert!(parse_csv_request("frobnicate 1").is_none());
}

#[test]
fn parses_numbers_like_std() {
    assert_eq!(parse_usize("0"), Some(0));
    assert_eq!(parse_usize("+42"), Some(42));
    assert_eq!(parse_usize("007"), Some(7));
    assert_eq!(parse_usize(""), None);
    assert_eq!(parse_usize("+"), None);
    assert_eq!(parse_usize("1 "), None);
    assert_eq!(parse_usize("18446744073709551615"), Some(usize::MAX));
    assert_eq!(parse_usize("18446744073709551616"), None);
}

#[test]
fn splits_once() {
    assert_eq!(
        split_once_at("a b c", ' '),
        Some(("a".to_string(), "b c".to_string()))
    );
    assert_eq!(split_once_at("abc", ' '), None);
}

#[test]
fn formats_decimal() {
    let mut s = String::from("n=");
    push_decimal(&mut s, 0);
    push_decimal(&mut s, 1207);
    assert_eq!(s, "n=01207");
}

#[test]
fn error_messages() {
    assert_eq!(CsvError::NoSuchRow(3).message(), "No such row: 3");
    assert_eq!(
        CsvError::FailedToReplaceRow(12).message(),
        "Failed to replace row: 12"
    );
    assert_eq!(CsvError::NoSuchColumn(0).message(), "No such column: 0");
    assert_eq!(
        CsvError::FailedToReplaceColumn(7).message(),
        "Failed to replace column: 7"
    );
    assert_eq!(
        CsvError::NoSuchField("x".to_string()).message(),
        "No such field: x"
    );
    assert_eq!(
        CsvError::NoSuchIndex(Index { row: 2, column: 10 }).message(),
        "Index (2,10) does not exist"
    );
    assert_eq!(CsvIoError::InvalidCsv.message(), "invalid csv");
    let io = CsvIoError::from(std::io::Error::new(std::io::ErrorKind::Other, "disk gone"));
    assert_eq!(io.message(), "io error: disk gone");
}

#[test]
fn help_text_lists_commands() {
    let mut out = String::new();
    write_help_text(&mut out).unwrap();
    assert!(out.starts_with("display\ndisplay_row_range <first_row> <last_row>\n"));
    assert!(out.ends_with("display_headers\nCTRL+C to quit\n"));
    assert_eq!(out.lines().count(), 12);
}

#[test]
fn handles_display_and_dimensions() {
    let mut t = sample();
    let mut out = String::new();
    handle_csv_request(CsvRequest::Display, &mut t, &mut out).unwrap();
    assert_eq!(out, "a,b,c\n1,2,3\n4,5,6\n");
    let mut out = String::new();
    handle_csv_request(CsvRequest::Dimensions, &mut t, &mut out).unwrap();
    assert_eq!(out, "Rows: 2, Columns: 3\n");
    let mut out = String::new();
    handle_csv_request(CsvRequest::DisplayHeaders, &mut t, &mut out).unwrap();
    assert_eq!(out, "a,b,c\n");
    let mut out = String::new();
    handle_csv_request(CsvRequest::DisplayRowRange(2, 2), &mut t, &mut out).unwrap();
    assert_eq!(out, "4,5,6\n");
}

#[test]
fn handles_edits_and_maps_errors() {
    let mut t = sample();
    let mut out = String::new();
    handle_csv_request(
        CsvRequest::ModifyColumnByName {
            column_name: "b".to_string(),
            new_data: strings(&["x", "y"]),
        },
        &mut t,
        &mut out,
    )
    .unwrap();
    assert_eq!(t.column(2).unwrap(), vec!["x", "y"]);
    assert!(matches!(
        handle_csv_request(CsvRequest::DeleteRow(5), &mut t, &mut out),
        Err(CsvIoError::InvalidCsv)
    ));
    handle_csv_request(CsvRequest::DeleteColumnByName("a".to_string()), &mut t, &mut out)
        .unwrap();
    assert_eq!(t.headers, vec!["b", "c"]);
    assert_eq!(out, "");
}

#[test]
fn session_replies() {
    let mut t = sample();
    let mut out = String::new();
    assert_eq!(respond(&mut t, "nonsense", &mut out), None);
    assert_eq!(out, "CSV Request Entered Incorrectly\n");
    let mut out = String::new();
    assert_eq!(respond(&mut t, "delete_row 9", &mut out), None);
    assert_eq!(out, "CSV Request Failed: invalid csv\n");
    let mut out = String::new();
    assert_eq!(
        respond(&mut t, "write_to_file copy.csv", &mut out),
        Some("copy.csv".to_string())
    );
    assert_eq!(out, "a,b,c\n1,2,3\n4,5,6\n");
    let mut out = String::new();
    assert_eq!(respond_to_input(&mut t, "  dimensions \n", &mut out), None);
    assert_eq!(out, "Rows: 2, Columns: 3\n");
}

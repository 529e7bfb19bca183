use vstd::prelude::*;
use vstd::string::StringExecFns;
use crate::csv_io::{
    CsvIoError, lines_text, line_of, table_text, range_ok, range_text, write_csv, write_headers,
    write_csv_row_range,
};
use crate::text::{
    push_char, push_decimal, decimal, split_on, split_once, split_once_at, split_by, usize_of,
    parse_usize, str_eq,
};
use crate::csv_data_handle::{
    CsvDataHandle, rectangular, str_texts, texts, with_column, without_column, first_field_at,
};

verus! {

/// The lines of the command summary shown to the user.
pub open spec fn help_lines() -> Seq<Seq<char>> {
    seq![
        "display"@,
        "display_row_range <first_row> <last_row>"@,
        "modify_row <row> <new_data>"@,
        "delete_row <row>"@,
        "modify_column <column> <new_data>"@,
        "delete_column <column>"@,
        "modify_column_by_name <column_name> <new_data>"@,
        "delete_column_by_name <column_name>"@,
        "dimensions"@,
        "write_to_file <file_name>"@,
        "display_headers"@,
        "CTRL+C to quit"@,
    ]
}

/// A command typed by the user.
pub enum CsvRequest {
    Help,
    Display,
    DisplayHeaders,
    DisplayRowRange(usize, usize),
    ModifyRow { row: usize, new_data: Vec<String> },
    DeleteRow(usize),
    ModifyColumn { column: usize, new_data: Vec<String> },
    DeleteColumn(usize),
    ModifyColumnByName { column_name: String, new_data: Vec<String> },
    DeleteColumnByName(String),
    Dimensions,
    /// Write the table to the file at this path.
    WriteToFile(String),
}

/// A command as numbers and texts.
pub enum RequestModel {
    Help,
    Display,
    DisplayHeaders,
    DisplayRowRange(usize, usize),
    ModifyRow { row: usize, new_data: Seq<Seq<char>> },
    DeleteRow(usize),
    ModifyColumn { column: usize, new_data: Seq<Seq<char>> },
    DeleteColumn(usize),
    ModifyColumnByName { column_name: Seq<char>, new_data: Seq<Seq<char>> },
    DeleteColumnByName(Seq<char>),
    Dimensions,
    WriteToFile(Seq<char>),
}

impl View for CsvRequest {
    type V = RequestModel;

    open spec fn view(&self) -> RequestModel {
        match self {
            CsvRequest::Help => RequestModel::Help,
            CsvRequest::Display => RequestModel::Display,
            CsvRequest::DisplayHeaders => RequestModel::DisplayHeaders,
            CsvRequest::DisplayRowRange(a, b) => RequestModel::DisplayRowRange(*a, *b),
            CsvRequest::ModifyRow { row, new_data } => RequestModel::ModifyRow {
                row: *row,
                new_data: texts(new_data@),
            },
            CsvRequest::DeleteRow(row) => RequestModel::DeleteRow(*row),
            CsvRequest::ModifyColumn { column, new_data } => RequestModel::ModifyColumn {
                column: *column,
                new_data: texts(new_data@),
            },
            CsvRequest::DeleteColumn(column) => RequestModel::DeleteColumn(*column),
            CsvRequest::ModifyColumnByName { column_name, new_data } =>
                RequestModel::ModifyColumnByName {
                column_name: column_name@,
                new_data: texts(new_data@),
            },
            CsvRequest::DeleteColumnByName(name) => RequestModel::DeleteColumnByName(name@),
            CsvRequest::Dimensions => RequestModel::Dimensions,
            CsvRequest::WriteToFile(path) => RequestModel::WriteToFile(path@),
        }
    }
}

/// The command that `command` names, applied to its arguments `args`.
pub open spec fn command_request(command: Seq<char>, args: Seq<char>) -> Option<RequestModel> {
    if command == "display_row_range"@ {
        match split_once(args, ' ') {
            Some((a, b)) => match (usize_of(a), usize_of(b)) {
                (Some(first), Some(last)) => Some(RequestModel::DisplayRowRange(first, last)),
                _ => None,
            },
            None => None,
        }
    } else if command == "modify_row"@ {
        match split_once(args, ' ') {
            Some((a, b)) => match usize_of(a) {
                Some(row) => Some(RequestModel::ModifyRow { row, new_data: split_on(b, ',') }),
                None => None,
            },
            None => None,
        }
    } else if command == "delete_row"@ {
        match usize_of(args) {
            Some(row) => Some(RequestModel::DeleteRow(row)),
            None => None,
        }
    } else if command == "modify_column"@ {
        match split_once(args, ' ') {
            Some((a, b)) => match usize_of(a) {
                Some(column) => Some(
                    RequestModel::ModifyColumn { column, new_data: split_on(b, ',') },
                ),
                None => None,
            },
            None => None,
        }
    } else if command == "delete_column"@ {
        match usize_of(args) {
            Some(column) => Some(RequestModel::DeleteColumn(column)),
            None => None,
        }
    } else if command == "modify_column_by_name"@ {
        match split_once(args, ' ') {
            Some((a, b)) => Some(
                RequestModel::ModifyColumnByName { column_name: a, new_data: split_on(b, ',') },
            ),
            None => None,
        }
    } else if command == "delete_column_by_name"@ {
        Some(RequestModel::DeleteColumnByName(args))
    } else if command == "write_to_file"@ {
        Some(RequestModel::WriteToFile(args))
    } else {
        None
    }
}

/// The command a line of input names: one of the bare words, or a command word, a space,
/// and its arguments.
pub open spec fn parse_request(s: Seq<char>) -> Option<RequestModel> {
    if s == "display"@ {
        Some(RequestModel::Display)
    } else if s == "help"@ {
        Some(RequestModel::Help)
    } else if s == "dimensions"@ {
        Some(RequestModel::Dimensions)
    } else if s == "display_headers"@ {
        Some(RequestModel::DisplayHeaders)
    } else {
        match split_once(s, ' ') {
            Some((command, args)) => command_request(command, args),
            None => None,
        }
    }
}

/// Reads a command with a row or column number and a comma-separated list of values.
fn parse_number_and_values(args: &str) -> (r: Option<(usize, Vec<String>)>)
    ensures
        match split_once(args@, ' ') {
            Some((a, b)) => match usize_of(a) {
                Some(n) => r is Some && r->Some_0.0 == n && texts(r->Some_0.1@) == split_on(b, ','),
                None => r is None,
            },
            None => r is None,
        },
{
    let (a, b) = match split_once_at(args, ' ') {
        Some(p) => p,
        None => {
            return None;
        },
    };
    let n = match parse_usize(a.as_str()) {
        Some(n) => n,
        None => {
            return None;
        },
    };
    Some((n, split_by(b.as_str(), ',')))
}

/// Reads one line of user input as a command, or `None` where it names none.
pub fn parse_csv_request(s: &str) -> (r: Option<CsvRequest>)
    ensures
        match r {
            None => parse_request(s@) is None,
            Some(q) => parse_request(s@) == Some(q@),
        },
{
    if str_eq(s, "display") {
        return Some(CsvRequest::Display);
    }
    if str_eq(s, "help") {
        return Some(CsvRequest::Help);
    }
    if str_eq(s, "dimensions") {
        return Some(CsvRequest::Dimensions);
    }
    if str_eq(s, "display_headers") {
        return Some(CsvRequest::DisplayHeaders);
    }
    let (command, args) = match split_once_at(s, ' ') {
        Some(p) => p,
        None => {
            return None;
        },
    };
    let command = command.as_str();
    let args = args.as_str();
    if str_eq(command, "display_row_range") {
        let (a, b) = match split_once_at(args, ' ') {
            Some(p) => p,
            None => {
                return None;
            },
        };
        let first_row = match parse_usize(a.as_str()) {
            Some(n) => n,
            None => {
                return None;
            },
        };
        let last_row = match parse_usize(b.as_str()) {
            Some(n) => n,
            None => {
                return None;
            },
        };
        Some(CsvRequest::DisplayRowRange(first_row, last_row))
    } else if str_eq(command, "modify_row") {
        match parse_number_and_values(args) {
            Some((row, new_data)) => Some(CsvRequest::ModifyRow { row, new_data }),
            None => None,
        }
    } else if str_eq(command, "delete_row") {
        match parse_usize(args) {
            Some(row) => Some(CsvRequest::DeleteRow(row)),
            None => None,
        }
    } else if str_eq(command, "modify_column") {
        match parse_number_and_values(args) {
            Some((column, new_data)) => Some(CsvRequest::ModifyColumn { column, new_data }),
            None => None,
        }
    } else if str_eq(command, "delete_column") {
        match parse_usize(args) {
            Some(column) => Some(CsvRequest::DeleteColumn(column)),
            None => None,
        }
    } else if str_eq(command, "modify_column_by_name") {
        let (a, b) = match split_once_at(args, ' ') {
            Some(p) => p,
            None => {
                return None;
            },
        };
        Some(CsvRequest::ModifyColumnByName { column_name: a, new_data: split_by(b.as_str(), ',') })
    } else if str_eq(command, "delete_column_by_name") {
        Some(CsvRequest::DeleteColumnByName(String::from_str(args)))
    } else if str_eq(command, "write_to_file") {
        Some(CsvRequest::WriteToFile(String::from_str(args)))
    } else {
        None
    }
}

/// The dimensions line: the number of rows and of columns.
pub open spec fn dimensions_text(rows: nat, columns: nat) -> Seq<char> {
    ("Rows: "@ + decimal(rows) + ", Columns: "@ + decimal(columns)).push('\n')
}

/// What carrying out `q` does to a table with `headers` and `rows` that becomes one with
/// `headers2` and `rows2`, and to the output text `out` that becomes `out2`, when it
/// succeeds (`ok`) or fails.
pub open spec fn request_outcome(
    q: RequestModel,
    headers: Seq<Seq<char>>,
    rows: Seq<Seq<Seq<char>>>,
    out: Seq<char>,
    headers2: Seq<Seq<char>>,
    rows2: Seq<Seq<Seq<char>>>,
    out2: Seq<char>,
    ok: bool,
) -> bool {
    let unchanged = headers2 == headers && rows2 == rows;
    match q {
        RequestModel::Help => ok && unchanged && out2 == out + lines_text(help_lines()),
        RequestModel::Display => ok && unchanged && out2 == out + table_text(headers, rows),
        RequestModel::WriteToFile(_) => ok && unchanged && out2 == out + table_text(headers, rows),
        RequestModel::DisplayHeaders => ok && unchanged && out2 == out + lines_text(
            seq![line_of(headers)],
        ),
        RequestModel::DisplayRowRange(first, last) => unchanged && ok == range_ok(
            rows.len() as int,
            first as int,
            last as int,
        ) && out2 == out + range_text(rows, first as int, last as int),
        RequestModel::Dimensions => ok && unchanged && out2 == out + dimensions_text(
            rows.len(),
            headers.len(),
        ),
        RequestModel::ModifyRow { row, new_data } => out2 == out && headers2 == headers && ok == (1
            <= row <= rows.len() && new_data.len() == headers.len()) && (ok ==> rows2
            == rows.update(row - 1, new_data)) && (!ok ==> unchanged),
        RequestModel::DeleteRow(row) => out2 == out && headers2 == headers && ok == (1 <= row
            <= rows.len()) && (ok ==> rows2 == rows.remove(row - 1)) && (!ok ==> unchanged),
        RequestModel::ModifyColumn { column, new_data } => out2 == out && headers2 == headers
            && ok == (1 <= column <= headers.len() && new_data.len() == rows.len()) && (ok
            ==> rows2 == with_column(rows, column - 1, new_data)) && (!ok ==> unchanged),
        RequestModel::DeleteColumn(column) => out2 == out && ok == (1 <= column <= headers.len())
            && (ok ==> headers2 == headers.remove(column - 1) && rows2 == without_column(
            rows,
            column - 1,
        )) && (!ok ==> unchanged),
        RequestModel::ModifyColumnByName { column_name, new_data } => out2 == out && headers2
            == headers && ok == (headers.contains(column_name) && new_data.len() == rows.len())
            && (ok ==> exists|c: int|
            first_field_at(headers, column_name, c) && rows2 == with_column(rows, c, new_data))
            && (!ok ==> unchanged),
        RequestModel::DeleteColumnByName(column_name) => out2 == out && ok == headers.contains(
            column_name,
        ) && (ok ==> exists|c: int|
            first_field_at(headers, column_name, c) && headers2 == headers.remove(c) && rows2
                == without_column(rows, c)) && (!ok ==> unchanged),
    }
}

/// Carries out one command on the table, appending what it shows to `writer`; for
/// `WriteToFile` that is the table's text, which the caller sends to the named file.
pub fn handle_csv_request<D: CsvDataHandle>(
    csv_request: CsvRequest,
    csv_holder: &mut D,
    writer: &mut String,
) -> (r: Result<(), CsvIoError>)
    requires
        rectangular(old(csv_holder).header_cells(), old(csv_holder).row_cells()),
    ensures
        rectangular(final(csv_holder).header_cells(), final(csv_holder).row_cells()),
        r is Err ==> r->Err_0 matches CsvIoError::InvalidCsv,
        request_outcome(
            csv_request@,
            old(csv_holder).header_cells(),
            old(csv_holder).row_cells(),
            old(writer)@,
            final(csv_holder).header_cells(),
            final(csv_holder).row_cells(),
            final(writer)@,
            r is Ok,
        ),
{
    match csv_request {
        CsvRequest::Help => write_help_text(writer),
        CsvRequest::Display => write_csv(writer, csv_holder),
        CsvRequest::DisplayRowRange(start, end) => write_csv_row_range(
            writer,
            csv_holder,
            start,
            end,
        ),
        CsvRequest::ModifyRow { row, new_data } => match csv_holder.replace_row(row, new_data) {
            Ok(()) => Ok(()),
            Err(_) => Err(CsvIoError::InvalidCsv),
        },
        CsvRequest::DeleteRow(row) => match csv_holder.delete_row(row) {
            Ok(()) => Ok(()),
            Err(_) => Err(CsvIoError::InvalidCsv),
        },
        CsvRequest::ModifyColumn { column, new_data } => match csv_holder.replace_column(
            column,
            new_data,
        ) {
            Ok(()) => Ok(()),
            Err(_) => Err(CsvIoError::InvalidCsv),
        },
        CsvRequest::DeleteColumn(column) => match csv_holder.delete_column(column) {
            Ok(()) => Ok(()),
            Err(_) => Err(CsvIoError::InvalidCsv),
        },
        CsvRequest::ModifyColumnByName { column_name, new_data } => match csv_holder.replace_column_by_field(
            column_name.as_str(),
            new_data,
        ) {
            Ok(()) => Ok(()),
            Err(_) => Err(CsvIoError::InvalidCsv),
        },
        CsvRequest::DeleteColumnByName(column_name) => match csv_holder.delete_column_by_field(
            column_name.as_str(),
        ) {
            Ok(()) => Ok(()),
            Err(_) => Err(CsvIoError::InvalidCsv),
        },
        CsvRequest::Dimensions => {
            let rows = csv_holder.row_count();
            let columns = csv_holder.column_count();
            let ghost start = writer@;
            writer.append("Rows: ");
            push_decimal(writer, rows);
            writer.append(", Columns: ");
            push_decimal(writer, columns);
            push_char(writer, '\n');
            assert(writer@ =~= start + dimensions_text(rows as nat, columns as nat));
            Ok(())
        },
        CsvRequest::WriteToFile(_) => write_csv(writer, csv_holder),
        CsvRequest::DisplayHeaders => write_headers(writer, csv_holder),
    }
}

/// Appends `line` and a newline to `out`.
fn push_line(out: &mut String, line: &str)
    ensures
        final(out)@ == old(out)@ + line@.push('\n'),
{
    out.append(line);
    push_char(out, '\n');
    assert(out@ =~= old(out)@ + line@.push('\n'));
}

/// Appends the command summary to `out`, one command per line.
pub fn write_help_text(out: &mut String) -> (r: Result<(), CsvIoError>)
    ensures
        r is Ok,
        final(out)@ == old(out)@ + lines_text(help_lines()),
{
    let lines: Vec<&str> = vec![
        "display",
        "display_row_range <first_row> <last_row>",
        "modify_row <row> <new_data>",
        "delete_row <row>",
        "modify_column <column> <new_data>",
        "delete_column <column>",
        "modify_column_by_name <column_name> <new_data>",
        "delete_column_by_name <column_name>",
        "dimensions",
        "write_to_file <file_name>",
        "display_headers",
        "CTRL+C to quit",
    ];
    let ghost start = out@;
    let ghost h = str_texts(lines@);
    assert(h =~= help_lines());
    let mut i: usize = 0;
    assert(h.take(0) =~= Seq::<Seq<char>>::empty());
    while i < lines.len()
        invariant
            h == str_texts(lines@),
            0 <= i <= lines@.len(),
            out@ == start + lines_text(h.take(i as int)),
        decreases lines.len() - i,
    {
        push_line(out, lines[i]);
        assert(h.take(i + 1).drop_last() =~= h.take(i as int));
        assert(out@ =~= start + lines_text(h.take(i + 1)));
        i += 1;
    }
    assert(h.take(lines@.len() as int) =~= h);
    Ok(())
}

} // verus!

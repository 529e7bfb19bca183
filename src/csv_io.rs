use vstd::prelude::*;
use vstd::string::StrSliceExecFns;
use vstd::string::StringExecFns;
use crate::csv_data_handle::{CsvDataHandle, CsvError, rectangular, texts, str_texts};
use crate::csv_holder::{CsvHolder, row_texts};
use crate::text::{split_by, split_on, join_with, free_of, push_char, lemma_split_join, lemma_split_on_nonempty};

verus! {

#[verifier::external_type_specification]
#[verifier::external_body]
pub struct ExIoError(std::io::Error);

#[derive(Debug)]
pub enum CsvIoError {
    InvalidCsv,
    IoError(std::io::Error),
}

impl From<CsvError> for CsvIoError {
    fn from(_e: CsvError) -> (r: Self) {
        CsvIoError::InvalidCsv
    }
}

impl vstd::std_specs::convert::FromSpecImpl<CsvError> for CsvIoError {
    open spec fn obeys_from_spec() -> bool {
        true
    }

    open spec fn from_spec(v: CsvError) -> Self {
        CsvIoError::InvalidCsv
    }
}

impl From<std::io::Error> for CsvIoError {
    fn from(e: std::io::Error) -> (r: Self) {
        CsvIoError::IoError(e)
    }
}

impl vstd::std_specs::convert::FromSpecImpl<std::io::Error> for CsvIoError {
    open spec fn obeys_from_spec() -> bool {
        true
    }

    open spec fn from_spec(v: std::io::Error) -> Self {
        CsvIoError::IoError(v)
    }
}

/// Relies on `std::io::Error`'s `Display` (through `to_string`) for the system's description
/// of an I/O failure.
#[verifier::external_body]
fn io_error_text(e: &std::io::Error) -> String {
    e.to_string()
}

impl CsvIoError {
    /// A message for the user that says what went wrong.
    pub fn message(&self) -> (r: String)
        ensures
            self is InvalidCsv ==> r@ == "invalid csv"@,
            self is IoError ==> exists|t: Seq<char>| r@ == "io error: "@ + t,
    {
        match self {
            CsvIoError::InvalidCsv => String::from_str("invalid csv"),
            CsvIoError::IoError(e) => {
                let mut s = String::from_str("io error: ");
                let t = io_error_text(e);
                s.append(t.as_str());
                s
            },
        }
    }
}

// ---- The text form of a table ----

/// One record: its fields joined with commas.
pub open spec fn line_of(cells: Seq<Seq<char>>) -> Seq<char> {
    join_with(cells, ',')
}

/// The records of a sequence of rows.
pub open spec fn row_lines(rows: Seq<Seq<Seq<char>>>) -> Seq<Seq<char>> {
    rows.map_values(|r: Seq<Seq<char>>| line_of(r))
}

/// Lines written one after another, each ended by a newline.
pub open spec fn lines_text(lines: Seq<Seq<char>>) -> Seq<char>
    decreases lines.len(),
{
    if lines.len() == 0 {
        Seq::empty()
    } else {
        lines_text(lines.drop_last()) + lines.last().push('\n')
    }
}

/// The text of a table: its header line, then one line per row.
pub open spec fn table_text(headers: Seq<Seq<char>>, rows: Seq<Seq<Seq<char>>>) -> Seq<char> {
    lines_text(seq![line_of(headers)] + row_lines(rows))
}

/// A line without the carriage return that ends it, if one does.
pub open spec fn strip_cr(l: Seq<char>) -> Seq<char> {
    if l.len() > 0 && l.last() == '\r' {
        l.drop_last()
    } else {
        l
    }
}

/// Each line without its ending carriage return.
pub open spec fn strip_all(lines: Seq<Seq<char>>) -> Seq<Seq<char>> {
    lines.map_values(|l: Seq<char>| strip_cr(l))
}

/// The lines of a text: split at each newline, a carriage return before a newline is
/// dropped, and an empty piece after the last newline is no line.
pub open spec fn text_lines(s: Seq<char>) -> Seq<Seq<char>> {
    let parts = split_on(s, '\n');
    let ended = strip_all(parts.drop_last());
    if parts.last().len() == 0 {
        ended
    } else {
        ended.push(parts.last())
    }
}

/// A cell that holds at least one character.
pub open spec fn filled() -> spec_fn(Seq<char>) -> bool {
    |p: Seq<char>| p.len() > 0
}

/// A row that holds at least one cell.
pub open spec fn non_blank() -> spec_fn(Seq<Seq<char>>) -> bool {
    |r: Seq<Seq<char>>| r.len() > 0
}

/// The cells of a body line: its comma-separated fields, empty ones dropped.
pub open spec fn row_fields(line: Seq<char>) -> Seq<Seq<char>> {
    split_on(line, ',').filter(filled())
}

/// The cells of each body line.
pub open spec fn lines_fields(lines: Seq<Seq<char>>) -> Seq<Seq<Seq<char>>> {
    lines.map_values(|l: Seq<char>| row_fields(l))
}

/// The rows of the body lines; a line with no cell is skipped.
pub open spec fn body_rows(lines: Seq<Seq<char>>) -> Seq<Seq<Seq<char>>> {
    lines_fields(lines).filter(non_blank())
}

/// The table a text describes: the headers of its first line and the rows of the others,
/// or `None` where there is no line or some row does not hold one cell per header.
pub open spec fn parse_table(s: Seq<char>) -> Option<(Seq<Seq<char>>, Seq<Seq<Seq<char>>>)> {
    let lines = text_lines(s);
    if lines.len() == 0 {
        None
    } else {
        let headers = split_on(lines[0], ',');
        let rows = body_rows(lines.drop_first());
        if rectangular(headers, rows) {
            Some((headers, rows))
        } else {
            None
        }
    }
}

// ---- Reading ----

/// `s` without a carriage return at its end.
fn without_cr(s: &str) -> (r: String)
    ensures
        r@ == strip_cr(s@),
{
    let n = s.unicode_len();
    if n > 0 && s.get_char(n - 1) == '\r' {
        String::from_str(s.substring_char(0, n - 1))
    } else {
        String::from_str(s)
    }
}

/// The lines of `text`.
pub fn split_lines(text: &str) -> (r: Vec<String>)
    ensures
        texts(r@) == text_lines(text@),
{
    let parts = split_by(text, '\n');
    proof {
        lemma_split_on_nonempty(text@, '\n');
    }
    let ghost pieces = split_on(text@, '\n');
    let last = parts.len() - 1;
    let mut lines: Vec<String> = Vec::new();
    let mut i: usize = 0;
    while i < last
        invariant
            texts(parts@) == pieces,
            last == parts@.len() - 1,
            0 <= i <= last,
            texts(lines@) == strip_all(pieces.take(i as int)),
        decreases last - i,
    {
        assert(texts(parts@)[i as int] == parts@[i as int]@);
        let line = without_cr(parts[i].as_str());
        let ghost old_lines = lines@;
        lines.push(line);
        assert(line@ == strip_cr(pieces[i as int]));
        assert(texts(lines@) =~= texts(old_lines).push(line@));
        assert(strip_all(pieces.take(i + 1)) =~= strip_all(pieces.take(i as int)).push(strip_cr(pieces[i as int])));
        assert(texts(lines@) =~= strip_all(pieces.take(i + 1)));
        i += 1;
    }
    assert(pieces.take(last as int) =~= pieces.drop_last());
    assert(parts@[last as int]@ == pieces.last());
    if !parts[last].as_str().is_empty() {
        lines.push(parts[last].clone());
        assert(texts(lines@) =~= text_lines(text@));
    }
    lines
}

/// The non-empty ones of `fields`, in order.
fn keep_filled(fields: Vec<String>) -> (r: Vec<String>)
    ensures
        texts(r@) == texts(fields@).filter(filled()),
{
    let mut out: Vec<String> = Vec::new();
    let mut j: usize = 0;
    while j < fields.len()
        invariant
            0 <= j <= fields@.len(),
            texts(out@) == texts(fields@).take(j as int).filter(filled()),
        decreases fields.len() - j,
    {
        let ghost prev = texts(fields@).take(j as int);
        assert(texts(fields@).take(j + 1) =~= prev.push(fields@[j as int]@));
        proof {
            prev.lemma_filter_push(fields@[j as int]@, filled());
        }
        if !fields[j].as_str().is_empty() {
            out.push(fields[j].clone());
            assert(texts(out@) =~= prev.filter(filled()).push(fields@[j as int]@));
        }
        j += 1;
    }
    assert(texts(fields@).take(fields@.len() as int) =~= texts(fields@));
    out
}

/// Builds a table from its text: the first line gives the headers, every other line a row,
/// with its empty fields dropped and skipped where none is left.
pub fn read_csv(text: &str) -> (r: Result<CsvHolder, CsvIoError>)
    ensures
        match parse_table(text@) {
            None => r matches Err(CsvIoError::InvalidCsv),
            Some(t) => r is Ok && texts(r->Ok_0.headers@) == t.0 && row_texts(r->Ok_0.data@)
                == t.1,
        },
{
    let lines = split_lines(text);
    if lines.len() == 0 {
        return Err(CsvIoError::InvalidCsv);
    }
    let ghost all = texts(lines@);
    let headers = split_by(lines[0].as_str(), ',');
    let mut rows: Vec<Vec<String>> = Vec::new();
    let mut k: usize = 1;
    while k < lines.len()
        invariant
            all == texts(lines@),
            1 <= k <= lines@.len(),
            row_texts(rows@) == body_rows(all.subrange(1, k as int)),
        decreases lines.len() - k,
    {
        let ghost prev = all.subrange(1, k as int);
        let ghost mapped = lines_fields(prev);
        let kept = keep_filled(split_by(lines[k].as_str(), ','));
        assert(all.subrange(1, k + 1) =~= prev.push(all[k as int]));
        assert(lines_fields(all.subrange(1, k + 1)) =~= mapped.push(
            texts(kept@),
        ));
        proof {
            mapped.lemma_filter_push(texts(kept@), non_blank());
        }
        if kept.len() > 0 {
            rows.push(kept);
            assert(row_texts(rows@) =~= body_rows(prev).push(texts(kept@)));
        }
        k += 1;
    }
    assert(all.subrange(1, lines@.len() as int) =~= all.drop_first());
    match CsvHolder::new(headers, rows) {
        Some(t) => Ok(t),
        None => Err(CsvIoError::InvalidCsv),
    }
}

// ---- Writing ----

/// Appends one record to `out`: the cells joined with commas, then a newline.
pub fn write_line(out: &mut String, line: &[&str])
    ensures
        final(out)@ == old(out)@ + line_of(str_texts(line@)).push('\n'),
{
    let ghost start = out@;
    let ghost cells = str_texts(line@);
    let mut i: usize = 0;
    while i < line.len()
        invariant
            cells == str_texts(line@),
            0 <= i <= line@.len(),
            out@ == start + join_with(cells.take(i as int), ','),
        decreases line.len() - i,
    {
        let ghost before = out@;
        if i > 0 {
            push_char(out, ',');
        }
        out.append(line[i]);
        proof {
            let t = cells.take(i + 1);
            assert(t.drop_last() =~= cells.take(i as int));
            assert(t.last() == line@[i as int]@);
            assert(out@ =~= start + join_with(t, ','));
        }
        i += 1;
    }
    assert(cells.take(line@.len() as int) =~= cells);
    push_char(out, '\n');
    assert(out@ =~= start + line_of(cells).push('\n'));
}

/// Appends the header line of the table to `out`.
pub fn write_headers<D: CsvDataHandle>(out: &mut String, data_provider: &D) -> (r: Result<
    (),
    CsvIoError,
>)
    ensures
        r is Ok,
        final(out)@ == old(out)@ + lines_text(seq![line_of(data_provider.header_cells())]),
{
    let headers = data_provider.headers();
    write_line(out, headers.as_slice());
    proof {
        let one = seq![line_of(data_provider.header_cells())];
        assert(one.drop_last() =~= Seq::<Seq<char>>::empty());
        assert(lines_text(one.drop_last()) =~= Seq::<char>::empty());
        assert(lines_text(one) =~= line_of(data_provider.header_cells()).push('\n'));
    }
    Ok(())
}

/// Appends the text of the whole table to `out`: the header line, then each row.
pub fn write_csv<D: CsvDataHandle>(out: &mut String, data_provider: &D) -> (r: Result<
    (),
    CsvIoError,
>)
    ensures
        r is Ok,
        final(out)@ == old(out)@ + table_text(data_provider.header_cells(), data_provider.row_cells()),
{
    let ghost start = out@;
    let ghost head = seq![line_of(data_provider.header_cells())];
    let ghost rows = data_provider.row_cells();
    write_headers(out, data_provider);
    let row_count = data_provider.row_count();
    let mut i: usize = 0;
    assert(head + row_lines(rows.take(0)) =~= head);
    while i < row_count
        invariant
            rows == data_provider.row_cells(),
            row_count == rows.len(),
            0 <= i <= row_count,
            out@ == start + lines_text(head + row_lines(rows.take(i as int))),
        decreases row_count - i,
    {
        let row = match data_provider.row(i + 1) {
            Ok(row) => row,
            Err(_) => {
                return Err(CsvIoError::InvalidCsv);
            },
        };
        write_line(out, row.as_slice());
        proof {
            let next = head + row_lines(rows.take(i + 1));
            assert(next.drop_last() =~= head + row_lines(rows.take(i as int)));
            assert(next.last() == line_of(rows[i as int]));
        }
        i += 1;
    }
    assert(rows.take(row_count as int) =~= rows);
    Ok(())
}

/// A row range can be written whole: it is empty, or all its rows exist.
pub open spec fn range_ok(row_count: int, first: int, last: int) -> bool {
    first > last || (1 <= first && last <= row_count)
}

/// What writing the rows `first` to `last` (one-based, both included) appends: the lines of
/// those rows, up to the first one that does not exist.
pub open spec fn range_text(rows: Seq<Seq<Seq<char>>>, first: int, last: int) -> Seq<char> {
    if first > last || first == 0 || first > rows.len() {
        Seq::empty()
    } else {
        lines_text(row_lines(rows.subrange(first - 1, if last <= rows.len() { last } else { rows.len() as int })))
    }
}

/// Appends rows `first_row` to `last_row` (one-based, both included) to `out`, one line each,
/// stopping at the first row that does not exist.
pub fn write_csv_row_range<D: CsvDataHandle>(
    out: &mut String,
    data_provider: &D,
    first_row: usize,
    last_row: usize,
) -> (r: Result<(), CsvIoError>)
    ensures
        (r is Ok) == range_ok(data_provider.row_cells().len() as int, first_row as int, last_row as int),
        r is Err ==> r->Err_0 matches CsvIoError::InvalidCsv,
        final(out)@ == old(out)@ + range_text(data_provider.row_cells(), first_row as int, last_row as int),
{
    if first_row > last_row {
        return Ok(());
    }
    if first_row == 0 || first_row > data_provider.row_count() {
        return Err(CsvIoError::InvalidCsv);
    }
    let ghost start = out@;
    let ghost rows = data_provider.row_cells();
    let mut i: usize = first_row;
    loop
        invariant
            rows == data_provider.row_cells(),
            start == old(out)@,
            1 <= first_row <= i <= last_row,
            first_row <= rows.len(),
            i <= rows.len() + 1,
            out@ == start + lines_text(row_lines(rows.subrange(first_row - 1, i - 1))),
        decreases last_row - i,
    {
        let row = match data_provider.row(i) {
            Ok(row) => row,
            Err(_) => {
                assert(i - 1 == rows.len());
                assert(rows.subrange(first_row - 1, i - 1) == rows.subrange(
                    first_row - 1,
                    rows.len() as int,
                ));
                return Err(CsvIoError::InvalidCsv);
            },
        };
        let ghost before = out@;
        write_line(out, row.as_slice());
        proof {
            let next = row_lines(rows.subrange(first_row - 1, i as int));
            assert(out@ =~= before + line_of(rows[i - 1]).push('\n'));
            assert(next.drop_last() =~= row_lines(rows.subrange(first_row - 1, i - 1)));
            assert(next.last() == line_of(rows[i - 1]));
            assert(out@ =~= start + lines_text(next));
        }
        if i == last_row {
            return Ok(());
        }
        i += 1;
    }
}

// ---- Reading back what was written ----

/// A nonempty sequence of lines, each followed by a newline, is the lines joined with
/// newlines and one more newline.
proof fn lemma_lines_text_join(lines: Seq<Seq<char>>)
    requires
        lines.len() >= 1,
    ensures
        lines_text(lines) == join_with(lines, '\n').push('\n'),
    decreases lines.len(),
{
    if lines.len() == 1 {
        assert(lines.drop_last() =~= Seq::<Seq<char>>::empty());
        assert(lines_text(lines.drop_last()) =~= Seq::<char>::empty());
        assert(lines_text(lines) =~= join_with(lines, '\n').push('\n'));
    } else {
        lemma_lines_text_join(lines.drop_last());
        assert(lines_text(lines) =~= join_with(lines, '\n').push('\n'));
    }
}

/// Joining pieces that do not hold `c` with a separator other than `c` gives a text
/// without `c`.
proof fn lemma_join_free(parts: Seq<Seq<char>>, d: char, c: char)
    requires
        c != d,
        free_of(parts, c),
    ensures
        !join_with(parts, d).contains(c),
    decreases parts.len(),
{
    if parts.len() == 1 {
        assert(!parts[0].contains(c));
    } else if parts.len() > 1 {
        let init = parts.drop_last();
        assert(free_of(init, c)) by {
            assert forall|i: int| 0 <= i < init.len() implies !(#[trigger] init[i]).contains(c) by {
                assert(init[i] == parts[i]);
            }
        }
        lemma_join_free(init, d, c);
        assert(!parts[parts.len() - 1].contains(c));
        let j = join_with(parts, d);
        let a = join_with(init, d).push(d);
        if j.contains(c) {
            let k = choose|k: int| 0 <= k < j.len() && j[k] == c;
            if k < a.len() {
                if k < a.len() - 1 {
                    assert(join_with(init, d)[k] == c);
                }
            } else {
                assert(parts.last()[k - a.len()] == c);
            }
        }
    }
}

/// Filtering keeps a sequence whole when every item passes.
proof fn lemma_filter_all<A>(s: Seq<A>, p: spec_fn(A) -> bool)
    requires
        forall|i: int| 0 <= i < s.len() ==> p(#[trigger] s[i]),
    ensures
        s.filter(p) == s,
    decreases s.len(),
{
    if s.len() == 0 {
        reveal(Seq::filter);
    } else {
        let init = s.drop_last();
        lemma_filter_all(init, p);
        init.lemma_filter_push(s.last(), p);
        assert(init.push(s.last()) =~= s);
    }
}

/// The cells of a row hold neither a comma, a newline nor a carriage return, and none is empty.
pub open spec fn plain_cells(cells: Seq<Seq<char>>) -> bool {
    &&& free_of(cells, ',')
    &&& free_of(cells, '\n')
    &&& free_of(cells, '\r')
}

/// Reading the text that `write_csv` writes for a table gives the table back, when the table
/// has at least one header, no header or cell holds a comma, a newline or a carriage return,
/// and no cell is empty.
pub proof fn lemma_parse_table_text(headers: Seq<Seq<char>>, rows: Seq<Seq<Seq<char>>>)
    requires
        headers.len() >= 1,
        rectangular(headers, rows),
        plain_cells(headers),
        forall|i: int| 0 <= i < rows.len() ==> plain_cells(#[trigger] rows[i]),
        forall|i: int, j: int| 0 <= i < rows.len() && 0 <= j < rows[i].len() ==> (
        #[trigger] rows[i][j]).len() > 0,
    ensures
        parse_table(table_text(headers, rows)) == Some((headers, rows)),
{
    let lines = seq![line_of(headers)] + row_lines(rows);
    assert forall|i: int| 0 <= i < lines.len() implies !(#[trigger] lines[i]).contains('\n')
        && !lines[i].contains('\r') by {
        if i == 0 {
            lemma_join_free(headers, ',', '\n');
            lemma_join_free(headers, ',', '\r');
        } else {
            assert(lines[i] == line_of(rows[i - 1]));
            lemma_join_free(rows[i - 1], ',', '\n');
            lemma_join_free(rows[i - 1], ',', '\r');
        }
    }
    lemma_lines_text_join(lines);
    let t = table_text(headers, rows);
    assert(t.drop_last() =~= join_with(lines, '\n'));
    lemma_split_join(lines, '\n');
    assert(split_on(t, '\n') == lines.push(Seq::empty()));
    assert(lines.push(Seq::<char>::empty()).drop_last() =~= lines);
    assert(strip_all(lines) =~= lines) by {
        assert forall|i: int| 0 <= i < lines.len() implies strip_cr(#[trigger] lines[i])
            == lines[i] by {
            if lines[i].len() > 0 && lines[i].last() == '\r' {
                assert(lines[i][lines[i].len() - 1] == '\r');
            }
        }
    }
    assert(text_lines(t) == lines);
    lemma_split_join(headers, ',');
    assert(lines.drop_first() =~= row_lines(rows));
    assert(lines_fields(row_lines(rows)) =~= rows) by {
        assert forall|i: int| 0 <= i < rows.len() implies row_fields(
            #[trigger] row_lines(rows)[i],
        ) == rows[i] by {
            assert(rows[i].len() == headers.len());
            lemma_split_join(rows[i], ',');
            assert forall|j: int| 0 <= j < rows[i].len() implies filled()(#[trigger] rows[i][j]) by {}
            lemma_filter_all(rows[i], filled());
        }
    }
    assert forall|i: int| 0 <= i < rows.len() implies non_blank()(#[trigger] rows[i]) by {
        assert(rows[i].len() == headers.len());
    }
    lemma_filter_all(rows, non_blank());
}

} // verus!

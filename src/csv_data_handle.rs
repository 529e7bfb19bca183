use vstd::prelude::*;
use vstd::string::StringExecFns;
use crate::text::{decimal, push_decimal, push_char};

verus! {

/// A one-based cell address: `row` counts data rows, `column` counts headers.
#[derive(Debug, Clone, Copy, PartialEq, Eq, Structural)]
pub struct Index {
    pub row: usize,
    pub column: usize,
}

#[derive(Debug)]
pub enum CsvError {
    NoSuchRow(usize),
    FailedToReplaceRow(usize),
    NoSuchColumn(usize),
    FailedToReplaceColumn(usize),
    NoSuchField(String),
    NoSuchIndex(Index),
}

pub type CsvResult<T> = Result<T, CsvError>;

/// The message that describes an error.
pub open spec fn error_text(e: CsvError) -> Seq<char> {
    match e {
        CsvError::NoSuchRow(row) => "No such row: "@ + decimal(row as nat),
        CsvError::FailedToReplaceRow(row) => "Failed to replace row: "@ + decimal(row as nat),
        CsvError::NoSuchColumn(column) => "No such column: "@ + decimal(column as nat),
        CsvError::FailedToReplaceColumn(column) => "Failed to replace column: "@ + decimal(
            column as nat,
        ),
        CsvError::NoSuchField(field) => "No such field: "@ + field@,
        CsvError::NoSuchIndex(index) => "Index ("@ + decimal(index.row as nat) + seq![',']
            + decimal(index.column as nat) + ") does not exist"@,
    }
}

impl CsvError {
    /// A message for the user that says what went wrong.
    pub fn message(&self) -> (r: String)
        ensures
            r@ == error_text(*self),
    {
        match self {
            CsvError::NoSuchRow(row) => {
                let mut s = String::from_str("No such row: ");
                push_decimal(&mut s, *row);
                s
            },
            CsvError::FailedToReplaceRow(row) => {
                let mut s = String::from_str("Failed to replace row: ");
                push_decimal(&mut s, *row);
                s
            },
            CsvError::NoSuchColumn(column) => {
                let mut s = String::from_str("No such column: ");
                push_decimal(&mut s, *column);
                s
            },
            CsvError::FailedToReplaceColumn(column) => {
                let mut s = String::from_str("Failed to replace column: ");
                push_decimal(&mut s, *column);
                s
            },
            CsvError::NoSuchField(field) => {
                let mut s = String::from_str("No such field: ");
                s.append(field.as_str());
                s
            },
            CsvError::NoSuchIndex(index) => {
                let mut s = String::from_str("Index (");
                push_decimal(&mut s, index.row);
                push_char(&mut s, ',');
                push_decimal(&mut s, index.column);
                s.append(") does not exist");
                assert(s@ =~= error_text(*self));
                s
            },
        }
    }
}

/// Every row holds exactly one cell per header.
pub open spec fn rectangular(headers: Seq<Seq<char>>, rows: Seq<Seq<Seq<char>>>) -> bool {
    forall|i: int| 0 <= i < rows.len() ==> #[trigger] rows[i].len() == headers.len()
}

/// The texts of a sequence of owned strings.
pub open spec fn texts(v: Seq<String>) -> Seq<Seq<char>> {
    v.map_values(|s: String| s@)
}

/// The texts of a sequence of borrowed strings.
pub open spec fn str_texts(v: Seq<&str>) -> Seq<Seq<char>> {
    v.map_values(|s: &str| s@)
}

/// The cells at zero-based column `c`, one per row, in row order.
pub open spec fn column_cells(rows: Seq<Seq<Seq<char>>>, c: int) -> Seq<Seq<char>> {
    Seq::new(rows.len(), |i: int| rows[i][c])
}

/// `rows` with the cell at zero-based column `c` of row `i` replaced by `values[i]`.
pub open spec fn with_column(
    rows: Seq<Seq<Seq<char>>>,
    c: int,
    values: Seq<Seq<char>>,
) -> Seq<Seq<Seq<char>>> {
    Seq::new(rows.len(), |i: int| rows[i].update(c, values[i]))
}

/// `rows` with the cell at zero-based column `c` removed from every row.
pub open spec fn without_column(rows: Seq<Seq<Seq<char>>>, c: int) -> Seq<Seq<Seq<char>>> {
    Seq::new(rows.len(), |i: int| rows[i].remove(c))
}

/// `c` is the zero-based position of the first header equal to `field`.
pub open spec fn first_field_at(headers: Seq<Seq<char>>, field: Seq<char>, c: int) -> bool {
    &&& 0 <= c < headers.len()
    &&& headers[c] == field
    &&& forall|j: int| 0 <= j < c ==> headers[j] != field
}

/// `e` reports that no header is named `field`.
pub open spec fn is_no_such_field(e: CsvError, field: Seq<char>) -> bool {
    match e {
        CsvError::NoSuchField(s) => s@ == field,
        _ => false,
    }
}

/// After the cell at `index` is replaced by `value` (as `replace_data_at` does), that cell
/// reads `value`, every other cell reads as before, and the table stays rectangular.
pub proof fn lemma_replaced_cell_reads_back(
    headers: Seq<Seq<char>>,
    rows: Seq<Seq<Seq<char>>>,
    index: Index,
    value: Seq<char>,
)
    requires
        rectangular(headers, rows),
        1 <= index.row <= rows.len(),
        1 <= index.column <= headers.len(),
    ensures
        ({
            let after = rows.update(index.row - 1, rows[index.row - 1].update(index.column - 1, value));
            &&& rectangular(headers, after)
            &&& after[index.row - 1][index.column - 1] == value
            &&& forall|i: int, j: int|
                0 <= i < rows.len() && 0 <= j < headers.len() && (i != index.row - 1 || j
                    != index.column - 1) ==> #[trigger] after[i][j] == rows[i][j]
        }),
{
    let after = rows.update(index.row - 1, rows[index.row - 1].update(index.column - 1, value));
    assert forall|i: int| 0 <= i < after.len() implies #[trigger] after[i].len() == headers.len() by {
        assert(rows[i].len() == headers.len());
    }
}

/// Deleting row `row` (one-based, as `delete_row` does) leaves one row fewer, moves each later
/// row up by one, keeps the earlier ones, and leaves no row when it was the only one.
pub proof fn lemma_delete_row_shifts(rows: Seq<Seq<Seq<char>>>, row: int)
    requires
        1 <= row <= rows.len(),
    ensures
        rows.remove(row - 1).len() == rows.len() - 1,
        forall|i: int| 0 <= i < row - 1 ==> #[trigger] rows.remove(row - 1)[i] == rows[i],
        forall|i: int| row - 1 <= i < rows.len() - 1 ==> #[trigger] rows.remove(row - 1)[i] == rows[i + 1],
        rows.len() == 1 ==> rows.remove(row - 1).len() == 0,
{
}

/// Deleting column `column` (one-based, as `delete_column` does) leaves one header fewer and
/// one cell fewer in every row, and the table stays rectangular.
pub proof fn lemma_delete_column_keeps_shape(
    headers: Seq<Seq<char>>,
    rows: Seq<Seq<Seq<char>>>,
    column: int,
)
    requires
        rectangular(headers, rows),
        1 <= column <= headers.len(),
    ensures
        headers.remove(column - 1).len() == headers.len() - 1,
        without_column(rows, column - 1).len() == rows.len(),
        forall|i: int| 0 <= i < rows.len() ==> #[trigger] without_column(rows, column - 1)[i].len()
            == rows[i].len() - 1,
        rectangular(headers.remove(column - 1), without_column(rows, column - 1)),
{
    assert forall|i: int| 0 <= i < rows.len() implies #[trigger] without_column(
        rows,
        column - 1,
    )[i].len() == rows[i].len() - 1 by {
        assert(rows[i].len() == headers.len());
    }
}

/// A table that can be queried and edited through one-based row and column numbers.
///
/// Its state is given by `header_cells` and `row_cells`; every operation keeps the
/// table rectangular, and an operation that fails leaves both unchanged.
pub trait CsvDataHandle {
    /// The header names, in column order.
    spec fn header_cells(&self) -> Seq<Seq<char>>;

    /// The data rows, in row order, each as its cells in column order.
    spec fn row_cells(&self) -> Seq<Seq<Seq<char>>>;

    fn data_at(&self, index: Index) -> (r: CsvResult<&str>)
        requires
            rectangular(self.header_cells(), self.row_cells()),
        ensures
            r is Ok <==> (1 <= index.row <= self.row_cells().len() && 1 <= index.column
                <= self.header_cells().len()),
            r is Ok ==> r->Ok_0@ == self.row_cells()[index.row - 1][index.column - 1],
            r is Err ==> r->Err_0 == CsvError::NoSuchIndex(index),
    ;

    fn row(&self, row: usize) -> (r: CsvResult<Vec<&str>>)
        ensures
            r is Ok <==> 1 <= row <= self.row_cells().len(),
            r is Ok ==> str_texts(r->Ok_0@) == self.row_cells()[row - 1],
            r is Err ==> r->Err_0 == CsvError::NoSuchRow(row),
    ;

    fn column(&self, column: usize) -> (r: CsvResult<Vec<&str>>)
        requires
            rectangular(self.header_cells(), self.row_cells()),
        ensures
            r is Ok <==> 1 <= column <= self.header_cells().len(),
            r is Ok ==> str_texts(r->Ok_0@) == column_cells(self.row_cells(), column - 1),
            r is Err ==> r->Err_0 == CsvError::NoSuchColumn(column),
    ;

    fn headers(&self) -> (r: Vec<&str>)
        ensures
            str_texts(r@) == self.header_cells(),
    ;

    fn property_count(&self) -> (r: usize)
        ensures
            r == self.header_cells().len(),
    ;

    fn row_count(&self) -> (r: usize)
        ensures
            r == self.row_cells().len(),
    ;

    fn column_count(&self) -> (r: usize)
        ensures
            r == self.header_cells().len(),
    ;

    fn column_of_field(&self, field: &str) -> (r: CsvResult<usize>)
        ensures
            r is Ok <==> self.header_cells().contains(field@),
            r is Ok ==> first_field_at(self.header_cells(), field@, r->Ok_0 - 1),
            r is Err ==> is_no_such_field(r->Err_0, field@),
    ;

    fn replace_data_at(&mut self, index: Index, new_data: String) -> (r: CsvResult<()>)
        requires
            rectangular(old(self).header_cells(), old(self).row_cells()),
        ensures
            rectangular(final(self).header_cells(), final(self).row_cells()),
            final(self).header_cells() == old(self).header_cells(),
            r is Ok <==> (1 <= index.row <= old(self).row_cells().len() && 1 <= index.column
                <= old(self).header_cells().len()),
            r is Ok ==> final(self).row_cells() == old(self).row_cells().update(
                index.row - 1,
                old(self).row_cells()[index.row - 1].update(index.column - 1, new_data@),
            ),
            r is Err ==> r->Err_0 == CsvError::NoSuchIndex(index),
            r is Err ==> final(self).row_cells() == old(self).row_cells(),
    ;

    fn replace_column(&mut self, column: usize, new_data: Vec<String>) -> (r: CsvResult<()>)
        requires
            rectangular(old(self).header_cells(), old(self).row_cells()),
        ensures
            rectangular(final(self).header_cells(), final(self).row_cells()),
            final(self).header_cells() == old(self).header_cells(),
            r is Ok <==> (1 <= column <= old(self).header_cells().len() && new_data.len()
                == old(self).row_cells().len()),
            r is Ok ==> final(self).row_cells() == with_column(
                old(self).row_cells(),
                column - 1,
                texts(new_data@),
            ),
            !(1 <= column <= old(self).header_cells().len()) ==> r == Err::<(), CsvError>(
                CsvError::NoSuchColumn(column),
            ),
            (1 <= column <= old(self).header_cells().len() && new_data.len() != old(
                self,
            ).row_cells().len()) ==> r == Err::<(), CsvError>(
                CsvError::FailedToReplaceColumn(column),
            ),
            r is Err ==> final(self).row_cells() == old(self).row_cells(),
    ;

    /// Replaces the column whose header is the first one equal to `field`.
    fn replace_column_by_field(&mut self, field: &str, new_data: Vec<String>) -> (r: CsvResult<
        (),
    >)
        requires
            rectangular(old(self).header_cells(), old(self).row_cells()),
        ensures
            rectangular(final(self).header_cells(), final(self).row_cells()),
            final(self).header_cells() == old(self).header_cells(),
            r is Ok <==> (old(self).header_cells().contains(field@) && new_data.len() == old(
                self,
            ).row_cells().len()),
            r is Ok ==> exists|c: int|
                first_field_at(old(self).header_cells(), field@, c) && final(self).row_cells()
                    == with_column(old(self).row_cells(), c, texts(new_data@)),
            !old(self).header_cells().contains(field@) ==> is_no_such_field(r->Err_0, field@),
            (old(self).header_cells().contains(field@) && new_data.len() != old(
                self,
            ).row_cells().len()) ==> exists|c: int|
                first_field_at(old(self).header_cells(), field@, c) && r == Err::<(), CsvError>(
                    CsvError::FailedToReplaceColumn((c + 1) as usize),
                ),
            r is Err ==> final(self).row_cells() == old(self).row_cells(),
    {
        let column = match self.column_of_field(field) {
            Ok(c) => c,
            Err(e) => {
                return Err(e);
            },
        };
        self.replace_column(column, new_data)
    }

    fn replace_row(&mut self, row: usize, new_data: Vec<String>) -> (r: CsvResult<()>)
        requires
            rectangular(old(self).header_cells(), old(self).row_cells()),
        ensures
            rectangular(final(self).header_cells(), final(self).row_cells()),
            final(self).header_cells() == old(self).header_cells(),
            r is Ok <==> (1 <= row <= old(self).row_cells().len() && new_data.len() == old(
                self,
            ).header_cells().len()),
            r is Ok ==> final(self).row_cells() == old(self).row_cells().update(
                row - 1,
                texts(new_data@),
            ),
            !(1 <= row <= old(self).row_cells().len()) ==> r == Err::<(), CsvError>(
                CsvError::NoSuchRow(row),
            ),
            (1 <= row <= old(self).row_cells().len() && new_data.len() != old(
                self,
            ).header_cells().len()) ==> r == Err::<(), CsvError>(
                CsvError::FailedToReplaceRow(row),
            ),
            r is Err ==> final(self).row_cells() == old(self).row_cells(),
    ;

    fn delete_row(&mut self, row: usize) -> (r: CsvResult<()>)
        requires
            rectangular(old(self).header_cells(), old(self).row_cells()),
        ensures
            rectangular(final(self).header_cells(), final(self).row_cells()),
            final(self).header_cells() == old(self).header_cells(),
            r is Ok <==> 1 <= row <= old(self).row_cells().len(),
            r is Ok ==> final(self).row_cells() == old(self).row_cells().remove(row - 1),
            r is Err ==> r->Err_0 == CsvError::NoSuchRow(row),
            r is Err ==> final(self).row_cells() == old(self).row_cells(),
    ;

    fn delete_column(&mut self, column: usize) -> (r: CsvResult<()>)
        requires
            rectangular(old(self).header_cells(), old(self).row_cells()),
        ensures
            rectangular(final(self).header_cells(), final(self).row_cells()),
            r is Ok <==> 1 <= column <= old(self).header_cells().len(),
            r is Ok ==> final(self).header_cells() == old(self).header_cells().remove(column - 1),
            r is Ok ==> final(self).row_cells() == without_column(
                old(self).row_cells(),
                column - 1,
            ),
            r is Err ==> r->Err_0 == CsvError::NoSuchColumn(column),
            r is Err ==> final(self).header_cells() == old(self).header_cells(),
            r is Err ==> final(self).row_cells() == old(self).row_cells(),
    ;

    /// Deletes the column whose header is the first one equal to `field`.
    fn delete_column_by_field(&mut self, field: &str) -> (r: CsvResult<()>)
        requires
            rectangular(old(self).header_cells(), old(self).row_cells()),
        ensures
            rectangular(final(self).header_cells(), final(self).row_cells()),
            r is Ok <==> old(self).header_cells().contains(field@),
            r is Ok ==> exists|c: int|
                first_field_at(old(self).header_cells(), field@, c) && final(self).header_cells()
                    == old(self).header_cells().remove(c) && final(self).row_cells()
                    == without_column(old(self).row_cells(), c),
            r is Err ==> is_no_such_field(r->Err_0, field@),
            r is Err ==> final(self).header_cells() == old(self).header_cells(),
            r is Err ==> final(self).row_cells() == old(self).row_cells(),
    {
        let column = match self.column_of_field(field) {
            Ok(c) => c,
            Err(e) => {
                return Err(e);
            },
        };
        self.delete_column(column)
    }
}

} // verus!

use vstd::prelude::*;
use vstd::string::StringExecFns;
use crate::text::str_eq;
use crate::csv_data_handle::{
    CsvDataHandle, CsvError, CsvResult, Index, rectangular, texts, str_texts, column_cells,
    with_column, without_column,
};

verus! {

/// A table held in memory: the header names and the data rows.
pub struct CsvHolder {
    pub headers: Vec<String>,
    pub data: Vec<Vec<String>>,
}

/// The texts of the rows of a table, cell by cell.
pub open spec fn row_texts(data: Seq<Vec<String>>) -> Seq<Seq<Seq<char>>> {
    data.map_values(|r: Vec<String>| texts(r@))
}

impl CsvHolder {
    /// Every row of the table holds one cell per header.
    pub open spec fn wf(&self) -> bool {
        rectangular(texts(self.headers@), row_texts(self.data@))
    }

    /// Builds a table, or `None` where some row does not hold one cell per header.
    pub fn new(headers: Vec<String>, data: Vec<Vec<String>>) -> (r: Option<Self>)
        ensures
            r is Some <==> rectangular(texts(headers@), row_texts(data@)),
            r is Some ==> r->Some_0.headers@ == headers@ && r->Some_0.data@ == data@,
    {
        let header_count = headers.len();
        let mut i: usize = 0;
        while i < data.len()
            invariant
                0 <= i <= data.len(),
                header_count == headers@.len(),
                forall|j: int| 0 <= j < i ==> (#[trigger] data@[j]).len() == header_count,
            decreases data.len() - i,
        {
            if data[i].len() != header_count {
                assert(row_texts(data@)[i as int].len() != texts(headers@).len());
                return None;
            }
            i += 1;
        }
        assert forall|j: int| 0 <= j < row_texts(data@).len() implies #[trigger] row_texts(
            data@,
        )[j].len() == texts(headers@).len() by {
            assert(data@[j].len() == header_count);
        }
        Some(Self { headers, data })
    }

    pub fn row_exists(&self, row: usize) -> (r: bool)
        ensures
            r == (1 <= row <= self.data@.len()),
    {
        row > 0 && row <= self.data.len()
    }

    pub fn column_exists(&self, column: usize) -> (r: bool)
        ensures
            r == (1 <= column <= self.headers@.len()),
    {
        column > 0 && column <= self.headers.len()
    }

    pub fn index_exists(&self, index: Index) -> (r: bool)
        ensures
            r == (1 <= index.row <= self.data@.len() && 1 <= index.column
                <= self.headers@.len()),
    {
        let Index { row, column } = index;
        self.column_exists(column) && self.row_exists(row)
    }
}

impl CsvDataHandle for CsvHolder {
    open spec fn header_cells(&self) -> Seq<Seq<char>> {
        texts(self.headers@)
    }

    open spec fn row_cells(&self) -> Seq<Seq<Seq<char>>> {
        row_texts(self.data@)
    }

    fn data_at(&self, index: Index) -> (r: CsvResult<&str>) {
        if !self.index_exists(index) {
            return Err(CsvError::NoSuchIndex(index));
        }
        let Index { row, column } = index;
        proof {
            assert(self.data@[row - 1]@.len() == self.headers@.len()) by {
                assert(row_texts(self.data@)[row - 1].len() == texts(self.headers@).len());
            }
        }
        Ok(self.data.index_one_based(row).index_one_based(column).as_str())
    }

    fn row(&self, row: usize) -> (r: CsvResult<Vec<&str>>) {
        if !self.row_exists(row) {
            return Err(CsvError::NoSuchRow(row));
        }
        let cells = self.data.index_one_based(row);
        let mut out: Vec<&str> = Vec::new();
        let mut i: usize = 0;
        while i < cells.len()
            invariant
                0 <= i <= cells@.len(),
                out@.len() == i,
                forall|j: int| 0 <= j < i ==> (#[trigger] out@[j])@ == cells@[j]@,
            decreases cells.len() - i,
        {
            out.push(cells[i].as_str());
            i += 1;
        }
        assert(str_texts(out@) =~= texts(cells@));
        Ok(out)
    }

    fn column(&self, column: usize) -> (r: CsvResult<Vec<&str>>) {
        if !self.column_exists(column) {
            return Err(CsvError::NoSuchColumn(column));
        }
        let mut out: Vec<&str> = Vec::new();
        let mut i: usize = 0;
        while i < self.data.len()
            invariant
                1 <= column <= self.headers@.len(),
                self.wf(),
                0 <= i <= self.data@.len(),
                out@.len() == i,
                forall|j: int|
                    0 <= j < i ==> (#[trigger] out@[j])@ == column_cells(self.row_cells(), column - 1)[j],
            decreases self.data.len() - i,
        {
            assert(row_texts(self.data@)[i as int].len() == texts(self.headers@).len());
            out.push(self.data[i].index_one_based(column).as_str());
            assert(row_texts(self.data@)[i as int][column - 1] == self.data@[i as int]@[column - 1]@);
            i += 1;
        }
        assert(str_texts(out@) =~= column_cells(self.row_cells(), column - 1));
        Ok(out)
    }

    fn headers(&self) -> (r: Vec<&str>) {
        let mut out: Vec<&str> = Vec::new();
        let mut i: usize = 0;
        while i < self.headers.len()
            invariant
                0 <= i <= self.headers@.len(),
                out@.len() == i,
                forall|j: int| 0 <= j < i ==> (#[trigger] out@[j])@ == self.headers@[j]@,
            decreases self.headers.len() - i,
        {
            out.push(self.headers[i].as_str());
            i += 1;
        }
        assert(str_texts(out@) =~= texts(self.headers@));
        out
    }

    fn property_count(&self) -> (r: usize) {
        self.headers.len()
    }

    fn row_count(&self) -> (r: usize) {
        self.data.len()
    }

    fn column_count(&self) -> (r: usize) {
        self.headers.len()
    }

    fn column_of_field(&self, field: &str) -> (r: CsvResult<usize>) {
        let mut i: usize = 0;
        while i < self.headers.len()
            invariant
                0 <= i <= self.headers@.len(),
                forall|j: int| 0 <= j < i ==> (#[trigger] self.headers@[j])@ != field@,
            decreases self.headers.len() - i,
        {
            if str_eq(self.headers[i].as_str(), field) {
                assert(texts(self.headers@)[i as int] == field@);
                return Ok(i + 1);
            }
            i += 1;
        }
        assert(!texts(self.headers@).contains(field@)) by {
            if texts(self.headers@).contains(field@) {
                let k = choose|k: int|
                    0 <= k < texts(self.headers@).len() && texts(self.headers@)[k] == field@;
                assert(self.headers@[k]@ == field@);
            }
        }
        Err(CsvError::NoSuchField(String::from_str(field)))
    }

    fn replace_data_at(&mut self, index: Index, new_data: String) -> (r: CsvResult<()>) {
        if !self.index_exists(index) {
            return Err(CsvError::NoSuchIndex(index));
        }
        let Index { row, column } = index;
        proof {
            assert(row_texts(self.data@)[row - 1].len() == texts(self.headers@).len());
        }
        let ghost before = self.data@;
        *self.data.index_one_based_mut(row).index_one_based_mut(column) = new_data;
        proof {
            assert(self.data@[row - 1]@ == before[row - 1]@.update(column - 1, new_data));
            assert(row_texts(self.data@) =~= row_texts(before).update(
                row - 1,
                row_texts(before)[row - 1].update(column - 1, new_data@),
            )) by {
                assert(texts(self.data@[row - 1]@) =~= row_texts(before)[row - 1].update(
                    column - 1,
                    new_data@,
                ));
            }
        }
        Ok(())
    }

    fn replace_column(&mut self, column: usize, new_data: Vec<String>) -> (r: CsvResult<()>) {
        if !self.column_exists(column) {
            return Err(CsvError::NoSuchColumn(column));
        }
        if new_data.len() != self.row_count() {
            return Err(CsvError::FailedToReplaceColumn(column));
        }
        let ghost before = self.data@;
        let ghost old_headers = self.headers@;
        let mut i: usize = 0;
        while i < self.data.len()
            invariant
                self.headers@ == old_headers,
                1 <= column <= self.headers@.len(),
                before.len() == self.data@.len() == new_data@.len(),
                rectangular(texts(self.headers@), row_texts(before)),
                0 <= i <= self.data@.len(),
                forall|j: int|
                    0 <= j < i ==> (#[trigger] row_texts(self.data@)[j]) == row_texts(before)[j].update(
                        column - 1,
                        new_data@[j]@,
                    ),
                forall|j: int| i <= j < self.data@.len() ==> #[trigger] self.data@[j] == before[j],
            decreases self.data.len() - i,
        {
            assert(row_texts(before)[i as int].len() == texts(self.headers@).len());
            let value = new_data[i].clone();
            let ghost mid = self.data@;
            *self.data.index_one_based_mut(i + 1).index_one_based_mut(column) = value;
            proof {
                assert(self.data@[i as int]@ == before[i as int]@.update(column - 1, value));
                assert(texts(self.data@[i as int]@) =~= row_texts(before)[i as int].update(
                    column - 1,
                    new_data@[i as int]@,
                ));
                assert(self.data@ == mid.update(i as int, self.data@[i as int]));
                assert forall|j: int| 0 <= j < i implies (#[trigger] row_texts(self.data@)[j])
                    == row_texts(before)[j].update(column - 1, new_data@[j]@) by {
                    assert(self.data@[j] == mid[j]);
                    assert(row_texts(mid)[j] == row_texts(before)[j].update(column - 1, new_data@[j]@));
                }
            }
            i += 1;
        }
        proof {
            assert(row_texts(self.data@) =~= with_column(
                row_texts(before),
                column - 1,
                texts(new_data@),
            ));
            assert forall|j: int| 0 <= j < row_texts(self.data@).len() implies #[trigger] row_texts(
                self.data@,
            )[j].len() == texts(self.headers@).len() by {
                assert(row_texts(before)[j].len() == texts(self.headers@).len());
            }
        }
        Ok(())
    }

    fn replace_row(&mut self, row: usize, new_data: Vec<String>) -> (r: CsvResult<()>) {
        if !self.row_exists(row) {
            return Err(CsvError::NoSuchRow(row));
        }
        if new_data.len() != self.property_count() {
            return Err(CsvError::FailedToReplaceRow(row));
        }
        let ghost before = self.data@;
        let ghost replacement = new_data;
        *self.data.index_one_based_mut(row) = new_data;
        proof {
            assert(row_texts(self.data@) =~= row_texts(before).update(
                row - 1,
                texts(replacement@),
            ));
            assert forall|j: int| 0 <= j < row_texts(self.data@).len() implies #[trigger] row_texts(
                self.data@,
            )[j].len() == texts(self.headers@).len() by {
                if j != row - 1 {
                    assert(row_texts(before)[j].len() == texts(self.headers@).len());
                }
            }
        }
        Ok(())
    }

    fn delete_row(&mut self, row: usize) -> (r: CsvResult<()>) {
        if !self.row_exists(row) {
            return Err(CsvError::NoSuchRow(row));
        }
        let ghost before = self.data@;
        self.data.remove(row - 1);
        proof {
            assert(row_texts(self.data@) =~= row_texts(before).remove(row - 1));
            assert forall|j: int| 0 <= j < row_texts(self.data@).len() implies #[trigger] row_texts(
                self.data@,
            )[j].len() == texts(self.headers@).len() by {
                if j < row - 1 {
                    assert(row_texts(before)[j].len() == texts(self.headers@).len());
                } else {
                    assert(row_texts(before)[j + 1].len() == texts(self.headers@).len());
                }
            }
        }
        Ok(())
    }

    fn delete_column(&mut self, column: usize) -> (r: CsvResult<()>) {
        if !self.column_exists(column) {
            return Err(CsvError::NoSuchColumn(column));
        }
        let ghost before = self.data@;
        let ghost old_headers = self.headers@;
        self.headers.remove(column - 1);
        let mut i: usize = 0;
        while i < self.data.len()
            invariant
                1 <= column <= old_headers.len(),
                self.headers@ == old_headers.remove(column - 1),
                before.len() == self.data@.len(),
                rectangular(texts(old_headers), row_texts(before)),
                0 <= i <= self.data@.len(),
                forall|j: int|
                    0 <= j < i ==> (#[trigger] row_texts(self.data@)[j]) == row_texts(
                        before,
                    )[j].remove(column - 1),
                forall|j: int| i <= j < self.data@.len() ==> #[trigger] self.data@[j] == before[j],
            decreases self.data.len() - i,
        {
            assert(row_texts(before)[i as int].len() == texts(old_headers).len());
            let ghost mid = self.data@;
            self.data.index_one_based_mut(i + 1).remove(column - 1);
            proof {
                assert(texts(self.data@[i as int]@) =~= row_texts(before)[i as int].remove(
                    column - 1,
                ));
                assert(self.data@ == mid.update(i as int, self.data@[i as int]));
                assert forall|j: int| 0 <= j < i implies (#[trigger] row_texts(self.data@)[j])
                    == row_texts(before)[j].remove(column - 1) by {
                    assert(self.data@[j] == mid[j]);
                    assert(row_texts(mid)[j] == row_texts(before)[j].remove(column - 1));
                }
            }
            i += 1;
        }
        proof {
            assert(texts(self.headers@) =~= texts(old_headers).remove(column - 1));
            assert(row_texts(self.data@) =~= without_column(row_texts(before), column - 1));
            assert forall|j: int| 0 <= j < row_texts(self.data@).len() implies #[trigger] row_texts(
                self.data@,
            )[j].len() == texts(self.headers@).len() by {
                assert(row_texts(before)[j].len() == texts(old_headers).len());
            }
        }
        Ok(())
    }
}

/// Access to the items of a sequence by one-based position.
pub trait IndexOneBased<T> {
    /// The items, in order.
    spec fn items(&self) -> Seq<T>;

    /// The item at one-based position `index`.
    fn index_one_based(&self, index: usize) -> (r: &T)
        requires
            1 <= index <= self.items().len(),
        ensures
            *r == self.items()[index - 1],
    ;

    /// A mutable borrow of the item at one-based position `index`.
    fn index_one_based_mut(&mut self, index: usize) -> (r: &mut T)
        requires
            1 <= index <= old(self).items().len(),
        ensures
            *r == old(self).items()[index - 1],
            final(self).items() == old(self).items().update(index - 1, *final(r)),
    ;
}

impl<T> IndexOneBased<T> for Vec<T> {
    open spec fn items(&self) -> Seq<T> {
        self@
    }

    fn index_one_based(&self, index: usize) -> (r: &T) {
        &self[index - 1]
    }

    fn index_one_based_mut(&mut self, index: usize) -> (r: &mut T) {
        assert(self@.len() == old(self).items().len());
        assert(1 <= index <= self@.len());
        &mut self[index - 1]
    }
}

} // verus!

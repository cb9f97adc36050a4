//! A rectangular grid of values, stored row by row.

use vstd::prelude::*;
use vstd::std_specs::cmp::PartialEqSpec;
use vstd::std_specs::convert::TryFromSpecImpl;
use vstd::std_specs::iter::IteratorSpec;

verus! {

/// Why a grid operation was refused.
#[derive(Debug, Clone, Eq, PartialEq)]
pub enum MatrixError {
    /// The rows or the replacement data have the wrong length; the text says which.
    InvalidDataLength(String),
    /// A row or column index lies outside the grid.
    IndexNotFound,
}

/// Every row of `rows` has the same length.
pub open spec fn rectangular<T>(rows: Seq<Seq<T>>) -> bool {
    forall|i: int, j: int|
        0 <= i < rows.len() && 0 <= j < rows.len() ==> rows[i].len() == rows[j].len()
}

/// The rows held by a vector of vectors.
pub open spec fn rows_of<T>(values: Vec<Vec<T>>) -> Seq<Seq<T>> {
    Seq::new(values@.len(), |i: int| values@[i]@)
}

/// `dst` is an element-by-element clone of `src`.
pub open spec fn cloned_row<T: Clone>(src: Seq<T>, dst: Seq<T>) -> bool {
    &&& dst.len() == src.len()
    &&& forall|j: int|
        #![trigger src[j]]
        #![trigger dst[j]]
        0 <= j < src.len() ==> cloned::<T>(src[j], dst[j])
}

/// `dst` is a cell-by-cell clone of `src`.
pub open spec fn cloned_rows<T: Clone>(src: Seq<Seq<T>>, dst: Seq<Seq<T>>) -> bool {
    &&& dst.len() == src.len()
    &&& forall|i: int|
        #![trigger src[i]]
        #![trigger dst[i]]
        0 <= i < src.len() ==> cloned_row(src[i], dst[i])
}

/// The number of columns of `rows`; without rows there are none.
pub open spec fn width_of<T>(rows: Seq<Seq<T>>) -> nat {
    if rows.len() == 0 { 0 } else { rows[0].len() }
}

/// Column `c` of `rows`, top to bottom.
pub open spec fn column<T>(rows: Seq<Seq<T>>, c: int) -> Seq<T> {
    Seq::new(rows.len(), |r: int| rows[r][c])
}

/// `rows` with column `c` replaced by `data`, top to bottom.
pub open spec fn with_column<T>(rows: Seq<Seq<T>>, c: int, data: Seq<T>) -> Seq<Seq<T>> {
    Seq::new(rows.len(), |r: int| rows[r].update(c, data[r]))
}

/// `rows` with the cell in row `r`, column `c` replaced by `value`.
pub open spec fn with_cell<T>(rows: Seq<Seq<T>>, r: int, c: int, value: T) -> Seq<Seq<T>> {
    rows.update(r, rows[r].update(c, value))
}

/// The columns of `rows` as rows: row `c` of the result is column `c` of `rows`.
pub open spec fn transposed<T>(rows: Seq<Seq<T>>) -> Seq<Seq<T>> {
    Seq::new(width_of(rows), |c: int| column(rows, c))
}

/// A cell-by-cell clone of rectangular rows is rectangular.
pub proof fn lemma_cloned_rows_rectangular<T: Clone>(src: Seq<Seq<T>>, dst: Seq<Seq<T>>)
    requires
        rectangular(src),
        cloned_rows(src, dst),
    ensures
        rectangular(dst),
        width_of(dst) == width_of(src),
{
    assert forall|i: int, j: int|
        0 <= i < dst.len() && 0 <= j < dst.len() implies dst[i].len() == dst[j].len() by {
        assert(cloned_row(src[i], dst[i]));
        assert(cloned_row(src[j], dst[j]));
    }
    if src.len() > 0 {
        assert(cloned_row(src[0], dst[0]));
    }
}

/// A rectangular grid: all rows have the same length.
#[derive(Debug)]
pub struct DataGrid<T> where T: Clone {
    values: Vec<Vec<T>>,
}

impl<T: Clone> View for DataGrid<T> {
    type V = Seq<Seq<T>>;

    /// The rows of the grid, top row first.
    closed spec fn view(&self) -> Seq<Seq<T>> {
        rows_of(self.values)
    }
}

impl<T: Clone> DataGrid<T> {
    /// The invariant of every grid: its rows have equal lengths.
    pub open spec fn wf(&self) -> bool {
        rectangular(self@)
    }

    /// The number of rows.
    pub open spec fn height(&self) -> nat {
        self@.len()
    }

    /// The number of columns; a grid without rows has none.
    pub open spec fn width(&self) -> nat {
        width_of(self@)
    }

    /// A grid of `height` rows and `width` columns, every cell a clone of `initial_value`.
    pub fn new(width: usize, height: usize, initial_value: T) -> (grid: DataGrid<T>)
        ensures
            grid.wf(),
            grid@.len() == height,
            forall|r: int| 0 <= r < height ==> (#[trigger] grid@[r]).len() == width,
            forall|r: int, c: int|
                0 <= r < height && 0 <= c < width ==> cloned::<T>(
                    initial_value,
                    #[trigger] grid@[r][c],
                ),
    {
        let mut values: Vec<Vec<T>> = Vec::with_capacity(height);
        let mut r: usize = 0;
        while r < height
            invariant
                r <= height,
                values@.len() == r,
                forall|i: int| 0 <= i < r ==> (#[trigger] values@[i])@.len() == width,
                forall|i: int, c: int|
                    0 <= i < r && 0 <= c < width ==> cloned::<T>(
                        initial_value,
                        #[trigger] values@[i]@[c],
                    ),
            decreases height - r,
        {
            let mut row: Vec<T> = Vec::with_capacity(width);
            let mut c: usize = 0;
            while c < width
                invariant
                    c <= width,
                    row@.len() == c,
                    forall|j: int| 0 <= j < c ==> cloned::<T>(initial_value, #[trigger] row@[j]),
                decreases width - c,
            {
                row.push(initial_value.clone());
                c += 1;
            }
            values.push(row);
            r += 1;
        }
        DataGrid { values }
    }

    /// A clone of row `index`, or `None` when the grid has no such row.
    pub fn get_row(&self, index: usize) -> (row: Option<Vec<T>>)
        ensures
            index < self.height() ==> row is Some && cloned_row(self@[index as int], row->0@),
            index >= self.height() ==> row is None,
    {
        if index < self.values.len() {
            Some(self.values[index].clone())
        } else {
            None
        }
    }

    /// A clone of column `index`, top to bottom, or `None` when the grid has no such
    /// column.
    pub fn get_column(&self, index: usize) -> (col: Option<Vec<T>>)
        requires
            self.wf(),
        ensures
            index < self.width() ==> col is Some && cloned_row(
                column(self@, index as int),
                col->0@,
            ),
            index >= self.width() ==> col is None,
    {
        if index >= self.get_width() {
            return None;
        }
        let height = self.values.len();
        let mut col: Vec<T> = Vec::with_capacity(height);
        let mut r: usize = 0;
        while r < height
            invariant
                self.wf(),
                height == self.values@.len(),
                r <= height,
                col@.len() == r,
                index < self.width(),
                forall|i: int|
                    0 <= i < r ==> cloned::<T>(#[trigger] self@[i][index as int], col@[i]),
            decreases height - r,
        {
            assert(self@[r as int].len() == self@[0].len());
            col.push(self.values[r][index].clone());
            r += 1;
        }
        Some(col)
    }

    /// Replaces row `index` by `data`, which must be as long as the grid is wide.
    pub fn update_row(&mut self, index: usize, data: Vec<T>) -> (result: Result<(), MatrixError>)
        requires
            old(self).wf(),
        ensures
            final(self).wf(),
            match result {
                Ok(()) => {
                    &&& data@.len() == old(self).width()
                    &&& index < old(self).height()
                    &&& final(self)@ == old(self)@.update(index as int, data@)
                },
                Err(MatrixError::InvalidDataLength(text)) => {
                    &&& data@.len() != old(self).width()
                    &&& text@ == "Input data length is not equal to matrix width!"@
                    &&& final(self)@ == old(self)@
                },
                Err(MatrixError::IndexNotFound) => {
                    &&& data@.len() == old(self).width()
                    &&& index >= old(self).height()
                    &&& final(self)@ == old(self)@
                },
            },
    {
        if data.len() != self.get_width() {
            return Err(
                MatrixError::InvalidDataLength(
                    "Input data length is not equal to matrix width!".to_string(),
                ),
            );
        }
        if index < self.values.len() {
            self.values[index] = data;
            assert(self@ =~= old(self)@.update(index as int, data@));
            assert forall|i: int| 0 <= i < self@.len() implies (#[trigger] self@[i]).len() == old(
                self,
            ).width() by {
                assert(old(self)@[i].len() == old(self)@[0].len());
            }
            Ok(())
        } else {
            Err(MatrixError::IndexNotFound)
        }
    }

    /// Replaces column `index` by `data`, which must be as long as the grid is high.
    /// Nothing is written unless the whole column can be.
    pub fn update_column(&mut self, index: usize, data: Vec<T>) -> (result: Result<(), MatrixError>)
        requires
            old(self).wf(),
        ensures
            final(self).wf(),
            match result {
                Ok(()) => {
                    &&& data@.len() == old(self).height()
                    &&& index < old(self).width()
                    &&& final(self)@ == with_column(old(self)@, index as int, data@)
                },
                Err(MatrixError::InvalidDataLength(text)) => {
                    &&& data@.len() != old(self).height()
                    &&& text@ == "Input data length is not equal to matrix height!"@
                    &&& final(self)@ == old(self)@
                },
                Err(MatrixError::IndexNotFound) => {
                    &&& data@.len() == old(self).height()
                    &&& index >= old(self).width()
                    &&& final(self)@ == old(self)@
                },
            },
    {
        let height = self.values.len();
        if data.len() != height {
            return Err(
                MatrixError::InvalidDataLength(
                    "Input data length is not equal to matrix height!".to_string(),
                ),
            );
        }
        if index >= self.get_width() {
            return Err(MatrixError::IndexNotFound);
        }
        let ghost new_column = data@;
        let mut r: usize = 0;
        for value in values: data
            invariant
                r == values.index(),
                values.seq() == new_column,
                height == old(self).height(),
                self@.len() == height,
                new_column.len() == height,
                index < old(self).width(),
                old(self).wf(),
                forall|i: int|
                    0 <= i < r ==> #[trigger] self@[i] == old(self)@[i].update(
                        index as int,
                        new_column[i],
                    ),
                forall|i: int| r <= i < height ==> #[trigger] self@[i] == old(self)@[i],
        {
            assert(old(self)@[r as int].len() == old(self)@[0].len());
            assert(self@[r as int] == old(self)@[r as int]);
            let ghost before = self@;
            self.values[r][index] = value;
            assert(self@ =~= before.update(
                r as int,
                old(self)@[r as int].update(index as int, new_column[r as int]),
            ));
            r += 1;
        }
        assert(self@ =~= with_column(old(self)@, index as int, new_column));
        assert forall|i: int, j: int|
            0 <= i < self@.len() && 0 <= j < self@.len() implies self@[i].len() == self@[j].len() by {
            assert(old(self)@[i].len() == old(self)@[j].len());
        }
        Ok(())
    }

    /// Overwrites the cell in row `row`, column `column`.
    pub fn update_single_position(
        &mut self,
        row: usize,
        column: usize,
        value: T,
    ) -> (result: Result<(), MatrixError>)
        requires
            old(self).wf(),
        ensures
            final(self).wf(),
            match result {
                Ok(()) => {
                    &&& row < old(self).height()
                    &&& column < old(self).width()
                    &&& final(self)@ == with_cell(old(self)@, row as int, column as int, value)
                },
                Err(e) => {
                    &&& e is IndexNotFound
                    &&& row >= old(self).height() || column >= old(self).width()
                    &&& final(self)@ == old(self)@
                },
            },
    {
        if row >= self.values.len() {
            return Err(MatrixError::IndexNotFound);
        }
        assert(self@[row as int].len() == self@[0].len());
        if column >= self.values[row].len() {
            return Err(MatrixError::IndexNotFound);
        }
        self.values[row][column] = value;
        assert(self@ =~= with_cell(old(self)@, row as int, column as int, value));
        Ok(())
    }

    /// The number of rows.
    pub fn get_height(&self) -> (h: usize)
        ensures
            h == self.height(),
    {
        self.values.len()
    }

    /// The number of columns; a grid without rows has none.
    pub fn get_width(&self) -> (w: usize)
        ensures
            w == self.width(),
    {
        if self.values.is_empty() {
            0
        } else {
            self.values[0].len()
        }
    }

    /// A new grid whose rows are the columns of this one, in column order.
    pub fn transpose(&self) -> (flipped: DataGrid<T>)
        requires
            self.wf(),
        ensures
            flipped.wf(),
            cloned_rows(transposed(self@), flipped@),
    {
        let width = self.get_width();
        let mut rows: Vec<Vec<T>> = Vec::with_capacity(width);
        let mut c: usize = 0;
        while c < width
            invariant
                self.wf(),
                width == self.width(),
                c <= width,
                rows@.len() == c,
                forall|i: int| 0 <= i < c ==> cloned_row(column(self@, i), #[trigger] rows@[i]@),
            decreases width - c,
        {
            let col = match self.get_column(c) {
                Some(item) => item,
                None => Vec::new(),
            };
            rows.push(col);
            c += 1;
        }
        DataGrid { values: rows }
    }

    /// An iterator over the rows, top row first.
    pub fn iter_rows(&self) -> (rows: impl Iterator<Item = &Vec<T>>)
        ensures
            rows.obeys_prophetic_iter_laws(),
            rows.remaining().len() == self.height(),
            forall|r: int| 0 <= r < self.height() ==> (#[trigger] rows.remaining()[r])@ == self@[r],
    {
        self.values.iter()
    }

    /// The rows themselves, without cloning them.
    pub fn get_values(&self) -> (rows: &Vec<Vec<T>>)
        ensures
            rows_of(*rows) == self@,
    {
        &self.values
    }
}

impl<T: Clone> Clone for DataGrid<T> {
    /// A grid of the same shape, every cell a clone of the cell in its place.
    fn clone(&self) -> (copy: Self)
        ensures
            cloned_rows(self@, copy@),
            self.wf() ==> copy.wf(),
    {
        let copy = DataGrid { values: self.values.clone() };
        assert forall|i: int| 0 <= i < self@.len() implies cloned_row(
            #[trigger] self@[i],
            copy@[i],
        ) by {
            assert(cloned::<Vec<T>>(self.values@[i], copy.values@[i]));
        }
        proof {
            if self.wf() {
                lemma_cloned_rows_rectangular(self@, copy@);
            }
        }
        copy
    }
}

/// Rows that make a grid: at least one row, a first row that is not empty, and
/// equal lengths throughout.
pub open spec fn rows_accepted<T>(rows: Seq<Seq<T>>) -> bool {
    &&& rows.len() > 0
    &&& rows[0].len() > 0
    &&& rectangular(rows)
}

impl<T: Clone> TryFrom<Vec<Vec<T>>> for DataGrid<T> {
    type Error = MatrixError;

    /// Takes `value` as the rows of a grid if there is at least one row, the first row is
    /// not empty, and all rows are equally long; otherwise says which of these failed first.
    fn try_from(value: Vec<Vec<T>>) -> (result: Result<Self, Self::Error>)
        ensures
            match result {
                Ok(grid) => {
                    &&& rows_accepted(rows_of(value))
                    &&& grid.wf()
                    &&& grid@ == rows_of(value)
                },
                Err(MatrixError::InvalidDataLength(text)) => {
                    &&& !rows_accepted(rows_of(value))
                    &&& text@ == if value@.len() == 0 {
                        "Matrix must be at least 1 wide"@
                    } else if value@[0]@.len() == 0 {
                        "Matrix must be at least 1 tall"@
                    } else {
                        "Matrix rows must have consistent lengths"@
                    }
                },
                Err(MatrixError::IndexNotFound) => false,
            },
    {
        if value.is_empty() {
            return Err(
                MatrixError::InvalidDataLength("Matrix must be at least 1 wide".to_string()),
            );
        }
        if value[0].is_empty() {
            return Err(
                MatrixError::InvalidDataLength("Matrix must be at least 1 tall".to_string()),
            );
        }
        let width = value[0].len();
        let mut r: usize = 0;
        while r < value.len()
            invariant
                r <= value@.len(),
                value@.len() > 0,
                width == value@[0]@.len(),
                width > 0,
                forall|i: int| 0 <= i < r ==> (#[trigger] value@[i])@.len() == width,
            decreases value@.len() - r,
        {
            if value[r].len() != width {
                assert(rows_of(value)[r as int].len() != rows_of(value)[0].len());
                return Err(
                    MatrixError::InvalidDataLength(
                        "Matrix rows must have consistent lengths".to_string(),
                    ),
                );
            }
            r += 1;
        }
        Ok(DataGrid { values: value })
    }
}

impl<T: Clone> TryFromSpecImpl<Vec<Vec<T>>> for DataGrid<T> {
    /// No: what `try_from` answers is stated by its own contract, which also fixes the
    /// text of the error.
    open spec fn obeys_try_from_spec() -> bool {
        false
    }

    open spec fn try_from_spec(v: Vec<Vec<T>>) -> Result<Self, Self::Error> {
        arbitrary()
    }
}

/// Two families of rows agree in shape and, cell by cell, under the equality of `T`.
pub open spec fn rows_equal<T: PartialEq>(a: Seq<Seq<T>>, b: Seq<Seq<T>>) -> bool {
    &&& a.len() == b.len()
    &&& forall|r: int| 0 <= r < a.len() ==> (#[trigger] a[r]).len() == b[r].len()
    &&& forall|r: int, c: int|
        0 <= r < a.len() && 0 <= c < a[r].len() ==> (#[trigger] a[r][c]).eq_spec(&b[r][c])
}

impl<T: Clone + PartialEq> PartialEq for DataGrid<T> {
    /// Structural equality: the same shape and equal cells.
    fn eq(&self, other: &Self) -> (equal: bool)
    {
        let equal = self.values == other.values;
        proof {
            if T::obeys_eq_spec() {
                assert(equal == self.values.eq_spec(&other.values));
                if equal {
                    assert forall|r: int| 0 <= r < self@.len() implies (#[trigger] self@[r]).len()
                        == other@[r].len() by {
                        assert(self.values@[r].eq_spec(&other.values@[r]));
                    }
                    assert forall|r: int, c: int|
                        0 <= r < self@.len() && 0 <= c < self@[r].len() implies (
                    #[trigger] self@[r][c]).eq_spec(&other@[r][c]) by {
                        assert(self.values@[r].eq_spec(&other.values@[r]));
                    }
                } else if rows_equal(self@, other@) {
                    assert forall|r: int| 0 <= r < self.values@.len() implies (
                    #[trigger] self.values@[r]).eq_spec(&other.values@[r]) by {
                        assert(self@[r].len() == other@[r].len());
                        assert forall|c: int| 0 <= c < self.values@[r]@.len() implies (
                        #[trigger] self.values@[r]@[c]).eq_spec(&other.values@[r]@[c]) by {
                            assert(self@[r][c].eq_spec(&other@[r][c]));
                        }
                    }
                }
            }
        }
        equal
    }
}

impl<T: Clone + PartialEq> vstd::std_specs::cmp::PartialEqSpecImpl for DataGrid<T> {
    open spec fn obeys_eq_spec() -> bool {
        T::obeys_eq_spec()
    }

    open spec fn eq_spec(&self, other: &Self) -> bool {
        rows_equal(self@, other@)
    }
}

impl<T: Clone + Eq> Eq for DataGrid<T> {}

/// Transposing twice gives back the rows of any grid that has a cell.
pub proof fn lemma_transpose_twice<T>(rows: Seq<Seq<T>>)
    requires
        rows_accepted(rows),
    ensures
        transposed(transposed(rows)) == rows,
{
    let flipped = transposed(rows);
    assert forall|r: int| 0 <= r < rows.len() implies (#[trigger] rows[r]).len() == width_of(
        rows,
    ) by {
        assert(rows[r].len() == rows[0].len());
    }
    assert(width_of(flipped) == rows.len());
    assert(transposed(flipped) =~~= rows);
}

} // verus!

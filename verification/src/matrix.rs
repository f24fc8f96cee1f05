//! Tables of numbers in rows of equal width, and what moves their columns
//! about. A number is held as the bit pattern of its single-precision float;
//! nothing here computes with it.

use vstd::arithmetic::mul::*;
use vstd::prelude::*;
use vstd::slice::*;

verus! {

/// A table as such: its width, and its rows.
#[verifier::ext_equal]
pub struct Table {
    pub width: nat,
    pub rows: Seq<Seq<u32>>,
}

impl Table {
    /// All rows have the width of the table.
    pub open spec fn wf(self) -> bool {
        forall|i: int| 0 <= i < self.rows.len() ==> (#[trigger] self.rows[i]).len() == self.width
    }

    /// The column `at`, or the end of the table where it has fewer columns.
    pub open spec fn clip(self, at: int) -> int {
        if at < self.width {
            at
        } else {
            self.width as int
        }
    }

    /// The columns `from..to`, as far as there are such.
    pub open spec fn columns(self, from: int, to: int) -> Table {
        Table {
            width: (self.clip(to) - self.clip(from)) as nat,
            rows: Seq::new(self.rows.len(), |i: int| self.rows[i].subrange(self.clip(from), self.clip(to))),
        }
    }

    /// Each row continued by the row of `right`.
    pub open spec fn beside(self, right: Table) -> Table {
        Table {
            width: self.width + right.width,
            rows: Seq::new(self.rows.len(), |i: int| self.rows[i] + right.rows[i]),
        }
    }

    /// The columns from `from` on, or from the end on where there are fewer,
    /// replaced by those of `values`, as many as it has.
    pub open spec fn with_columns(self, from: int, values: Table) -> Table {
        Table {
            width: self.width,
            rows: Seq::new(
                self.rows.len(),
                |i: int|
                    self.rows[i].subrange(0, self.clip(from)) + values.rows[i] + self.rows[i].subrange(
                        self.clip(from) + values.width,
                        self.width as int,
                    ),
            ),
        }
    }

    /// A table of zeros.
    pub open spec fn zeros(rows: nat, width: nat) -> Table {
        Table { width, rows: Seq::new(rows, |i: int| Seq::new(width, |j: int| 0u32)) }
    }

    /// Whether `other` has the same number of rows and the same width.
    pub open spec fn same_shape(self, other: Table) -> bool {
        self.width == other.width && self.rows.len() == other.rows.len()
    }
}

/// A table, row after row in one run of cells.
#[derive(Clone, Debug)]
pub struct Matrix {
    pub rows: usize,
    pub cols: usize,
    pub cells: Vec<u32>,
}

impl View for Matrix {
    type V = Table;

    open spec fn view(&self) -> Table {
        table_of(self.rows as nat, self.cols as nat, self.cells@)
    }
}

/// The table whose rows stand one after the other in `cells`.
pub open spec fn table_of(rows: nat, width: nat, cells: Seq<u32>) -> Table {
    Table { width, rows: Seq::new(rows, |i: int| row_of(width, cells, i)) }
}

/// The `i`-th run of `width` cells.
pub open spec fn row_of(width: nat, cells: Seq<u32>, i: int) -> Seq<u32> {
    cells.subrange(i * width, i * width + width)
}

/// A row lies within the cells of its table.
proof fn lemma_row_bounds(rows: nat, width: nat, i: int)
    requires
        0 <= i < rows,
    ensures
        0 <= i * width,
        i * width + width <= rows * width,
        i * width + width == (i + 1) * width,
{
    lemma_mul_is_distributive_add_other_way(width as int, i, 1);
    lemma_mul_inequality(i + 1, rows as int, width as int);
    lemma_mul_nonnegative(i, width as int);
}

/// Appending a run of `width` cells appends a row.
proof fn lemma_append_row(rows: nat, width: nat, cells: Seq<u32>, row: Seq<u32>)
    requires
        cells.len() == rows * width,
        row.len() == width,
    ensures
        (cells + row).len() == (rows + 1) * width,
        table_of(rows + 1, width, cells + row).rows == table_of(rows, width, cells).rows.push(row),
{
    lemma_row_bounds(rows + 1, width, rows as int);
    let longer = table_of(rows + 1, width, cells + row).rows;
    let shorter = table_of(rows, width, cells).rows;
    assert forall|i: int| 0 <= i < rows + 1 implies longer[i] == #[trigger] shorter.push(row)[i] by {
        lemma_row_bounds(rows + 1, width, i);
        if i < rows {
            lemma_row_bounds(rows, width, i);
            assert(row_of(width, cells + row, i) == row_of(width, cells, i));
        } else {
            assert(row_of(width, cells + row, i) == row);
        }
    }
}

/// The rows of a full table are as wide as the table.
pub proof fn lemma_rows_are_full(matrix: &Matrix)
    requires
        matrix.wf(),
    ensures
        matrix@.wf(),
{
    assert forall|i: int| 0 <= i < matrix@.rows.len() implies (#[trigger] matrix@.rows[i]).len() == matrix@.width by {
        lemma_row_bounds(matrix.rows as nat, matrix.cols as nat, i);
    }
}

/// The number in row `i` and column `j` of a table is the one that comes after
/// `i` full rows and `j` numbers.
pub proof fn law_rows_stand_one_after_the_other(matrix: &Matrix, i: int, j: int)
    requires
        matrix.wf(),
        0 <= i < matrix.rows,
        0 <= j < matrix.cols,
    ensures
        0 <= i * matrix.cols + j < matrix.cells@.len(),
        matrix@.rows[i][j] == matrix.cells@[i * matrix.cols + j],
{
    lemma_row_bounds(matrix.rows as nat, matrix.cols as nat, i);
}

/// A table has the numbers that it shows and no others: full tables that show
/// the same hold the same.
pub proof fn law_tables_that_show_the_same_hold_the_same(one: &Matrix, other: &Matrix)
    requires
        one.wf(),
        other.wf(),
        one@ == other@,
    ensures
        one.rows == other.rows,
        one.cols == other.cols,
        one.cells@ == other.cells@,
{
    assert(one@.rows.len() == one.rows && other@.rows.len() == other.rows);
    let cols = one.cols as int;
    assert forall|c: int| 0 <= c < one.cells@.len() implies one.cells@[c] == other.cells@[c] by {
        if cols == 0 {
            assert(one.rows * cols == 0) by (nonlinear_arith)
                requires
                    cols == 0,
            ;
        } else {
            let (i, j) = (c / cols, c % cols);
            vstd::arithmetic::div_mod::lemma_fundamental_div_mod(c, cols);
            lemma_mul_is_commutative(cols, i);
            vstd::arithmetic::div_mod::lemma_div_pos_is_pos(c, cols);
            assert(i < one.rows) by (nonlinear_arith)
                requires
                    c == i * cols + j,
                    0 <= j,
                    c < one.rows * cols,
                    cols > 0,
            ;
            law_rows_stand_one_after_the_other(one, i, j);
            law_rows_stand_one_after_the_other(other, i, j);
        }
    }
}

/// What was put beside a table is taken off it again.
pub proof fn law_tables_side_by_side_come_apart(left: Table, right: Table)
    requires
        left.wf(),
        right.wf(),
        left.rows.len() == right.rows.len(),
    ensures
        left.beside(right).wf(),
        left.beside(right).columns(0, left.width as int) == left,
        left.beside(right).columns(left.width as int, (left.width + right.width) as int) == right,
{
    let both = left.beside(right);
    let width = left.width as int;
    assert forall|i: int| 0 <= i < left.rows.len() implies {
        &&& (#[trigger] both.rows[i]).len() == both.width
        &&& both.rows[i].subrange(0, width) == left.rows[i]
        &&& both.rows[i].subrange(width, both.width as int) == right.rows[i]
    } by {
        assert(left.rows[i].len() == left.width && right.rows[i].len() == right.width);
        assert(both.rows[i].subrange(0, width) == left.rows[i]);
        assert(both.rows[i].subrange(width, both.width as int) == right.rows[i]);
    }
    assert(both.columns(0, width) == left);
    assert(both.columns(width, both.width as int) == right);
}

/// Columns that are replaced are read as what replaced them, and all others as
/// they were.
pub proof fn law_replaced_columns_are_read_back(table: Table, from: int, values: Table)
    requires
        table.wf(),
        values.wf(),
        table.rows.len() == values.rows.len(),
        0 <= from,
        from + values.width <= table.width,
    ensures
        table.with_columns(from, values).wf(),
        forall|i: int, k: int|
            0 <= i < table.rows.len() && 0 <= k < table.width ==> #[trigger] table.with_columns(from, values).rows[i][k]
                == (if from <= k < from + values.width {
                values.rows[i][k - from]
            } else {
                table.rows[i][k]
            }),
{
    let changed = table.with_columns(from, values);
    assert forall|i: int| 0 <= i < table.rows.len() implies (#[trigger] changed.rows[i]).len() == table.width by {
        assert(table.rows[i].len() == table.width && values.rows[i].len() == values.width);
    }
    assert forall|i: int, k: int| 0 <= i < table.rows.len() && 0 <= k < table.width implies #[trigger] changed.rows[i][k]
        == (if from <= k < from + values.width {
        values.rows[i][k - from]
    } else {
        table.rows[i][k]
    }) by {
        assert(table.rows[i].len() == table.width && values.rows[i].len() == values.width);
    }
}

impl Matrix {
    /// The cells fill the table.
    pub open spec fn wf(&self) -> bool {
        self.cells@.len() == self.rows * self.cols
    }

    /// A table of so many rows and columns out of its cells.
    pub fn from_cells(cells: Vec<u32>, rows: usize, cols: usize) -> (matrix: Self)
        requires
            cells@.len() == rows * cols,
        ensures
            matrix.wf(),
            matrix.rows == rows,
            matrix.cols == cols,
            matrix@ == table_of(rows as nat, cols as nat, cells@),
    {
        Matrix { rows, cols, cells }
    }

    /// Another copy of the table.
    pub fn duplicate(&self) -> (copy: Self)
        requires
            self.wf(),
        ensures
            copy.wf(),
            copy.rows == self.rows,
            copy.cols == self.cols,
            copy@ == self@,
    {
        let cells = self.cells.clone();
        assert(cells@ == self.cells@);
        Matrix { rows: self.rows, cols: self.cols, cells }
    }

    /// One row, as a slice of the cells.
    fn row(&self, i: usize) -> (row: &[u32])
        requires
            self.wf(),
            i < self.rows,
        ensures
            row@ == self@.rows[i as int],
            row@.len() == self.cols,
    {
        proof {
            lemma_row_bounds(self.rows as nat, self.cols as nat, i as int);
            assert(self.cells@.len() == self.cells.len());
        }
        let start: usize = i * self.cols;
        slice_subrange(self.cells.as_slice(), start, start + self.cols)
    }

    /// A table of zeros.
    pub fn zeros(rows: usize, cols: usize) -> (matrix: Self)
        requires
            rows * cols <= usize::MAX,
        ensures
            matrix.wf(),
            matrix.rows == rows,
            matrix.cols == cols,
            matrix@ == Table::zeros(rows as nat, cols as nat),
    {
        let n: usize = rows * cols;
        let mut cells: Vec<u32> = Vec::new();
        let mut i: usize = 0;
        while i < n
            invariant
                i <= n,
                cells@ == Seq::new(i as nat, |j: int| 0u32),
            decreases n - i,
        {
            cells.push(0);
            i += 1;
        }
        let matrix = Matrix { rows, cols, cells };
        proof {
            assert forall|i: int| 0 <= i < rows implies matrix@.rows[i] == #[trigger] Table::zeros(
                rows as nat,
                cols as nat,
            ).rows[i] by {
                lemma_row_bounds(rows as nat, cols as nat, i);
            }
            assert(matrix@ == Table::zeros(rows as nat, cols as nat));
        }
        matrix
    }

    /// The column `at`, or the end of the table where it has fewer columns.
    fn clipped(&self, at: usize) -> (clipped: usize)
        ensures
            clipped == self@.clip(at as int),
            clipped <= self.cols,
    {
        if at < self.cols {
            at
        } else {
            self.cols
        }
    }

    /// The columns `from..to`, as far as there are such.
    pub fn columns(&self, from: usize, to: usize) -> (part: Self)
        requires
            self.wf(),
            from <= to,
        ensures
            part.wf(),
            part.rows == self.rows,
            part.cols == self@.clip(to as int) - self@.clip(from as int),
            part@ == self@.columns(from as int, to as int),
    {
        let start: usize = self.clipped(from);
        let end: usize = self.clipped(to);
        let cols: usize = end - start;
        let ghost wanted = self@.columns(from as int, to as int).rows;
        let mut cells: Vec<u32> = Vec::new();
        let mut i: usize = 0;
        proof {
            assert(table_of(0, cols as nat, cells@).rows == wanted.take(0));
        }
        while i < self.rows
            invariant
                self.wf(),
                start == self@.clip(from as int),
                end == self@.clip(to as int),
                start <= end <= self.cols,
                cols == end - start,
                wanted == self@.columns(from as int, to as int).rows,
                i <= self.rows,
                cells@.len() == i * cols,
                table_of(i as nat, cols as nat, cells@).rows == wanted.take(i as int),
            decreases self.rows - i,
        {
            let ghost before = cells@;
            let row = slice_subrange(self.row(i), start, end);
            cells.extend_from_slice(row);
            proof {
                assert(cells@ == before + row@);
                lemma_append_row(i as nat, cols as nat, before, row@);
                assert(wanted.take(i + 1) == wanted.take(i as int).push(row@));
            }
            i += 1;
        }
        proof {
            assert(wanted.take(i as int) == wanted);
        }
        Matrix { rows: self.rows, cols, cells }
    }

    /// Each row continued by the row of `right`.
    pub fn beside(&self, right: &Self) -> (joined: Self)
        requires
            self.wf(),
            right.wf(),
            self.rows == right.rows,
            self.cols + right.cols <= usize::MAX,
        ensures
            joined.wf(),
            joined.rows == self.rows,
            joined.cols == self.cols + right.cols,
            joined@ == self@.beside(right@),
    {
        let cols: usize = self.cols + right.cols;
        let mut cells: Vec<u32> = Vec::new();
        let mut i: usize = 0;
        proof {
            assert(table_of(0, cols as nat, cells@).rows == self@.beside(right@).rows.take(0));
        }
        while i < self.rows
            invariant
                self.wf(),
                right.wf(),
                self.rows == right.rows,
                cols == self.cols + right.cols,
                i <= self.rows,
                cells@.len() == i * cols,
                table_of(i as nat, cols as nat, cells@).rows == self@.beside(right@).rows.take(i as int),
            decreases self.rows - i,
        {
            let ghost before = cells@;
            let ghost row = self@.rows[i as int] + right@.rows[i as int];
            let left_row = self.row(i);
            let right_row = right.row(i);
            cells.extend_from_slice(left_row);
            cells.extend_from_slice(right_row);
            proof {
                assert(cells@ == before + row);
                lemma_append_row(i as nat, cols as nat, before, row);
                assert(self@.beside(right@).rows.take(i + 1) == self@.beside(right@).rows.take(i as int).push(row));
            }
            i += 1;
        }
        proof {
            assert(self@.beside(right@).rows.take(i as int) == self@.beside(right@).rows);
        }
        Matrix { rows: self.rows, cols, cells }
    }

    /// The columns from `from` on, or from the end on where there are fewer,
    /// replaced by those of `values`.
    pub fn with_columns(&self, from: usize, values: &Self) -> (changed: Self)
        requires
            self.wf(),
            values.wf(),
            self.rows == values.rows,
            self@.clip(from as int) + values.cols <= self.cols,
        ensures
            changed.wf(),
            changed.rows == self.rows,
            changed.cols == self.cols,
            changed@ == self@.with_columns(from as int, values@),
    {
        let start: usize = self.clipped(from);
        let left = self.columns(0, start);
        let right = self.columns(start + values.cols, self.cols);
        let changed = left.beside(values).beside(&right);
        proof {
            assert(changed@ == self@.with_columns(from as int, values@));
        }
        changed
    }
}

/// What moves columns about, number by number: a part has the columns from the
/// first to before the last of those asked for; of two tables side by side the
/// left one comes first; and replaced columns are those from the given one on,
/// as many as there are new ones.
pub proof fn law_columns_number_by_number(
    table: Matrix,
    from: usize,
    to: usize,
    part: Matrix,
    right: Matrix,
    joined: Matrix,
    at: usize,
    values: Matrix,
    changed: Matrix,
    i: int,
    k: int,
)
    requires
        table.wf() && right.wf() && values.wf(),
        from <= to <= table.cols,
        table.rows == right.rows == values.rows,
        table.cols + right.cols <= usize::MAX,
        at + values.cols <= table.cols,
        call_ensures(Matrix::columns, (&table, from, to), part),
        call_ensures(Matrix::beside, (&table, &right), joined),
        call_ensures(Matrix::with_columns, (&table, at, &values), changed),
        0 <= i < table.rows,
        0 <= k,
    ensures
        part.rows == table.rows && part.cols == to - from,
        k < part.cols ==> part@.rows[i][k] == table@.rows[i][from + k],
        joined.rows == table.rows && joined.cols == table.cols + right.cols,
        k < table.cols ==> joined@.rows[i][k] == table@.rows[i][k],
        k < right.cols ==> joined@.rows[i][table.cols + k] == right@.rows[i][k],
        changed.rows == table.rows && changed.cols == table.cols,
        k < values.cols ==> changed@.rows[i][at + k] == values@.rows[i][k],
        k < table.cols && !(at <= k < at + values.cols) ==> changed@.rows[i][k] == table@.rows[i][k],
{
    lemma_rows_are_full(&table);
    lemma_rows_are_full(&right);
    lemma_rows_are_full(&values);
    assert(table@.rows[i].len() == table.cols);
    assert(right@.rows[i].len() == right.cols);
    assert(values@.rows[i].len() == values.cols);
}

/// A table out of cells has them row after row, a copy of it is the same, and a
/// table of zeros has nothing else.
pub proof fn law_tables_are_what_they_are_made_of(
    cells: Vec<u32>,
    rows: usize,
    cols: usize,
    matrix: Matrix,
    copy: Matrix,
    zeros: Matrix,
    i: int,
    k: int,
)
    requires
        cells@.len() == rows * cols,
        call_ensures(Matrix::from_cells, (cells, rows, cols), matrix),
        call_ensures(Matrix::duplicate, (&matrix,), copy),
        call_ensures(Matrix::zeros, (rows, cols), zeros),
        0 <= i < rows,
        0 <= k < cols,
    ensures
        matrix.rows == rows && matrix.cols == cols,
        copy.rows == rows && copy.cols == cols,
        zeros.rows == rows && zeros.cols == cols,
        matrix@.rows[i][k] == cells@[i * cols + k],
        copy@.rows[i][k] == cells@[i * cols + k],
        zeros@.rows[i][k] == 0,
{
    lemma_row_bounds(rows as nat, cols as nat, i);
    assert(matrix@.rows[i] == cells@.subrange(i * cols, i * cols + cols));
}

/// Columns behind the end are left out: asking for more than there are is
/// asking for all that there are.
pub proof fn law_columns_stop_at_the_end(table: Matrix, from: usize, to: usize, part: Matrix, rest: Matrix)
    requires
        table.wf(),
        from <= table.cols <= to,
        call_ensures(Matrix::columns, (&table, from, to), part),
        call_ensures(Matrix::columns, (&table, from, table.cols), rest),
    ensures
        part@ == rest@,
        part.cols == table.cols - from,
{
}

} // verus!

//! Row-major matrices of single-precision bit patterns.

use crate::error::{Error, Fault, Result};
use crate::text::{decimal, text_three_numbers};
use vstd::prelude::*;

verus! {

/// A matrix as a mathematical object: its shape, and its values row by row.
#[verifier::ext_equal]
pub struct Grid {
    pub rows: nat,
    pub columns: nat,
    pub values: Seq<u32>,
}

impl Grid {
    /// The shape accounts for every value.
    pub open spec fn wf(self) -> bool {
        self.values.len() == self.rows * self.columns
    }

    /// One row of the matrix.
    pub open spec fn row(self, index: int) -> Seq<u32> {
        self.values.subrange(index * self.columns, index * self.columns + self.columns)
    }

    /// Every value is finite.
    pub open spec fn finite(self) -> bool {
        forall|i: int| 0 <= i < self.values.len() ==> crate::scalar::finite(#[trigger] self.values[i])
    }
}

/// Where a row lies in the flattened values.
pub proof fn row_bounds(grid: Grid, index: int)
    requires
        grid.wf(),
        0 <= index < grid.rows,
    ensures
        0 <= index * grid.columns,
        index * grid.columns + grid.columns <= grid.values.len(),
        grid.row(index).len() == grid.columns,
{
    assert(0 <= index * grid.columns && index * grid.columns + grid.columns <= grid.rows
        * grid.columns) by (nonlinear_arith)
        requires
            0 <= index < grid.rows,
    ;
}

/// A dense row-major matrix of single-precision bit patterns.
#[derive(Debug)]
pub struct Matrix {
    rows: usize,
    columns: usize,
    values: Vec<u32>,
}

impl View for Matrix {
    type V = Grid;

    closed spec fn view(&self) -> Grid {
        Grid { rows: self.rows as nat, columns: self.columns as nat, values: self.values@ }
    }
}

/// Why a matrix of the given shape cannot hold `len` values.
pub open spec fn shape_fault(rows: nat, columns: nat, len: nat) -> Option<Fault> {
    if rows * columns == len {
        None
    } else {
        Some(
            Fault::Shape(
                "matrix of "@ + decimal(rows) + " rows by "@ + decimal(columns)
                    + " columns cannot hold value count "@ + decimal(len),
            ),
        )
    }
}

impl Matrix {
    #[verifier::type_invariant]
    pub open spec fn wf(self) -> bool {
        self@.wf()
    }

    /// Shapes row-major values into a matrix.
    pub fn from_shape_vec(rows: usize, columns: usize, values: Vec<u32>) -> (result: Result<Matrix>)
        ensures
            match result {
                Ok(matrix) => shape_fault(rows as nat, columns as nat, values@.len()) is None
                    && matrix@ == (Grid {
                    rows: rows as nat,
                    columns: columns as nat,
                    values: values@,
                }),
                Err(error) => shape_fault(rows as nat, columns as nat, values@.len()) == Some(error@),
            },
    {
        let fits = match rows.checked_mul(columns) {
            Some(count) => count == values.len(),
            None => false,
        };
        if fits {
            Ok(Matrix { rows, columns, values })
        } else {
            Err(
                Error::Shape(
                    text_three_numbers(
                        "matrix of ",
                        rows as u64,
                        " rows by ",
                        columns as u64,
                        " columns cannot hold value count ",
                        values.len() as u64,
                    ),
                ),
            )
        }
    }

    /// Number of rows.
    pub fn rows(&self) -> (result: usize)
        ensures
            result == self@.rows,
    {
        self.rows
    }

    /// Number of columns.
    pub fn columns(&self) -> (result: usize)
        ensures
            result == self@.columns,
    {
        self.columns
    }

    /// All values, row by row.
    pub fn values(&self) -> (result: &Vec<u32>)
        ensures
            result@ == self@.values,
    {
        &self.values
    }

    /// The value at one position.
    pub fn value(&self, row: usize, column: usize) -> (result: u32)
        requires
            row < self@.rows,
            column < self@.columns,
        ensures
            result == self@.row(row as int)[column as int],
    {
        proof {
            use_type_invariant(self);
            row_bounds(self@, row as int);
        }
        assert(self.values@.len() == self.values.len());
        self.values[row * self.columns + column]
    }
}

impl Clone for Matrix {
    fn clone(&self) -> (result: Matrix)
        ensures
            result@ == self@,
    {
        proof {
            use_type_invariant(self);
        }
        let values = self.values.clone();
        assert(values@ =~= self.values@);
        Matrix { rows: self.rows, columns: self.columns, values }
    }
}

/// A value stands in its row at its column: rows follow each other, and each
/// holds one value for every column.
pub proof fn rows_hold_their_columns(grid: Grid, row: int, column: int)
    requires
        grid.wf(),
        0 <= row < grid.rows,
        0 <= column < grid.columns,
    ensures
        grid.row(row).len() == grid.columns,
        0 <= row * grid.columns + column < grid.values.len(),
        grid.row(row)[column] == grid.values[row * grid.columns + column],
{
    row_bounds(grid, row);
}

/// A matrix holds exactly as many values as its rows have together.
pub proof fn shapes_hold_all_values(rows: nat, columns: nat, len: nat)
    ensures
        shape_fault(rows, columns, len) is None <==> len == rows * columns,
{
}

} // verus!

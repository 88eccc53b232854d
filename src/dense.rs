use vstd::prelude::*;

use crate::data_vector::{copy_values, ColumnElement};
use crate::errors::DataLoaderError;

verus! {

/// A rectangular matrix of one element type, stored row by row.
#[derive(Debug)]
pub struct DenseMatrix<T> {
    ncols: usize,
    rows: Vec<Vec<T>>,
}

impl<T> DenseMatrix<T> {
    /// The rows, top to bottom.
    pub closed spec fn rows_view(&self) -> Seq<Seq<T>> {
        self.rows@.map_values(|r: Vec<T>| r@)
    }

    /// The number of columns.
    pub closed spec fn ncols_view(&self) -> nat {
        self.ncols as nat
    }

    pub open spec fn nrows_view(&self) -> nat {
        self.rows_view().len()
    }

    /// The entry at row `i`, column `j`.
    pub open spec fn at(&self, i: int, j: int) -> T {
        self.rows_view()[i][j]
    }

    /// Every row has `ncols` entries.
    pub open spec fn wf(&self) -> bool {
        forall|i: int| 0 <= i < self.nrows_view() ==> #[trigger] self.rows_view()[i].len() == self.ncols_view()
    }

    proof fn lemma_views(&self)
        ensures
            self.rows_view().len() == self.rows@.len(),
            forall|i: int| 0 <= i < self.rows@.len() ==> #[trigger] self.rows_view()[i] == self.rows@[i]@,
    {
    }

    /// The matrix with `ncols` columns and the given rows; every row must have
    /// `ncols` entries.
    pub fn from_rows(ncols: usize, rows: Vec<Vec<T>>) -> (r: Result<Self, DataLoaderError>)
        ensures
            (r is Ok) == (forall|i: int| 0 <= i < rows@.len() ==> #[trigger] rows@[i]@.len() == ncols),
            r matches Ok(m) ==> m.wf() && m.ncols_view() == ncols && m.rows_view() == rows@.map_values(
                |v: Vec<T>| v@,
            ),
            r matches Err(e) ==> e is HeterogeneousColumnLengths,
    {
        let mut i: usize = 0;
        while i < rows.len()
            invariant
                i <= rows@.len(),
                forall|k: int| 0 <= k < i ==> #[trigger] rows@[k]@.len() == ncols,
            decreases rows@.len() - i,
        {
            if rows[i].len() != ncols {
                return Err(DataLoaderError::HeterogeneousColumnLengths);
            }
            i = i + 1;
        }
        let m = DenseMatrix { ncols, rows };
        proof {
            m.lemma_views();
        }
        Ok(m)
    }

    /// The number of rows.
    pub fn nrows(&self) -> (r: usize)
        ensures
            r == self.nrows_view(),
    {
        proof {
            self.lemma_views();
        }
        self.rows.len()
    }

    /// The number of columns.
    pub fn ncols(&self) -> (r: usize)
        ensures
            r == self.ncols_view(),
    {
        self.ncols
    }

    /// The entry at row `i`, column `j`.
    pub fn get(&self, i: usize, j: usize) -> (r: &T)
        requires
            self.wf(),
            i < self.nrows_view(),
            j < self.ncols_view(),
        ensures
            *r == self.at(i as int, j as int),
    {
        proof {
            self.lemma_views();
            assert(self.rows_view()[i as int].len() == self.ncols_view());
        }
        &self.rows[i][j]
    }

    /// The rows, borrowed.
    pub fn rows(&self) -> (r: &Vec<Vec<T>>)
        ensures
            r@.map_values(|v: Vec<T>| v@) == self.rows_view(),
    {
        &self.rows
    }
}

impl<T: ColumnElement> DenseMatrix<T> {
    /// A copy of row `i`.
    pub fn row(&self, i: usize) -> (r: Vec<T>)
        requires
            i < self.nrows_view(),
        ensures
            r@ == self.rows_view()[i as int],
    {
        proof {
            self.lemma_views();
        }
        copy_values(&self.rows[i])
    }
}

} // verus!

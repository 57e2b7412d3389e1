//! A dense matrix view over contiguous row-major storage.
//!
//! [`Mat`] borrows a flat buffer of `nrows * ncols` elements; the element at
//! `(r, c)` is the buffer element at `r * ncols + c`. A dense matrix is the
//! special case of a strided one whose stride equals its column count, and
//! its operations are carried out on that strided form.

use crate::col::Col;
use crate::row::Row;
use crate::strided::{col_of, sub_view, SubMat};
use crate::text::grid_chars;
use crate::MatError;
use core::ops::Range;
use vstd::prelude::*;

verus! {

broadcast use vstd::slice::axiom_spec_len;

/// A borrowed matrix view over contiguous row-major storage.
pub struct Mat<'a, T> {
    data: &'a [T],
    nrows: usize,
    ncols: usize,
}

/// The shape metadata of a dense matrix view.
#[derive(Clone, Copy, Debug, PartialEq, Eq, Structural)]
pub struct Info {
    /// The number of rows.
    pub nrows: usize,
    /// The number of columns.
    pub ncols: usize,
}

impl<'a, T> View for Mat<'a, T> {
    type V = Seq<Seq<T>>;

    closed spec fn view(&self) -> Seq<Seq<T>> {
        Seq::new(
            self.nrows as nat,
            |r: int| Seq::new(self.ncols as nat, |c: int| self.data@[r * self.ncols + c]),
        )
    }
}

impl<'a, T> Mat<'a, T> {
    /// The backing buffer holds exactly `nrows * ncols` elements.
    pub closed spec fn wf(&self) -> bool {
        self.nrows * self.ncols == self.data@.len()
    }

    /// The flat backing buffer the view was built over.
    pub closed spec fn storage(&self) -> Seq<T> {
        self.data@
    }

    /// The number of rows.
    pub closed spec fn spec_nrows(&self) -> usize {
        self.nrows
    }

    /// The number of columns.
    pub closed spec fn spec_ncols(&self) -> usize {
        self.ncols
    }

    /// The view has exactly `spec_nrows` rows of `spec_ncols` elements each.
    pub proof fn lemma_shape(&self)
        ensures
            self@.len() == self.spec_nrows(),
            forall|r: int| 0 <= r < self@.len() ==> (#[trigger] self@[r]).len() == self.spec_ncols(),
    {
    }

    /// Law: a dense element is the storage element at `r * ncols + c`.
    pub proof fn lemma_element_addressing(&self, r: int, c: int)
        requires
            self.wf(),
            0 <= r < self.spec_nrows(),
            0 <= c < self.spec_ncols(),
        ensures
            self@[r][c] == self.storage()[r * self.spec_ncols() + c],
    {
    }

    /// Views `slice` as a matrix of `size.0` rows and `size.1` columns, or
    /// `ShapeError` when the slice's length is not exactly `size.0 * size.1`.
    pub fn reshape(slice: &'a [T], size: (usize, usize)) -> (r: Result<Mat<'a, T>, MatError>)
        ensures
            r is Ok <==> slice@.len() == size.0 * size.1,
            r matches Ok(m) ==> {
                &&& m.wf()
                &&& m.storage() == slice@
                &&& m.spec_nrows() == size.0
                &&& m.spec_ncols() == size.1
            },
            r matches Err(e) ==> e == MatError::ShapeError,
    {
        let nrows: usize = size.0;
        let ncols: usize = size.1;
        let n: usize = slice.len();
        match nrows.checked_mul(ncols) {
            Some(p) => {
                if n == p {
                    Ok(Mat { data: slice, nrows, ncols })
                } else {
                    Err(MatError::ShapeError)
                }
            },
            None => Err(MatError::ShapeError),
        }
    }

    /// The number of rows.
    pub fn nrows(&self) -> (n: usize)
        ensures
            n == self.spec_nrows(),
            n == self@.len(),
    {
        self.nrows
    }

    /// The number of columns.
    pub fn ncols(&self) -> (n: usize)
        ensures
            n == self.spec_ncols(),
    {
        self.ncols
    }

    /// The shape as `(rows, columns)`.
    pub fn size(&self) -> (s: (usize, usize))
        ensures
            s.0 == self.spec_nrows(),
            s.1 == self.spec_ncols(),
    {
        (self.nrows, self.ncols)
    }

    /// The view's shape metadata.
    pub fn repr(&self) -> (info: Info)
        ensures
            info.nrows == self.spec_nrows(),
            info.ncols == self.spec_ncols(),
    {
        Info { nrows: self.nrows, ncols: self.ncols }
    }

    /// The same matrix as a strided view with `stride == ncols`.
    pub fn as_strided(&self) -> (m: SubMat<'a, T>)
        requires
            self.wf(),
        ensures
            m.wf(),
            m@ == self@,
            m.spec_nrows() == self.spec_nrows(),
            m.spec_ncols() == self.spec_ncols(),
            m.spec_stride() == self.spec_ncols(),
    {
        let l: usize = self.data.len();
        proof {
            assert(self.nrows * self.ncols == l);
            if self.nrows >= 1 {
                assert((self.nrows - 1) * self.ncols + self.ncols == self.nrows * self.ncols)
                    by (nonlinear_arith)
                    requires
                        self.nrows >= 1,
                ;
            }
        }
        let m = SubMat::from_parts(self.data, 0, self.nrows, self.ncols, self.ncols);
        proof {
            assert forall|r: int| 0 <= r < self.nrows implies m@[r] =~= self@[r] by {}
            assert(m@ =~~= self@);
        }
        m
    }

    /// The element at `(row, col)`, or `IndexError` when either index is out
    /// of range. Within bounds, this is the storage element at
    /// `row * ncols + col`.
    pub fn element(&self, row: usize, col: usize) -> (r: Result<&'a T, MatError>)
        requires
            self.wf(),
        ensures
            r is Ok <==> row < self.spec_nrows() && col < self.spec_ncols(),
            r matches Ok(v) ==> *v == self@[row as int][col as int],
            r matches Ok(v) ==> *v == self.storage()[row as int * self.spec_ncols() + col as int],
            r matches Err(e) ==> e == MatError::IndexError,
    {
        self.as_strided().element(row, col)
    }

    /// Row `row` as a contiguous view, or `IndexError` when `row` is out of
    /// range.
    pub fn row(&self, row: usize) -> (r: Result<Row<'a, T>, MatError>)
        requires
            self.wf(),
        ensures
            r is Ok <==> row < self.spec_nrows(),
            r matches Ok(rv) ==> rv@ == self@[row as int],
            r matches Err(e) ==> e == MatError::IndexError,
    {
        self.as_strided().row(row)
    }

    /// Column `col` as a strided view, or `IndexError` when `col` is out of
    /// range. The column's stride is this matrix's column count.
    pub fn col(&self, col: usize) -> (r: Result<Col<'a, T>, MatError>)
        requires
            self.wf(),
        ensures
            r is Ok <==> col < self.spec_ncols(),
            r matches Ok(cv) ==> cv@ == col_of(self@, col as int) && cv.spec_stride()
                == self.spec_ncols(),
            r matches Err(e) ==> e == MatError::IndexError,
    {
        self.as_strided().col(col)
    }

    /// The sub-matrix with rows `rows` and columns `cols`, as a strided view
    /// sharing this matrix's storage, or `RangeError` when either range is
    /// inverted or reaches past the shape.
    ///
    /// The derived stride equals this matrix's column count (its own stride),
    /// so sub-matrices address their parent's elements and slicing composes.
    pub fn submatrix(&self, rows: Range<usize>, cols: Range<usize>) -> (r: Result<
        SubMat<'a, T>,
        MatError,
    >)
        requires
            self.wf(),
        ensures
            r is Ok <==> rows.start <= rows.end <= self.spec_nrows() && cols.start <= cols.end
                <= self.spec_ncols(),
            r matches Ok(sm) ==> {
                &&& sm@ == sub_view(
                    self@,
                    rows.start as int,
                    rows.end as int,
                    cols.start as int,
                    cols.end as int,
                )
                &&& sm.wf()
                &&& sm.spec_nrows() == rows.end - rows.start
                &&& sm.spec_ncols() == cols.end - cols.start
                &&& sm.spec_stride() == self.spec_ncols()
            },
            r matches Err(e) ==> e == MatError::RangeError,
    {
        self.as_strided().submatrix(rows, cols)
    }
}

impl<'a> Mat<'a, u64> {
    /// The matrix as text: each row bracketed on its own line.
    pub fn render(&self) -> (s: String)
        requires
            self.wf(),
        ensures
            s@ == grid_chars(self@),
    {
        self.as_strided().render()
    }
}

} // verus!

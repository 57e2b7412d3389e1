//! A strided two-dimensional view.
//!
//! A [`SubMat`] addresses its rows `stride` elements apart, where the stride
//! may exceed the column count. That is what lets a sub-matrix share its
//! parent's storage without copying: slicing only moves the base offset and
//! shrinks the shape, keeping the parent's stride.

use crate::col::Col;
use crate::row::Row;
use crate::text::{bracketed_row_chars, grid_chars, push_u64, row_chars};
use crate::MatError;
use core::ops::Range;
use vstd::prelude::*;
use vstd::string::StringExecFns;

verus! {

broadcast use vstd::slice::axiom_spec_len;

/// A borrowed matrix view whose rows may not be contiguous.
pub struct SubMat<'a, T> {
    data: &'a [T],
    off: usize,
    nrows: usize,
    ncols: usize,
    stride: usize,
}

/// The shape metadata of a strided matrix view.
#[derive(Clone, Copy, Debug, PartialEq, Eq, Structural)]
pub struct Info {
    /// The number of rows.
    pub nrows: usize,
    /// The number of columns.
    pub ncols: usize,
    /// The distance between the starts of consecutive rows.
    pub stride: usize,
}

impl<'a, T> View for SubMat<'a, T> {
    type V = Seq<Seq<T>>;

    closed spec fn view(&self) -> Seq<Seq<T>> {
        Seq::new(
            self.nrows as nat,
            |r: int|
                Seq::new(
                    self.ncols as nat,
                    |c: int| self.data@[self.off + r * self.stride + c],
                ),
        )
    }
}

/// The rectangle of `m` with rows `r0..r1` and columns `c0..c1`.
pub open spec fn sub_view<T>(m: Seq<Seq<T>>, r0: int, r1: int, c0: int, c1: int) -> Seq<Seq<T>>
    recommends
        0 <= r0 <= r1 <= m.len(),
        0 <= c0 <= c1,
{
    Seq::new((r1 - r0) as nat, |i: int| m[r0 + i].subrange(c0, c1))
}

/// Column `c` of `m`, top to bottom.
pub open spec fn col_of<T>(m: Seq<Seq<T>>, c: int) -> Seq<T> {
    Seq::new(m.len(), |i: int| m[i][c])
}

/// Law: every element of a sub-matrix is the corresponding element of the
/// parent, shifted by the slice's starting corner.
pub proof fn lemma_sub_view_element<T>(
    m: Seq<Seq<T>>,
    r0: int,
    r1: int,
    c0: int,
    c1: int,
    i: int,
    j: int,
)
    requires
        0 <= r0 <= r1 <= m.len(),
        0 <= i < r1 - r0,
        0 <= j < c1 - c0,
        0 <= c0 <= c1 <= m[r0 + i].len(),
    ensures
        sub_view(m, r0, r1, c0, c1)[i][j] == m[r0 + i][c0 + j],
{
}

/// Law: slicing composes. Re-slicing a sub-matrix addresses exactly the
/// elements that one combined slice of the parent addresses.
pub proof fn lemma_sub_view_compose<T>(
    m: Seq<Seq<T>>,
    a: int,
    b: int,
    c: int,
    d: int,
    k: int,
    l: int,
)
    requires
        0 <= a <= b <= m.len(),
        0 <= c <= d,
        0 <= k <= b - a,
        0 <= l <= d - c,
        forall|r: int| 0 <= r < m.len() ==> (#[trigger] m[r]).len() >= d,
    ensures
        sub_view(sub_view(m, a, b, c, d), 0, k, 0, l) == sub_view(m, a, a + k, c, c + l),
{
    let outer = sub_view(m, a, b, c, d);
    assert forall|i: int| 0 <= i < k implies sub_view(outer, 0, k, 0, l)[i] =~= sub_view(
        m,
        a,
        a + k,
        c,
        c + l,
    )[i] by {
        assert(outer[i] == m[a + i].subrange(c, d));
        assert(outer[i].subrange(0, l) =~= m[a + i].subrange(c, c + l));
    }
    assert(sub_view(sub_view(m, a, b, c, d), 0, k, 0, l) =~~= sub_view(m, a, a + k, c, c + l));
}

impl<'a, T> SubMat<'a, T> {
    /// The stride is at least the column count and every row's last element
    /// lies inside the backing storage.
    pub closed spec fn wf(&self) -> bool {
        &&& self.stride >= self.ncols
        &&& self.off <= self.data@.len()
        &&& self.nrows > 0 ==> self.off + (self.nrows - 1) * self.stride + self.ncols
            <= self.data@.len()
    }

    /// The number of rows.
    pub closed spec fn spec_nrows(&self) -> usize {
        self.nrows
    }

    /// The number of columns.
    pub closed spec fn spec_ncols(&self) -> usize {
        self.ncols
    }

    /// The distance between the starts of consecutive rows.
    pub closed spec fn spec_stride(&self) -> usize {
        self.stride
    }

    /// The view has exactly `spec_nrows` rows of `spec_ncols` elements each.
    pub proof fn lemma_shape(&self)
        ensures
            self@.len() == self.spec_nrows(),
            forall|r: int| 0 <= r < self@.len() ==> (#[trigger] self@[r]).len() == self.spec_ncols(),
    {
    }

    /// Builds a strided view over `data`: `nrows` rows of `ncols` elements,
    /// row `r` starting at `off + r * stride`.
    pub(crate) fn from_parts(
        data: &'a [T],
        off: usize,
        nrows: usize,
        ncols: usize,
        stride: usize,
    ) -> (m: SubMat<'a, T>)
        requires
            stride >= ncols,
            off <= data@.len(),
            nrows > 0 ==> off + (nrows - 1) * stride + ncols <= data@.len(),
        ensures
            m.wf(),
            m.spec_nrows() == nrows,
            m.spec_ncols() == ncols,
            m.spec_stride() == stride,
            m@ == Seq::new(
                nrows as nat,
                |r: int| Seq::new(ncols as nat, |c: int| data@[off + r * stride + c]),
            ),
    {
        SubMat { data, off, nrows, ncols, stride }
    }

    /// The number of rows.
    pub fn nrows(&self) -> (n: usize)
        ensures
            n == self.spec_nrows(),
            n == self@.len(),
    {
        self.nrows
    }

    /// The number of columns.
    pub fn ncols(&self) -> (n: usize)
        ensures
            n == self.spec_ncols(),
    {
        self.ncols
    }

    /// The shape as `(rows, columns)`.
    pub fn size(&self) -> (s: (usize, usize))
        ensures
            s.0 == self.spec_nrows(),
            s.1 == self.spec_ncols(),
    {
        (self.nrows, self.ncols)
    }

    /// The view's shape metadata.
    pub fn repr(&self) -> (info: Info)
        ensures
            info.nrows == self.spec_nrows(),
            info.ncols == self.spec_ncols(),
            info.stride == self.spec_stride(),
    {
        Info { nrows: self.nrows, ncols: self.ncols, stride: self.stride }
    }

    /// The element at `(row, col)`, read without bounds checking.
    pub(crate) fn at(&self, row: usize, col: usize) -> (v: &'a T)
        requires
            self.wf(),
            row < self.spec_nrows(),
            col < self.spec_ncols(),
        ensures
            *v == self@[row as int][col as int],
    {
        let l: usize = self.data.len();
        proof {
            assert(row * self.stride <= (self.nrows - 1) * self.stride) by (nonlinear_arith)
                requires
                    row <= self.nrows - 1,
                    self.stride >= 0,
            ;
            assert(self.off + row * self.stride + col < l);
        }
        &self.data[self.off + row * self.stride + col]
    }

    /// The element at `(row, col)`, or `IndexError` when either index is out
    /// of range.
    pub fn element(&self, row: usize, col: usize) -> (r: Result<&'a T, MatError>)
        requires
            self.wf(),
        ensures
            r is Ok <==> row < self.spec_nrows() && col < self.spec_ncols(),
            r matches Ok(v) ==> *v == self@[row as int][col as int],
            r matches Err(e) ==> e == MatError::IndexError,
    {
        if row < self.nrows && col < self.ncols {
            Ok(self.at(row, col))
        } else {
            Err(MatError::IndexError)
        }
    }

    /// Row `row` as a contiguous view, or `IndexError` when `row` is out of
    /// range.
    pub fn row(&self, row: usize) -> (r: Result<Row<'a, T>, MatError>)
        requires
            self.wf(),
        ensures
            r is Ok <==> row < self.spec_nrows(),
            r matches Ok(rv) ==> rv@ == self@[row as int],
            r matches Err(e) ==> e == MatError::IndexError,
    {
        if row < self.nrows {
            let l: usize = self.data.len();
            proof {
                assert(row * self.stride <= (self.nrows - 1) * self.stride) by (nonlinear_arith)
                    requires
                        row <= self.nrows - 1,
                        self.stride >= 0,
                ;
                assert(self.off + row * self.stride + self.ncols <= l);
            }
            let start: usize = self.off + row * self.stride;
            let rv = Row::new(&self.data[start..start + self.ncols]);
            proof {
                assert(rv@ =~= self@[row as int]);
            }
            Ok(rv)
        } else {
            Err(MatError::IndexError)
        }
    }

    /// Column `col` as a strided view, or `IndexError` when `col` is out of
    /// range.
    pub fn col(&self, col: usize) -> (r: Result<Col<'a, T>, MatError>)
        requires
            self.wf(),
        ensures
            r is Ok <==> col < self.spec_ncols(),
            r matches Ok(cv) ==> cv@ == col_of(self@, col as int) && cv.spec_stride()
                == self.spec_stride(),
            r matches Err(e) ==> e == MatError::IndexError,
    {
        if col < self.ncols {
            if self.nrows == 0 {
                let cv = Col::from_parts(self.data, 0, 0, self.stride);
                proof {
                    assert(cv@ =~= col_of(self@, col as int));
                }
                Ok(cv)
            } else {
                let l: usize = self.data.len();
                proof {
                    assert((self.nrows - 1) * self.stride >= 0) by (nonlinear_arith)
                        requires
                            self.nrows >= 1,
                            self.stride >= 0,
                    ;
                    assert(self.off + col < l);
                }
                let cv = Col::from_parts(self.data, self.off + col, self.nrows, self.stride);
                proof {
                    assert forall|i: int| 0 <= i < self.nrows implies cv@[i] == col_of(
                        self@,
                        col as int,
                    )[i] by {
                        assert(self.off + col + i * self.stride == self.off + i * self.stride
                            + col);
                    }
                    assert(cv@ =~= col_of(self@, col as int));
                }
                Ok(cv)
            }
        } else {
            Err(MatError::IndexError)
        }
    }

    /// The sub-matrix with rows `rows` and columns `cols`, sharing this
    /// view's storage and stride, or `RangeError` when either range is
    /// inverted or reaches past the shape.
    pub fn submatrix(&self, rows: Range<usize>, cols: Range<usize>) -> (r: Result<
        SubMat<'a, T>,
        MatError,
    >)
        requires
            self.wf(),
        ensures
            r is Ok <==> rows.start <= rows.end <= self.spec_nrows() && cols.start <= cols.end
                <= self.spec_ncols(),
            r matches Ok(sm) ==> {
                &&& sm@ == sub_view(
                    self@,
                    rows.start as int,
                    rows.end as int,
                    cols.start as int,
                    cols.end as int,
                )
                &&& sm.wf()
                &&& sm.spec_nrows() == rows.end - rows.start
                &&& sm.spec_ncols() == cols.end - cols.start
                &&& sm.spec_stride() == self.spec_stride()
            },
            r matches Err(e) ==> e == MatError::RangeError,
    {
        if rows.start <= rows.end && rows.end <= self.nrows && cols.start <= cols.end && cols.end
            <= self.ncols {
            let nr: usize = rows.end - rows.start;
            let nc: usize = cols.end - cols.start;
            if nr == 0 {
                let sm = SubMat { data: self.data, off: 0, nrows: 0, ncols: nc, stride: self.stride };
                proof {
                    assert(sm@ =~~= sub_view(
                        self@,
                        rows.start as int,
                        rows.end as int,
                        cols.start as int,
                        cols.end as int,
                    ));
                }
                Ok(sm)
            } else {
                let l: usize = self.data.len();
                proof {
                    assert(rows.start * self.stride <= (self.nrows - 1) * self.stride)
                        by (nonlinear_arith)
                        requires
                            rows.start <= self.nrows - 1,
                            self.stride >= 0,
                    ;
                    assert(self.off + rows.start * self.stride + cols.start <= l);
                }
                let off2: usize = self.off + rows.start * self.stride + cols.start;
                let sm = SubMat { data: self.data, off: off2, nrows: nr, ncols: nc, stride: self.stride };
                proof {
                    assert(off2 + (nr - 1) * self.stride + nc <= self.data@.len()) by {
                        assert(rows.start * self.stride + (nr - 1) * self.stride == (rows.end - 1)
                            * self.stride) by (nonlinear_arith)
                            requires
                                nr == rows.end - rows.start,
                                nr >= 1,
                        ;
                        assert((rows.end - 1) * self.stride <= (self.nrows - 1) * self.stride)
                            by (nonlinear_arith)
                            requires
                                rows.end <= self.nrows,
                                self.stride >= 0,
                        ;
                    }
                    assert(sm.wf());
                    assert forall|i: int| 0 <= i < nr implies sm@[i] =~= sub_view(
                        self@,
                        rows.start as int,
                        rows.end as int,
                        cols.start as int,
                        cols.end as int,
                    )[i] by {
                        assert forall|c: int| 0 <= c < nc implies sm@[i][c] == self@[rows.start
                            + i][cols.start + c] by {
                            assert((rows.start + i) * self.stride == rows.start * self.stride + i
                                * self.stride) by (nonlinear_arith);
                        }
                    }
                    assert(sm@ =~~= sub_view(
                        self@,
                        rows.start as int,
                        rows.end as int,
                        cols.start as int,
                        cols.end as int,
                    ));
                }
                Ok(sm)
            }
        } else {
            Err(MatError::RangeError)
        }
    }
}

impl<'a> SubMat<'a, u64> {
    /// The matrix as text: each row bracketed on its own line.
    pub fn render(&self) -> (s: String)
        requires
            self.wf(),
        ensures
            s@ == grid_chars(self@),
    {
        let mut s = String::new();
        let nr: usize = self.nrows;
        let nc: usize = self.ncols;
        for r in 0..nr
            invariant
                self.wf(),
                nr == self.spec_nrows(),
                nc == self.spec_ncols(),
                s@ == grid_chars(self@.take(r as int)),
        {
            if r != 0 {
                s.append("\n");
            }
            s.append("[");
            for c in 0..nc
                invariant
                    self.wf(),
                    nr == self.spec_nrows(),
                    nc == self.spec_ncols(),
                    r < nr,
                    s@ == grid_chars(self@.take(r as int)) + (if r == 0 {
                        Seq::<char>::empty()
                    } else {
                        "\n"@
                    }) + "["@ + row_chars(self@[r as int].take(c as int)),
            {
                if c != 0 {
                    s.append(", ");
                }
                push_u64(&mut s, *self.at(r, c));
                proof {
                    crate::text::lemma_row_chars_snoc(self@[r as int], c as int);
                }
            }
            s.append("]");
            proof {
                assert(self@[r as int].take(nc as int) =~= self@[r as int]);
                crate::text::lemma_grid_chars_snoc(self@, r as int);
                assert(s@ == grid_chars(self@.take(r as int + 1)));
            }
        }
        proof {
            assert(self@.take(nr as int) =~= self@);
        }
        s
    }
}

} // verus!

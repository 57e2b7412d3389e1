//! Sparse matrices in compressed row storage.
//!
//! A sparse matrix keeps three arrays: the stored values, their column
//! indices, and one offset per row into those two arrays. [`Mat`] owns its
//! arrays and releases them exactly once when it is dropped; [`MatView`] and
//! [`Row`] borrow from them and can never release anything. Row-range slicing
//! is pure view arithmetic: it advances the offset window, while the stored
//! values keep their positions in the original arrays.

use crate::text::{dec_chars, push_u64};
use crate::MatError;
use vstd::prelude::*;
use vstd::string::StringExecFns;

verus! {

broadcast use vstd::slice::axiom_spec_len;

/// The stored entries of one run `lo..hi` of the value and column arrays,
/// as a map from column index to stored value.
pub open spec fn row_map<T>(vals: Seq<T>, cols: Seq<usize>, lo: int, hi: int) -> Map<int, T> {
    Map::new(
        |j: int| exists|k: int| lo <= k < hi && (#[trigger] cols[k]) == j,
        |j: int| vals[choose|k: int| lo <= k < hi && (#[trigger] cols[k]) == j],
    )
}

/// The column indices of the run `lo..hi` are strictly increasing.
pub open spec fn run_sorted(cols: Seq<usize>, lo: int, hi: int) -> bool {
    forall|k1: int, k2: int|
        lo <= k1 < k2 < hi ==> (#[trigger] cols[k1]) < (#[trigger] cols[k2])
}

/// The column indices of the run `lo..hi` all lie below `ncols`.
pub open spec fn run_bounded(cols: Seq<usize>, lo: int, hi: int, ncols: int) -> bool {
    forall|k: int| lo <= k < hi ==> (#[trigger] cols[k]) < ncols
}

/// Scans the run `lo..hi` of the column array for `j` and hands back the
/// matching stored value, if any.
fn lookup<'x, T>(vals: &'x [T], cols: &'x [usize], lo: usize, hi: usize, j: usize) -> (r: Option<
    &'x T,
>)
    requires
        lo <= hi <= vals@.len(),
        cols@.len() == vals@.len(),
        run_sorted(cols@, lo as int, hi as int),
    ensures
        r is Some <==> row_map(vals@, cols@, lo as int, hi as int).contains_key(j as int),
        r matches Some(v) ==> *v == row_map(vals@, cols@, lo as int, hi as int)[j as int],
{
    let mut k: usize = lo;
    while k < hi
        invariant
            lo <= k <= hi <= vals@.len(),
            cols@.len() == vals@.len(),
            run_sorted(cols@, lo as int, hi as int),
            forall|t: int| lo <= t < k ==> (#[trigger] cols@[t]) != j,
        decreases hi - k,
    {
        if cols[k] == j {
            proof {
                let m = row_map(vals@, cols@, lo as int, hi as int);
                assert(cols@[k as int] == j as int);
                assert(m.contains_key(j as int));
                let k0 = choose|t: int| lo <= t < hi && (#[trigger] cols@[t]) == j as int;
                assert(k0 == k as int);
                assert(m[j as int] == vals@[k as int]);
            }
            return Some(&vals[k]);
        }
        k += 1;
    }
    proof {
        assert(!row_map(vals@, cols@, lo as int, hi as int).contains_key(j as int));
    }
    None
}

/// The stored entry at position `k` of a sorted run is the run's entry for
/// its column.
proof fn lemma_row_map_entry<T>(vals: Seq<T>, cols: Seq<usize>, lo: int, hi: int, k: int)
    requires
        0 <= lo <= k < hi <= vals.len(),
        cols.len() == vals.len(),
        run_sorted(cols, lo, hi),
    ensures
        row_map(vals, cols, lo, hi).contains_key(cols[k] as int),
        row_map(vals, cols, lo, hi)[cols[k] as int] == vals[k],
{
    let j = cols[k] as int;
    assert(row_map(vals, cols, lo, hi).contains_key(j));
    let k0 = choose|t: int| lo <= t < hi && (#[trigger] cols[t]) == j;
    assert(k0 == k);
}

/// Restricting the value and column arrays to one run leaves that run's
/// entries unchanged.
proof fn lemma_row_map_shift<T>(vals: Seq<T>, cols: Seq<usize>, lo: int, hi: int)
    requires
        0 <= lo <= hi <= vals.len(),
        cols.len() == vals.len(),
        run_sorted(cols, lo, hi),
    ensures
        row_map(vals.subrange(lo, hi), cols.subrange(lo, hi), 0, hi - lo) == row_map(
            vals,
            cols,
            lo,
            hi,
        ),
{
    let vs = vals.subrange(lo, hi);
    let cs = cols.subrange(lo, hi);
    let m1 = row_map(vs, cs, 0, hi - lo);
    let m2 = row_map(vals, cols, lo, hi);
    assert forall|j: int| #[trigger] m1.dom().contains(j) implies m2.dom().contains(j) && m1[j]
        == m2[j] by {
        let k = choose|t: int| 0 <= t < hi - lo && (#[trigger] cs[t]) == j;
        assert(cols[k + lo] == j);
        lemma_row_map_entry(vs, cs, 0, hi - lo, k);
        lemma_row_map_entry(vals, cols, lo, hi, k + lo);
    }
    assert forall|j: int| #[trigger] m2.dom().contains(j) implies m1.dom().contains(j) by {
        let k = choose|t: int| lo <= t < hi && (#[trigger] cols[t]) == j;
        assert(cs[k - lo] == j);
    }
    assert(m1 =~= m2);
}

/// Offsets `i` and `i + 1` delimit a well-formed stored run: non-decreasing
/// offsets, strictly increasing column indices, all below `ncols`.
pub open spec fn row_run_wf(cols: Seq<usize>, rp: Seq<usize>, i: int, ncols: int) -> bool {
    &&& rp[i] <= rp[i + 1]
    &&& run_sorted(cols, rp[i] as int, rp[i + 1] as int)
    &&& run_bounded(cols, rp[i] as int, rp[i + 1] as int, ncols)
}

/// A borrowed view of one sparse row: that row's stored values paired with
/// their column indices, under the matrix's column count.
pub struct Row<'a, T> {
    values: &'a [T],
    col_ind: &'a [usize],
    len: usize,
}

/// The shape metadata of a sparse row view.
#[derive(Clone, Copy, Debug, PartialEq, Eq, Structural)]
pub struct Info {
    /// The row's length: the matrix's column count.
    pub len: usize,
    /// The number of stored entries.
    pub nnz: usize,
}

impl<'a, T> View for Row<'a, T> {
    type V = Map<int, T>;

    closed spec fn view(&self) -> Map<int, T> {
        row_map(self.values@, self.col_ind@, 0, self.values@.len() as int)
    }
}

impl<'a, T> Row<'a, T> {
    /// Stored entries come with one column index each, strictly increasing
    /// and all below the row's length.
    pub closed spec fn wf(&self) -> bool {
        &&& self.col_ind@.len() == self.values@.len()
        &&& run_sorted(self.col_ind@, 0, self.values@.len() as int)
        &&& run_bounded(self.col_ind@, 0, self.values@.len() as int, self.len as int)
    }

    /// The row's length: the matrix's column count.
    pub closed spec fn spec_len(&self) -> usize {
        self.len
    }

    /// The number of stored entries.
    pub closed spec fn spec_nnz(&self) -> usize {
        self.values@.len() as usize
    }

    /// Every stored column lies below the row's length.
    pub proof fn lemma_keys_in_range(&self)
        requires
            self.wf(),
        ensures
            forall|j: int| #[trigger] self@.contains_key(j) ==> 0 <= j < self.spec_len(),
    {
        assert forall|j: int| #[trigger] self@.contains_key(j) implies 0 <= j
            < self.spec_len() by {
            let k = choose|t: int|
                0 <= t < self.values@.len() && (#[trigger] self.col_ind@[t]) == j;
        }
    }

    /// The row's length.
    pub fn len(&self) -> (n: usize)
        ensures
            n == self.spec_len(),
    {
        self.len
    }

    /// The number of stored entries.
    pub fn nnz(&self) -> (n: usize)
        ensures
            n == self.spec_nnz(),
    {
        self.values.len()
    }

    /// The row's shape metadata.
    pub fn repr(&self) -> (info: Info)
        ensures
            info.len == self.spec_len(),
            info.nnz == self.spec_nnz(),
    {
        Info { len: self.len, nnz: self.values.len() }
    }

    /// The stored value at column `j`; `IndexError` when `j` is out of
    /// range, `NotFoundError` when no value is stored there.
    pub fn element(&self, j: usize) -> (r: Result<&'a T, MatError>)
        requires
            self.wf(),
        ensures
            r is Ok <==> j < self.spec_len() && self@.contains_key(j as int),
            r matches Ok(v) ==> *v == self@[j as int],
            j >= self.spec_len() ==> (r matches Err(e) && e == MatError::IndexError),
            j < self.spec_len() && !self@.contains_key(j as int) ==> (r matches Err(e) && e
                == MatError::NotFoundError),
    {
        if j >= self.len {
            return Err(MatError::IndexError);
        }
        match lookup(self.values, self.col_ind, 0, self.values.len(), j) {
            Some(v) => Ok(v),
            None => Err(MatError::NotFoundError),
        }
    }

    /// The stored value at column `j`, or `None` when `j` is out of range or
    /// no value is stored there.
    pub fn try_element(&self, j: usize) -> (r: Option<&'a T>)
        requires
            self.wf(),
        ensures
            r is Some <==> j < self.spec_len() && self@.contains_key(j as int),
            r matches Some(v) ==> *v == self@[j as int],
    {
        match self.element(j) {
            Ok(v) => Some(v),
            Err(_) => None,
        }
    }
}

/// A borrowed view of a sparse matrix: a window of whole rows over the
/// stored arrays. Slicing moves the window; it never copies or re-bases the
/// stored values.
pub struct MatView<'a, T> {
    values: &'a [T],
    col_ind: &'a [usize],
    row_ptr: &'a [usize],
    row0: usize,
    nrows: usize,
    ncols: usize,
}

impl<'a, T> View for MatView<'a, T> {
    type V = Seq<Map<int, T>>;

    closed spec fn view(&self) -> Seq<Map<int, T>> {
        Seq::new(
            self.nrows as nat,
            |i: int|
                row_map(
                    self.values@,
                    self.col_ind@,
                    self.row_ptr@[self.row0 + i] as int,
                    self.row_ptr@[self.row0 + i + 1] as int,
                ),
        )
    }
}

impl<'a, T> MatView<'a, T> {
    /// The offset window fits the arrays and each row's run is well formed.
    pub closed spec fn wf(&self) -> bool {
        &&& self.row0 + self.nrows < self.row_ptr@.len()
        &&& self.col_ind@.len() == self.values@.len()
        &&& forall|i: int|
            self.row0 <= i <= self.row0 + self.nrows ==> (#[trigger] self.row_ptr@[i])
                <= self.values@.len()
        &&& forall|i: int|
            self.row0 <= i < self.row0 + self.nrows ==> #[trigger] row_run_wf(
                self.col_ind@,
                self.row_ptr@,
                i,
                self.ncols as int,
            )
    }

    /// The number of rows in the window.
    pub closed spec fn spec_nrows(&self) -> usize {
        self.nrows
    }

    /// The number of columns.
    pub closed spec fn spec_ncols(&self) -> usize {
        self.ncols
    }

    /// The view has exactly `spec_nrows` rows.
    pub proof fn lemma_shape(&self)
        ensures
            self@.len() == self.spec_nrows(),
    {
    }

    /// Builds a window over the three arrays: rows `row0..row0 + nrows` of
    /// the offset array, all of `ncols` columns.
    pub(crate) fn from_parts(
        values: &'a [T],
        col_ind: &'a [usize],
        row_ptr: &'a [usize],
        row0: usize,
        nrows: usize,
        ncols: usize,
    ) -> (m: MatView<'a, T>)
        requires
            row0 + nrows < row_ptr@.len(),
            col_ind@.len() == values@.len(),
            forall|i: int|
                row0 <= i <= row0 + nrows ==> (#[trigger] row_ptr@[i]) <= values@.len(),
            forall|i: int|
                row0 <= i < row0 + nrows ==> #[trigger] row_run_wf(
                    col_ind@,
                    row_ptr@,
                    i,
                    ncols as int,
                ),
        ensures
            m.wf(),
            m.spec_nrows() == nrows,
            m.spec_ncols() == ncols,
            m@ == Seq::new(
                nrows as nat,
                |i: int|
                    row_map(
                        values@,
                        col_ind@,
                        row_ptr@[row0 + i] as int,
                        row_ptr@[row0 + i + 1] as int,
                    ),
            ),
    {
        MatView { values, col_ind, row_ptr, row0, nrows, ncols }
    }

    /// The number of rows.
    pub fn nrows(&self) -> (n: usize)
        ensures
            n == self.spec_nrows(),
            n == self@.len(),
    {
        self.nrows
    }

    /// The number of columns.
    pub fn ncols(&self) -> (n: usize)
        ensures
            n == self.spec_ncols(),
    {
        self.ncols
    }

    /// The stored value at `(i, j)`; `IndexError` when either index is out
    /// of range, `NotFoundError` when no value is stored there.
    pub fn element(&self, i: usize, j: usize) -> (r: Result<&'a T, MatError>)
        requires
            self.wf(),
        ensures
            r is Ok <==> i < self.spec_nrows() && j < self.spec_ncols() && self@[i as int].contains_key(j as int),
            r matches Ok(v) ==> *v == self@[i as int][j as int],
            (i >= self.spec_nrows() || j >= self.spec_ncols()) ==> (r matches Err(e) && e
                == MatError::IndexError),
            i < self.spec_nrows() && j < self.spec_ncols() && !self@[i as int].contains_key(
                j as int,
            ) ==> (r matches Err(e) && e == MatError::NotFoundError),
    {
        if i >= self.nrows || j >= self.ncols {
            return Err(MatError::IndexError);
        }
        let rl: usize = self.row_ptr.len();
        proof {
            assert(self.row0 + i + 1 < rl);
            assert(row_run_wf(self.col_ind@, self.row_ptr@, self.row0 + i, self.ncols as int));
        }
        let lo: usize = self.row_ptr[self.row0 + i];
        let hi: usize = self.row_ptr[self.row0 + i + 1];
        match lookup(self.values, self.col_ind, lo, hi, j) {
            Some(v) => Ok(v),
            None => Err(MatError::NotFoundError),
        }
    }

    /// The stored value at `(i, j)`, or `None` when an index is out of range
    /// or no value is stored there.
    pub fn try_element(&self, i: usize, j: usize) -> (r: Option<&'a T>)
        requires
            self.wf(),
        ensures
            r is Some <==> i < self.spec_nrows() && j < self.spec_ncols() && self@[
                i as int
            ].contains_key(j as int),
            r matches Some(v) ==> *v == self@[i as int][j as int],
    {
        match self.element(i, j) {
            Ok(v) => Some(v),
            Err(_) => None,
        }
    }

    /// Row `i` as a borrowed sparse row, read without bounds checking.
    pub(crate) fn row_at(&self, i: usize) -> (rv: Row<'a, T>)
        requires
            self.wf(),
            i < self.spec_nrows(),
        ensures
            rv.wf(),
            rv@ == self@[i as int],
            rv.spec_len() == self.spec_ncols(),
    {
        let rl: usize = self.row_ptr.len();
        proof {
            assert(self.row0 + i + 1 < rl);
            assert(row_run_wf(self.col_ind@, self.row_ptr@, self.row0 + i, self.ncols as int));
        }
        let lo: usize = self.row_ptr[self.row0 + i];
        let hi: usize = self.row_ptr[self.row0 + i + 1];
        let rv = Row {
            values: &self.values[lo..hi],
            col_ind: &self.col_ind[lo..hi],
            len: self.ncols,
        };
        proof {
            lemma_row_map_shift(self.values@, self.col_ind@, lo as int, hi as int);
            assert forall|k1: int, k2: int|
                0 <= k1 < k2 < rv.values@.len() implies (#[trigger] rv.col_ind@[k1])
                < (#[trigger] rv.col_ind@[k2]) by {
                assert(rv.col_ind@[k1] == self.col_ind@[lo + k1]);
                assert(rv.col_ind@[k2] == self.col_ind@[lo + k2]);
            }
            assert forall|k: int| 0 <= k < rv.values@.len() implies (#[trigger] rv.col_ind@[k])
                < rv.len by {
                assert(rv.col_ind@[k] == self.col_ind@[lo + k]);
            }
        }
        rv
    }

    /// Row `i` as a borrowed sparse row, or `IndexError` when `i` is out of
    /// range.
    pub fn row(&self, i: usize) -> (r: Result<Row<'a, T>, MatError>)
        requires
            self.wf(),
        ensures
            r is Ok <==> i < self.spec_nrows(),
            r matches Ok(rv) ==> rv.wf() && rv@ == self@[i as int] && rv.spec_len()
                == self.spec_ncols(),
            r matches Err(e) ==> e == MatError::IndexError,
    {
        if i < self.nrows {
            Ok(self.row_at(i))
        } else {
            Err(MatError::IndexError)
        }
    }

    /// The window of rows `range`, sharing this view's arrays, or
    /// `RangeError` when the range is inverted or reaches past the row
    /// count.
    pub fn rows(&self, range: core::ops::Range<usize>) -> (r: Result<MatView<'a, T>, MatError>)
        requires
            self.wf(),
        ensures
            r is Ok <==> range.start <= range.end <= self.spec_nrows(),
            r matches Ok(mv) ==> {
                &&& mv.wf()
                &&& mv@ == self@.subrange(range.start as int, range.end as int)
                &&& mv.spec_nrows() == range.end - range.start
                &&& mv.spec_ncols() == self.spec_ncols()
            },
            r matches Err(e) ==> e == MatError::RangeError,
    {
        if range.start <= range.end && range.end <= self.nrows {
            let rl: usize = self.row_ptr.len();
            proof {
                assert(self.row0 + range.start + (range.end - range.start) < rl);
            }
            let mv = MatView {
                values: self.values,
                col_ind: self.col_ind,
                row_ptr: self.row_ptr,
                row0: self.row0 + range.start,
                nrows: range.end - range.start,
                ncols: self.ncols,
            };
            proof {
                assert(mv@ =~= self@.subrange(range.start as int, range.end as int));
            }
            Ok(mv)
        } else {
            Err(MatError::RangeError)
        }
    }
}

/// The offset array never decreases.
pub open spec fn offsets_monotonic(rp: Seq<usize>) -> bool {
    forall|t1: int, t2: int| 0 <= t1 <= t2 < rp.len() ==> (#[trigger] rp[t1]) <= (#[trigger] rp[t2])
}

/// Every row's run of a full matrix is well formed.
pub open spec fn rows_wf(cols: Seq<usize>, rp: Seq<usize>, ncols: int) -> bool {
    forall|i: int| 0 <= i < rp.len() - 1 ==> #[trigger] row_run_wf(cols, rp, i, ncols)
}

/// A well-formed compressed-row structure: the offsets start at zero, end at
/// the number of stored values, never decrease, and each row's column
/// indices are strictly increasing and below `ncols`.
pub open spec fn crs_wf<T>(vals: Seq<T>, cols: Seq<usize>, rp: Seq<usize>, ncols: int) -> bool {
    &&& rp.len() >= 1
    &&& rp[0] == 0
    &&& rp[rp.len() - 1] == vals.len()
    &&& cols.len() == vals.len()
    &&& offsets_monotonic(rp)
    &&& rows_wf(cols, rp, ncols)
}

/// The rows of a compressed-row structure, each as a column-to-value map.
pub open spec fn crs_view<T>(vals: Seq<T>, cols: Seq<usize>, rp: Seq<usize>) -> Seq<Map<int, T>> {
    Seq::new((rp.len() - 1) as nat, |i: int| row_map(vals, cols, rp[i] as int, rp[i + 1] as int))
}

/// Law: row-range slicing is a pure view operation: row `i` of the slice is
/// row `start + i` of the parent matrix.
pub proof fn lemma_rows_row<T>(m: Seq<Map<int, T>>, start: int, end: int, i: int)
    requires
        0 <= start <= end <= m.len(),
        0 <= i < end - start,
    ensures
        m.subrange(start, end)[i] == m[start + i],
{
}

/// Checks that the run `lo..hi` of the column array is strictly increasing
/// and bounded by `ncols`.
fn check_run(cols: &[usize], lo: usize, hi: usize, ncols: usize) -> (b: bool)
    requires
        lo <= hi <= cols@.len(),
    ensures
        b <==> run_sorted(cols@, lo as int, hi as int) && run_bounded(
            cols@,
            lo as int,
            hi as int,
            ncols as int,
        ),
{
    let mut k: usize = lo;
    while k < hi
        invariant
            lo <= k <= hi <= cols@.len(),
            run_sorted(cols@, lo as int, k as int),
            run_bounded(cols@, lo as int, k as int, ncols as int),
        decreases hi - k,
    {
        if cols[k] >= ncols {
            return false;
        }
        if k > lo && cols[k - 1] >= cols[k] {
            return false;
        }
        proof {
            if k > lo {
                assert forall|t: int| lo <= t < k implies (#[trigger] cols@[t])
                    < cols@[k as int] by {
                    if t < k - 1 {
                        assert(cols@[t] < cols@[k - 1]);
                    }
                }
            }
        }
        k += 1;
    }
    true
}

/// Checks that the offsets never decrease and that every row's run is
/// strictly increasing and bounded by `ncols`.
fn check_rows(col_ind: &[usize], row_ptr: &[usize], ncols: usize) -> (b: bool)
    requires
        row_ptr@.len() >= 1,
        row_ptr@[0] == 0,
        row_ptr@[row_ptr@.len() - 1] == col_ind@.len(),
    ensures
        b <==> offsets_monotonic(row_ptr@) && rows_wf(col_ind@, row_ptr@, ncols as int),
{
    let nrows: usize = row_ptr.len() - 1;
    let nnz: usize = col_ind.len();
    let mut i: usize = 0;
    while i < nrows
        invariant
            row_ptr@.len() == nrows + 1,
            col_ind@.len() == nnz,
            row_ptr@[nrows as int] == nnz,
            i <= nrows,
            forall|t1: int, t2: int|
                0 <= t1 <= t2 <= i ==> (#[trigger] row_ptr@[t1]) <= (#[trigger] row_ptr@[t2]),
            forall|t: int|
                0 <= t < i ==> #[trigger] row_run_wf(col_ind@, row_ptr@, t, ncols as int),
            forall|t: int| 0 <= t <= i ==> (#[trigger] row_ptr@[t]) <= nnz,
        decreases nrows - i,
    {
        let lo: usize = row_ptr[i];
        let hi: usize = row_ptr[i + 1];
        if lo > hi {
            return false;
        }
        if hi > nnz {
            proof {
                if offsets_monotonic(row_ptr@) {
                    assert(row_ptr@[i + 1] <= row_ptr@[nrows as int]);
                    assert(false);
                }
            }
            return false;
        }
        if !check_run(col_ind, lo, hi, ncols) {
            proof {
                assert(!row_run_wf(col_ind@, row_ptr@, i as int, ncols as int));
            }
            return false;
        }
        proof {
            assert(row_run_wf(col_ind@, row_ptr@, i as int, ncols as int));
            assert forall|t: int| 0 <= t <= i implies (#[trigger] row_ptr@[t]) <= row_ptr@[i
                + 1] by {
                assert(row_ptr@[t] <= row_ptr@[i as int]);
            }
        }
        i += 1;
    }
    true
}

/// An owning sparse matrix in compressed row storage. It holds its three
/// arrays and releases them exactly once when it is dropped; every view
/// derived from it borrows them instead.
pub struct Mat<T> {
    values: Vec<T>,
    col_ind: Vec<usize>,
    row_ptr: Vec<usize>,
    ncols: usize,
}

/// The shape metadata of a sparse matrix.
#[derive(Clone, Copy, Debug, PartialEq, Eq, Structural)]
pub struct MatInfo {
    /// The number of rows.
    pub nrows: usize,
    /// The number of columns.
    pub ncols: usize,
    /// The number of stored values.
    pub nnz: usize,
}

impl<T> View for Mat<T> {
    type V = Seq<Map<int, T>>;

    closed spec fn view(&self) -> Seq<Map<int, T>> {
        crs_view(self.values@, self.col_ind@, self.row_ptr@)
    }
}

impl<T> Mat<T> {
    /// The three arrays form a well-formed compressed-row structure.
    pub closed spec fn wf(&self) -> bool {
        crs_wf(self.values@, self.col_ind@, self.row_ptr@, self.ncols as int)
    }

    /// The number of rows.
    pub closed spec fn spec_nrows(&self) -> int {
        self.row_ptr@.len() - 1
    }

    /// The number of columns.
    pub closed spec fn spec_ncols(&self) -> usize {
        self.ncols
    }

    /// The number of stored values.
    pub closed spec fn spec_nnz(&self) -> int {
        self.values@.len() as int
    }

    /// The view has exactly `spec_nrows` rows.
    pub proof fn lemma_shape(&self)
        requires
            self.wf(),
        ensures
            self@.len() == self.spec_nrows(),
    {
    }

    /// Takes ownership of the three arrays and validates them: the offsets
    /// must start at zero, end at the number of stored values, and never
    /// decrease; there must be one column index per value, strictly
    /// increasing within each row and below `ncols`. Fails with
    /// `ShapeError` otherwise.
    pub fn new(values: Vec<T>, col_ind: Vec<usize>, row_ptr: Vec<usize>, ncols: usize) -> (r:
        Result<Mat<T>, MatError>)
        ensures
            r is Ok <==> crs_wf(values@, col_ind@, row_ptr@, ncols as int),
            r matches Ok(m) ==> {
                &&& m.wf()
                &&& m@ == crs_view(values@, col_ind@, row_ptr@)
                &&& m.spec_nrows() == row_ptr@.len() - 1
                &&& m.spec_ncols() == ncols
                &&& m.spec_nnz() == values@.len()
            },
            r matches Err(e) ==> e == MatError::ShapeError,
            row_ptr@.len() == 0 ==> r is Err,
            row_ptr@.len() >= 1 && row_ptr@[0] != 0 ==> r is Err,
            row_ptr@.len() >= 1 && row_ptr@[row_ptr@.len() - 1] != values@.len() ==> r is Err,
            col_ind@.len() != values@.len() ==> r is Err,
    {
        let nnz: usize = values.len();
        if row_ptr.len() == 0 {
            return Err(MatError::ShapeError);
        }
        if row_ptr[0] != 0 {
            return Err(MatError::ShapeError);
        }
        if row_ptr[row_ptr.len() - 1] != nnz {
            return Err(MatError::ShapeError);
        }
        if col_ind.len() != nnz {
            return Err(MatError::ShapeError);
        }
        if !check_rows(col_ind.as_slice(), row_ptr.as_slice(), ncols) {
            return Err(MatError::ShapeError);
        }
        Ok(Mat { values, col_ind, row_ptr, ncols })
    }

    /// The whole matrix as a borrowed window of rows.
    pub fn as_view<'a>(&'a self) -> (v: MatView<'a, T>)
        requires
            self.wf(),
        ensures
            v.wf(),
            v@ == self@,
            v.spec_nrows() == self.spec_nrows(),
            v.spec_ncols() == self.spec_ncols(),
    {
        let nrows: usize = self.row_ptr.len() - 1;
        proof {
            assert forall|t: int| 0 <= t <= nrows as int implies (#[trigger] self.row_ptr@[t])
                <= self.values@.len() by {
                assert(self.row_ptr@[t] <= self.row_ptr@[nrows as int]);
            }
        }
        let v = MatView::from_parts(
            self.values.as_slice(),
            self.col_ind.as_slice(),
            self.row_ptr.as_slice(),
            0,
            nrows,
            self.ncols,
        );
        proof {
            assert(v@ =~= self@);
        }
        v
    }

    /// The number of rows.
    pub fn nrows(&self) -> (n: usize)
        requires
            self.wf(),
        ensures
            n == self.spec_nrows(),
            n == self@.len(),
    {
        self.row_ptr.len() - 1
    }

    /// The number of columns.
    pub fn ncols(&self) -> (n: usize)
        ensures
            n == self.spec_ncols(),
    {
        self.ncols
    }

    /// The number of stored values.
    pub fn nnz(&self) -> (n: usize)
        ensures
            n == self.spec_nnz(),
    {
        self.values.len()
    }

    /// The matrix's shape metadata.
    pub fn repr(&self) -> (info: MatInfo)
        requires
            self.wf(),
        ensures
            info.nrows == self.spec_nrows(),
            info.ncols == self.spec_ncols(),
            info.nnz == self.spec_nnz(),
    {
        MatInfo {
            nrows: self.row_ptr.len() - 1,
            ncols: self.ncols,
            nnz: self.values.len(),
        }
    }

    /// The stored value at `(i, j)`; `IndexError` when either index is out
    /// of range, `NotFoundError` when no value is stored there.
    pub fn element(&self, i: usize, j: usize) -> (r: Result<&T, MatError>)
        requires
            self.wf(),
        ensures
            r is Ok <==> i < self@.len() && j < self.spec_ncols() && self@[i as int].contains_key(
                j as int,
            ),
            r matches Ok(v) ==> *v == self@[i as int][j as int],
            (i >= self@.len() || j >= self.spec_ncols()) ==> (r matches Err(e) && e
                == MatError::IndexError),
            i < self@.len() && j < self.spec_ncols() && !self@[i as int].contains_key(j as int)
                ==> (r matches Err(e) && e == MatError::NotFoundError),
    {
        self.as_view().element(i, j)
    }

    /// The stored value at `(i, j)`, or `None` when an index is out of range
    /// or no value is stored there.
    pub fn try_element(&self, i: usize, j: usize) -> (r: Option<&T>)
        requires
            self.wf(),
        ensures
            r is Some <==> i < self@.len() && j < self.spec_ncols() && self@[
                i as int
            ].contains_key(j as int),
            r matches Some(v) ==> *v == self@[i as int][j as int],
    {
        self.as_view().try_element(i, j)
    }

    /// Row `i` as a borrowed sparse row, or `IndexError` when `i` is out of
    /// range.
    pub fn row<'a>(&'a self, i: usize) -> (r: Result<Row<'a, T>, MatError>)
        requires
            self.wf(),
        ensures
            r is Ok <==> i < self@.len(),
            r matches Ok(rv) ==> rv.wf() && rv@ == self@[i as int] && rv.spec_len()
                == self.spec_ncols(),
            r matches Err(e) ==> e == MatError::IndexError,
    {
        self.as_view().row(i)
    }

    /// The window of rows `range`, borrowing this matrix's arrays, or
    /// `RangeError` when the range is inverted or reaches past the row
    /// count.
    pub fn rows<'a>(&'a self, range: core::ops::Range<usize>) -> (r: Result<
        MatView<'a, T>,
        MatError,
    >)
        requires
            self.wf(),
        ensures
            r is Ok <==> range.start <= range.end <= self@.len(),
            r matches Ok(mv) ==> {
                &&& mv.wf()
                &&& mv@ == self@.subrange(range.start as int, range.end as int)
                &&& mv.spec_nrows() == range.end - range.start
                &&& mv.spec_ncols() == self.spec_ncols()
            },
            r matches Err(e) ==> e == MatError::RangeError,
    {
        self.as_view().rows(range)
    }
}

/// The rendering of one sparse cell: its stored value, or zero.
pub open spec fn cell_chars(m: Map<int, u64>, j: int) -> Seq<char> {
    if m.contains_key(j) {
        dec_chars(m[j] as nat)
    } else {
        "0"@
    }
}

/// The cells `0..len` of a sparse row in decimal, separated by `", "`.
pub open spec fn cells_chars(m: Map<int, u64>, len: int) -> Seq<char>
    decreases len,
{
    if len <= 0 {
        Seq::empty()
    } else if len == 1 {
        cell_chars(m, 0)
    } else {
        cells_chars(m, len - 1) + ", "@ + cell_chars(m, len - 1)
    }
}

/// One sparse row in brackets, a zero in every unset column.
pub open spec fn sparse_row_text(m: Map<int, u64>, len: int) -> Seq<char> {
    "["@ + cells_chars(m, len) + "]"@
}

/// All rows of a sparse matrix, bracketed, one per line.
pub open spec fn sparse_grid_text(rows: Seq<Map<int, u64>>, len: int) -> Seq<char>
    decreases rows.len(),
{
    if rows.len() == 0 {
        Seq::empty()
    } else if rows.len() == 1 {
        sparse_row_text(rows[0], len)
    } else {
        sparse_grid_text(rows.drop_last(), len) + "\n"@ + sparse_row_text(rows.last(), len)
    }
}

/// Extends a partly built sparse grid text by its next row.
proof fn lemma_sparse_grid_snoc(rows: Seq<Map<int, u64>>, len: int, i: int)
    requires
        0 <= i < rows.len(),
    ensures
        sparse_grid_text(rows.take(i + 1), len) == if i == 0 {
            sparse_row_text(rows[0], len)
        } else {
            sparse_grid_text(rows.take(i), len) + "\n"@ + sparse_row_text(rows[i], len)
        },
{
    let t = rows.take(i + 1);
    if i == 0 {
        assert(t[0] == rows[0]);
    } else {
        assert(t.drop_last() =~= rows.take(i));
        assert(t.last() == rows[i]);
    }
}

impl<'a> Row<'a, u64> {
    /// The row as text: every column in decimal, zero where no value is
    /// stored.
    pub fn render(&self) -> (s: String)
        requires
            self.wf(),
        ensures
            s@ == sparse_row_text(self@, self.spec_len() as int),
    {
        let mut s = String::new();
        s.append("[");
        let n: usize = self.len;
        for j in 0..n
            invariant
                self.wf(),
                n == self.spec_len(),
                s@ == "["@ + cells_chars(self@, j as int),
        {
            if j != 0 {
                s.append(", ");
            }
            match lookup(self.values, self.col_ind, 0, self.values.len(), j) {
                Some(v) => push_u64(&mut s, *v),
                None => s.append("0"),
            }
        }
        s.append("]");
        s
    }
}

impl<'a> MatView<'a, u64> {
    /// The matrix as text: each row bracketed on its own line, zeros in the
    /// unset columns.
    pub fn render(&self) -> (s: String)
        requires
            self.wf(),
        ensures
            s@ == sparse_grid_text(self@, self.spec_ncols() as int),
    {
        let mut s = String::new();
        let n: usize = self.nrows;
        for i in 0..n
            invariant
                self.wf(),
                n == self.spec_nrows(),
                s@ == sparse_grid_text(self@.take(i as int), self.spec_ncols() as int),
        {
            if i != 0 {
                s.append("\n");
            }
            let rv = self.row_at(i);
            let t = rv.render();
            s.append(t.as_str());
            proof {
                lemma_sparse_grid_snoc(self@, self.spec_ncols() as int, i as int);
            }
        }
        proof {
            assert(self@.take(n as int) =~= self@);
        }
        s
    }
}

impl Mat<u64> {
    /// The matrix as text: each row bracketed on its own line, zeros in the
    /// unset columns.
    pub fn render(&self) -> (s: String)
        requires
            self.wf(),
        ensures
            s@ == sparse_grid_text(self@, self.spec_ncols() as int),
    {
        self.as_view().render()
    }
}

} // verus!

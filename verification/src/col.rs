//! A strided one-dimensional view: a single column of a matrix.
//!
//! A [`Col`] reads one element every `stride` positions of its backing
//! storage. It is always borrowed from a matrix view and never owns storage.

use crate::text::{push_u64, row_chars};
use crate::MatError;
use vstd::prelude::*;
use vstd::string::StringExecFns;

verus! {

broadcast use vstd::slice::axiom_spec_len;

/// A borrowed view of one matrix column.
pub struct Col<'a, T> {
    data: &'a [T],
    off: usize,
    len: usize,
    stride: usize,
}

/// The shape metadata of a column view.
#[derive(Clone, Copy, Debug, PartialEq, Eq, Structural)]
pub struct Info {
    /// The number of elements.
    pub len: usize,
    /// The distance between consecutive elements in the backing storage.
    pub stride: usize,
}

impl<'a, T> View for Col<'a, T> {
    type V = Seq<T>;

    closed spec fn view(&self) -> Seq<T> {
        Seq::new(self.len as nat, |i: int| self.data@[self.off + i * self.stride])
    }
}

/// The rendering of a column: `Col([a, b, c])`.
pub open spec fn col_text(c: Seq<u64>) -> Seq<char> {
    "Col(["@ + row_chars(c) + "])"@
}

impl<'a, T> Col<'a, T> {
    /// Every element's address stays inside the backing storage.
    pub closed spec fn wf(&self) -> bool {
        self.len > 0 ==> self.off + (self.len - 1) * self.stride < self.data@.len()
    }

    /// The stride the view was built with.
    pub closed spec fn spec_stride(&self) -> usize {
        self.stride
    }

    /// Builds a column view over `data`, starting at `off` and taking `len`
    /// elements one `stride` apart.
    pub(crate) fn from_parts(data: &'a [T], off: usize, len: usize, stride: usize) -> (c: Col<
        'a,
        T,
    >)
        requires
            len > 0 ==> off + (len - 1) * stride < data@.len(),
        ensures
            c.wf(),
            c.spec_stride() == stride,
            c@ == Seq::new(len as nat, |i: int| data@[off + i * stride]),
    {
        Col { data, off, len, stride }
    }

    /// The number of elements.
    pub fn len(&self) -> (n: usize)
        ensures
            n == self@.len(),
    {
        self.len
    }

    /// The column's shape metadata.
    pub fn repr(&self) -> (info: Info)
        ensures
            info.len == self@.len(),
            info.stride == self.spec_stride(),
    {
        Info { len: self.len, stride: self.stride }
    }

    /// The element at `i`, read without bounds checking.
    pub(crate) fn at(&self, i: usize) -> (v: &'a T)
        requires
            self.wf(),
            i < self@.len(),
        ensures
            *v == self@[i as int],
    {
        let l: usize = self.data.len();
        proof {
            assert(i * self.stride <= (self.len - 1) * self.stride) by (nonlinear_arith)
                requires
                    i <= self.len - 1,
                    self.stride >= 0,
            ;
            assert(self.off + i * self.stride < l);
        }
        &self.data[self.off + i * self.stride]
    }

    /// The element at `i`, or `IndexError` when `i` is out of range.
    pub fn element(&self, i: usize) -> (r: Result<&'a T, MatError>)
        requires
            self.wf(),
        ensures
            r is Ok <==> i < self@.len(),
            r matches Ok(v) ==> *v == self@[i as int],
            r matches Err(e) ==> e == MatError::IndexError,
    {
        if i < self.len {
            Ok(self.at(i))
        } else {
            Err(MatError::IndexError)
        }
    }
}

impl<'a> Col<'a, u64> {
    /// The column as text, one deterministic line.
    pub fn render(&self) -> (s: String)
        requires
            self.wf(),
        ensures
            s@ == col_text(self@),
    {
        let mut s = String::new();
        s.append("Col([");
        let n: usize = self.len;
        for i in 0..n
            invariant
                self.wf(),
                n == self@.len(),
                s@ == "Col(["@ + row_chars(self@.take(i as int)),
        {
            if i != 0 {
                s.append(", ");
            }
            push_u64(&mut s, *self.at(i));
            proof {
                crate::text::lemma_row_chars_snoc(self@, i as int);
            }
        }
        s.append("])");
        proof {
            assert(self@.take(n as int) =~= self@);
        }
        s
    }
}

} // verus!

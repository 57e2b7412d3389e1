//! A contiguous one-dimensional view.
//!
//! A [`Row`] is a borrowed run of elements: a single row of a matrix, or any
//! flat slice reinterpreted as a view. It never owns its storage.

use crate::text::{push_u64, row_chars};
use crate::MatError;
use core::ops::Range;
use vstd::prelude::*;
use vstd::string::StringExecFns;

verus! {

/// A borrowed view of a contiguous run of elements.
pub struct Row<'a, T> {
    data: &'a [T],
}

impl<'a, T> View for Row<'a, T> {
    type V = Seq<T>;

    closed spec fn view(&self) -> Seq<T> {
        self.data@
    }
}

/// The rendering of a contiguous row: `Row([a, b, c])`.
pub open spec fn row_text(r: Seq<u64>) -> Seq<char> {
    "Row(["@ + row_chars(r) + "])"@
}

impl<'a, T> Row<'a, T> {
    /// Views a whole slice as a row.
    pub fn new(data: &'a [T]) -> (r: Row<'a, T>)
        ensures
            r@ == data@,
    {
        Row { data }
    }

    /// The number of elements.
    pub fn len(&self) -> (n: usize)
        ensures
            n == self@.len(),
    {
        self.data.len()
    }

    /// The element at `i`, read without bounds checking.
    pub(crate) fn at(&self, i: usize) -> (v: &'a T)
        requires
            i < self@.len(),
        ensures
            *v == self@[i as int],
    {
        &self.data[i]
    }

    /// The element at `i`, or `IndexError` when `i` is out of range.
    pub fn element(&self, i: usize) -> (r: Result<&'a T, MatError>)
        ensures
            r is Ok <==> i < self@.len(),
            r matches Ok(v) ==> *v == self@[i as int],
            r matches Err(e) ==> e == MatError::IndexError,
    {
        if i < self.data.len() {
            Ok(self.at(i))
        } else {
            Err(MatError::IndexError)
        }
    }

    /// The sub-run `range`, sharing this row's storage, or `RangeError` when
    /// the range is inverted or reaches past the end.
    pub fn slice(&self, range: Range<usize>) -> (r: Result<Row<'a, T>, MatError>)
        ensures
            r is Ok <==> range.start <= range.end <= self@.len(),
            r matches Ok(s) ==> s@ == self@.subrange(range.start as int, range.end as int),
            r matches Err(e) ==> e == MatError::RangeError,
    {
        if range.start <= range.end && range.end <= self.data.len() {
            Ok(Row { data: &self.data[range.start..range.end] })
        } else {
            Err(MatError::RangeError)
        }
    }
}

impl<'a> Row<'a, u64> {
    /// The row as text, one deterministic line.
    pub fn render(&self) -> (s: String)
        ensures
            s@ == row_text(self@),
    {
        let mut s = String::new();
        s.append("Row([");
        let n: usize = self.data.len();
        for i in 0..n
            invariant
                n == self@.len(),
                s@ == "Row(["@ + row_chars(self@.take(i as int)),
        {
            if i != 0 {
                s.append(", ");
            }
            push_u64(&mut s, *self.at(i));
            proof {
                crate::text::lemma_row_chars_snoc(self@, i as int);
            }
        }
        s.append("])");
        proof {
            assert(self@.take(n as int) =~= self@);
        }
        s
    }
}

} // verus!

//! Decimal text for the views' renderings.
//!
//! The views render themselves as comma-separated decimal values, one row per
//! line. The spec functions here define that text exactly, and the exec
//! functions produce it.

use vstd::prelude::*;
use vstd::string::StringExecFns;

verus! {

/// The character for one decimal digit.
pub open spec fn digit_char(d: nat) -> char {
    if d == 0 {
        '0'
    } else if d == 1 {
        '1'
    } else if d == 2 {
        '2'
    } else if d == 3 {
        '3'
    } else if d == 4 {
        '4'
    } else if d == 5 {
        '5'
    } else if d == 6 {
        '6'
    } else if d == 7 {
        '7'
    } else if d == 8 {
        '8'
    } else {
        '9'
    }
}

/// The decimal digits of `n`, most significant first, with no leading zeros
/// (a single `'0'` for zero itself).
pub open spec fn dec_chars(n: nat) -> Seq<char>
    decreases n,
{
    if n < 10 {
        seq![digit_char(n)]
    } else {
        dec_chars(n / 10) + seq![digit_char(n % 10)]
    }
}

/// The elements of `r` in decimal, separated by `", "`.
pub open spec fn row_chars(r: Seq<u64>) -> Seq<char>
    decreases r.len(),
{
    if r.len() == 0 {
        Seq::empty()
    } else if r.len() == 1 {
        dec_chars(r[0] as nat)
    } else {
        row_chars(r.drop_last()) + ", "@ + dec_chars(r.last() as nat)
    }
}

/// One matrix row in brackets: `[a, b, c]`.
pub open spec fn bracketed_row_chars(r: Seq<u64>) -> Seq<char> {
    "["@ + row_chars(r) + "]"@
}

/// All rows of a matrix, bracketed, one per line.
pub open spec fn grid_chars(m: Seq<Seq<u64>>) -> Seq<char>
    decreases m.len(),
{
    if m.len() == 0 {
        Seq::empty()
    } else if m.len() == 1 {
        bracketed_row_chars(m[0])
    } else {
        grid_chars(m.drop_last()) + "\n"@ + bracketed_row_chars(m.last())
    }
}

/// Extends a partly built row text by its next element.
pub proof fn lemma_row_chars_snoc(r: Seq<u64>, i: int)
    requires
        0 <= i < r.len(),
    ensures
        row_chars(r.take(i + 1)) == if i == 0 {
            dec_chars(r[0] as nat)
        } else {
            row_chars(r.take(i)) + ", "@ + dec_chars(r[i] as nat)
        },
{
    let t = r.take(i + 1);
    if i == 0 {
        assert(t[0] == r[0]);
    } else {
        assert(t.drop_last() =~= r.take(i));
        assert(t.last() == r[i]);
    }
}

/// Extends a partly built grid text by its next row.
pub proof fn lemma_grid_chars_snoc(m: Seq<Seq<u64>>, i: int)
    requires
        0 <= i < m.len(),
    ensures
        grid_chars(m.take(i + 1)) == if i == 0 {
            bracketed_row_chars(m[0])
        } else {
            grid_chars(m.take(i)) + "\n"@ + bracketed_row_chars(m[i])
        },
{
    let t = m.take(i + 1);
    if i == 0 {
        assert(t[0] == m[0]);
    } else {
        assert(t.drop_last() =~= m.take(i));
        assert(t.last() == m[i]);
    }
}

/// One decimal digit as a string slice.
fn digit_str(d: u64) -> (s: &'static str)
    requires
        d < 10,
    ensures
        s@ == seq![digit_char(d as nat)],
{
    proof {
        reveal_strlit("0");
        reveal_strlit("1");
        reveal_strlit("2");
        reveal_strlit("3");
        reveal_strlit("4");
        reveal_strlit("5");
        reveal_strlit("6");
        reveal_strlit("7");
        reveal_strlit("8");
        reveal_strlit("9");
    }
    let s: &'static str = if d == 0 {
        "0"
    } else if d == 1 {
        "1"
    } else if d == 2 {
        "2"
    } else if d == 3 {
        "3"
    } else if d == 4 {
        "4"
    } else if d == 5 {
        "5"
    } else if d == 6 {
        "6"
    } else if d == 7 {
        "7"
    } else if d == 8 {
        "8"
    } else {
        "9"
    };
    proof {
        assert(s@ =~= seq![digit_char(d as nat)]);
    }
    s
}

/// The decimal text of `n`.
pub fn u64_to_string(n: u64) -> (s: String)
    ensures
        s@ == dec_chars(n as nat),
    decreases n,
{
    if n < 10 {
        let mut s = String::new();
        s.append(digit_str(n));
        proof {
            assert(s@ =~= dec_chars(n as nat));
        }
        s
    } else {
        proof {
            assert(n / 10 < n) by (nonlinear_arith)
                requires
                    n >= 10,
            ;
        }
        let mut s = u64_to_string(n / 10);
        s.append(digit_str(n % 10));
        proof {
            assert(s@ =~= dec_chars(n as nat));
        }
        s
    }
}

/// Appends the decimal text of `n` to `s`.
pub fn push_u64(s: &mut String, n: u64)
    ensures
        final(s)@ == old(s)@ + dec_chars(n as nat),
{
    let t = u64_to_string(n);
    s.append(t.as_str());
}

} // verus!

use matview::dense::Mat;
use matview::row::Row;
use matview::MatError;

#[test]
fn reshape_checks_length() {
    let buf: [u64; 6] = [1, 2, 3, 4, 5, 6];
    assert!(Mat::reshape(&buf, (2, 3)).is_ok());
    assert!(Mat::reshape(&buf, (3, 2)).is_ok());
    assert_eq!(Mat::reshape(&buf, (2, 2)).err(), Some(MatError::ShapeError));
    assert_eq!(Mat::reshape(&buf, (7, 1)).err(), Some(MatError::ShapeError));
    assert_eq!(Mat::reshape(&buf, (0, 0)).err(), Some(MatError::ShapeError));
    let empty: [u64; 0] = [];
    assert!(Mat::reshape(&empty, (0, 0)).is_ok());
    assert!(Mat::reshape(&empty, (0, 5)).is_ok());
    assert_eq!(
        Mat::reshape(&buf, (usize::MAX, 2)).err(),
        Some(MatError::ShapeError)
    );
}

#[test]
fn element_addresses_row_major() {
    let buf: [u64; 15] = [0, 1, 2, 3, 4, 5, 6, 7, 8, 9, 8, 7, 6, 5, 4];
    let m = Mat::reshape(&buf, (3, 5)).unwrap();
    for r in 0..3 {
        for c in 0..5 {
            assert_eq!(m.element(r, c), Ok(&buf[r * 5 + c]));
        }
    }
    assert_eq!(m.element(1, 2), Ok(&7));
}

#[test]
fn element_out_of_range() {
    let buf: [u64; 15] = [0, 1, 2, 3, 4, 5, 6, 7, 8, 9, 8, 7, 6, 5, 4];
    let m = Mat::reshape(&buf, (3, 5)).unwrap();
    assert_eq!(m.element(3, 0).err(), Some(MatError::IndexError));
    assert_eq!(m.element(0, 5).err(), Some(MatError::IndexError));
    assert_eq!(m.element(3, 5).err(), Some(MatError::IndexError));
    assert_eq!(m.row(3).err(), Some(MatError::IndexError));
    assert_eq!(m.col(5).err(), Some(MatError::IndexError));
}

#[test]
fn shape_getters() {
    let buf: [u64; 15] = [0; 15];
    let m = Mat::reshape(&buf, (3, 5)).unwrap();
    assert_eq!(m.nrows(), 3);
    assert_eq!(m.ncols(), 5);
    assert_eq!(m.size(), (3, 5));
    let info = m.repr();
    assert_eq!(info.nrows, 3);
    assert_eq!(info.ncols, 5);
}

#[test]
fn row_view_is_contiguous() {
    let buf: [u64; 15] = [0, 1, 2, 3, 4, 5, 6, 7, 8, 9, 8, 7, 6, 5, 4];
    let m = Mat::reshape(&buf, (3, 5)).unwrap();
    let row = m.row(1).unwrap();
    assert_eq!(row.len(), 5);
    for c in 0..5 {
        assert_eq!(row.element(c), Ok(&buf[5 + c]));
    }
    assert_eq!(row.element(5).err(), Some(MatError::IndexError));
}

#[test]
fn col_view_is_strided() {
    let buf: [u64; 15] = [0, 1, 2, 3, 4, 5, 6, 7, 8, 9, 8, 7, 6, 5, 4];
    let m = Mat::reshape(&buf, (3, 5)).unwrap();
    let col = m.col(2).unwrap();
    assert_eq!(col.len(), 3);
    for r in 0..3 {
        assert_eq!(col.element(r), Ok(&buf[r * 5 + 2]));
    }
    assert_eq!(col.element(3).err(), Some(MatError::IndexError));
    let info = col.repr();
    assert_eq!(info.len, 3);
    assert_eq!(info.stride, 5);
}

#[test]
fn row_slicing_shares_storage() {
    let buf: [u64; 4] = [0, 1, 2, 3];
    let row = Row::new(&buf);
    assert_eq!(row.len(), 4);
    assert_eq!(row.element(3), Ok(&3));
    let sub = row.slice(1..3).unwrap();
    assert_eq!(sub.len(), 2);
    assert_eq!(sub.element(0), Ok(&1));
    assert_eq!(sub.element(1), Ok(&2));
    assert_eq!(sub.element(2).err(), Some(MatError::IndexError));
    assert_eq!(row.slice(3..1).err(), Some(MatError::RangeError));
    assert_eq!(row.slice(2..5).err(), Some(MatError::RangeError));
}

#[test]
fn submatrix_shares_elements() {
    let buf: [u64; 15] = [0, 1, 2, 3, 4, 5, 6, 7, 8, 9, 8, 7, 6, 5, 4];
    let m = Mat::reshape(&buf, (3, 5)).unwrap();
    let sm = m.submatrix(1..3, 1..4).unwrap();
    assert_eq!(sm.nrows(), 2);
    assert_eq!(sm.ncols(), 3);
    assert_eq!(sm.size(), (2, 3));
    for i in 0..2 {
        for j in 0..3 {
            assert_eq!(sm.element(i, j), m.element(1 + i, 1 + j));
        }
    }
    assert_eq!(sm.element(2, 0).err(), Some(MatError::IndexError));
    assert_eq!(sm.element(0, 3).err(), Some(MatError::IndexError));
    let info = sm.repr();
    assert_eq!(info.nrows, 2);
    assert_eq!(info.ncols, 3);
    assert_eq!(info.stride, 5);
}

#[test]
fn submatrix_composes() {
    let buf: [u64; 15] = [0, 1, 2, 3, 4, 5, 6, 7, 8, 9, 8, 7, 6, 5, 4];
    let m = Mat::reshape(&buf, (3, 5)).unwrap();
    let outer = m.submatrix(0..3, 1..5).unwrap();
    let inner = outer.submatrix(0..2, 0..2).unwrap();
    let direct = m.submatrix(0..2, 1..3).unwrap();
    assert_eq!(inner.size(), direct.size());
    for i in 0..2 {
        for j in 0..2 {
            assert_eq!(inner.element(i, j), direct.element(i, j));
        }
    }
}

#[test]
fn submatrix_range_errors() {
    let buf: [u64; 15] = [0; 15];
    let m = Mat::reshape(&buf, (3, 5)).unwrap();
    assert_eq!(m.submatrix(2..1, 0..5).err(), Some(MatError::RangeError));
    assert_eq!(m.submatrix(0..4, 0..5).err(), Some(MatError::RangeError));
    assert_eq!(m.submatrix(0..3, 3..2).err(), Some(MatError::RangeError));
    assert_eq!(m.submatrix(0..3, 0..6).err(), Some(MatError::RangeError));
    assert!(m.submatrix(0..0, 0..0).is_ok());
    assert!(m.submatrix(3..3, 5..5).is_ok());
}

#[test]
fn strided_row_and_col() {
    let buf: [u64; 15] = [0, 1, 2, 3, 4, 5, 6, 7, 8, 9, 8, 7, 6, 5, 4];
    let m = Mat::reshape(&buf, (3, 5)).unwrap();
    let sm = m.submatrix(1..3, 1..4).unwrap();
    let row = sm.row(1).unwrap();
    assert_eq!(row.len(), 3);
    assert_eq!(row.element(0), Ok(&7));
    assert_eq!(row.element(2), Ok(&5));
    let col = sm.col(0).unwrap();
    assert_eq!(col.len(), 2);
    assert_eq!(col.element(0), Ok(&6));
    assert_eq!(col.element(1), Ok(&7));
    assert_eq!(sm.row(2).err(), Some(MatError::IndexError));
    assert_eq!(sm.col(3).err(), Some(MatError::IndexError));
}

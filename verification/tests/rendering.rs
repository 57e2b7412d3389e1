use matview::col::Col;
use matview::dense::Mat;
use matview::row::Row;
use matview::sparse;
use matview::text::u64_to_string;

#[test]
fn decimal_text() {
    assert_eq!(u64_to_string(0), "0");
    assert_eq!(u64_to_string(7), "7");
    assert_eq!(u64_to_string(10), "10");
    assert_eq!(u64_to_string(12345), "12345");
    assert_eq!(u64_to_string(u64::MAX), "18446744073709551615");
}

#[test]
fn dense_render_is_row_major() {
    let buf: [u64; 6] = [1, 2, 3, 4, 5, 6];
    let m = Mat::reshape(&buf, (2, 3)).unwrap();
    assert_eq!(m.render(), "[1, 2, 3]\n[4, 5, 6]");
}

#[test]
fn dense_render_single_and_empty() {
    let buf: [u64; 3] = [9, 8, 7];
    let m = Mat::reshape(&buf, (1, 3)).unwrap();
    assert_eq!(m.render(), "[9, 8, 7]");
    let empty: [u64; 0] = [];
    let e = Mat::reshape(&empty, (0, 4)).unwrap();
    assert_eq!(e.render(), "");
}

#[test]
fn row_render() {
    let buf: [u64; 4] = [0, 1, 2, 3];
    let row = Row::new(&buf);
    assert_eq!(row.render(), "Row([0, 1, 2, 3])");
    let empty: [u64; 0] = [];
    assert_eq!(Row::<u64>::new(&empty).render(), "Row([])");
}

#[test]
fn col_render() {
    let buf: [u64; 6] = [1, 2, 3, 4, 5, 6];
    let m = Mat::reshape(&buf, (2, 3)).unwrap();
    let col: Col<u64> = m.col(1).unwrap();
    assert_eq!(col.render(), "Col([2, 5])");
}

#[test]
fn submatrix_render_keeps_parent_stride() {
    let buf: [u64; 15] = [0, 1, 2, 3, 4, 5, 6, 7, 8, 9, 8, 7, 6, 5, 4];
    let m = Mat::reshape(&buf, (3, 5)).unwrap();
    let sm = m.submatrix(1..3, 1..4).unwrap();
    assert_eq!(sm.render(), "[6, 7, 8]\n[7, 6, 5]");
}

#[test]
fn sparse_render_pads_with_zeros() {
    let values: Vec<u64> = vec![1, 2, 3, 4, 5, 6, 7, 8];
    let col_ind: Vec<usize> = vec![0, 1, 1, 3, 2, 3, 4, 5];
    let row_ptr: Vec<usize> = vec![0, 2, 4, 7, 8];
    let m = sparse::Mat::new(values, col_ind, row_ptr, 6).unwrap();
    assert_eq!(
        m.render(),
        "[1, 2, 0, 0, 0, 0]\n[0, 3, 0, 4, 0, 0]\n[0, 0, 5, 6, 7, 0]\n[0, 0, 0, 0, 0, 8]"
    );
    let row = m.row(2).unwrap();
    assert_eq!(row.render(), "[0, 0, 5, 6, 7, 0]");
    let window = m.rows(1..3).unwrap();
    assert_eq!(window.render(), "[0, 3, 0, 4, 0, 0]\n[0, 0, 5, 6, 7, 0]");
}

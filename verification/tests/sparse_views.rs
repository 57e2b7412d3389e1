use matview::sparse::Mat;
use matview::MatError;

fn demo_matrix() -> Mat<u64> {
    let values: Vec<u64> = vec![1, 2, 3, 4, 5, 6, 7, 8];
    let col_ind: Vec<usize> = vec![0, 1, 1, 3, 2, 3, 4, 5];
    let row_ptr: Vec<usize> = vec![0, 2, 4, 7, 8];
    Mat::new(values, col_ind, row_ptr, 6).unwrap()
}

#[test]
fn crs_construction_and_shape() {
    let m = demo_matrix();
    assert_eq!(m.nrows(), 4);
    assert_eq!(m.ncols(), 6);
    assert_eq!(m.nnz(), 8);
    let info = m.repr();
    assert_eq!(info.nrows, 4);
    assert_eq!(info.ncols, 6);
    assert_eq!(info.nnz, 8);
}

#[test]
fn crs_element_lookup() {
    let m = demo_matrix();
    assert_eq!(m.element(1, 3), Ok(&4));
    assert_eq!(m.element(0, 1), Ok(&2));
    assert_eq!(m.element(0, 2).err(), Some(MatError::NotFoundError));
    assert_eq!(m.element(3, 5), Ok(&8));
    assert_eq!(m.element(3, 0).err(), Some(MatError::NotFoundError));
    assert_eq!(m.element(4, 0).err(), Some(MatError::IndexError));
    assert_eq!(m.element(0, 6).err(), Some(MatError::IndexError));
}

#[test]
fn try_element_never_fails() {
    let m = demo_matrix();
    assert_eq!(m.try_element(1, 3), Some(&4));
    assert_eq!(m.try_element(0, 2), None);
    assert_eq!(m.try_element(4, 0), None);
    assert_eq!(m.try_element(0, 6), None);
    let row = m.row(2).unwrap();
    assert_eq!(row.try_element(3), Some(&6));
    assert_eq!(row.try_element(0), None);
    assert_eq!(row.try_element(6), None);
    let window = m.rows(1..3).unwrap();
    assert_eq!(window.try_element(0, 3), Some(&4));
    assert_eq!(window.try_element(0, 0), None);
}

#[test]
fn crs_row_view() {
    let m = demo_matrix();
    let row = m.row(2).unwrap();
    assert_eq!(row.len(), 6);
    assert_eq!(row.nnz(), 3);
    assert_eq!(row.element(2), Ok(&5));
    assert_eq!(row.element(3), Ok(&6));
    assert_eq!(row.element(4), Ok(&7));
    assert_eq!(row.element(0).err(), Some(MatError::NotFoundError));
    assert_eq!(row.element(1).err(), Some(MatError::NotFoundError));
    assert_eq!(row.element(5).err(), Some(MatError::NotFoundError));
    assert_eq!(row.element(6).err(), Some(MatError::IndexError));
    let info = row.repr();
    assert_eq!(info.len, 6);
    assert_eq!(info.nnz, 3);
    assert_eq!(m.row(4).err(), Some(MatError::IndexError));
}

#[test]
fn row_range_slicing_is_pure_view() {
    let m = demo_matrix();
    let window = m.rows(1..3).unwrap();
    assert_eq!(window.nrows(), 2);
    assert_eq!(window.ncols(), 6);
    let sliced = window.row(0).unwrap();
    let direct = m.row(1).unwrap();
    assert_eq!(sliced.len(), direct.len());
    assert_eq!(sliced.nnz(), direct.nnz());
    for j in 0..6 {
        assert_eq!(sliced.element(j), direct.element(j));
    }
    for i in 0..2 {
        for j in 0..6 {
            assert_eq!(window.element(i, j), m.element(1 + i, j));
        }
    }
}

#[test]
fn row_range_of_row_range() {
    let m = demo_matrix();
    let w1 = m.rows(1..4).unwrap();
    let w2 = w1.rows(1..3).unwrap();
    assert_eq!(w2.nrows(), 2);
    for i in 0..2 {
        for j in 0..6 {
            assert_eq!(w2.element(i, j), m.element(2 + i, j));
        }
    }
}

#[test]
fn row_range_errors() {
    let m = demo_matrix();
    assert_eq!(m.rows(3..1).err(), Some(MatError::RangeError));
    assert_eq!(m.rows(0..5).err(), Some(MatError::RangeError));
    assert!(m.rows(0..0).is_ok());
    assert!(m.rows(4..4).is_ok());
}

#[test]
fn construction_rejects_bad_offsets() {
    let bad_first = Mat::<u64>::new(
        vec![1, 2],
        vec![0, 1],
        vec![1, 2],
        4,
    );
    assert_eq!(bad_first.err(), Some(MatError::ShapeError));

    let bad_last = Mat::<u64>::new(
        vec![1, 2],
        vec![0, 1],
        vec![0, 1],
        4,
    );
    assert_eq!(bad_last.err(), Some(MatError::ShapeError));

    let bad_cols = Mat::<u64>::new(
        vec![1, 2],
        vec![0],
        vec![0, 2],
        4,
    );
    assert_eq!(bad_cols.err(), Some(MatError::ShapeError));

    let empty_offsets = Mat::<u64>::new(vec![], vec![], vec![], 4);
    assert_eq!(empty_offsets.err(), Some(MatError::ShapeError));

    let decreasing = Mat::<u64>::new(
        vec![1, 2, 3],
        vec![0, 1, 2],
        vec![0, 2, 1, 3],
        4,
    );
    assert_eq!(decreasing.err(), Some(MatError::ShapeError));

    let unsorted_row = Mat::<u64>::new(
        vec![1, 2],
        vec![1, 0],
        vec![0, 2],
        4,
    );
    assert_eq!(unsorted_row.err(), Some(MatError::ShapeError));

    let duplicate_col = Mat::<u64>::new(
        vec![1, 2],
        vec![1, 1],
        vec![0, 2],
        4,
    );
    assert_eq!(duplicate_col.err(), Some(MatError::ShapeError));

    let col_too_large = Mat::<u64>::new(
        vec![1, 2],
        vec![0, 4],
        vec![0, 2],
        4,
    );
    assert_eq!(col_too_large.err(), Some(MatError::ShapeError));
}

#[test]
fn empty_matrix_and_rows() {
    let m = Mat::<u64>::new(vec![], vec![], vec![0], 3).unwrap();
    assert_eq!(m.nrows(), 0);
    assert_eq!(m.ncols(), 3);
    assert_eq!(m.nnz(), 0);
    assert_eq!(m.element(0, 0).err(), Some(MatError::IndexError));

    let with_empty_rows = Mat::<u64>::new(vec![9], vec![2], vec![0, 0, 1, 1], 5).unwrap();
    assert_eq!(with_empty_rows.nrows(), 3);
    let empty_row = with_empty_rows.row(0).unwrap();
    assert_eq!(empty_row.nnz(), 0);
    assert_eq!(empty_row.element(2).err(), Some(MatError::NotFoundError));
    assert_eq!(with_empty_rows.element(1, 2), Ok(&9));
}

#[test]
fn owning_matrix_outlives_its_views() {
    let m = demo_matrix();
    {
        let window = m.rows(0..2).unwrap();
        let row = m.row(0).unwrap();
        assert_eq!(window.element(0, 0), Ok(&1));
        assert_eq!(row.element(0), Ok(&1));
    }
    assert_eq!(m.element(0, 0), Ok(&1));
    drop(m);
}

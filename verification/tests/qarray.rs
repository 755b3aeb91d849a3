use quota::offset;
use quota::QArray;
use quota::ToQArray;
use quota::{full, identity, zeros};

#[test]
fn zeros_creates_zero_filled_vector_of_correct_size_and_length() {
    let a1 = zeros(vec![0]);
    assert_eq!(a1.shape, vec![0]);
    assert_eq!(a1.data, vec![]);

    let a2 = zeros(vec![1]);
    assert_eq!(a2.shape, vec![1]);
    assert_eq!(a2.data, vec![0]);

    let a3 = zeros(vec![10]);
    assert_eq!(a3.shape, vec![10]);
    assert_eq!(a3.data, vec![0, 0, 0, 0, 0, 0, 0, 0, 0, 0]);

    let a4 = zeros(vec![1, 2, 3]);
    assert_eq!(a4.shape, vec![1, 2, 3]);
    assert_eq!(a4.data, vec![0, 0, 0, 0, 0, 0]);

    let a5 = zeros(vec![3, 3]);
    assert_eq!(a5.shape, vec![3, 3]);
    assert_eq!(a5.data, vec![0, 0, 0, 0, 0, 0, 0, 0, 0]);
}

#[test]
fn full_test() {
    let a1 = full(vec![0], 1);
    assert_eq!(a1.shape, vec![0]);
    assert_eq!(a1.data, vec![]);

    let a2 = full(vec![1], -3);
    assert_eq!(a2.shape, vec![1]);
    assert_eq!(a2.data, vec![-3]);

    let a3 = full(vec![10], 5);
    assert_eq!(a3.shape, vec![10]);
    assert_eq!(a3.data, vec![5, 5, 5, 5, 5, 5, 5, 5, 5, 5]);

    let a4 = full(vec![1, 2, 3], 0);
    assert_eq!(a4.shape, vec![1, 2, 3]);
    assert_eq!(a4.data, vec![0, 0, 0, 0, 0, 0]);
}

#[test]
fn index_test_1() {
    let array = QArray { shape: vec![1, 1, 1], data: vec![1] };

    assert_eq!(array.index(vec![0, 0, 0].as_slice()), Some(1));
}

#[test]
fn index_test_2() {
    let array = QArray { shape: vec![2, 2, 1], data: vec![1, 2, 3, 4] };

    assert_eq!(array.index(vec![1, 0, 0].as_slice()), Some(2));
    assert_eq!(array.index(vec![0, 1, 0].as_slice()), Some(3));
}

#[test]
fn index_test_3() {
    let array = QArray {
        shape: vec![2, 4, 3],
        data: vec![
            1, 2, 3, 4, 5, 6, 7, 8, 9, 10, 11, 12, 13, 14, 15, 16, 17, 18, 19, 20, 21, 22, 23, 24,
        ],
    };

    assert_eq!(array.index(vec![1, 2, 1].as_slice()), Some(14));
    assert_eq!(array.index(vec![0, 2, 2].as_slice()), Some(21));
}

#[test]
fn test_1d_vec_to_qarray() {
    let v = vec![1, 2, 3];
    let array = v.to_qarray();

    assert_eq!(array.shape, vec![3]);
    assert_eq!(array.data, vec![1, 2, 3]);
}

#[test]
fn test_2d_vec_to_qarray() {
    let v1 = vec![vec![1, 2], vec![3, 4]];
    let array1 = v1.to_qarray();

    assert_eq!(array1.shape, vec![2, 2]);
    assert_eq!(array1.data, vec![1, 2, 3, 4]);

    let v2 = vec![vec![1, 2, 3], vec![4, 5, 6]];
    let array2 = v2.to_qarray();

    assert_eq!(array2.shape, vec![2, 3]);
    assert_eq!(array2.data, vec![1, 2, 3, 4, 5, 6]);
}

#[test]
fn test_3d_vec_to_qarray() {
    let v = vec![vec![vec![1, 2], vec![3, 4]], vec![vec![5, 6], vec![7, 8]]];
    let array = v.to_qarray();

    assert_eq!(array.shape, vec![2, 2, 2]);
    assert_eq!(array.data, vec![1, 2, 3, 4, 5, 6, 7, 8]);
}

#[test]
fn test_identity() {
    let a1 = identity(1);
    assert_eq!(a1.shape, vec![1, 1]);
    assert_eq!(a1.data, vec![1]);

    let a2 = identity(2);
    assert_eq!(a2.shape, vec![2, 2]);
    assert_eq!(a2.data, vec![1, 0, 0, 1]);

    let a3 = identity(0);
    assert_eq!(a3.shape, vec![0, 0]);
    assert_eq!(a3.data, vec![]);
}

#[test]
fn zeros_indexes_to_zero_at_every_valid_coordinate() {
    let a = zeros(vec![2, 3]);
    for i in 0..2usize {
        for j in 0..3usize {
            assert_eq!(a.index(vec![i, j].as_slice()), Some(0));
        }
    }
}

#[test]
fn full_indexes_to_fill_value_at_every_valid_coordinate() {
    let a = full(vec![3, 2], -7);
    for i in 0..3usize {
        for j in 0..2usize {
            assert_eq!(a.index(vec![i, j].as_slice()), Some(-7));
        }
    }
}

#[test]
fn identity_indexes_to_one_on_diagonal_and_zero_off_it() {
    let a = identity(3);
    for i in 0..3usize {
        for j in 0..3usize {
            let expected = if i == j { 1 } else { 0 };
            assert_eq!(a.index(vec![i, j].as_slice()), Some(expected));
        }
    }
}

#[test]
fn index_returns_none_on_rank_mismatch() {
    let a = zeros(vec![2, 2]);
    assert_eq!(a.index(vec![1].as_slice()), None);
    assert_eq!(a.index(vec![0, 0, 0].as_slice()), None);
    assert_eq!(a.index(vec![].as_slice()), None);
}

#[test]
fn index_returns_none_on_out_of_bound_coordinate() {
    let a = zeros(vec![2, 2]);
    assert_eq!(a.index(vec![3, 3].as_slice()), None);
    assert_eq!(a.index(vec![2, 0].as_slice()), None);
    assert_eq!(a.index(vec![0, 2].as_slice()), None);
    assert_eq!(a.index(vec![1, 1].as_slice()), Some(0));
}

#[test]
fn round_trip_1d_recovers_every_element() {
    let v = vec![4, -5, 6, 7];
    let a = v.to_qarray();
    for i in 0..4usize {
        assert_eq!(a.index(vec![i].as_slice()), Some(v[i]));
    }
}

#[test]
fn round_trip_2d_agrees_on_diagonal_and_single_row() {
    let square = vec![vec![1, 2], vec![3, 4]];
    let a = square.to_qarray();
    assert_eq!(a.index(vec![0, 0].as_slice()), Some(1));
    assert_eq!(a.index(vec![1, 1].as_slice()), Some(4));
    // Off the diagonal the buffer is read with the first axis fastest,
    // so the transposed element comes back.
    assert_eq!(a.index(vec![0, 1].as_slice()), Some(3));
    assert_eq!(a.index(vec![1, 0].as_slice()), Some(2));

    let row = vec![vec![9, 8, 7]];
    let b = row.to_qarray();
    for j in 0..3usize {
        assert_eq!(b.index(vec![0, j].as_slice()), Some(row[0][j]));
    }
}

#[test]
fn round_trip_3d_agrees_where_first_and_last_coordinates_match() {
    let v = vec![vec![vec![1, 2], vec![3, 4]], vec![vec![5, 6], vec![7, 8]]];
    let a = v.to_qarray();
    for i in 0..2usize {
        for j in 0..2usize {
            assert_eq!(a.index(vec![i, j, i].as_slice()), Some(v[i][j][i]));
        }
    }
}

#[test]
fn offset_follows_the_stride_formula() {
    let shape = vec![2, 4, 3];
    assert_eq!(offset(shape.as_slice(), vec![0, 0, 0].as_slice()), 0);
    assert_eq!(offset(shape.as_slice(), vec![1, 0, 0].as_slice()), 1);
    assert_eq!(offset(shape.as_slice(), vec![0, 1, 0].as_slice()), 2);
    assert_eq!(offset(shape.as_slice(), vec![0, 0, 1].as_slice()), 8);
    assert_eq!(offset(shape.as_slice(), vec![1, 2, 1].as_slice()), 13);
    assert_eq!(offset(shape.as_slice(), vec![0, 2, 2].as_slice()), 20);
}

#[test]
fn empty_shapes_give_empty_buffers() {
    let a = zeros(vec![0]);
    assert_eq!(a.data.len(), 0);
    assert_eq!(a.index(vec![0].as_slice()), None);

    let b = full(vec![3, 0, 2], 9);
    assert_eq!(b.shape, vec![3, 0, 2]);
    assert_eq!(b.data, vec![]);
    assert_eq!(b.index(vec![0, 0, 0].as_slice()), None);

    let c: Vec<isize> = vec![];
    let d = c.to_qarray();
    assert_eq!(d.shape, vec![0]);
    assert_eq!(d.data, vec![]);

    let e: Vec<Vec<isize>> = vec![];
    let f = e.to_qarray();
    assert_eq!(f.shape, vec![0, 0]);
    assert_eq!(f.data, vec![]);

    let g: Vec<Vec<Vec<isize>>> = vec![];
    let h = g.to_qarray();
    assert_eq!(h.shape, vec![0, 0, 0]);
    assert_eq!(h.data, vec![]);
}

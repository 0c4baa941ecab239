use ann_dataset::{DatasetError, DenseMatrix, PointSet, SparseMatrix};
use ndarray::{Array2, Axis};
use sprs::{CsMat, TriMat};

fn dense_of(array: &Array2<f32>) -> DenseMatrix<f32> {
    DenseMatrix::from_shape_vec(
        array.nrows(),
        array.ncols(),
        array.iter().cloned().collect(),
    )
    .unwrap()
}

fn sparse_of(matrix: &CsMat<f32>) -> SparseMatrix<f32> {
    SparseMatrix::new(
        matrix.rows(),
        matrix.cols(),
        matrix.indptr().raw_storage().to_vec(),
        matrix.indices().to_vec(),
        matrix.data().to_vec(),
    )
    .unwrap()
}

fn sample_sparse(rows: usize) -> CsMat<f32> {
    let mut sparse = TriMat::new((rows, 4));
    sparse.add_triplet(0, 0, 3.0_f32);
    sparse.add_triplet(1, 2, 2.0);
    sparse.add_triplet(3, 0, -2.0);
    sparse.to_csr()
}

#[test]
fn point_set_test_new() {
    let dense = Array2::<f32>::eye(5);
    let sparse = sample_sparse(4);

    assert!(PointSet::<f32>::new(None, None).is_err());
    assert!(PointSet::new(Some(dense_of(&dense)), None).is_ok());
    assert!(PointSet::new(None, Some(sparse_of(&sparse))).is_ok());
    assert!(PointSet::new(Some(dense_of(&dense)), Some(sparse_of(&sparse))).is_err());

    let dense = Array2::<f32>::eye(4);
    assert!(PointSet::new(Some(dense_of(&dense)), Some(sparse_of(&sparse))).is_ok());
}

#[test]
fn new_names_the_fault() {
    assert_eq!(
        Err(DatasetError::EmptyPointSet),
        PointSet::<f32>::new(None, None)
    );
    let dense = Array2::<f32>::eye(5);
    let sparse = sample_sparse(4);
    assert_eq!(
        Err(DatasetError::RowCountMismatch {
            dense: 5,
            sparse: 4
        }),
        PointSet::new(Some(dense_of(&dense)), Some(sparse_of(&sparse)))
    );
}

#[test]
fn test_subset() {
    let dense = Array2::<f32>::eye(10);

    let mut sparse = TriMat::new((10, 4));
    sparse.add_triplet(0, 0, 3.0_f32);
    sparse.add_triplet(1, 2, 2.0);
    sparse.add_triplet(3, 0, -2.0);
    sparse.add_triplet(9, 2, 3.4);
    let sparse: CsMat<_> = sparse.to_csr();

    let point_set = PointSet::new(Some(dense_of(&dense)), Some(sparse_of(&sparse)));
    assert!(point_set.is_ok());
    let point_set = point_set.unwrap();

    let subset = point_set.select(&[9]).unwrap();
    assert_eq!(
        subset.get_dense().unwrap(),
        &dense_of(&dense.select(Axis(0), &[9]))
    );

    let mut sparse_subset = TriMat::new((1, 4));
    sparse_subset.add_triplet(0, 2, 3.4);
    let sparse_subset: CsMat<_> = sparse_subset.to_csr();
    assert_eq!(subset.get_sparse().unwrap(), &sparse_of(&sparse_subset));

    let subset = point_set.select(&[0, 3, 9]).unwrap();
    assert_eq!(
        subset.get_dense().unwrap(),
        &dense_of(&dense.select(Axis(0), &[0, 3, 9]))
    );

    let mut sparse_subset = TriMat::new((3, 4));
    sparse_subset.add_triplet(0, 0, 3.0_f32);
    sparse_subset.add_triplet(1, 0, -2.0);
    sparse_subset.add_triplet(2, 2, 3.4);
    let sparse_subset: CsMat<_> = sparse_subset.to_csr();
    assert_eq!(subset.get_sparse().unwrap(), &sparse_of(&sparse_subset));
}

#[test]
fn test_num_dimensions() {
    let dense = Array2::<f32>::eye(10);
    let sparse = sample_sparse(10);

    let point_set = PointSet::new(Some(dense_of(&dense)), Some(sparse_of(&sparse))).unwrap();
    assert_eq!(14, point_set.num_dimensions());
    assert_eq!(10, point_set.num_dense_dimensions());
    assert_eq!(4, point_set.num_sparse_dimensions());
}

#[test]
fn num_points_of_each_kind() {
    let dense = Array2::<f32>::eye(10);
    let sparse = sample_sparse(10);
    let both = PointSet::new(Some(dense_of(&dense)), Some(sparse_of(&sparse))).unwrap();
    assert_eq!(10, both.num_points());

    let only_dense = PointSet::new(Some(dense_of(&Array2::<f32>::eye(5))), None).unwrap();
    assert_eq!(5, only_dense.num_points());
    assert_eq!(5, only_dense.num_dense_dimensions());
    assert_eq!(0, only_dense.num_sparse_dimensions());
    assert!(only_dense.get_sparse().is_none());

    let only_sparse = PointSet::new(None, Some(sparse_of(&sample_sparse(7)))).unwrap();
    assert_eq!(7, only_sparse.num_points());
    assert_eq!(0, only_sparse.num_dense_dimensions());
    assert_eq!(4, only_sparse.num_sparse_dimensions());
    assert!(only_sparse.get_dense().is_none());
}

#[test]
fn select_nothing_keeps_columns() {
    let dense = Array2::<f32>::eye(10);
    let sparse = sample_sparse(10);
    let point_set = PointSet::new(Some(dense_of(&dense)), Some(sparse_of(&sparse))).unwrap();

    let none = point_set.select(&[]).unwrap();
    assert_eq!(0, none.num_points());
    assert_eq!(10, none.num_dense_dimensions());
    assert_eq!(4, none.num_sparse_dimensions());
    assert_eq!(0, none.get_dense().unwrap().nrows());
    assert_eq!(0, none.get_sparse().unwrap().nrows());
    assert_eq!(0, none.get_sparse().unwrap().nnz());
    assert_eq!(&[0_usize][..], none.get_sparse().unwrap().indptr());
}

#[test]
fn select_has_one_point_per_id() {
    let dense = Array2::<f32>::eye(10);
    let sparse = sample_sparse(10);
    let point_set = PointSet::new(Some(dense_of(&dense)), Some(sparse_of(&sparse))).unwrap();

    let ids = [3, 3, 0, 9, 1, 3];
    let subset = point_set.select(&ids).unwrap();
    assert_eq!(ids.len(), subset.num_points());

    let again = subset.select(&[0, 1, 2, 3, 4, 5]).unwrap();
    assert_eq!(subset, again);
}

#[test]
fn select_repeats_sparse_rows() {
    let sparse = sample_sparse(10);
    let point_set = PointSet::new(None, Some(sparse_of(&sparse))).unwrap();

    let subset = point_set.select(&[3, 1, 3, 2]).unwrap();
    let picked = subset.get_sparse().unwrap();
    assert_eq!(4, picked.nrows());
    assert_eq!(4, picked.ncols());
    assert_eq!(&[0_usize, 1, 2, 3, 3][..], picked.indptr());
    assert_eq!(&[0_usize, 2, 0][..], picked.indices());
    assert_eq!(&[-2.0_f32, 2.0, -2.0][..], picked.data());
}

#[test]
fn select_keeps_the_order_within_a_row() {
    let sparse = SparseMatrix::new(
        3,
        5,
        vec![0, 3, 3, 5],
        vec![0, 2, 4, 1, 3],
        vec![1.5_f32, 2.5, 3.5, 4.5, 5.5],
    )
    .unwrap();
    let point_set = PointSet::new(None, Some(sparse)).unwrap();

    let subset = point_set.select(&[2, 0]).unwrap();
    let picked = subset.get_sparse().unwrap();
    assert_eq!(&[0_usize, 2, 5][..], picked.indptr());
    assert_eq!(&[1_usize, 3, 0, 2, 4][..], picked.indices());
    assert_eq!(&[4.5_f32, 5.5, 1.5, 2.5, 3.5][..], picked.data());
}

#[test]
fn select_rejects_an_id_out_of_bounds() {
    let dense = Array2::<f32>::eye(10);
    let sparse = sample_sparse(10);
    let point_set = PointSet::new(Some(dense_of(&dense)), Some(sparse_of(&sparse))).unwrap();

    assert_eq!(
        Err(DatasetError::IndexOutOfBounds { id: 10, rows: 10 }),
        point_set.select(&[0, 10, 11])
    );
    assert_eq!(
        Err(DatasetError::IndexOutOfBounds { id: 12, rows: 10 }),
        point_set.select(&[12])
    );
    assert!(point_set.select(&[9]).is_ok());
}

#[test]
fn select_does_not_alter_the_norm() {
    let dense = Array2::<f32>::eye(10);
    let sparse = sample_sparse(10);
    let point_set = PointSet::new(Some(dense_of(&dense)), Some(sparse_of(&sparse))).unwrap();

    let ids = [3, 0, 9, 0];
    let subset = point_set.select(&ids).unwrap();
    let all = l2_norm(&point_set);
    let picked = l2_norm(&subset);
    assert_eq!(ids.len(), picked.len());
    for (j, &id) in ids.iter().enumerate() {
        assert_eq!(all[id], picked[j]);
    }
    assert!((all[0] - 3.16).abs() < 0.01);
    assert!((all[3] - 2.23).abs() < 0.01);
    assert!((all[9] - 1.0).abs() < 0.01);
}

fn l2_norm(points: &PointSet<f32>) -> Vec<f32> {
    let mut squared = vec![0.0_f32; points.num_points()];
    if let Some(dense) = points.get_dense() {
        for (i, sum) in squared.iter_mut().enumerate() {
            *sum += dense.get_row(i).unwrap().iter().map(|x| x * x).sum::<f32>();
        }
    }
    if let Some(sparse) = points.get_sparse() {
        let indptr = sparse.indptr();
        for (i, sum) in squared.iter_mut().enumerate() {
            *sum += sparse.data()[indptr[i]..indptr[i + 1]]
                .iter()
                .map(|x| x * x)
                .sum::<f32>();
        }
    }
    squared.iter().map(|v| v.sqrt()).collect()
}

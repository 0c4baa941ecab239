use ann_dataset::Metric::{Cosine, Euclidean, Hamming, InnerProduct};
use ann_dataset::{DatasetError, DenseMatrix, PointSet, QuerySet};
use ndarray::Array2;

fn dense_f64(array: &Array2<f64>) -> DenseMatrix<f64> {
    DenseMatrix::from_shape_vec(
        array.nrows(),
        array.ncols(),
        array.iter().cloned().collect(),
    )
    .unwrap()
}

fn neighbors_of(array: &Array2<usize>) -> DenseMatrix<usize> {
    DenseMatrix::from_shape_vec(
        array.nrows(),
        array.ncols(),
        array.iter().cloned().collect(),
    )
    .unwrap()
}

#[test]
fn query_set_test_new() {
    let dense = Array2::<f64>::eye(5);
    let queries = PointSet::<f64>::new(Some(dense_f64(&dense)), None).unwrap();
    let mut query_set = QuerySet::new(queries);

    assert!(query_set
        .add_ground_truth(InnerProduct, neighbors_of(&Array2::<usize>::eye(3)))
        .is_err());

    assert!(query_set
        .add_ground_truth(InnerProduct, neighbors_of(&Array2::<usize>::zeros((5, 1))))
        .is_ok());
    assert!(query_set
        .add_ground_truth(Euclidean, neighbors_of(&Array2::<usize>::ones((5, 1))))
        .is_ok());

    assert!(query_set.get_ground_truth(&Cosine).is_err());
    assert_eq!(
        query_set
            .get_ground_truth(&Euclidean)
            .unwrap()
            .get_neighbors(),
        &neighbors_of(&Array2::<usize>::ones((5, 1)))
    );
    assert_eq!(
        query_set
            .get_ground_truth(&InnerProduct)
            .unwrap()
            .get_neighbors(),
        &neighbors_of(&Array2::<usize>::zeros((5, 1)))
    );
}

#[test]
fn add_ground_truth_names_the_counts() {
    let queries = PointSet::<f64>::new(Some(dense_f64(&Array2::<f64>::eye(5))), None).unwrap();
    let mut query_set = QuerySet::new(queries);
    assert_eq!(
        Err(DatasetError::GroundTruthRowMismatch {
            neighbors: 3,
            points: 5
        }),
        query_set.add_ground_truth(InnerProduct, neighbors_of(&Array2::<usize>::eye(3)))
    );
    assert_eq!(
        Err(DatasetError::MissingGroundTruth {
            metric: InnerProduct
        }),
        query_set.get_ground_truth(&InnerProduct).map(|_| ())
    );
}

#[test]
fn add_ground_truth_replaces_for_the_same_metric_only() {
    let queries = PointSet::<f64>::new(Some(dense_f64(&Array2::<f64>::eye(2))), None).unwrap();
    let mut query_set = QuerySet::new(queries);
    let first = DenseMatrix::from_shape_vec(2, 2, vec![0_usize, 1, 1, 0]).unwrap();
    let second = DenseMatrix::from_shape_vec(2, 1, vec![1_usize, 0]).unwrap();
    let third = DenseMatrix::from_shape_vec(2, 1, vec![0_usize, 0]).unwrap();

    assert_eq!(Ok(()), query_set.add_ground_truth(Cosine, first.clone()));
    assert_eq!(Ok(()), query_set.add_ground_truth(Hamming, second.clone()));
    assert_eq!(Ok(()), query_set.add_ground_truth(Cosine, third.clone()));

    assert_eq!(
        &third,
        query_set.get_ground_truth(&Cosine).unwrap().get_neighbors()
    );
    assert_eq!(
        &second,
        query_set
            .get_ground_truth(&Hamming)
            .unwrap()
            .get_neighbors()
    );
    assert!(query_set.get_ground_truth(&Euclidean).is_err());
    assert_eq!(2, query_set.get_points().num_points());
}

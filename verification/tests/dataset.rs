use ann_dataset::{
    DatasetError, DenseMatrix, InMemoryAnnDataset, PointSet, QuerySet, SparseMatrix,
};
use sprs::{CsMat, TriMat};

/// Data points whose dense entries are drawn from `[0, 1)` by a fixed rule.
fn sample_data_points(seed: u64) -> PointSet<f32> {
    let mut state = seed;
    let mut entries = Vec::with_capacity(40);
    for _ in 0..40 {
        state = state
            .wrapping_mul(6364136223846793005)
            .wrapping_add(1442695040888963407);
        entries.push((state >> 40) as f32 / (1_u64 << 24) as f32);
    }
    let dense_set = DenseMatrix::from_shape_vec(4, 10, entries).unwrap();

    let mut sparse_set = TriMat::new((4, 4));
    sparse_set.add_triplet(0, 0, 3.0_f32);
    sparse_set.add_triplet(1, 2, 2.0);
    sparse_set.add_triplet(3, 0, -2.0);
    let sparse_set: CsMat<_> = sparse_set.to_csr();
    let sparse_set = SparseMatrix::new(
        sparse_set.rows(),
        sparse_set.cols(),
        sparse_set.indptr().raw_storage().to_vec(),
        sparse_set.indices().to_vec(),
        sparse_set.data().to_vec(),
    )
    .unwrap();

    PointSet::new(Some(dense_set), Some(sparse_set)).unwrap()
}

#[test]
fn dataset_test_create() {
    let data_points = sample_data_points(1);
    let dataset = InMemoryAnnDataset::<f32>::create(data_points.clone());
    let copy = dataset.get_data_points();
    assert_eq!(&data_points, copy);
}

#[test]
fn dataset_test_query_points() {
    let data_points = sample_data_points(1);
    let mut dataset = InMemoryAnnDataset::<f32>::create(data_points.clone());

    assert!(dataset.get_train_query_set().is_err());
    assert!(dataset.get_validation_query_set().is_err());
    assert!(dataset.get_test_query_set().is_err());

    let query_points = sample_data_points(2);
    dataset
        .add_train_query_set(QuerySet::new(query_points.clone()))
        .unwrap();
    assert!(dataset.get_train_query_set().is_ok());
    let copy = dataset.get_train_query_set().unwrap();
    assert_eq!(&query_points, copy.get_points());

    // Replace an existing query set.
    let query_points = sample_data_points(3);
    dataset
        .add_train_query_set(QuerySet::new(query_points.clone()))
        .unwrap();
    assert!(dataset.get_train_query_set().is_ok());
    let copy = dataset.get_train_query_set().unwrap();
    assert_eq!(&query_points, copy.get_points());
}

#[test]
fn in_memory_dataset_test_create() {
    let data_points = sample_data_points(1);
    let dataset = InMemoryAnnDataset::<f32>::create(data_points.clone());
    let copy = dataset.get_data_points();
    assert_eq!(&data_points, copy);

    assert_eq!(4, dataset.num_data_points());
    assert!(dataset.num_query_points("nonexistent").is_err());
}

#[test]
fn in_memory_dataset_test_query_points() {
    let data_points = sample_data_points(1);
    let mut dataset = InMemoryAnnDataset::<f32>::create(data_points.clone());

    assert!(dataset.get_train_query_set().is_err());
    assert!(dataset.get_validation_query_set().is_err());
    assert!(dataset.get_test_query_set().is_err());

    let query_points = sample_data_points(2);
    assert!(dataset
        .add_train_query_set(QuerySet::new(query_points.clone()))
        .is_ok());
    assert!(dataset.get_train_query_set().is_ok());
    assert_eq!(4, dataset.num_train_query_points().unwrap());
    let copy = dataset.get_train_query_set().unwrap();
    assert_eq!(&query_points, copy.get_points());

    // Replace an existing query set.
    let query_points = sample_data_points(3);
    assert!(dataset
        .add_train_query_set(QuerySet::new(query_points.clone()))
        .is_ok());
    assert!(dataset.get_train_query_set().is_ok());
    let copy = dataset.get_train_query_set().unwrap();
    assert_eq!(&query_points, copy.get_points());
}

#[test]
fn query_sets_are_kept_by_label() {
    let mut dataset = InMemoryAnnDataset::<f32>::create(sample_data_points(1));
    let train = sample_data_points(2);
    let validation = sample_data_points(3).select(&[0, 1]).unwrap();
    let test = sample_data_points(4).select(&[2]).unwrap();
    let other = sample_data_points(5).select(&[]).unwrap();

    assert_eq!(
        Ok(()),
        dataset.add_train_query_set(QuerySet::new(train.clone()))
    );
    assert_eq!(
        Ok(()),
        dataset.add_validation_query_set(QuerySet::new(validation.clone()))
    );
    assert_eq!(
        Ok(()),
        dataset.add_test_query_set(QuerySet::new(test.clone()))
    );
    assert_eq!(
        Ok(()),
        dataset.add_query_set("other", QuerySet::new(other.clone()))
    );

    assert_eq!(Ok(4), dataset.num_train_query_points());
    assert_eq!(Ok(2), dataset.num_validation_query_points());
    assert_eq!(Ok(1), dataset.num_test_query_points());
    assert_eq!(Ok(0), dataset.num_query_points("other"));
    assert_eq!(Ok(4), dataset.num_query_points("train_query_set"));
    assert_eq!(Ok(2), dataset.num_query_points("validation_query_set"));
    assert_eq!(Ok(1), dataset.num_query_points("test_query_set"));
    assert_eq!(
        &validation,
        dataset.get_validation_query_set().unwrap().get_points()
    );
    assert_eq!(&test, dataset.get_query_set("test_query_set").unwrap().get_points());

    // Replacing one leaves the others.
    assert_eq!(
        Ok(()),
        dataset.add_validation_query_set(QuerySet::new(test.clone()))
    );
    assert_eq!(Ok(1), dataset.num_validation_query_points());
    assert_eq!(Ok(4), dataset.num_train_query_points());
    assert_eq!(Ok(0), dataset.num_query_points("other"));
}

#[test]
fn a_label_never_used_is_missing() {
    let dataset = InMemoryAnnDataset::<f32>::create(sample_data_points(1));
    assert_eq!(
        Some(DatasetError::MissingQuerySet {
            label: "nonexistent".to_string()
        }),
        dataset.get_query_set("nonexistent").err()
    );
    assert_eq!(
        Err(DatasetError::MissingQuerySet {
            label: String::new()
        }),
        dataset.num_query_points("")
    );
    assert_eq!(
        Err(DatasetError::MissingQuerySet {
            label: "test_query_set".to_string()
        }),
        dataset.num_test_query_points()
    );
}

#[test]
fn dataset_selects_its_data_points() {
    let data_points = sample_data_points(1);
    let dataset = InMemoryAnnDataset::<f32>::create(data_points.clone());
    assert_eq!(data_points.select(&[3, 0]), dataset.select(&[3, 0]));
    assert_eq!(
        Err(DatasetError::IndexOutOfBounds { id: 4, rows: 4 }),
        dataset.select(&[4])
    );
}

#[test]
fn labels_come_in_the_order_of_their_first_use() {
    let mut dataset = InMemoryAnnDataset::<f32>::create(sample_data_points(1));
    assert!(dataset.labels().is_empty());
    dataset
        .add_test_query_set(QuerySet::new(sample_data_points(2)))
        .unwrap();
    dataset
        .add_query_set("other", QuerySet::new(sample_data_points(3)))
        .unwrap();
    dataset
        .add_test_query_set(QuerySet::new(sample_data_points(4)))
        .unwrap();
    assert_eq!(
        vec!["test_query_set".to_string(), "other".to_string()],
        dataset.labels()
    );
}

#[test]
fn data_points_are_replaced_as_a_whole() {
    let first = sample_data_points(1);
    let second = sample_data_points(2).select(&[1, 0]).unwrap();
    let mut dataset = InMemoryAnnDataset::<f32>::create(first.clone());
    dataset
        .add_train_query_set(QuerySet::new(sample_data_points(3)))
        .unwrap();

    let former = dataset.replace_data_points(second.clone());
    assert_eq!(first, former);
    assert_eq!(&second, dataset.get_data_points());
    assert_eq!(2, dataset.num_data_points());
    assert_eq!(Ok(4), dataset.num_train_query_points());
}

#[test]
fn a_copy_of_a_dataset_is_equal_to_it() {
    let mut dataset = InMemoryAnnDataset::<f32>::create(sample_data_points(1));
    let mut query_set = QuerySet::new(sample_data_points(2));
    query_set
        .add_ground_truth(
            ann_dataset::Metric::Cosine,
            DenseMatrix::from_shape_vec(4, 1, vec![3_usize, 2, 1, 0]).unwrap(),
        )
        .unwrap();
    dataset.add_train_query_set(query_set.clone()).unwrap();
    dataset
        .add_query_set("other", QuerySet::new(sample_data_points(3)))
        .unwrap();

    let copy = dataset.clone();
    assert_eq!(dataset, copy);
    assert_eq!(&query_set, copy.get_train_query_set().unwrap());
}

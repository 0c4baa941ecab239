use ann_dataset::{DatasetError, DenseMatrix, GroundTruth, Recall};

fn sample_ground_truth() -> GroundTruth {
    GroundTruth::new(
        DenseMatrix::from_shape_vec(3, 3, vec![1_usize, 2, 3, 4, 5, 6, 7, 8, 9]).unwrap(),
    )
}

fn values(recall: &[Recall]) -> Vec<f32> {
    recall
        .iter()
        .map(|r| r.hits as f32 / r.depth as f32)
        .collect()
}

fn mean_recall(gt: &GroundTruth, retrieved_set: &[Vec<usize>]) -> Result<f32, DatasetError> {
    let recall = gt.recall(retrieved_set)?;
    if retrieved_set.is_empty() {
        return Ok(1.0);
    }
    Ok(values(&recall).iter().sum::<f32>() / retrieved_set.len() as f32)
}

#[test]
fn test_recall() {
    let gt = sample_ground_truth();
    assert!(gt.recall(&[]).is_err());
    assert!(mean_recall(&gt, &[]).is_err());

    let recall = gt.recall(&[vec![1_usize], vec![5], vec![1]]);
    let mean = mean_recall(&gt, &[vec![1_usize], vec![5], vec![1]]);
    assert!((mean.unwrap() as f64 - 0.333).abs() < 0.01);
    for (expected, found) in [1.0_f64, 0., 0.].iter().zip(values(&recall.unwrap())) {
        assert!((expected - found as f64).abs() < 0.01);
    }

    let recall = mean_recall(&gt, &[vec![1_usize, 2], vec![5, 6], vec![1, 8]]);
    assert!((recall.unwrap() as f64 - 0.666).abs() < 0.01);
}

#[test]
fn recall_counts_hits_and_depth() {
    let gt = sample_ground_truth();
    assert_eq!(
        Ok(vec![
            Recall { hits: 1, depth: 1 },
            Recall { hits: 0, depth: 1 },
            Recall { hits: 0, depth: 1 },
        ]),
        gt.recall(&[vec![1_usize], vec![5], vec![1]])
    );
    assert_eq!(
        Ok(vec![
            Recall { hits: 2, depth: 2 },
            Recall { hits: 1, depth: 2 },
            Recall { hits: 1, depth: 2 },
        ]),
        gt.recall(&[vec![1_usize, 2], vec![5, 6], vec![1, 8]])
    );
}

#[test]
fn recall_cuts_both_lists_to_the_shorter() {
    let gt = sample_ground_truth();
    // Longer than the ground truth: only the first three retrieved ids count.
    // Shorter: only the first exact neighbors count. Each query has its own depth.
    assert_eq!(
        Ok(vec![
            Recall { hits: 2, depth: 3 },
            Recall { hits: 1, depth: 2 },
            Recall { hits: 0, depth: 0 },
        ]),
        gt.recall(&[vec![3_usize, 9, 1, 2], vec![5, 6], vec![]])
    );
}

#[test]
fn recall_counts_a_repeated_id_once() {
    let gt = sample_ground_truth();
    assert_eq!(
        Ok(vec![
            Recall { hits: 1, depth: 3 },
            Recall { hits: 1, depth: 3 },
            Recall { hits: 0, depth: 3 },
        ]),
        gt.recall(&[vec![1_usize, 1, 1], vec![6, 6, 0], vec![1, 2, 3]])
    );
}

#[test]
fn recall_tells_large_ids_apart() {
    let far = 1_usize << 32;
    let gt = GroundTruth::new(DenseMatrix::from_shape_vec(1, 2, vec![far + 1, 2]).unwrap());
    assert_eq!(
        Ok(vec![Recall { hits: 0, depth: 2 }]),
        gt.recall(&[vec![1_usize, far + 2]])
    );
    assert_eq!(
        Ok(vec![Recall { hits: 2, depth: 2 }]),
        gt.recall(&[vec![2_usize, far + 1]])
    );
}

#[test]
fn recall_rejects_another_number_of_queries() {
    let gt = sample_ground_truth();
    assert_eq!(
        Err(DatasetError::RecallShapeMismatch {
            retrieved: 0,
            expected: 3
        }),
        gt.recall(&[])
    );
    assert_eq!(
        Err(DatasetError::RecallShapeMismatch {
            retrieved: 4,
            expected: 3
        }),
        gt.recall(&[vec![1_usize], vec![5], vec![1], vec![2]])
    );
}

#[test]
fn recall_of_no_query_is_perfect() {
    let gt = GroundTruth::new(DenseMatrix::from_shape_vec(0, 3, vec![]).unwrap());
    assert_eq!(Ok(vec![]), gt.recall(&[]));
    assert_eq!(Ok(1.0), mean_recall(&gt, &[]));
    let gt = GroundTruth::default();
    assert_eq!(Ok(vec![]), gt.recall(&[]));
    assert_eq!(0, gt.get_neighbors().nrows());
    assert_eq!(0, gt.get_neighbors().ncols());
}

#[test]
fn recall_against_itself_is_perfect() {
    let gt = sample_ground_truth();
    let itself = vec![vec![1_usize, 2, 3], vec![4, 5, 6], vec![7, 8, 9]];
    assert_eq!(
        Ok(vec![Recall { hits: 3, depth: 3 }; 3]),
        gt.recall(&itself)
    );
    assert_eq!(Ok(1.0), mean_recall(&gt, &itself));
}

#[test]
fn recall_of_one_query() {
    assert_eq!(
        Recall { hits: 2, depth: 3 },
        Recall::of(&[1, 2, 3], &[3, 1, 7, 2])
    );
    assert_eq!(Recall { hits: 0, depth: 0 }, Recall::of(&[1, 2, 3], &[]));
    assert_eq!(Recall { hits: 0, depth: 0 }, Recall::of(&[], &[1]));
    assert_eq!(Recall { hits: 1, depth: 1 }, Recall::of(&[4, 5], &[4]));
    assert_eq!(Recall { hits: 0, depth: 1 }, Recall::of(&[4, 5], &[5]));
}

#[test]
fn get_neighbors_returns_the_matrix() {
    let gt = sample_ground_truth();
    assert_eq!(3, gt.get_neighbors().nrows());
    assert_eq!(3, gt.get_neighbors().ncols());
    assert_eq!(
        &[1_usize, 2, 3, 4, 5, 6, 7, 8, 9][..],
        gt.get_neighbors().as_slice()
    );
    assert_eq!(Some(&[4_usize, 5, 6][..]), gt.get_neighbors().get_row(1));
}

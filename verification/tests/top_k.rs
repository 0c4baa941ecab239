use ann_dataset::top_k::get_largest;

#[test]
fn get_largest_orders_by_score() {
    assert_eq!(vec![3, 0, 2], get_largest(&[5, -1, 2, 9, 0], 3));
    assert_eq!(vec![3], get_largest(&[5, -1, 2, 9, 0], 1));
    assert_eq!(vec![3, 0, 2, 4, 1], get_largest(&[5, -1, 2, 9, 0], 5));
}

#[test]
fn get_largest_returns_all_when_there_are_fewer() {
    assert_eq!(vec![1, 2, 0], get_largest(&[1, 3, 2], 10));
    assert_eq!(vec![1, 2, 0], get_largest(&[1, 3, 2], usize::MAX));
    assert_eq!(Vec::<usize>::new(), get_largest(&[], 4));
}

#[test]
fn get_largest_of_nothing_wanted() {
    assert_eq!(Vec::<usize>::new(), get_largest(&[1, 3, 2], 0));
}

#[test]
fn get_largest_prefers_the_lower_index_among_equals() {
    assert_eq!(vec![0, 1], get_largest(&[7, 7, 7, 7], 2));
    assert_eq!(vec![1, 0, 2], get_largest(&[4, 9, 4, 4], 3));
    assert_eq!(vec![0, 1, 2, 3], get_largest(&[0, 0, 0, 0], 4));
}

#[test]
fn get_largest_takes_the_lowest_scores_too() {
    assert_eq!(vec![1, 0], get_largest(&[i64::MIN, i64::MAX], 2));
    assert_eq!(vec![0, 1], get_largest(&[i64::MIN, i64::MIN], 2));
}

#[test]
fn get_largest_agrees_with_a_full_sort() {
    let n = 500_usize;
    let mut state = 12345_u64;
    let mut scores = Vec::with_capacity(n);
    for _ in 0..n {
        state = state
            .wrapping_mul(6364136223846793005)
            .wrapping_add(1442695040888963407);
        scores.push(((state >> 33) % 97) as i64 - 48);
    }
    let mut order: Vec<usize> = (0..n).collect();
    order.sort_by(|&a, &b| scores[b].cmp(&scores[a]).then(a.cmp(&b)));
    for k in [0_usize, 1, 2, 7, 64, 499, 500, 501] {
        let top = get_largest(&scores, k);
        assert_eq!(k.min(n), top.len());
        assert_eq!(&order[..k.min(n)], &top[..]);
        for pair in top.windows(2) {
            assert!(scores[pair[0]] >= scores[pair[1]]);
        }
        if let Some(&last) = top.last() {
            for (c, &score) in scores.iter().enumerate() {
                if !top.contains(&c) {
                    assert!(score <= scores[last]);
                }
            }
        }
    }
}

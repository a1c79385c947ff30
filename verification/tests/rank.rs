use devspace_sweeper::rank::rank_by_weight;

#[test]
fn heaviest_comes_first() {
    assert_eq!(rank_by_weight(&vec![3, 18, 3, 100]), vec![3, 1, 0, 2]);
}

#[test]
fn equal_weights_keep_their_order() {
    assert_eq!(rank_by_weight(&vec![5, 5, 5]), vec![0, 1, 2]);
    assert_eq!(rank_by_weight(&vec![1, 9, 1, 9, 1]), vec![1, 3, 0, 2, 4]);
}

#[test]
fn ranking_of_nothing_and_of_one() {
    assert_eq!(rank_by_weight(&vec![]), Vec::<usize>::new());
    assert_eq!(rank_by_weight(&vec![7]), vec![0]);
}

#[test]
fn ranking_handles_the_extremes() {
    assert_eq!(rank_by_weight(&vec![0, u64::MAX, 0, u64::MAX - 1]), vec![1, 3, 0, 2]);
}

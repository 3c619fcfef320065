use infra_core::combinatorics::{
    combinations_indices, combinations_triples, combinations_triples_with_anchor, n_choose_k_u64,
};

#[test]
fn n_choose_k_matches_small_cases() {
    assert_eq!(n_choose_k_u64(4, 3), 4);
    assert_eq!(n_choose_k_u64(10, 3), 120);
}

#[test]
fn n_choose_k_edges() {
    assert_eq!(n_choose_k_u64(3, 4), 0);
    assert_eq!(n_choose_k_u64(0, 0), 1);
    assert_eq!(n_choose_k_u64(7, 0), 1);
    assert_eq!(n_choose_k_u64(7, 7), 1);
    assert_eq!(n_choose_k_u64(52, 5), 2_598_960);
    assert_eq!(n_choose_k_u64(60, 30), 118_264_581_564_861_424);
    assert_eq!(n_choose_k_u64(10, 7), n_choose_k_u64(10, 3));
}

#[test]
fn combinations_indices_lexicographic() {
    let all = combinations_indices(4, 3);
    assert_eq!(all, vec![vec![0, 1, 2], vec![0, 1, 3], vec![0, 2, 3], vec![1, 2, 3]]);
    assert_eq!(combinations_indices(3, 0), vec![Vec::<usize>::new()]);
    assert!(combinations_indices(2, 3).is_empty());
    assert_eq!(combinations_indices(6, 2).len() as u64, n_choose_k_u64(6, 2));
}

#[test]
fn combinations_triples_stream_every_triple_once() {
    let mut it = combinations_triples(5);
    let mut got = Vec::new();
    while let Some(t) = it.next() {
        got.push(t);
    }
    assert_eq!(got.len() as u64, n_choose_k_u64(5, 3));
    assert_eq!(got[0], [0, 1, 2]);
    assert_eq!(got[1], [0, 1, 3]);
    assert_eq!(*got.last().unwrap(), [2, 3, 4]);
    for w in got.windows(2) {
        assert!(w[0] < w[1]);
    }
    assert!(it.next().is_none());
    let mut empty = combinations_triples(2);
    assert!(empty.next().is_none());
}

#[test]
fn combinations_with_anchor_pairs_the_rest() {
    let got = combinations_triples_with_anchor(4, 1);
    assert_eq!(got, vec![[1, 0, 2], [1, 0, 3], [1, 2, 3]]);
    assert!(combinations_triples_with_anchor(2, 0).is_empty());
}

#[test]
fn triple_iterator_walks_the_size_three_combinations() {
    for n in 0usize..8 {
        let mut it = combinations_triples(n);
        let mut walked: Vec<Vec<usize>> = Vec::new();
        while let Some(t) = it.next() {
            walked.push(t.to_vec());
        }
        assert_eq!(walked, combinations_indices(n, 3));
        assert_eq!(walked.len() as u64, n_choose_k_u64(n, 3));
    }
}

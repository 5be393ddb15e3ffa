use tetris_ga::{best_index, crossover, elite_count, rank_by_fitness, roulette_pick, selection_weights};

#[test]
fn rank_is_descending_and_stable() {
    let scores = vec![5u64, 9, 5, 0, 9, 7];
    assert_eq!(rank_by_fitness(&scores), vec![1, 4, 5, 0, 2, 3]);
    assert_eq!(rank_by_fitness(&vec![]), Vec::<usize>::new());
}

#[test]
fn elite_count_rounds() {
    assert_eq!(elite_count(128, 10), 13);
    assert_eq!(elite_count(15, 10), 2);
    assert_eq!(elite_count(14, 10), 1);
    assert_eq!(elite_count(4, 10), 0);
    assert_eq!(elite_count(7, 100), 7);
}

#[test]
fn selection_weights_floor_zero_scores() {
    assert_eq!(selection_weights(&vec![0, 12, 1, 0], 3), vec![3, 12, 1, 3]);
}

#[test]
fn roulette_pick_by_slices() {
    let w = vec![3u64, 0, 2, 5];
    let picks: Vec<usize> = (0..10).map(|r| roulette_pick(&w, r)).collect();
    assert_eq!(picks, vec![0, 0, 0, 2, 2, 3, 3, 3, 3, 3]);
}

#[test]
fn crossover_splits_at_point() {
    let a = vec![1.0f64, 2.0, 3.0, 4.0, 5.0, 6.0];
    let b = vec![-1.0f64, -2.0, -3.0, -4.0, -5.0, -6.0];
    assert_eq!(crossover(&a, &b, 2), vec![1.0, 2.0, -3.0, -4.0, -5.0, -6.0]);
    assert_eq!(crossover(&a, &b, 5), vec![1.0, 2.0, 3.0, 4.0, 5.0, -6.0]);
    assert_eq!(crossover(&a, &b, 0), b);
}

#[test]
fn best_index_takes_first_maximum() {
    assert_eq!(best_index(&vec![3, 8, 1, 8]), 1);
    assert_eq!(best_index(&vec![0]), 0);
}

#[test]
fn elite_keeps_best_recorded_fitness() {
    let scores = vec![40u64, 310, 12, 310, 95];
    let ranked = rank_by_fitness(&scores);
    let k = elite_count(scores.len(), 20);
    assert_eq!(k, 1);
    let next_best = ranked[..k].iter().map(|&i| scores[i]).max().unwrap();
    assert!(next_best >= *scores.iter().max().unwrap());
}

use rustport::common::random::thread_rng;
use rustport::optimizer::population::{
    breed, flatten_orders, has_distinct_ids, parent_pool, identity_vec, parent_info_fits, Modifier, ParentInfo,
    Population,
};
use rustport::optimizer::ranking::rank_indices;

fn all_modifiers() -> Vec<Modifier> {
    vec![
        Modifier::Crossover,
        Modifier::Swap,
        Modifier::Space,
        Modifier::Insert,
        Modifier::BinPreservation,
        Modifier::Scramble,
    ]
}

fn is_order(order: &[usize], n: usize) -> bool {
    let mut s = order.to_vec();
    s.sort();
    s == (0..n).collect::<Vec<usize>>()
}

#[test]
fn rank_indices_is_stable_both_ways() {
    let keys: Vec<u64> = vec![5, 1, 5, 3, 1];
    assert_eq!(rank_indices(&keys, false), vec![1, 4, 3, 0, 2]);
    assert_eq!(rank_indices(&keys, true), vec![0, 2, 3, 1, 4]);
    assert_eq!(rank_indices(&vec![], true), Vec::<usize>::new());
}

#[test]
fn identity_vec_counts_up() {
    assert_eq!(identity_vec(4), vec![0, 1, 2, 3]);
    assert_eq!(identity_vec(0), Vec::<usize>::new());
}

#[test]
fn new_population_starts_with_sorted_orders() {
    let mut rng = thread_rng();
    // Volumes 8, 27, 1 and longest sides 2, 3, 5.
    let volume_keys: Vec<u64> = vec![8, 27, 1];
    let side_keys: Vec<u64> = vec![2, 3, 5];
    let pop = Population::new(&mut rng, &volume_keys, &side_keys, 6, 2, false, all_modifiers());
    assert_eq!(pop.box_orders.len(), 6);
    assert_eq!(pop.box_orders[0], vec![2, 0, 1]);
    assert_eq!(pop.box_orders[1], vec![1, 0, 2]);
    assert_eq!(pop.box_orders[2], vec![2, 1, 0]);
    for order in &pop.box_orders {
        assert!(is_order(order, 3));
    }
}

#[test]
fn small_population_still_holds_the_three_seeds() {
    let mut rng = thread_rng();
    let pop = Population::new(&mut rng, &vec![1, 2], &vec![1, 2], 1, 1, false, vec![Modifier::Swap]);
    assert_eq!(pop.box_orders.len(), 3);
    assert_eq!(pop.population_size, 1);
}

#[test]
fn advance_generation_keeps_the_elite() {
    let mut rng = thread_rng();
    let n = 5;
    let keys: Vec<u64> = vec![5, 4, 3, 2, 1];
    let mut pop = Population::new(&mut rng, &keys, &keys, 8, 3, false, all_modifiers());
    let before = pop.box_orders.clone();
    // Scores: order 6 best, then 2, then 5.
    let scores: Vec<u64> = vec![10, 20, 70, 15, 5, 60, 90, 30];
    let ids: Vec<i32> = (0..n as i32).collect();
    let parents: Vec<ParentInfo> = (0..3)
        .map(|_| ParentInfo { best_bin_ids: vec![0, 1], target_box_id: Some(2) })
        .collect();
    pop.advance_generation(&mut rng, &scores, &parents, &ids);
    assert_eq!(pop.box_orders.len(), 8);
    assert_eq!(pop.box_orders[0], before[6]);
    assert_eq!(pop.box_orders[1], before[2]);
    assert_eq!(pop.box_orders[2], before[5]);
    for order in &pop.box_orders {
        assert!(is_order(order, n));
    }
}

#[test]
fn growing_bin_ranks_small_scores_first() {
    let mut rng = thread_rng();
    let keys: Vec<u64> = vec![1, 2, 3, 4];
    let mut pop = Population::new(&mut rng, &keys, &keys, 4, 1, true, vec![Modifier::Insert]);
    let before = pop.box_orders.clone();
    let scores: Vec<u64> = vec![40, 30, 10, 20];
    let parents = vec![ParentInfo { best_bin_ids: vec![], target_box_id: None }];
    pop.advance_generation(&mut rng, &scores, &parents, &vec![0, 1, 2, 3]);
    assert_eq!(pop.box_orders[0], before[2]);
}

#[test]
fn breed_bin_preservation_is_exact() {
    let mut rng = thread_rng();
    let info = ParentInfo { best_bin_ids: vec![2], target_box_id: None };
    let child = breed(
        &mut rng,
        Modifier::BinPreservation,
        &vec![0, 1, 2],
        &vec![1, 2, 0],
        &info,
        &vec![0, 1, 2],
    );
    assert_eq!(child, vec![2, 1, 0]);
}

#[test]
fn flat_orders_pad_rows() {
    let orders = vec![vec![2, 0, 1], vec![1, 0], vec![0, 1, 2]];
    assert_eq!(flatten_orders(&orders, 2, 3), vec![2, 0, 1, 1, 0, 0]);
    assert_eq!(flatten_orders(&orders, 0, 3), Vec::<i32>::new());
}

#[test]
fn best_and_flat_orders_of_population() {
    let mut rng = thread_rng();
    let keys: Vec<u64> = vec![3, 1, 2];
    let pop = Population::new(&mut rng, &keys, &keys, 3, 1, false, vec![Modifier::Swap]);
    assert_eq!(pop.get_best_order(), vec![1, 2, 0]);
    let flat = pop.get_current_orders_flat();
    assert_eq!(flat.len(), 9);
    assert_eq!(&flat[0..3], &[1, 2, 0]);
    assert_eq!(&flat[3..6], &[0, 2, 1]);
}

#[test]
fn distinct_ids_are_recognised() {
    assert!(has_distinct_ids(&vec![]));
    assert!(has_distinct_ids(&vec![4, -1, 7]));
    assert!(!has_distinct_ids(&vec![4, -1, 4]));
}

#[test]
fn parent_info_must_list_known_ids_once() {
    let ids = vec![10, 20, 30];
    let fits = ParentInfo { best_bin_ids: vec![30, 10], target_box_id: None };
    assert!(parent_info_fits(&fits, &ids));
    let unknown = ParentInfo { best_bin_ids: vec![40], target_box_id: None };
    assert!(!parent_info_fits(&unknown, &ids));
    let repeated = ParentInfo { best_bin_ids: vec![20, 20], target_box_id: Some(20) };
    assert!(!parent_info_fits(&repeated, &ids));
    let empty = ParentInfo { best_bin_ids: vec![], target_box_id: Some(99) };
    assert!(parent_info_fits(&empty, &ids));
}

#[test]
fn parent_pool_is_the_elite_but_at_least_one() {
    assert_eq!(parent_pool(4, 32), 4);
    assert_eq!(parent_pool(40, 32), 32);
    assert_eq!(parent_pool(0, 32), 1);
    assert_eq!(parent_pool(3, 0), 1);
}

#[test]
fn children_are_bred_from_the_elite() {
    let mut rng = thread_rng();
    let keys: Vec<u64> = vec![1, 2, 3];
    let mut pop = Population::new(&mut rng, &keys, &keys, 5, 1, false, vec![Modifier::BinPreservation]);
    let before = pop.box_orders.clone();
    // Order 3 is rated best, so it is the only parent.
    let scores: Vec<u64> = vec![1, 2, 3, 9, 4];
    let parents = vec![ParentInfo { best_bin_ids: vec![2], target_box_id: None }];
    pop.advance_generation(&mut rng, &scores, &parents, &vec![0, 1, 2]);
    assert_eq!(pop.box_orders[0], before[3]);
    let mut expected = vec![2];
    expected.extend(before[3].iter().copied().filter(|&g| g != 2));
    for child in &pop.box_orders[1..] {
        assert_eq!(child, &expected);
    }
}

#[test]
fn size_to_orders_counts_the_seeds() {
    let mut rng = thread_rng();
    let mut pop = Population::new(&mut rng, &vec![1, 2], &vec![1, 2], 1, 1, false, vec![Modifier::Swap]);
    assert_eq!(pop.population_size, 1);
    pop.size_to_orders();
    assert_eq!(pop.population_size, 3);
    let mut big = Population::new(&mut rng, &vec![1, 2], &vec![1, 2], 7, 1, false, vec![Modifier::Swap]);
    big.size_to_orders();
    assert_eq!(big.population_size, 7);
}

#[test]
fn breed_mutations_ignore_the_second_order_length() {
    let mut rng = thread_rng();
    let info = ParentInfo { best_bin_ids: vec![], target_box_id: None };
    let child = breed(&mut rng, Modifier::Swap, &vec![0, 1, 2], &vec![], &info, &vec![0, 1, 2]);
    let mut sorted = child.clone();
    sorted.sort();
    assert_eq!(sorted, vec![0, 1, 2]);
    assert_ne!(child, vec![0, 1, 2]);
}

use rustport::common::random::thread_rng;
use rustport::optimizer::mutators::{
    bin_preservation_crossover, crossover, insert_mutation, scramble_mutation, space_mutation,
    swap_mutation,
};

fn sorted(v: &[usize]) -> Vec<usize> {
    let mut s = v.to_vec();
    s.sort();
    s
}

#[test]
fn test_swap_mutation() {
    let mut rng = thread_rng();
    let current_sequence: Vec<usize> = vec![0, 1, 2, 3, 4];

    let mutated = swap_mutation::modify(&mut rng, &current_sequence);

    assert_eq!(mutated.len(), 5);
    assert_ne!(mutated, vec![0, 1, 2, 3, 4]);
    assert_eq!(sorted(&mutated), vec![0, 1, 2, 3, 4]);
}

#[test]
fn test_insert_mutation() {
    let mut rng = thread_rng();
    let current_sequence: Vec<usize> = vec![0, 1, 2, 3, 4];

    let mutated = insert_mutation::modify(&mut rng, &current_sequence);

    assert_eq!(mutated.len(), 5);
    assert_eq!(sorted(&mutated), vec![0, 1, 2, 3, 4]);
}

#[test]
fn test_space_mutation() {
    let mut rng = thread_rng();
    let current_sequence: Vec<usize> = vec![0, 1, 2];
    // The only box of the packing, id 0, is the one with the most empty
    // space beyond it.
    let original_ids: Vec<i32> = vec![0, 1, 2];

    let mutated = space_mutation::modify(&mut rng, &current_sequence, Some(0), &original_ids);

    assert_eq!(mutated.len(), 3);
    assert_eq!(sorted(&mutated), vec![0, 1, 2]);
    assert_ne!(mutated[0], 0);
}

#[test]
fn test_bin_preservation_crossover() {
    // The best bin of the current solution holds the boxes 0 and 1.
    let best_bin_ids: Vec<i32> = vec![0, 1];
    let original_ids: Vec<i32> = vec![0, 1, 2];
    let second: Vec<usize> = vec![2, 1, 0];

    let child = bin_preservation_crossover::modify(&best_bin_ids, &original_ids, &second);

    assert_eq!(child.len(), 3);
    assert_eq!(sorted(&child), vec![0, 1, 2]);
    assert_eq!(child[0], 0);
    assert_eq!(child[1], 1);
    assert_eq!(child[2], 2);
}

#[test]
fn bin_preservation_without_best_bin_follows_second_order() {
    let child = bin_preservation_crossover::modify(&vec![], &vec![10, 11, 12], &vec![2, 0, 1]);
    assert_eq!(child, vec![2, 0, 1]);
}

#[test]
fn bin_preservation_maps_ids_to_indices() {
    // Ids 30 and 10 sit at indices 2 and 0; an unknown id maps to itself.
    let child = bin_preservation_crossover::modify(&vec![30, 10], &vec![10, 20, 30], &vec![0, 1, 2]);
    assert_eq!(child, vec![2, 0, 1]);
    let unknown = bin_preservation_crossover::modify(&vec![1], &vec![7, 8, 9], &vec![2, 1, 0]);
    assert_eq!(unknown, vec![1, 2, 0]);
}

#[test]
fn swap_positions_exchanges_two_genes() {
    let child = swap_mutation::swap_positions(&vec![5, 6, 7, 8], 1, 3);
    assert_eq!(child, vec![5, 8, 7, 6]);
}

#[test]
fn swap_mutation_keeps_short_orders() {
    let mut rng = thread_rng();
    assert_eq!(swap_mutation::modify(&mut rng, &vec![3]), vec![3]);
    assert_eq!(swap_mutation::modify(&mut rng, &vec![]), Vec::<usize>::new());
}

#[test]
fn move_gene_moves_forward_and_backward() {
    let order = vec![0, 1, 2, 3, 4];
    assert_eq!(insert_mutation::move_gene(&order, 1, 3), vec![0, 2, 3, 1, 4]);
    assert_eq!(insert_mutation::move_gene(&order, 4, 0), vec![4, 0, 1, 2, 3]);
    assert_eq!(insert_mutation::move_gene(&order, 2, 2), order);
}

#[test]
fn scramble_mutation_is_a_permutation() {
    let mut rng = thread_rng();
    let order: Vec<usize> = (0..20).collect();
    for _ in 0..50 {
        let child = scramble_mutation::modify(&mut rng, &order);
        assert_eq!(sorted(&child), order);
    }
}

#[test]
fn crossover_with_cuts_exact_child() {
    let p1 = vec![0, 1, 2, 3, 4];
    let p2 = vec![4, 3, 2, 1, 0];
    // The slice 1..=2 of the second parent stays; 4, 0, 1 fill positions 3,
    // 4 and 0 in that order.
    assert_eq!(crossover::crossover_with_cuts(&p1, &p2, 1, 2), vec![1, 3, 2, 4, 0]);
    // A cut spanning everything copies the second parent.
    assert_eq!(crossover::crossover_with_cuts(&p1, &p2, 0, 4), p2);
}

#[test]
fn crossover_children_are_permutations() {
    let mut rng = thread_rng();
    let p1: Vec<usize> = vec![3, 0, 4, 1, 2, 5];
    let p2: Vec<usize> = vec![5, 4, 3, 2, 1, 0];
    for _ in 0..50 {
        let child = crossover::modify(&mut rng, &p1, &p2);
        assert_eq!(sorted(&child), vec![0, 1, 2, 3, 4, 5]);
    }
    assert_eq!(crossover::modify(&mut rng, &vec![], &vec![]), Vec::<usize>::new());
}

#[test]
fn space_mutation_without_target_keeps_order() {
    let mut rng = thread_rng();
    let order = vec![2, 0, 1];
    assert_eq!(space_mutation::modify(&mut rng, &order, None, &vec![0, 1, 2]), order);
    // An item that the order does not hold leaves it unchanged.
    assert_eq!(space_mutation::modify(&mut rng, &order, Some(9), &vec![0, 1, 2]), order);
}

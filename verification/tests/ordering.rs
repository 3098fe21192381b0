use rustport::common::order::{find_item_index, position_of};
use rustport::common::random::{gen_index, gen_other_index, shuffle_range, thread_rng};

#[test]
fn find_item_index_prefers_the_first_match() {
    assert_eq!(find_item_index(&vec![7, 3, 7], 7), 0);
    assert_eq!(find_item_index(&vec![7, 3, 7], 3), 1);
    // An id that is not listed is its own index.
    assert_eq!(find_item_index(&vec![7, 3], 5), 5);
}

#[test]
fn position_of_finds_first_occurrence() {
    assert_eq!(position_of(&vec![4, 2, 4], 4), Some(0));
    assert_eq!(position_of(&vec![4, 2, 4], 2), Some(1));
    assert_eq!(position_of(&vec![4, 2, 4], 9), None);
}

#[test]
fn random_indices_stay_in_range() {
    let mut rng = thread_rng();
    for _ in 0..200 {
        let r = gen_index(&mut rng, 3, 7);
        assert!((3..7).contains(&r));
        let o = gen_other_index(&mut rng, 4, 2);
        assert!(o < 4 && o != 2);
    }
    // With two choices the other index is forced.
    assert_eq!(gen_other_index(&mut rng, 2, 0), 1);
    assert_eq!(gen_other_index(&mut rng, 2, 1), 0);
}

#[test]
fn shuffle_range_touches_only_the_range() {
    let mut rng = thread_rng();
    for _ in 0..50 {
        let mut v: Vec<usize> = (0..10).collect();
        shuffle_range(&mut rng, &mut v, 3, 6);
        assert_eq!(&v[0..3], &[0, 1, 2]);
        assert_eq!(&v[7..10], &[7, 8, 9]);
        let mut mid = v[3..7].to_vec();
        mid.sort();
        assert_eq!(mid, vec![3, 4, 5, 6]);
    }
}

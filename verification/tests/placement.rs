use rustport::solver::placement_utils::{contains_axis, Orientation, PlacementUtils};

#[test]
fn fit_orientations_follow_rotation_axes() {
    assert_eq!(PlacementUtils::fit_orientations(None), vec![Orientation::Upright]);
    assert_eq!(PlacementUtils::fit_orientations(Some(&vec![])), vec![Orientation::Upright]);
    assert_eq!(
        PlacementUtils::fit_orientations(Some(&vec![2, 0])),
        vec![Orientation::Upright, Orientation::AroundX, Orientation::AroundZ]
    );
    assert_eq!(
        PlacementUtils::fit_orientations(Some(&vec![0, 1, 2])),
        vec![
            Orientation::Upright,
            Orientation::AroundX,
            Orientation::AroundY,
            Orientation::AroundZ
        ]
    );
}

#[test]
fn oriented_sides() {
    assert_eq!(PlacementUtils::oriented(Orientation::Upright, 1, 2, 3), (1, 2, 3));
    assert_eq!(PlacementUtils::oriented(Orientation::AroundX, 1, 2, 3), (1, 3, 2));
    assert_eq!(PlacementUtils::oriented(Orientation::AroundY, 1, 2, 3), (2, 1, 3));
    assert_eq!(PlacementUtils::oriented(Orientation::AroundZ, 1.0f32, 2.0, 3.0), (3.0, 2.0, 1.0));
}

#[test]
fn rotation_mask_sets_one_bit_per_axis() {
    assert_eq!(PlacementUtils::rotation_mask(&vec![]), 0);
    assert_eq!(PlacementUtils::rotation_mask(&vec![0]), 1);
    assert_eq!(PlacementUtils::rotation_mask(&vec![2, 1]), 6);
    assert_eq!(PlacementUtils::rotation_mask(&vec![0, 1, 2, 2]), 7);
    assert_eq!(PlacementUtils::rotation_mask(&vec![5, -1]), 0);
}

#[test]
fn unordered_remove_moves_the_last_space() {
    let mut spaces = vec!['a', 'b', 'c', 'd'];
    PlacementUtils::unordered_remove_space(&mut spaces, 1);
    assert_eq!(spaces, vec!['a', 'd', 'c']);
    PlacementUtils::unordered_remove_space(&mut spaces, 2);
    assert_eq!(spaces, vec!['a', 'd']);
}

#[test]
fn contains_axis_finds_listed_axes() {
    assert!(contains_axis(&vec![0, 2], 2));
    assert!(!contains_axis(&vec![0, 2], 1));
}

use rustport::common::point3::Point3;
use rustport::solver::spheres::candidate_list::CandidateList;
use rustport::solver::spheres::constraint::{
    consumed_pairs, constraint_key, gap_triples, is_valid_triple, make_key, touching_count,
    valid_wall_triples, wall_constraints, Constraint,
};
use rustport::solver::spheres::gap_fill::gap_fill_pairs;
use rustport::solver::spheres::geometry::{self, Axis};
use rustport::solver::spheres::spatial_grid::SpatialGrid;

fn plane(axis: Axis, value: f32) -> Constraint {
    Constraint::Plane { axis, value_bits: value.to_bits() }
}

fn sphere(index: usize) -> Constraint {
    Constraint::Sphere { index }
}

#[test]
fn geometry_sub_and_add_are_componentwise() {
    let a = Point3::new(1.5f32, -2.0, 4.0);
    let b = Point3::new(0.5f32, 3.0, -1.0);
    assert_eq!(geometry::sub(&a, &b), Point3::new(1.0, -5.0, 5.0));
    assert_eq!(geometry::add(&a, &b), Point3::new(2.0, 1.0, 3.0));
    let c = Point3::new(7i64, -3, 0);
    let d = Point3::new(2i64, 5, -9);
    assert_eq!(geometry::sub(&c, &d), Point3::new(5, -8, 9));
    assert_eq!(geometry::add(&c, &d), Point3::new(9, 2, -9));
}

#[test]
fn axis_index_follows_xyz() {
    assert_eq!(Axis::X.index(), 0);
    assert_eq!(Axis::Y.index(), 1);
    assert_eq!(Axis::Z.index(), 2);
}

#[test]
fn constraint_keys_pack_axis_value_and_index() {
    assert_eq!(constraint_key(&Constraint::Plane { axis: Axis::Y, value_bits: 7 }), (1u64 << 32) | 7);
    assert_eq!(constraint_key(&Constraint::Plane { axis: Axis::Z, value_bits: 0 }), 2u64 << 32);
    assert_eq!(constraint_key(&sphere(5)), (1u64 << 62) | 5);
}

#[test]
fn make_key_ignores_constraint_order() {
    let a = plane(Axis::X, 0.0);
    let b = sphere(3);
    let c = plane(Axis::Z, 10.0);
    let k = make_key(&[a, b, c]);
    assert_eq!(make_key(&[b, c, a]), k);
    assert_eq!(make_key(&[c, a, b]), k);
    assert_eq!(make_key(&[a, c, b]), k);
    assert!(k[0] <= k[1] && k[1] <= k[2]);
    // Different gaps give different keys.
    assert_ne!(make_key(&[a, b, sphere(4)]), k);
}

#[test]
fn parallel_walls_make_an_invalid_triple() {
    assert!(!is_valid_triple(&[plane(Axis::X, 0.0), plane(Axis::X, 10.0), sphere(0)]));
    assert!(is_valid_triple(&[plane(Axis::X, 0.0), plane(Axis::Y, 10.0), sphere(0)]));
    assert!(is_valid_triple(&[sphere(0), sphere(1), sphere(2)]));
}

#[test]
fn touching_count_counts_spheres() {
    assert_eq!(touching_count(&[plane(Axis::X, 0.0), plane(Axis::Y, 0.0), plane(Axis::Z, 0.0)]), 0);
    assert_eq!(touching_count(&[sphere(1), plane(Axis::Y, 0.0), sphere(2)]), 2);
}

#[test]
fn closed_bin_has_eight_corners() {
    let walls = wall_constraints(10.0f32.to_bits(), 20.0f32.to_bits(), 30.0f32.to_bits(), None);
    assert_eq!(walls.len(), 6);
    assert_eq!(walls[1], plane(Axis::X, 10.0));
    let triples = valid_wall_triples(&walls);
    assert_eq!(triples.len(), 8);
    assert_eq!(triples[0], (0, 2, 4));
    assert_eq!(triples[7], (1, 3, 5));
}

#[test]
fn open_top_leaves_four_corners() {
    let walls = wall_constraints(10.0f32.to_bits(), 20.0f32.to_bits(), 30.0f32.to_bits(), Some(Axis::Y));
    assert_eq!(walls.len(), 5);
    let triples = valid_wall_triples(&walls);
    assert_eq!(triples.len(), 4);
    for (i, j, k) in triples {
        let t = [walls[i], walls[j], walls[k]];
        assert!(t.contains(&plane(Axis::Y, 0.0)));
    }
}

#[test]
fn consumed_pairs_and_gap_triples() {
    let consumed = [plane(Axis::X, 0.0), plane(Axis::Y, 0.0), sphere(0)];
    let pairs = consumed_pairs(&consumed);
    assert_eq!(
        pairs,
        vec![
            (consumed[0], consumed[1]),
            (consumed[0], consumed[2]),
            (consumed[1], consumed[2]),
        ]
    );
    let mut all = pairs.clone();
    all.push((plane(Axis::Z, 0.0), plane(Axis::Z, 5.0)));
    let triples = gap_triples(&all, 1);
    assert_eq!(triples.len(), 3);
    assert_eq!(triples[0], [consumed[0], consumed[1], sphere(1)]);
    assert_eq!(triples[2], [consumed[1], consumed[2], sphere(1)]);
}

#[test]
fn candidate_list_keeps_first_of_equal_keys() {
    let mut list: CandidateList<u32> = CandidateList::new();
    assert!(list.is_empty());
    assert!(list.add([1, 2, 3], 10));
    assert!(list.add([1, 2, 4], 20));
    assert!(!list.add([1, 2, 3], 30));
    assert_eq!(list.len(), 2);
    assert_eq!(*list.get(0), 10);
    assert_eq!(list.find(&[1, 2, 4]), Some(1));
    assert_eq!(list.find(&[9, 9, 9]), None);
}

#[test]
fn candidate_list_removal_swaps_in_the_last() {
    let mut list: CandidateList<u32> = CandidateList::new();
    list.add([0, 0, 1], 1);
    list.add([0, 0, 2], 2);
    list.add([0, 0, 3], 3);
    list.remove_key(&[0, 0, 1]);
    assert_eq!(list.len(), 2);
    assert_eq!(list.key_at(0), [0, 0, 3]);
    assert_eq!(*list.get(1), 2);
    list.remove_key(&[7, 7, 7]);
    assert_eq!(list.len(), 2);
    list.remove_index(1);
    assert_eq!(list.len(), 1);
    assert_eq!(*list.get(0), 3);
}

#[test]
fn candidate_list_truncate_replace_and_sort() {
    let mut list: CandidateList<u32> = CandidateList::new();
    for k in 0..5u64 {
        list.add([k, 0, 0], k as u32);
    }
    list.replace(4, 40);
    assert_eq!(*list.get(4), 40);
    assert_eq!(list.key_at(4), [4, 0, 0]);
    list.sort_by_keys(&vec![3, 1, 3, 0, 2]);
    let order: Vec<u32> = (0..list.len()).map(|i| *list.get(i)).collect();
    assert_eq!(order, vec![3, 1, 40, 0, 2]);
    list.truncate(2);
    assert_eq!(list.len(), 2);
    assert_eq!(list.key_at(1), [1, 0, 0]);
    list.truncate(10);
    assert_eq!(list.len(), 2);
}

#[test]
fn gap_fill_pairs_in_heuristic_order() {
    // Spheres 0, 1 and 3 are near the new sphere 2 (which is listed too).
    let nearby: Vec<usize> = vec![0, 2, 1, 3];
    let t = true;
    let f = false;
    // Only spheres 0 and 1, and 1 and 3, lie close together.
    let close = vec![
        vec![f, f, t, f],
        vec![f, f, f, f],
        vec![t, f, f, t],
        vec![f, f, t, f],
    ];
    let walls = vec![plane(Axis::X, 0.0), plane(Axis::Y, 0.0), plane(Axis::Z, 0.0)];
    let wall_close = vec![t, f, t];
    let wall_in_reach = vec![t, t, f];
    let pairs = gap_fill_pairs(&nearby, &close, 2, &walls, &wall_close, &wall_in_reach);
    assert_eq!(
        pairs,
        vec![
            (sphere(0), sphere(1)),
            (walls[0], sphere(0)),
            (walls[2], sphere(0)),
            (sphere(1), sphere(3)),
            (walls[0], sphere(1)),
            (walls[2], sphere(1)),
            (walls[0], sphere(3)),
            (walls[2], sphere(3)),
            (walls[0], walls[2]),
            (walls[1], walls[2]),
        ]
    );
}

#[test]
fn gap_fill_pairs_with_nothing_nearby() {
    let pairs = gap_fill_pairs(&vec![], &vec![], 0, &vec![], &vec![], &vec![]);
    assert!(pairs.is_empty());
}

#[test]
fn spatial_grid_files_and_finds_spheres() {
    let mut grid = SpatialGrid::new();
    grid.insert((0, 0, 0), 0);
    grid.insert((1, 0, 0), 1);
    grid.insert((0, 0, 0), 2);
    grid.insert((5, 5, 5), 3);
    grid.insert((0, 1, -1), 4);
    assert_eq!(grid.cell((0, 0, 0)), vec![0, 2]);
    assert_eq!(grid.cell((2, 2, 2)), Vec::<usize>::new());
    // x outermost, then y, then z.
    assert_eq!(grid.query((-1, -1, -1), (1, 1, 1)), vec![0, 2, 4, 1]);
    assert_eq!(grid.query((5, 5, 5), (5, 5, 5)), vec![3]);
    // An empty box of cells finds nothing.
    assert_eq!(grid.query((1, 1, 1), (0, 0, 0)), Vec::<usize>::new());
    assert_eq!(grid.query((i32::MAX, 0, 0), (i32::MAX, 0, 0)), Vec::<usize>::new());
}

#[test]
fn candidate_update_step_removes_adds_and_cuts() {
    let mut list: CandidateList<u32> = CandidateList::new();
    list.add([0, 0, 1], 1);
    list.add([0, 0, 2], 2);
    list.add([0, 0, 3], 3);
    // The consumed gap leaves (the last takes its place), a known key keeps
    // its gap, and the list is cut to three.
    let added = vec![([0, 0, 4], 4), ([0, 0, 1], 10), ([0, 0, 5], 5)];
    list.apply_update(&[0, 0, 2], &added, 3);
    assert_eq!(list.len(), 3);
    let keys: Vec<[u64; 3]> = (0..list.len()).map(|i| list.key_at(i)).collect();
    assert_eq!(keys, vec![[0, 0, 1], [0, 0, 3], [0, 0, 4]]);
    assert_eq!(*list.get(0), 1);
    assert_eq!(list.find(&[0, 0, 2]), None);
}

#[test]
fn candidate_update_step_without_gap_fill_grows_by_at_most_two() {
    let mut list: CandidateList<u32> = CandidateList::new();
    list.add([1, 1, 1], 0);
    let added = vec![([2, 2, 2], 1), ([3, 3, 3], 2), ([4, 4, 4], 3)];
    list.apply_update(&[1, 1, 1], &added, 2000);
    assert_eq!(list.len(), 3);
    assert_eq!(list.find(&[1, 1, 1]), None);
}

use rustport::postprocessor::postprocessor_interface::{last_bin_to_repack, splice_last_bin};
use rustport::postprocessor::rectangles::box_last_bin_cleanup_processor::VerticalAxis as BoxVertical;
use rustport::postprocessor::spheres::sphere_last_bin_cleanup_processor::VerticalAxis;
use rustport::solver::spheres::constraint::{valid_wall_triples, Constraint};
use rustport::solver::spheres::geometry::Axis;

#[test]
fn test_box_last_bin_cleanup_empty() {
    // Empty solution
    let mut empty_solution: Vec<Vec<u32>> = vec![];
    assert_eq!(last_bin_to_repack(&empty_solution), None);
    assert!(!splice_last_bin(&mut empty_solution, vec![], true));
    assert!(empty_solution.is_empty());

    // Solution with empty last bin
    let mut empty_last_bin: Vec<Vec<u32>> = vec![vec![]];
    assert_eq!(last_bin_to_repack(&empty_last_bin), None);
    assert!(!splice_last_bin(&mut empty_last_bin, vec![], true));
    assert_eq!(empty_last_bin.len(), 1);
    assert!(empty_last_bin[0].is_empty());
}

#[test]
fn test_sphere_last_bin_cleanup_empty() {
    let mut empty_solution: Vec<Vec<(f32, f32)>> = vec![];
    assert!(!splice_last_bin(&mut empty_solution, vec![(1.0, 1.0)], true));
    assert!(empty_solution.is_empty());

    let mut empty_last_bin: Vec<Vec<(f32, f32)>> = vec![vec![]];
    assert!(!splice_last_bin(&mut empty_last_bin, vec![(1.0, 1.0)], true));
    assert_eq!(empty_last_bin.len(), 1);
    assert!(empty_last_bin[0].is_empty());
}

#[test]
fn test_sphere_last_bin_cleanup_excludes_top_corners() {
    let side = 100.0f32.to_bits();
    let walls = VerticalAxis::Y.open_top_walls(side, side, side);
    let candidates = valid_wall_triples(&walls);

    assert_eq!(candidates.len(), 4);
    let floor = Constraint::Plane { axis: Axis::Y, value_bits: 0.0f32.to_bits() };
    for (i, j, k) in candidates {
        // Every initial corner rests on the floor plane.
        assert!(walls[i] == floor || walls[j] == floor || walls[k] == floor);
    }
}

#[test]
fn splice_replaces_only_the_last_bin() {
    let mut solution = vec![vec![1, 2], vec![3, 4]];
    assert_eq!(last_bin_to_repack(&solution), Some(1));
    assert!(splice_last_bin(&mut solution, vec![4, 3], true));
    assert_eq!(solution, vec![vec![1, 2], vec![4, 3]]);
}

#[test]
fn splice_refuses_a_repack_over_several_bins() {
    let mut solution = vec![vec![1, 2], vec![3, 4]];
    assert!(!splice_last_bin(&mut solution, vec![4, 3], false));
    assert_eq!(solution, vec![vec![1, 2], vec![3, 4]]);
}

#[test]
fn splice_refuses_a_repack_that_lost_items() {
    let mut solution = vec![vec![3, 4, 5]];
    assert!(!splice_last_bin(&mut solution, vec![4, 3], true));
    assert_eq!(solution, vec![vec![3, 4, 5]]);
}

#[test]
fn vertical_axes_pick_the_scored_coordinates() {
    assert_eq!(VerticalAxis::Y.score_axes(), (Axis::X, Axis::Z, Axis::Y));
    assert_eq!(VerticalAxis::Z.score_axes(), (Axis::X, Axis::Y, Axis::Z));
    assert_eq!(VerticalAxis::X.score_axes(), (Axis::Y, Axis::Z, Axis::X));
    assert_eq!(BoxVertical::Y.score_axes(), (Axis::X, Axis::Z, Axis::Y));
    assert_eq!(BoxVertical::X.axis(), Axis::X);
    assert_eq!(VerticalAxis::Z.axis(), Axis::Z);
}

#[test]
fn open_top_walls_drop_only_the_top() {
    let w = 10.0f32.to_bits();
    let h = 20.0f32.to_bits();
    let d = 30.0f32.to_bits();
    let walls = VerticalAxis::Z.open_top_walls(w, h, d);
    assert_eq!(walls.len(), 5);
    assert!(!walls.contains(&Constraint::Plane { axis: Axis::Z, value_bits: d }));
    assert!(walls.contains(&Constraint::Plane { axis: Axis::X, value_bits: w }));
    assert!(walls.contains(&Constraint::Plane { axis: Axis::Y, value_bits: h }));
}

use game_engine::engine::physics_engine::broadphase::blockmap::{
    assign_object_to_cell, collision_candidates_from_cells, collision_detection_on_cells,
    get_local_cell_ids,
};

#[test]
fn rect_circle_are_possible_collision_candidates() {
    // A circle of radius 50 and a 50 x 50 rectangle, both at the origin, in a
    // window 1000 wide. The cell size and the cells of the bodies are measured
    // as the block map's front end does.
    let (window_width, _window_height) = (1000.0_f32, 1000);
    let radius = 50.0_f32;
    let (width, height) = (50.0_f32, 50.0_f32);
    let acc = f32::max(0.0, radius);
    let cell_size = (f32::max(acc, f32::max(width, height)) / 2.0) * 2.0;
    let grid_width = (window_width / cell_size).ceil() as u32;
    let cell_of = |x: f32, y: f32| (((x + 1.0) / cell_size) as u32, ((y + 1.0) / cell_size) as u32);
    let coords = vec![cell_of(0.0, 0.0), cell_of(0.0, 0.0)];

    let candidates = collision_detection_on_cells(&coords, grid_width);
    assert_eq!(1, candidates.len());
    assert_eq!(candidates[0].indices, vec![0, 1]);
}

#[test]
fn local_cell_ids_are_the_block_around_the_centre() {
    assert_eq!(get_local_cell_ids(6, 5), [0, 1, 2, 5, 6, 7, 10, 11, 12]);
    assert_eq!(get_local_cell_ids(12, 5), [6, 7, 8, 11, 12, 13, 16, 17, 18]);
}

#[test]
fn bodies_go_into_the_list_of_their_cell() {
    let coords = vec![(0, 0), (2, 1), (0, 0), (1, 2)];
    let cells = assign_object_to_cell(&coords, 3);
    assert_eq!(cells.len(), 9);
    assert_eq!(cells[0], vec![0, 2]);
    assert_eq!(cells[5], vec![1]);
    assert_eq!(cells[7], vec![3]);
    assert!(cells[4].is_empty());
}

#[test]
fn candidates_list_the_block_of_each_inner_cell() {
    // A 4 x 4 grid has the inner cells 5, 6, 9 and 10.
    let mut cells: Vec<Vec<usize>> = vec![Vec::new(); 16];
    cells[0] = vec![0];
    cells[5] = vec![1];
    cells[15] = vec![2];
    let candidates = collision_candidates_from_cells(&cells, 4);
    let lists: Vec<Vec<usize>> = candidates.into_iter().map(|c| c.indices).collect();
    // Centre 5 sees cells 0 and 5; centre 6 sees 5; centre 9 sees 5;
    // centre 10 sees 5 and 15.
    assert_eq!(lists, vec![vec![0, 1], vec![1, 2]]);
}

#[test]
fn small_grids_have_no_inner_cells() {
    let cells: Vec<Vec<usize>> = vec![vec![0, 1], vec![2], vec![], vec![3]];
    assert!(collision_candidates_from_cells(&cells, 2).is_empty());
    let cells: Vec<Vec<usize>> = vec![vec![0, 1]];
    assert!(collision_candidates_from_cells(&cells, 1).is_empty());
}

#[test]
fn distant_bodies_are_not_candidates() {
    let coords = vec![(0, 0), (4, 4)];
    let candidates = collision_detection_on_cells(&coords, 5);
    assert!(candidates.is_empty());
}

#[test]
fn bodies_in_touching_cells_are_candidates() {
    let coords = vec![(0, 0), (1, 1)];
    let candidates = collision_detection_on_cells(&coords, 3);
    assert_eq!(candidates.len(), 1);
    assert_eq!(candidates[0].indices, vec![0, 1]);
}

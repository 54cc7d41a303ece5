use game_engine::engine::physics_engine::broadphase::spatial_subdivision::cell_id::{
    CellId, CellIdType,
};
use game_engine::engine::physics_engine::broadphase::spatial_subdivision::cell_type::CellType;
use game_engine::engine::physics_engine::broadphase::spatial_subdivision::object_id::ObjectId;
use game_engine::engine::physics_engine::broadphase::spatial_subdivision::spatial_subdivision::{
    assert_object_id_in_candidate_list_exists_in_no_other_candidate_list, CellOverlap,
    SpatialSubdivision,
};
use game_engine::engine::physics_engine::collision::collision_candidates::CollisionCandidates;

/// Measures where a bounding circle lies on a grid of cells `cell_width` wide,
/// in the same floating-point steps as the engine's front end.
fn overlap_of(x: f32, y: f32, radius: f32, cell_width: f32) -> CellOverlap {
    let x_norm = x / cell_width;
    let y_norm = y / cell_width;
    let r_norm = radius / cell_width;
    let home_cell_x = x_norm.floor() as u32;
    let home_cell_y = y_norm.floor() as u32;
    let quad_x = x_norm - x_norm.floor();
    let quad_y = y_norm - y_norm.floor();
    let in_left_half = quad_x < 0.5;
    let in_top_half = quad_y < 0.5;
    let reaches_side = if in_left_half { quad_x - r_norm < 0.0 } else { quad_x + r_norm > 1.0 };
    let reaches_vertical = if in_top_half { quad_y - r_norm < 0.0 } else { quad_y + r_norm > 1.0 };
    let corner_x = if in_left_half { x_norm.floor() } else { x_norm.floor() + 1.0 };
    let corner_y = if in_top_half { y_norm.floor() } else { y_norm.floor() + 1.0 };
    let dx = corner_x - x_norm;
    let dy = corner_y - y_norm;
    let reaches_diagonal = dx * dx + dy * dy + 0.0 * 0.0 < r_norm.powi(2);
    CellOverlap {
        home_cell_x,
        home_cell_y,
        in_left_half,
        in_top_half,
        reaches_side,
        reaches_vertical,
        reaches_diagonal,
    }
}

fn check_cell_object(xy: (f32, f32), r: f32, cell_width: f32, expected_output: Vec<CellId>) {
    let (x, y) = xy;
    let overlap = overlap_of(x, y, r, cell_width);
    let (_object_id, cell_ids) = SpatialSubdivision::create_cell_object(&overlap, 0);
    assert_eq!(expected_output.len(), cell_ids.len(), "Expected output length {} ({expected_output:?}) but found {} ({cell_ids:?})", expected_output.len(), cell_ids.len());
    assert_eq!(cell_ids[0].cell_object_type, CellIdType::Home, "Expected the first object to be home cell but is phantom cell");
    expected_output.iter().for_each(|o| assert!(cell_ids.contains(o), "Expected to find {o:?} in output {cell_ids:?} but didn't"));
    let home_cells: Vec<CellId> = cell_ids.into_iter().filter(|o| o.cell_object_type == CellIdType::Home).collect();
    assert_eq!(home_cells.len(), 1);
}

#[test]
fn given_cell_id_1_0_0_when_center_is_top_left_quad_of_cell_expect_overlap_with_left() {
    check_cell_object((0.11, 0.025), 0.015, 0.1, vec![
        CellId::new((1, 0, 0), CellIdType::Home, 0),
        CellId::new((0, 0, 0), CellIdType::Phantom, 0),
    ]);
}

#[test]
fn given_cell_id_0_1_0_when_center_is_top_left_quad_of_cell_expect_overlap_with_top() {
    check_cell_object((0.025, 0.11), 0.015, 0.1, vec![
        CellId::new((0, 1, 0), CellIdType::Home, 0),
        CellId::new((0, 0, 0), CellIdType::Phantom, 0),
    ]);
}

#[test]
fn given_cell_id_1_1_0_when_center_is_top_left_quad_of_cell_expect_overlap_with_top_and_left() {
    check_cell_object((0.11, 0.11), 0.0141, 0.1, vec![
        CellId::new((1, 1, 0), CellIdType::Home, 0),
        CellId::new((1, 0, 0), CellIdType::Phantom, 0),
        CellId::new((0, 1, 0), CellIdType::Phantom, 0),
    ]);
}

#[test]
fn given_cell_id_1_1_0_when_center_is_top_left_quad_of_cell_expect_overlap_with_left_top_and_topleft() {
    check_cell_object((0.11, 0.11), 0.02, 0.1, vec![
        CellId::new((1, 1, 0), CellIdType::Home, 0),
        CellId::new((0, 0, 0), CellIdType::Phantom, 0),
        CellId::new((1, 0, 0), CellIdType::Phantom, 0),
        CellId::new((0, 1, 0), CellIdType::Phantom, 0),
    ]);
}

#[test]
fn given_object_in_top_right_quad_of_cell_when_object_overlap_with_right_expect_overlap_with_right() {
    check_cell_object((0.39, 0.025), 0.02, 0.1, vec![
        CellId::new((3, 0, 0), CellIdType::Home, 0),
        CellId::new((4, 0, 0), CellIdType::Phantom, 0),
    ]);
}

#[test]
fn given_object_in_top_right_quad_of_cell_when_object_overlap_with_top_expect_overlap_with_top() {
    check_cell_object((0.375, 0.11), 0.02, 0.1, vec![
        CellId::new((3, 1, 0), CellIdType::Home, 0),
        CellId::new((3, 0, 0), CellIdType::Phantom, 0),
    ]);
}

#[test]
fn given_object_in_top_right_quad_of_cell_when_object_overlap_with_top_left_and_topleft_expect_overlap_with_top_left_topleft() {
    check_cell_object((0.39, 0.11), 0.02, 0.1, vec![
        CellId::new((3, 1, 0), CellIdType::Home, 0),
        CellId::new((3, 0, 0), CellIdType::Phantom, 0),
        CellId::new((4, 0, 0), CellIdType::Phantom, 0),
        CellId::new((4, 1, 0), CellIdType::Phantom, 0),
    ]);
}

#[test]
fn given_object_in_bottom_left_quad_of_cell_when_object_overlap_with_left_expect_overlap_with_left() {
    check_cell_object((0.11, 0.125), 0.02, 0.1, vec![
        CellId::new((1, 1, 0), CellIdType::Home, 0),
        CellId::new((0, 1, 0), CellIdType::Phantom, 0),
    ]);
}

#[test]
fn given_object_in_bottom_left_quad_of_cell_when_object_overlap_with_bottom_expect_overlap_with_bottom() {
    check_cell_object((0.125, 0.19), 0.02, 0.1, vec![
        CellId::new((1, 1, 0), CellIdType::Home, 0),
        CellId::new((1, 2, 0), CellIdType::Phantom, 0),
    ]);
}

#[test]
fn given_object_in_bottom_left_quad_of_cell_when_object_overlap_with_left_bottom_and_bottomleft_expect_overlap_with_left_bottom_and_bottomleft() {
    check_cell_object((0.11, 0.19), 0.02, 0.1, vec![
        CellId::new((1, 1, 0), CellIdType::Home, 0),
        CellId::new((0, 1, 0), CellIdType::Phantom, 0),
        CellId::new((0, 2, 0), CellIdType::Phantom, 0),
        CellId::new((1, 2, 0), CellIdType::Phantom, 0),
    ]);
}

#[test]
fn given_object_in_bottom_right_quad_of_cell_when_object_overlap_with_right_expect_overlap_with_right() {
    check_cell_object((0.19, 0.175), 0.02, 0.1, vec![
        CellId::new((1, 1, 0), CellIdType::Home, 0),
        CellId::new((2, 1, 0), CellIdType::Phantom, 0),
    ]);
}

#[test]
fn given_object_in_bottom_right_quad_of_cell_when_object_overlap_with_bottom_expect_overlap_with_bottom() {
    check_cell_object((0.175, 0.19), 0.02, 0.1, vec![
        CellId::new((1, 1, 0), CellIdType::Home, 0),
        CellId::new((1, 2, 0), CellIdType::Phantom, 0),
    ]);
}

#[test]
fn given_object_in_bottom_right_quad_of_cell_when_object_overlap_with_right_bottom_and_bottomright_expect_overlap_with_left_bottom_and_bottomright() {
    check_cell_object((0.19, 0.19), 0.02, 0.1, vec![
        CellId::new((1, 1, 0), CellIdType::Home, 0),
        CellId::new((2, 1, 0), CellIdType::Phantom, 0),
        CellId::new((2, 2, 0), CellIdType::Phantom, 0),
        CellId::new((1, 2, 0), CellIdType::Phantom, 0),
    ]);
}

#[test]
fn create_cell_object_sets_home_and_bounding_volume_bits() {
    // Home cell (1, 1) is class Four; the phantoms (0, 1), (0, 2), (1, 2) are
    // classes Three, One and Two.
    let overlap = CellOverlap {
        home_cell_x: 1,
        home_cell_y: 1,
        in_left_half: true,
        in_top_half: false,
        reaches_side: true,
        reaches_vertical: true,
        reaches_diagonal: true,
    };
    let (object_id, cell_ids) = SpatialSubdivision::create_cell_object(&overlap, 7);
    assert_eq!(object_id.control_bits, 0b0011_1111);
    assert_eq!(cell_ids, vec![
        CellId::new((1, 1, 0), CellIdType::Home, 7),
        CellId::new((0, 1, 0), CellIdType::Phantom, 7),
        CellId::new((1, 2, 0), CellIdType::Phantom, 7),
        CellId::new((0, 2, 0), CellIdType::Phantom, 7),
    ]);
}

#[test]
fn create_cell_object_alone_in_its_cell() {
    let overlap = CellOverlap {
        home_cell_x: 2,
        home_cell_y: 0,
        in_left_half: false,
        in_top_half: true,
        reaches_side: false,
        reaches_vertical: false,
        reaches_diagonal: false,
    };
    let (object_id, cell_ids) = SpatialSubdivision::create_cell_object(&overlap, 3);
    assert_eq!(object_id.control_bits, 0b0000_0001);
    assert_eq!(cell_ids, vec![CellId::new((2, 0, 0), CellIdType::Home, 3)]);
}

fn cumsum_of(cell_id_array: Vec<CellId>) -> Vec<(u32, u32)> {
    let cell_id_array_: Vec<&CellId> = cell_id_array.iter().collect();
    SpatialSubdivision::cumsum(&cell_id_array_)
}

#[test]
fn test_transitions_() {
    let expected_output: Vec<(u32, u32)> = vec![(0, 2), (2, 2)];
    let cumsum = cumsum_of(vec![
        CellId::new((0, 0, 0), CellIdType::Home, 0),
        CellId::new((0, 0, 0), CellIdType::Phantom, 1),
        CellId::new((1, 0, 0), CellIdType::Home, 1),
        CellId::new((1, 0, 0), CellIdType::Phantom, 0),
    ]);
    assert_eq!(expected_output, cumsum, "Expected output {expected_output:?} but found {cumsum:?}");
}

#[test]
fn test_last_object_is_included_() {
    let expected_output: Vec<(u32, u32)> = vec![(0, 2), (2, 2), (3, 1)];
    let cumsum = cumsum_of(vec![
        CellId::new((0, 0, 0), CellIdType::Home, 0),
        CellId::new((0, 0, 0), CellIdType::Phantom, 1),
        CellId::new((1, 0, 0), CellIdType::Home, 1),
        CellId::new((1, 0, 0), CellIdType::Phantom, 0),
        CellId::new((0, 1, 0), CellIdType::Phantom, 0),
    ]);
    assert_eq!(expected_output, cumsum, "Expected output {expected_output:?} but found {cumsum:?}");
}

#[test]
fn test_3_objects_() {
    let expected_output: Vec<(u32, u32)> = vec![(0, 1), (1, 2), (3, 1), (4, 2)];
    let cumsum = cumsum_of(vec![
        CellId::new((0, 0, 0), CellIdType::Home, 2),
        CellId::new((1, 0, 0), CellIdType::Home, 1),
        CellId::new((1, 0, 0), CellIdType::Phantom, 0),
        CellId::new((0, 1, 0), CellIdType::Phantom, 0),
        CellId::new((1, 1, 0), CellIdType::Home, 0),
        CellId::new((1, 1, 0), CellIdType::Phantom, 1),
    ]);
    assert_eq!(expected_output, cumsum, "Expected output {expected_output:?} but found {cumsum:?}");
}

#[test]
fn cumsum_first_cell_off_origin_emits_empty_entry() {
    // A first key other than 0 closes an empty run before the first cell.
    let cumsum = cumsum_of(vec![
        CellId::new((1, 0, 0), CellIdType::Home, 0),
        CellId::new((1, 0, 0), CellIdType::Phantom, 1),
    ]);
    assert_eq!(cumsum, vec![(0, 0), (0, 2)]);
}

#[test]
fn cumsum_single_cell_at_origin() {
    let cumsum = cumsum_of(vec![CellId::new((0, 0, 0), CellIdType::Home, 0)]);
    assert_eq!(cumsum, vec![(0, 1)]);
}

fn skip(t: u8, a: u8, b: u8) -> bool {
    SpatialSubdivision::can_we_skip_collision_test(t, &ObjectId { control_bits: a }, &ObjectId { control_bits: b })
}

#[test]
fn given_two_objects_with_different_home_cells_but_share_all_bounding_cells_during_pass_1_expect_false() {
    assert_eq!(skip(1, 0b0010_0101, 0b0000_0101), false);
}

#[test]
fn given_two_objects_with_different_home_cells_but_share_all_bounding_cells_during_pass_3_expect_true() {
    assert_eq!(skip(3, 0b0010_0101, 0b0000_0101), true);
}

#[test]
fn given_two_objects_with_different_home_cells_but_share_bounding_cell_types_during_pass_3_expect_false() {
    assert_eq!(skip(3, 0b0011_1010, 0b0010_1010), false);
}

#[test]
fn given_two_objects_with_different_home_cells_but_share_bounding_cell_types_during_pass_4_expect_true() {
    assert_eq!(skip(4, 0b0011_1100, 0b0010_1100), true);
}

#[test]
fn given_two_objects_with_different_home_cells_but_share_subset_of_cell_types_during_pass_1_expect_false() {
    assert_eq!(skip(1, 0b0010_0101, 0b0000_0001), false);
}

#[test]
fn given_two_objects_with_different_home_cells_but_share_subset_of_cell_types_during_pass_3_expect_true() {
    assert_eq!(skip(3, 0b0010_0101, 0b0000_0001), true);
}

#[test]
fn given_two_objects_with_different_home_cells_and_do_not_have_home_cells_among_commong_cells_expect_false() {
    assert_eq!(skip(1, 0b0001_0011, 0b0010_0101), false);
}

#[test]
fn can_we_skip_is_symmetric_on_examples() {
    for t in 0..10u8 {
        for a in 0..64u8 {
            for b in [0b0000_0101u8, 0b0011_1111, 0b0010_0100, 0b0001_0011] {
                assert_eq!(skip(t, a, b), skip(t, b, a));
            }
        }
    }
}

#[test]
fn control_bits_of_cells() {
    assert_eq!(SpatialSubdivision::get_control_bit_for_home_cell_id((0, 0, 0)), 0b0000_0000);
    assert_eq!(SpatialSubdivision::get_control_bit_for_home_cell_id((3, 0, 5)), 0b0001_0000);
    assert_eq!(SpatialSubdivision::get_control_bit_for_home_cell_id((4, 7, 0)), 0b0010_0000);
    assert_eq!(SpatialSubdivision::get_control_bit_for_home_cell_id((9, 9, 0)), 0b0011_0000);
    assert_eq!(SpatialSubdivision::get_control_bit_for_bounding_volume_cell_id((0, 0, 0)), 0b0001);
    assert_eq!(SpatialSubdivision::get_control_bit_for_bounding_volume_cell_id((1, 2, 0)), 0b0010);
    assert_eq!(SpatialSubdivision::get_control_bit_for_bounding_volume_cell_id((2, 1, 0)), 0b0100);
    assert_eq!(SpatialSubdivision::get_control_bit_for_bounding_volume_cell_id((5, 3, 0)), 0b1000);
}

#[test]
fn hash_of_cells() {
    assert_eq!(SpatialSubdivision::hash((3, 2, 1)), 1_002_003);
    assert_eq!(SpatialSubdivision::hash((0, 0, 0)), 0);
}

#[test]
fn object_id_shows_its_nibbles() {
    assert_eq!(ObjectId { control_bits: 0b0010_0101 }.to_string(), "0010_0101");
    assert_eq!(ObjectId { control_bits: 0 }.to_string(), "0000_0000");
    assert_eq!(ObjectId { control_bits: 255 }.to_string(), "1111_1111");
}

#[test]
fn cell_id_type_shows_its_name() {
    assert_eq!(CellIdType::Home.to_string(), "CellIdType::Home");
    assert_eq!(CellIdType::Phantom.to_string(), "CellIdType::Phantom");
}

#[test]
fn cell_id_shows_object_cell_and_type() {
    assert_eq!(
        CellId::new((1, 2, 0), CellIdType::Home, 7).to_string(),
        "Object ID: 7, Cell ID: (1, 2, 0), Type: CellIdType::Home"
    );
    assert_eq!(
        CellId::new((4294967295, 10, 909), CellIdType::Phantom, 120).to_string(),
        "Object ID: 120, Cell ID: (4294967295, 10, 909), Type: CellIdType::Phantom"
    );
    let c = CellId::new((0, 99, 100), CellIdType::Home, 0);
    assert_eq!(
        c.to_string(),
        format!("Object ID: {}, Cell ID: {:?}, Type: CellIdType::Home", c.object_id, c.cell_id)
    );
}

#[test]
fn cell_type_neighbors() {
    assert_eq!(CellType::One.top_neighbor(), CellType::Three);
    assert_eq!(CellType::Four.bottom_neighbor(), CellType::Two);
    assert_eq!(CellType::Two.left_neighor(), CellType::One);
    assert_eq!(CellType::Three.right_neighbor(), CellType::Four);
    assert_eq!(CellType::One.top_left_neighor(), CellType::Four);
    assert_eq!(CellType::Two.bottom_right_neighbor(), CellType::Three);
    for c in [CellType::One, CellType::Two, CellType::Three, CellType::Four] {
        assert_eq!(c.top_neighbor().top_neighbor(), c);
        assert_eq!(c.left_neighor().top_neighbor(), c.top_left_neighor());
    }
}

#[test]
fn collision_detection_on_cells_groups_objects_sharing_a_cell() {
    // Objects 0 and 1 share cell (2, 0) (class One, pass 1); object 2 is
    // alone in cell (4, 4).
    let objects = vec![
        ObjectId { control_bits: 0b0000_0001 },
        ObjectId { control_bits: 0b0000_0001 },
        ObjectId { control_bits: 0b0000_0001 },
    ];
    let cells = vec![
        vec![CellId::new((2, 0, 0), CellIdType::Home, 0)],
        vec![CellId::new((2, 0, 0), CellIdType::Home, 1)],
        vec![CellId::new((4, 4, 0), CellIdType::Home, 2)],
    ];
    let passes = SpatialSubdivision::new().collision_detection_on_cells(&objects, &cells);
    assert_eq!(passes[0].len(), 1);
    let mut indices = passes[0][0].indices.clone();
    indices.sort();
    assert_eq!(indices, vec![0, 1]);
    assert!(passes[1].is_empty());
    assert!(passes[2].is_empty());
    assert!(passes[3].is_empty());
    for pass in passes.iter() {
        assert!(assert_object_id_in_candidate_list_exists_in_no_other_candidate_list(pass));
    }
}

fn alone(x: u32, y: u32) -> CellOverlap {
    CellOverlap {
        home_cell_x: x,
        home_cell_y: y,
        in_left_half: true,
        in_top_half: true,
        reaches_side: false,
        reaches_vertical: false,
        reaches_diagonal: false,
    }
}

#[test]
fn collision_detection_on_cells_tests_shared_class_four_home_in_pass_4() {
    // Three unit circles at (0, 0), (4.35, 4.35) and (4.0, 4.35): the last two
    // overlap and share only their home cell (1, 1), of class Four. Pass 4
    // tests them, since their home pass is not earlier than pass 4.
    let mut objects = Vec::new();
    let mut cells = Vec::new();
    for (id, o) in [alone(0, 0), alone(1, 1), alone(1, 1)].iter().enumerate() {
        let (object, object_cells) = SpatialSubdivision::create_cell_object(o, id);
        objects.push(object);
        cells.push(object_cells);
    }
    let passes = SpatialSubdivision::new().collision_detection_on_cells(&objects, &cells);
    assert!(passes[0].is_empty());
    assert!(passes[1].is_empty());
    assert!(passes[2].is_empty());
    assert_eq!(passes[3].len(), 1);
    let mut indices = passes[3][0].indices.clone();
    indices.sort();
    assert_eq!(indices, vec![1, 2]);
}

#[test]
fn collision_detection_on_cells_tests_shared_class_three_home_in_pass_3() {
    // Objects 0 and 1 both have home cell (2, 1), of class Three.
    let objects = vec![
        ObjectId { control_bits: 0b0010_0100 },
        ObjectId { control_bits: 0b0010_0100 },
    ];
    let cells = vec![
        vec![CellId::new((2, 1, 0), CellIdType::Home, 0)],
        vec![CellId::new((2, 1, 0), CellIdType::Home, 1)],
    ];
    let passes = SpatialSubdivision::new().collision_detection_on_cells(&objects, &cells);
    assert!(passes[0].is_empty());
    assert!(passes[1].is_empty());
    assert_eq!(passes[2].len(), 1);
    let mut indices = passes[2][0].indices.clone();
    indices.sort();
    assert_eq!(indices, vec![0, 1]);
    assert!(passes[3].is_empty());
}

#[test]
fn collision_detection_on_cells_leaves_pass_3_pairs_out_of_pass_4() {
    // Object 0 has home (0, 1) (class Three) and reaches (1, 1); object 1 has
    // home (1, 1) (class Four) and reaches (0, 1). Their pair is tested in
    // pass 3 in cell (0, 1) and skipped in pass 4 in cell (1, 1).
    let objects = vec![
        ObjectId { control_bits: 0b0010_1100 },
        ObjectId { control_bits: 0b0011_1100 },
    ];
    let cells = vec![
        vec![
            CellId::new((0, 1, 0), CellIdType::Home, 0),
            CellId::new((1, 1, 0), CellIdType::Phantom, 0),
        ],
        vec![
            CellId::new((1, 1, 0), CellIdType::Home, 1),
            CellId::new((0, 1, 0), CellIdType::Phantom, 1),
        ],
    ];
    let passes = SpatialSubdivision::new().collision_detection_on_cells(&objects, &cells);
    assert!(passes[0].is_empty());
    assert!(passes[1].is_empty());
    assert_eq!(passes[2].len(), 1);
    let mut indices = passes[2][0].indices.clone();
    indices.sort();
    assert_eq!(indices, vec![0, 1]);
    assert!(passes[3].is_empty());
}

#[test]
fn collision_detection_on_cells_skips_pairs_of_earlier_passes() {
    // Object 0 has home (0, 0) and reaches (1, 0); object 1 has home (1, 0)
    // and reaches (0, 0). Their pair is tested in pass 1 in cell (0, 0), and
    // skipped in pass 2 in cell (1, 0).
    let objects = vec![
        ObjectId { control_bits: 0b0000_0011 },
        ObjectId { control_bits: 0b0001_0011 },
    ];
    let cells = vec![
        vec![
            CellId::new((0, 0, 0), CellIdType::Home, 0),
            CellId::new((1, 0, 0), CellIdType::Phantom, 0),
        ],
        vec![
            CellId::new((1, 0, 0), CellIdType::Home, 1),
            CellId::new((0, 0, 0), CellIdType::Phantom, 1),
        ],
    ];
    let passes = SpatialSubdivision::new().collision_detection_on_cells(&objects, &cells);
    assert_eq!(passes[0].len(), 1);
    let mut indices = passes[0][0].indices.clone();
    indices.sort();
    assert_eq!(indices, vec![0, 1]);
    assert!(passes[1].is_empty());
    assert!(passes[2].is_empty());
    assert!(passes[3].is_empty());
}

#[test]
fn repeated_index_fails_the_uniqueness_check() {
    let pass = vec![CollisionCandidates::new(vec![0, 1]), CollisionCandidates::new(vec![2, 1])];
    assert!(!assert_object_id_in_candidate_list_exists_in_no_other_candidate_list(&pass));
    let pass = vec![CollisionCandidates::new(vec![0, 1]), CollisionCandidates::new(vec![2, 3])];
    assert!(assert_object_id_in_candidate_list_exists_in_no_other_candidate_list(&pass));
    let pass = vec![CollisionCandidates::new(vec![4, 4])];
    assert!(!assert_object_id_in_candidate_list_exists_in_no_other_candidate_list(&pass));
}

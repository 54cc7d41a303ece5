use game_engine::engine::physics_engine::broadphase::occupancy::{
    count_occupants, Cell, CellType, CollisionCell,
};

#[test]
fn occupants_are_counted_per_cell_and_type() {
    let objects = vec![
        Cell { cell_type: CellType::Home, cell_id: 0, object_id: 0 },
        Cell { cell_type: CellType::Phantom, cell_id: 0, object_id: 1 },
        Cell { cell_type: CellType::Home, cell_id: 2, object_id: 1 },
        Cell { cell_type: CellType::Home, cell_id: 0, object_id: 2 },
    ];
    let counts = count_occupants(&objects, 3);
    assert_eq!(counts, vec![
        CollisionCell { start: 0, h_occupants: 2, p_occupants: 1 },
        CollisionCell { start: 0, h_occupants: 0, p_occupants: 0 },
        CollisionCell { start: 0, h_occupants: 1, p_occupants: 0 },
    ]);
}

#[test]
fn no_objects_no_occupants() {
    let counts = count_occupants(&[], 2);
    assert_eq!(counts.len(), 2);
    assert!(counts.iter().all(|c| c.h_occupants == 0 && c.p_occupants == 0));
}

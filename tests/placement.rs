use natural_selection::placement::{calculate_random_objects, can_place, cell_spot, free_cells};
use natural_selection::units::{
    convert_from_unit, convert_to_unit, convert_vec2_to_unit, is_out_of_box, Arena, Position,
};

fn arena100() -> Arena {
    Arena { width: 100, height: 100 }
}

#[test]
fn empty_arena_has_every_cell_free() {
    let free = free_cells(arena100(), 20, 20, &vec![]);
    assert_eq!(free, (0..25).collect::<Vec<usize>>());
}

#[test]
fn occupied_cells_are_not_free() {
    let objects = vec![Position { x: 0, y: 0 }, Position { x: -49_000, y: 49_999 }];
    let free = free_cells(arena100(), 20, 20, &objects);
    // centre cell (2, 2) and the top-left cell (row 4, column 0)
    assert_eq!(free.len(), 23);
    assert!(!free.contains(&12));
    assert!(!free.contains(&20));
}

#[test]
fn far_away_objects_clamp_to_border_cells() {
    let objects = vec![Position { x: 1_000_000, y: -1_000_000 }];
    let free = free_cells(arena100(), 20, 20, &objects);
    assert!(!free.contains(&4));
    assert_eq!(free.len(), 24);
}

#[test]
fn cell_spot_is_the_cell_centre() {
    assert_eq!(cell_spot(arena100(), 20, 20, 0), Position { x: -40_000, y: -40_000 });
    assert_eq!(cell_spot(arena100(), 20, 20, 1), Position { x: -20_000, y: -40_000 });
    assert_eq!(cell_spot(arena100(), 20, 20, 12), Position { x: 0, y: 0 });
    assert_eq!(cell_spot(arena100(), 20, 20, 24), Position { x: 40_000, y: 40_000 });
    assert_eq!(cell_spot(arena100(), 20, 20, 7), Position { x: 0, y: -20_000 });
}

#[test]
fn distinct_cells_give_distinct_spots() {
    let spots: Vec<Position> = (0..25).map(|i| cell_spot(arena100(), 20, 20, i)).collect();
    for i in 0..spots.len() {
        assert!(!is_out_of_box(arena100(), spots[i]));
        for j in i + 1..spots.len() {
            assert_ne!(spots[i], spots[j]);
        }
    }
}

#[test]
fn last_free_cell_is_used_without_overlap() {
    // a 2 x 2 grid with three cells occupied leaves only cell 0 free
    let arena = Arena { width: 8100, height: 4500 };
    let occupied = vec![
        Position { x: 0, y: 0 },
        Position { x: 2_000_000, y: -1_000_000 },
        Position { x: -1_000_000, y: 1_000_000 },
    ];
    assert_eq!(free_cells(arena, 4050, 2250, &occupied), vec![0]);
    let spots = calculate_random_objects(arena, 4050, 2250, 1, &occupied);
    assert_eq!(spots, vec![Position { x: -2_025_000, y: -1_125_000 }]);
    assert!(!occupied.contains(&spots[0]));
}

#[test]
fn random_objects_land_on_free_cells() {
    let objects = vec![Position { x: 0, y: 0 }];
    let free = free_cells(arena100(), 20, 20, &objects);
    let spots = calculate_random_objects(arena100(), 20, 20, 5, &objects);
    assert_eq!(spots.len(), 5);
    for p in &spots {
        assert!(free.iter().any(|&i| cell_spot(arena100(), 20, 20, i) == *p));
        assert!(!is_out_of_box(arena100(), *p));
        assert_ne!(*p, Position { x: 0, y: 0 });
    }
}

#[test]
fn random_objects_stop_when_cells_run_out() {
    let spots = calculate_random_objects(arena100(), 20, 20, 100, &vec![]);
    assert_eq!(spots.len(), 25);
    let spots = calculate_random_objects(arena100(), 40, 40, 10, &vec![]);
    assert_eq!(spots.len(), 4);
}

#[test]
fn random_objects_pick_distinct_cells() {
    let mut spots = calculate_random_objects(arena100(), 20, 20, 25, &vec![]);
    let mut every_cell: Vec<Position> =
        (0..25).map(|i| cell_spot(arena100(), 20, 20, i)).collect();
    spots.sort_by_key(|p| (p.x, p.y));
    every_cell.sort_by_key(|p| (p.x, p.y));
    assert_eq!(spots, every_cell);
}

#[test]
fn unit_conversions() {
    assert_eq!(convert_to_unit(-5), 0);
    assert_eq!(convert_to_unit(1499), 2);
    assert_eq!(convert_to_unit(1500), 3);
    assert_eq!(convert_from_unit(3), 1500);
    assert_eq!(convert_vec2_to_unit(Position { x: 2500, y: -1 }), (5, 0));
}

#[test]
fn out_of_box_is_strict() {
    let a = arena100();
    assert!(!is_out_of_box(a, Position { x: 49_999, y: -49_999 }));
    assert!(is_out_of_box(a, Position { x: 50_000, y: 0 }));
    assert!(is_out_of_box(a, Position { x: 0, y: -50_000 }));
    assert!(!is_out_of_box(a, Position { x: 0, y: 0 }));
}

#[test]
fn placement_needs_objects_within_half_the_arena() {
    assert!(can_place(arena100(), 20, 50));
    assert!(!can_place(arena100(), 51, 20));
    assert!(!can_place(arena100(), 0, 20));
    assert!(!can_place(Arena { width: 70000, height: 100 }, 20, 20));
}

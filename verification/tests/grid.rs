use last_hope::building::{Building, BuildingRegistry, BuildingType, PlacementError};
use last_hope::direction::Direction;
use last_hope::grid::{BuildingGridInfo, GridMap, GridSpace};

fn building(bottom_left: (usize, usize), width: usize, height: usize) -> Building {
    Building {
        building_type: BuildingType::Barricade,
        bottom_left,
        width,
        height,
        max_health: 100_000,
        health: 100_000,
    }
}

fn mark(id: u32) -> Option<BuildingGridInfo> {
    Some(BuildingGridInfo { id, typ: BuildingType::Barricade })
}

#[test]
fn empty_grid_has_empty_cells() {
    let grid = GridMap::empty();
    for (x, y) in [(0, 0), (250, 250), (0, 250), (125, 7)] {
        assert_eq!(grid.cell_at(x, y), GridSpace { building: None, direction: None });
    }
}

#[test]
fn new_grid_marks_every_footprint() {
    let mut buildings = BuildingRegistry::new();
    assert!(buildings.insert(7, building((10, 20), 3, 2)));
    assert!(buildings.insert(9, building((0, 0), 1, 1)));
    let grid = GridMap::new(&buildings).unwrap();
    for x in 0..30 {
        for y in 0..30 {
            let expected = if (10..13).contains(&x) && (20..22).contains(&y) {
                mark(7)
            } else if (x, y) == (0, 0) {
                mark(9)
            } else {
                None
            };
            assert_eq!(grid.cell_at(x, y).building, expected, "cell ({x}, {y})");
            assert_eq!(grid.cell_at(x, y).direction, None);
        }
    }
}

#[test]
fn new_grid_fails_on_the_first_structure_that_cannot_be_placed() {
    let mut buildings = BuildingRegistry::new();
    assert!(buildings.insert(1, building((10, 10), 4, 4)));
    assert!(buildings.insert(2, building((12, 12), 4, 4)));
    assert!(buildings.insert(3, building((250, 250), 2, 2)));
    assert_eq!(GridMap::new(&buildings).err(), Some(PlacementError::Overlap));

    let mut buildings = BuildingRegistry::new();
    assert!(buildings.insert(1, building((250, 250), 2, 2)));
    assert!(buildings.insert(2, building((10, 10), 4, 4)));
    assert!(buildings.insert(3, building((12, 12), 4, 4)));
    assert_eq!(GridMap::new(&buildings).err(), Some(PlacementError::OutOfBounds));
}

#[test]
fn footprint_outside_the_grid_is_refused() {
    let mut grid = GridMap::empty();
    assert_eq!(grid.add_building(1, building((250, 250), 1, 1)), Ok(()));
    assert_eq!(grid.add_building(2, building((250, 0), 2, 1)), Err(PlacementError::OutOfBounds));
    assert_eq!(grid.add_building(2, building((0, 250), 1, 2)), Err(PlacementError::OutOfBounds));
    assert_eq!(grid.add_building(2, building((251, 0), 1, 1)), Err(PlacementError::OutOfBounds));
    assert_eq!(grid.add_building(2, building((252, 0), 0, 0)), Err(PlacementError::OutOfBounds));
    assert_eq!(
        grid.add_building(2, building((usize::MAX, 0), usize::MAX, 1)),
        Err(PlacementError::OutOfBounds)
    );
    assert_eq!(grid.add_building(2, building((0, 0), 251, 251)), Err(PlacementError::Overlap));
    assert_eq!(grid.cell_at(250, 0).building, None);
    assert_eq!(grid.cell_at(0, 250).building, None);
    assert_eq!(grid.cell_at(250, 250).building, mark(1));
}

#[test]
fn overlapping_footprint_is_refused_and_changes_nothing() {
    let mut grid = GridMap::empty();
    assert_eq!(grid.add_building(1, building((10, 10), 4, 4)), Ok(()));
    assert_eq!(grid.add_building(2, building((13, 13), 4, 4)), Err(PlacementError::Overlap));
    assert_eq!(grid.add_building(2, building((8, 8), 3, 3)), Err(PlacementError::Overlap));
    for x in 5..20 {
        for y in 5..20 {
            let expected = if (10..14).contains(&x) && (10..14).contains(&y) { mark(1) } else { None };
            assert_eq!(grid.cell_at(x, y).building, expected);
        }
    }
    // Footprints that touch do not overlap.
    assert_eq!(grid.add_building(2, building((14, 10), 2, 4)), Ok(()));
    assert_eq!(grid.add_building(3, building((10, 14), 4, 1)), Ok(()));
    assert_eq!(grid.cell_at(14, 13).building, mark(2));
    assert_eq!(grid.cell_at(13, 14).building, mark(3));
}

#[test]
fn a_structure_without_area_occupies_nothing() {
    let mut grid = GridMap::empty();
    assert_eq!(grid.add_building(1, building((10, 10), 0, 5)), Ok(()));
    assert_eq!(grid.add_building(2, building((10, 10), 5, 0)), Ok(()));
    for x in 8..17 {
        for y in 8..17 {
            assert_eq!(grid.cell_at(x, y).building, None);
        }
    }
}

#[test]
fn placing_and_removing_drop_the_flow_field() {
    let mut buildings = BuildingRegistry::new();
    assert!(buildings.insert(1, building((100, 100), 4, 4)));
    let mut grid = GridMap::new(&buildings).unwrap();
    grid.build_flow_path(&buildings);
    assert_eq!(grid.cell_at(99, 100).direction, Some(Direction::Right));
    assert_eq!(grid.cell_at(0, 0).direction.is_some(), true);

    assert_eq!(grid.add_building(2, building((50, 50), 2, 2)), Ok(()));
    for x in 0..251 {
        for y in 0..251 {
            assert_eq!(grid.cell_at(x, y).direction, None);
        }
    }
    assert_eq!(grid.cell_at(51, 51).building, mark(2));

    assert!(buildings.insert(2, building((50, 50), 2, 2)));
    grid.build_flow_path(&buildings);
    assert_eq!(grid.cell_at(49, 50).direction, Some(Direction::Right));
    grid.remove_building(1);
    for x in 0..251 {
        for y in 0..251 {
            assert_eq!(grid.cell_at(x, y).direction, None);
            let expected = if (50..52).contains(&x) && (50..52).contains(&y) { mark(2) } else { None };
            assert_eq!(grid.cell_at(x, y).building, expected);
        }
    }
    // A refused placement leaves the flow field alone.
    assert!(buildings.remove(1).is_some());
    grid.build_flow_path(&buildings);
    assert_eq!(grid.add_building(3, building((51, 51), 2, 2)), Err(PlacementError::Overlap));
    assert_eq!(grid.cell_at(49, 50).direction, Some(Direction::Right));
}

#[test]
fn clearing_directions_keeps_the_structures() {
    let mut buildings = BuildingRegistry::new();
    assert!(buildings.insert(1, building((100, 100), 4, 4)));
    let mut grid = GridMap::new(&buildings).unwrap();
    grid.build_flow_path(&buildings);
    grid.clear_directions();
    assert_eq!(grid.cell_at(99, 100), GridSpace { building: None, direction: None });
    assert_eq!(grid.cell_at(100, 100), GridSpace { building: mark(1), direction: None });
}

#[test]
fn registry_keeps_order_and_refuses_taken_identifiers() {
    let mut buildings = BuildingRegistry::new();
    assert_eq!(buildings.len(), 0);
    assert!(buildings.insert(5, building((1, 1), 1, 1)));
    assert!(buildings.insert(3, building((2, 2), 1, 1)));
    assert!(buildings.insert(8, building((3, 3), 1, 1)));
    assert!(!buildings.insert(3, building((9, 9), 1, 1)));
    assert_eq!(buildings.len(), 3);
    assert_eq!(buildings.entry(0), (5, building((1, 1), 1, 1)));
    assert_eq!(buildings.entry(1), (3, building((2, 2), 1, 1)));
    assert_eq!(buildings.entry(2), (8, building((3, 3), 1, 1)));
    assert_eq!(buildings.position(3), Some(1));
    assert_eq!(buildings.position(4), None);
    assert_eq!(buildings.get(8), Some(building((3, 3), 1, 1)));
    assert_eq!(buildings.get(9), None);
}

#[test]
fn registry_removes_and_sets_health() {
    let mut buildings = BuildingRegistry::new();
    assert!(buildings.insert(5, building((1, 1), 1, 1)));
    assert!(buildings.insert(3, building((2, 2), 1, 1)));
    assert!(buildings.insert(8, building((3, 3), 1, 1)));
    assert!(buildings.set_health(3, 42));
    assert!(!buildings.set_health(4, 42));
    assert_eq!(buildings.get(3).unwrap().health, 42);
    assert_eq!(buildings.get(3).unwrap().max_health, 100_000);
    assert_eq!(buildings.get(5).unwrap().health, 100_000);
    assert_eq!(buildings.remove(3).map(|b| b.health), Some(42));
    assert_eq!(buildings.remove(3), None);
    assert_eq!(buildings.len(), 2);
    assert_eq!(buildings.entry(0).0, 5);
    assert_eq!(buildings.entry(1).0, 8);
}

#[test]
fn fits_in_grid_reads_the_footprint() {
    assert!(building((0, 0), 251, 251).fits_in_grid());
    assert!(building((251, 251), 0, 0).fits_in_grid());
    assert!(!building((0, 0), 252, 1).fits_in_grid());
    assert!(!building((1, 0), 251, 1).fits_in_grid());
    assert!(!building((0, 1), 1, 251).fits_in_grid());
    assert!(!building((usize::MAX, 0), 2, 1).fits_in_grid());
}

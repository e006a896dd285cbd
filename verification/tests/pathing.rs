use last_hope::building::{Building, BuildingRegistry, BuildingType};
use last_hope::grid::GridMap;
use last_hope::pathing::{build_path_star, find_path, Pos};

fn wall(bottom_left: (usize, usize), width: usize, height: usize) -> Building {
    Building {
        building_type: BuildingType::Barricade,
        bottom_left,
        width,
        height,
        max_health: 100_000,
        health: 100_000,
    }
}

fn grid_with(walls: &[Building]) -> GridMap {
    let mut buildings = BuildingRegistry::new();
    for (id, building) in walls.iter().enumerate() {
        assert!(buildings.insert(id as u32, *building));
    }
    GridMap::new(&buildings).unwrap()
}

#[test]
fn path_to_the_same_cell_is_the_cell() {
    let grid = grid_with(&[]);
    assert_eq!(find_path(&grid, (7, 9), (7, 9)), Some(vec![(7, 9)]));
    assert_eq!(find_path(&grid, (0, 0), (0, 0)), Some(vec![(0, 0)]));
    assert_eq!(find_path(&grid, (250, 250), (250, 250)), Some(vec![(250, 250)]));
}

#[test]
fn diagonal_steps_cost_one() {
    let grid = grid_with(&[]);
    let (path, cost) = build_path_star(&grid, (10, 10), (15, 13), (1, 1)).unwrap();
    assert_eq!(cost, 5);
    assert_eq!(path.len(), 6);
    assert_eq!(path[0], (10, 10));
    assert_eq!(path[5], (15, 13));
}

#[test]
fn start_outside_the_grid_has_no_path() {
    let grid = grid_with(&[]);
    assert_eq!(find_path(&grid, (-1, 0), (3, 3)), None);
    assert_eq!(find_path(&grid, (251, 0), (3, 3)), None);
    assert_eq!(find_path(&grid, (i32::MAX, i32::MIN), (3, 3)), None);
}

#[test]
fn goal_outside_the_grid_has_no_path() {
    let grid = grid_with(&[]);
    assert_eq!(find_path(&grid, (3, 3), (251, 3)), None);
    assert_eq!(build_path_star(&grid, (3, 3), (i32::MAX, i32::MAX), (i32::MAX, i32::MAX)), None);
    assert_eq!(build_path_star(&grid, (3, 3), (5, 5), (0, 4)), None);
    assert_eq!(build_path_star(&grid, (3, 3), (5, 5), (-2, 4)), None);
}

#[test]
fn area_goal_is_reached_at_its_nearest_cell() {
    let grid = grid_with(&[]);
    let (path, cost) = build_path_star(&grid, (10, 10), (20, 0), (5, 250)).unwrap();
    assert_eq!(cost, 10);
    assert_eq!(path.last().unwrap().0, 20);
    let (path, cost) = build_path_star(&grid, (10, 10), (-50, -50), (100, 100)).unwrap();
    assert_eq!(cost, 0);
    assert_eq!(path, vec![(10, 10)]);
}

#[test]
fn path_goes_around_a_wall() {
    // A wall across column 20, from row 0 to row 99: the way leads over its top.
    let grid = grid_with(&[wall((20, 0), 1, 100)]);
    let (path, cost) = build_path_star(&grid, (19, 0), (21, 0), (1, 1)).unwrap();
    assert_eq!(cost as usize, path.len() - 1);
    assert_eq!(cost, 200);
    for pair in path.windows(2) {
        let dx = (pair[0].0 - pair[1].0).abs();
        let dy = (pair[0].1 - pair[1].1).abs();
        assert!(dx <= 1 && dy <= 1 && (dx, dy) != (0, 0));
    }
    for cell in &path[1..] {
        assert!(grid.is_walkable(cell.0 as i64, cell.1 as i64));
    }
}

#[test]
fn enclosed_goal_has_no_path() {
    // A ring of walls around the cells (50..53, 50..53).
    let grid = grid_with(&[
        wall((49, 49), 5, 1),
        wall((49, 53), 5, 1),
        wall((49, 50), 1, 3),
        wall((53, 50), 1, 3),
    ]);
    assert_eq!(find_path(&grid, (10, 10), (51, 51)), None);
    assert_eq!(find_path(&grid, (51, 51), (10, 10)), None);
    assert!(find_path(&grid, (50, 50), (52, 52)).is_some());
    // An occupied goal is never entered.
    assert_eq!(find_path(&grid, (10, 10), (49, 49)), None);
}

#[test]
fn pos_center_and_distance() {
    let pos = Pos::new((134, 131), (18, 12));
    assert_eq!(pos.center, (143, 137));
    assert_eq!(pos.distance_to_center((0, 0)), 280);
    assert_eq!(pos.distance_to_center((150, 130)), 14);
    let odd = Pos::new((0, 0), (-3, 5));
    assert_eq!(odd.center, (-1, 2));
    assert_eq!(odd.distance_to_center((-1, 2)), 0);
    let wide = Pos::new((i32::MIN, 0), (0, 0));
    assert_eq!(wide.distance_to_center((i32::MAX, 0)), u32::MAX);
}

#[test]
fn pos_contains_and_steps_to() {
    let pos = Pos::new((10, 20), (3, 2));
    assert!(pos.contains((10, 20)));
    assert!(pos.contains((12, 21)));
    assert!(!pos.contains((13, 21)));
    assert!(!pos.contains((12, 22)));
    assert!(!pos.contains((9, 20)));
    assert_eq!(pos.steps_to((11, 20)), 0);
    assert_eq!(pos.steps_to((0, 20)), 10);
    assert_eq!(pos.steps_to((15, 30)), 9);
    assert_eq!(pos.steps_to((20, 21)), 8);
    assert_eq!(pos.steps_to((i32::MIN, i32::MAX)), 2_147_483_658);
}

#[test]
fn moveable_options_come_in_order() {
    let grid = grid_with(&[wall((5, 5), 1, 1)]);
    assert_eq!(
        grid.find_moveable_options(4, 4),
        vec![((5, 4), 1), ((5, 3), 1), ((4, 5), 1), ((4, 3), 1), ((3, 5), 1), ((3, 4), 1), ((3, 3), 1)]
    );
    assert_eq!(grid.find_moveable_options(0, 0), vec![((1, 1), 1), ((1, 0), 1), ((0, 1), 1)]);
    assert_eq!(grid.find_moveable_options(-5, 7), vec![]);
}

/// The cells that can be reached from `start` over walkable cells, in steps
/// to any of the eight neighbours, found by flooding.
fn flooded(grid: &GridMap, start: (i32, i32)) -> Vec<Vec<bool>> {
    let mut seen = vec![vec![false; 251]; 251];
    let mut stack = vec![start];
    seen[start.0 as usize][start.1 as usize] = true;
    while let Some((x, y)) = stack.pop() {
        for dx in -1..=1 {
            for dy in -1..=1 {
                let (a, b) = (x + dx, y + dy);
                if (0..251).contains(&a)
                    && (0..251).contains(&b)
                    && !seen[a as usize][b as usize]
                    && grid.is_walkable(a as i64, b as i64)
                {
                    seen[a as usize][b as usize] = true;
                    stack.push((a, b));
                }
            }
        }
    }
    seen
}

#[test]
fn a_path_is_found_exactly_where_flooding_arrives() {
    // Three regions: the open field, a closed room, and a room whose only
    // gap is a diagonal one.
    let grid = grid_with(&[
        wall((49, 49), 5, 1),
        wall((49, 53), 5, 1),
        wall((49, 50), 1, 3),
        wall((53, 50), 1, 3),
        wall((100, 100), 6, 1),
        wall((100, 101), 1, 5),
        wall((105, 101), 1, 4),
        wall((101, 105), 4, 1),
        wall((200, 0), 1, 251),
    ]);
    let starts = [(10, 10), (51, 51), (102, 102), (250, 250), (106, 106)];
    let goals = [
        (0, 0),
        (199, 125),
        (201, 125),
        (50, 50),
        (52, 52),
        (101, 101),
        (104, 104),
        (250, 0),
        (48, 48),
        (105, 105),
        (106, 105),
    ];
    for start in starts {
        assert!(grid.is_walkable(start.0 as i64, start.1 as i64));
        let reached = flooded(&grid, start);
        for goal in goals {
            assert!(grid.is_walkable(goal.0 as i64, goal.1 as i64));
            let found = find_path(&grid, start, goal);
            assert_eq!(
                found.is_some(),
                reached[goal.0 as usize][goal.1 as usize],
                "from {start:?} to {goal:?}"
            );
            if let Some(path) = found {
                assert_eq!(path[0], start);
                assert_eq!(*path.last().unwrap(), goal);
            }
        }
    }
    // The diagonal gap at (105, 105) lets the second room out.
    assert!(find_path(&grid, (102, 102), (10, 10)).is_some());
    assert!(find_path(&grid, (51, 51), (10, 10)).is_none());
    assert!(find_path(&grid, (10, 10), (250, 250)).is_none());
}

#[test]
fn the_same_search_finds_the_same_path() {
    let grid = grid_with(&[wall((20, 0), 1, 100), wall((40, 50), 1, 201)]);
    let first = build_path_star(&grid, (3, 3), (60, 10), (4, 4));
    let second = build_path_star(&grid, (3, 3), (60, 10), (4, 4));
    assert!(first.is_some());
    assert_eq!(first, second);
    let again = grid_with(&[wall((20, 0), 1, 100), wall((40, 50), 1, 201)]);
    assert_eq!(build_path_star(&again, (3, 3), (60, 10), (4, 4)), first);
}

#[test]
fn a_path_may_begin_on_an_occupied_cell_but_never_enters_one() {
    let grid = grid_with(&[wall((10, 10), 3, 3)]);
    // From the rim of the structure the way leads out.
    let (path, cost) = build_path_star(&grid, (10, 10), (5, 10), (1, 1)).unwrap();
    assert_eq!(cost, 5);
    assert_eq!(path[0], (10, 10));
    // From its middle every neighbour is occupied.
    assert_eq!(build_path_star(&grid, (11, 11), (5, 10), (1, 1)), None);
    // The cell itself is a goal that is reached without a step.
    assert_eq!(find_path(&grid, (11, 11), (11, 11)), Some(vec![(11, 11)]));
    // An area that is occupied throughout is never entered from outside.
    assert_eq!(build_path_star(&grid, (5, 5), (10, 10), (3, 3)), None);
    // An area that reaches beyond the structure is entered beside it.
    let (_, cost) = build_path_star(&grid, (5, 11), (9, 9), (5, 5)).unwrap();
    assert_eq!(cost, 4);
}

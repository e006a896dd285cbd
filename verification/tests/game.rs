use last_hope::building::{Building, BuildingType, PlacementError};
use last_hope::direction::Direction;
use last_hope::enemy::Enemy;
use last_hope::game::Game;
use last_hope::navigation::Navigation;
use last_hope::worker::{Heading, Task, Worker};

fn barricade(bottom_left: (usize, usize), width: usize, height: usize, health: i64) -> Building {
    Building {
        building_type: BuildingType::Barricade,
        bottom_left,
        width,
        height,
        max_health: health,
        health,
    }
}

fn enemy(health: i64, position: (i64, i64)) -> Enemy {
    Enemy::new(health, position, 20_000, 15)
}

/// A position inside the main structure.
const INSIDE: (i64, i64) = (40_000, 30_000);

#[test]
fn new_game_holds_the_main_structure() {
    let game = Game::default();
    assert!(!game.navigation.path_built());
    assert_eq!(game.navigation.buildings().len(), 1);
    let (id, main) = game.navigation.buildings().entry(0);
    assert_eq!(id, 0);
    assert_eq!(main.bottom_left, (134, 131));
    assert_eq!((main.width, main.height), (18, 12));
    assert_eq!((main.health, main.max_health), (1_000_000, 1_000_000));
    assert_eq!(main.building_type, BuildingType::Sentry);
    assert!(game.enemy_alive_list.is_empty());
    assert!(game.enemy_dead_list.is_empty());
    assert!(game.worker_list.is_empty());
    assert!(game.worker_task_list.is_empty());
    assert_eq!(game.navigation.query_objective_reached(INSIDE), Some(0));
    assert_eq!(game.navigation.query_objective_reached((0, 0)), None);
    assert!(game.navigation.map().cell_at(134, 131).building.is_some());
    assert!(game.navigation.map().cell_at(151, 142).building.is_some());
    assert!(game.navigation.map().cell_at(152, 142).building.is_none());
    assert!(game.navigation.map().cell_at(133, 131).building.is_none());
}

#[test]
fn querying_a_direction_builds_the_field_first() {
    let mut navigation = Navigation::new();
    assert_eq!(navigation.map().cell_at(0, 135).direction, None);
    assert_eq!(navigation.query_direction((-498_000, 42_000)), Some(Direction::Right));
    assert!(navigation.path_built());
    assert_eq!(navigation.query_direction(INSIDE), None);
    assert_eq!(navigation.query_direction((i64::MAX, 42_000)), Some(Direction::Left));

    // Placing a structure drops the field; the next query builds it again.
    assert_eq!(navigation.add_building(1, barricade((10, 135), 2, 2, 5)), Ok(()));
    assert!(!navigation.path_built());
    assert_eq!(navigation.map().cell_at(0, 135).direction, None);
    assert_eq!(navigation.query_direction((-498_000, 42_000)), Some(Direction::Right));
    assert_eq!(navigation.query_direction((-448_000, 42_000)), Some(Direction::Left));
    assert!(navigation.path_built());

    assert_eq!(navigation.remove_building(1).map(|b| b.health), Some(5));
    assert!(!navigation.path_built());
    assert_eq!(navigation.remove_building(1), None);
    assert_eq!(navigation.query_direction((-448_000, 42_000)), Some(Direction::Right));
    navigation.ensure_built();
    assert!(navigation.path_built());
}

#[test]
fn placements_are_refused_for_their_reasons() {
    let mut navigation = Navigation::new();
    navigation.ensure_built();
    assert_eq!(
        navigation.add_building(0, barricade((10, 10), 2, 2, 5)),
        Err(PlacementError::DuplicateId)
    );
    assert_eq!(
        navigation.add_building(0, barricade((300, 10), 2, 2, 5)),
        Err(PlacementError::DuplicateId)
    );
    assert_eq!(
        navigation.add_building(1, barricade((250, 10), 2, 2, 5)),
        Err(PlacementError::OutOfBounds)
    );
    assert_eq!(
        navigation.add_building(1, barricade((150, 140), 5, 5, 5)),
        Err(PlacementError::Overlap)
    );
    assert!(navigation.path_built());
    assert_eq!(navigation.buildings().len(), 1);
    assert_eq!(navigation.map().cell_at(0, 135).direction, Some(Direction::Right));
    assert_eq!(navigation.add_building(1, barricade((10, 10), 2, 2, 5)), Ok(()));
    assert_eq!(navigation.buildings().len(), 2);
    assert_eq!(navigation.buildings().entry(1).0, 1);
}

#[test]
fn striking_a_structure_takes_health_and_at_nothing_removes_it() {
    let mut navigation = Navigation::new();
    assert_eq!(navigation.add_building(1, barricade((10, 10), 2, 2, 500)), Ok(()));
    navigation.ensure_built();
    navigation.strike_building(1, 200);
    assert_eq!(navigation.buildings().get(1).unwrap().health, 300);
    assert_eq!(navigation.buildings().get(1).unwrap().max_health, 500);
    assert!(navigation.path_built());
    navigation.strike_building(9, 200);
    assert_eq!(navigation.buildings().len(), 2);
    navigation.strike_building(1, -100);
    assert_eq!(navigation.buildings().get(1).unwrap().health, 400);
    navigation.strike_building(1, 400);
    assert_eq!(navigation.buildings().get(1), None);
    assert!(!navigation.path_built());
    assert_eq!(navigation.map().cell_at(10, 10).building, None);
    assert_eq!(navigation.buildings().get(0).unwrap().health, 1_000_000);
    navigation.strike_building(0, i64::MIN);
    assert_eq!(navigation.buildings().get(0).unwrap().health, i64::MAX);
    navigation.strike_building(0, i64::MAX);
    assert_eq!(navigation.buildings().len(), 0);
}

#[test]
fn no_enemy_is_skipped_when_neighbours_leave_in_one_pass() {
    let mut game = Game::default();
    let far = (-498_000, 42_000);
    game.enemy_alive_list = vec![
        enemy(10, far),
        enemy(0, far),
        enemy(-5, far),
        enemy(20, far),
        enemy(30, INSIDE),
        enemy(40, INSIDE),
        enemy(50, far),
        enemy(-1, far),
    ];
    game.manage_enemies(1_000);
    let moved = (-483_000, 42_000);
    let healths: Vec<i64> = game.enemy_alive_list.iter().map(|e| e.health).collect();
    assert_eq!(healths, vec![10, 20, 50]);
    for survivor in &game.enemy_alive_list {
        assert_eq!(survivor.position, moved);
        assert_eq!(survivor.rotation, Direction::Right);
    }
    let dead: Vec<i64> = game.enemy_dead_list.iter().map(|e| e.health).collect();
    assert_eq!(dead, vec![-1, -5, 0]);
    assert_eq!(game.navigation.buildings().get(0).unwrap().health, 1_000_000 - 70);
    assert!(game.navigation.path_built());
}

#[test]
fn a_pass_over_no_enemies_changes_nothing() {
    let mut game = Game::default();
    game.manage_enemies(16);
    assert!(game.enemy_alive_list.is_empty());
    assert!(game.enemy_dead_list.is_empty());
    assert!(!game.navigation.path_built());
}

#[test]
fn a_structure_that_falls_changes_the_field_within_the_pass() {
    let mut game = Game::default();
    assert_eq!(game.navigation.add_building(1, barricade((10, 135), 2, 2, 100)), Ok(()));
    // The last enemy stands on the barricade and brings it down.  The first
    // stands to its left and, the barricade gone, heads for the main
    // structure.
    game.enemy_alive_list = vec![enemy(10, (-470_000, 42_000)), enemy(100, (-458_000, 42_000))];
    game.manage_enemies(1_000);
    assert_eq!(game.navigation.buildings().get(1), None);
    assert_eq!(game.enemy_alive_list.len(), 1);
    assert_eq!(game.enemy_alive_list[0].position, (-455_000, 42_000));
    assert_eq!(game.enemy_alive_list[0].rotation, Direction::Right);
    assert!(game.navigation.path_built());
    assert_eq!(game.navigation.map().cell_at(10, 135).building, None);
}

#[test]
fn spawned_enemies_stand_on_an_edge() {
    let mut game = Game::default();
    let mut sides = [false; 4];
    for round in 0..200 {
        game.spawn_enemy();
        assert_eq!(game.enemy_alive_list.len(), round + 1);
        let spawned = game.enemy_alive_list[round];
        let (x, y) = spawned.position;
        let on_x = x == -500_000 || x == 500_000;
        let on_y = y == -500_000 || y == 500_000;
        assert!(on_x || on_y);
        let along = if on_x { y } else { x };
        assert!(along.abs() < 500_000 && along % 500 == 0);
        let ratio = along.abs() / 500;
        assert_eq!(spawned.health, 100 * (ratio + 500));
        assert_eq!(spawned.size, 20 * (ratio + 500));
        assert_eq!(spawned.speed, 15);
        assert_eq!(spawned.rotation, Direction::Up);
        assert_eq!(spawned.building_hit, None);
        if x == -500_000 {
            sides[0] = true;
        } else if x == 500_000 {
            sides[1] = true;
        } else if y == -500_000 {
            sides[2] = true;
        } else {
            sides[3] = true;
        }
    }
    assert_eq!(sides, [true; 4]);
    assert!(game.enemy_dead_list.is_empty());
}

fn idle_worker(position: (i32, i32), health: i64) -> Worker {
    Worker {
        health,
        position,
        facing: Heading::Up,
        speed: 1,
        path: vec![],
        task: Task { task_times: vec![], goals: vec![] },
        time_since_path_started: 0,
        available_for_task: true,
        ready_for_new_path: false,
    }
}

#[test]
fn an_available_worker_takes_the_first_task_and_sets_out() {
    let mut game = Game::default();
    game.worker_list = vec![idle_worker((125, 125), 10)];
    // The first goal lies in cell (128, 125).
    let first = Task { task_times: vec![500, 500], goals: vec![(14_000, 1_000), (0, 0)] };
    let second = Task { task_times: vec![100], goals: vec![(0, 0)] };
    game.worker_task_list = vec![first.clone(), second.clone()];
    game.manage_workers(5_000);
    let worker = &game.worker_list[0];
    assert_eq!(worker.task, first);
    let path = worker.path.clone();
    assert_eq!(path.len(), 4);
    assert_eq!(path[0], (125, 125));
    assert_eq!(path[3], (128, 125));
    assert_eq!(worker.time_since_path_started, 5_000);
    assert!(!worker.available_for_task);
    assert_eq!(worker.position, (125, 125));
    assert_eq!(game.worker_task_list, vec![second.clone()]);

    game.manage_workers(7_000);
    assert_eq!(game.worker_list[0].position, path[2]);
    assert_eq!(Some(game.worker_list[0].facing), Heading::towards(path[0], path[2]));
    assert_eq!(game.worker_task_list, vec![second]);
    game.manage_workers(8_999);
    assert_eq!(game.worker_list[0].position, path[3]);
    game.manage_workers(9_499);
    assert!(!game.worker_list[0].ready_for_new_path);
    game.manage_workers(9_500);
    assert!(game.worker_list[0].ready_for_new_path);
    assert_eq!(game.worker_list[0].position, (128, 125));
}

#[test]
fn a_task_that_cannot_be_reached_goes_on_waiting() {
    let mut game = Game::default();
    // The goal lies inside the main structure.
    let task = Task { task_times: vec![500], goals: vec![(40_000, 30_000)] };
    game.worker_list = vec![idle_worker((125, 125), 10)];
    game.worker_task_list = vec![task.clone()];
    game.manage_workers(5_000);
    assert!(game.worker_list[0].available_for_task);
    assert!(game.worker_list[0].path.is_empty());
    assert_eq!(game.worker_task_list, vec![task]);
}

#[test]
fn a_task_without_a_place_is_taken_on_the_spot() {
    let mut game = Game::default();
    let task = Task { task_times: vec![500], goals: vec![] };
    game.worker_list = vec![idle_worker((125, 125), 10)];
    game.worker_task_list = vec![task.clone()];
    game.manage_workers(5_000);
    assert!(!game.worker_list[0].available_for_task);
    assert!(game.worker_list[0].path.is_empty());
    assert_eq!(game.worker_list[0].task, task);
    assert!(game.worker_task_list.is_empty());
    assert!(!game.worker_list[0].ready_for_new_path);
    game.manage_workers(5_500);
    assert!(game.worker_list[0].ready_for_new_path);
}

#[test]
fn no_worker_is_skipped_when_neighbours_leave_in_one_pass() {
    let mut game = Game::default();
    game.worker_list = vec![
        idle_worker((1, 1), 10),
        idle_worker((2, 2), 0),
        idle_worker((3, 3), -7),
        idle_worker((4, 4), 20),
        idle_worker((5, 5), -1),
    ];
    let near_four = Task { task_times: vec![], goals: vec![(-482_000, -482_000)] };
    let near_one = Task { task_times: vec![], goals: vec![(-490_000, -494_000)] };
    game.worker_task_list = vec![near_four.clone(), near_one.clone()];
    game.manage_workers(0);
    let healths: Vec<i64> = game.worker_list.iter().map(|w| w.health).collect();
    assert_eq!(healths, vec![10, 20]);
    // The last living worker has its turn first and takes the first task.
    assert_eq!(game.worker_list[1].task, near_four);
    assert_eq!(game.worker_list[1].path, vec![(4, 4)]);
    assert_eq!(game.worker_list[0].task, near_one);
    assert_eq!(game.worker_list[0].path, vec![(1, 1), (2, 1)]);
    assert!(game.worker_task_list.is_empty());
    assert!(game.enemy_alive_list.is_empty());
}

#[test]
fn a_click_picks_the_first_dead_enemy_under_it() {
    let mut game = Game::default();
    game.enemy_dead_list = vec![
        enemy(-1, (200_000, 200_000)),
        enemy(-2, (10_000, 10_000)),
        enemy(-3, (12_000, 12_000)),
    ];
    assert_eq!(game.initiate_task(300_000, 0), None);
    assert!(game.worker_task_list.is_empty());
    assert_eq!(game.initiate_task(11_000, 11_000), Some(1));
    assert_eq!(
        game.worker_task_list,
        vec![Task { task_times: vec![500, 500], goals: vec![(10_000, 10_000), (0, 0)] }]
    );
    // The box of the third reaches a little farther.
    assert_eq!(game.initiate_task(41_000, 41_000), Some(2));
    assert_eq!(game.worker_task_list.len(), 2);
    assert_eq!(game.worker_task_list[1].goals[0], (12_000, 12_000));
    assert_eq!(game.initiate_task(190_000, 190_000), Some(0));
    assert_eq!(game.enemy_dead_list.len(), 3);
    assert!(game.enemy_alive_list.is_empty());
}

use last_hope::building::{Building, BuildingRegistry, BuildingType};
use last_hope::direction::Direction;
use last_hope::enemy::{distance_covered, shift, Enemy};
use last_hope::grid::GridMap;

fn centre_structure() -> Building {
    Building {
        building_type: BuildingType::Sentry,
        bottom_left: (116, 119),
        width: 18,
        height: 12,
        max_health: 1_000_000,
        health: 1_000_000,
    }
}

fn built_grid() -> GridMap {
    let mut buildings = BuildingRegistry::new();
    assert!(buildings.insert(4, centre_structure()));
    let mut grid = GridMap::new(&buildings).unwrap();
    grid.build_flow_path(&buildings);
    grid
}

#[test]
fn distance_is_speed_times_time() {
    assert_eq!(distance_covered(15, 16), 240);
    assert_eq!(distance_covered(15, 1_000), 15_000);
    assert_eq!(distance_covered(0, 1_000), 0);
    assert_eq!(distance_covered(7, 0), 0);
    assert_eq!(distance_covered(u32::MAX, u32::MAX), i64::MAX);
    assert_eq!(distance_covered(u32::MAX, 1 << 31), 9_223_372_034_707_292_160);
}

#[test]
fn shifting_moves_along_one_axis_and_saturates() {
    assert_eq!(shift((10, 20), Direction::Up, 5), (10, 25));
    assert_eq!(shift((10, 20), Direction::Down, 5), (10, 15));
    assert_eq!(shift((10, 20), Direction::Left, 5), (5, 20));
    assert_eq!(shift((10, 20), Direction::Right, 5), (15, 20));
    assert_eq!(shift((i64::MAX - 1, 0), Direction::Right, 5), (i64::MAX, 0));
    assert_eq!(shift((0, i64::MIN + 1), Direction::Down, i64::MAX), (0, i64::MIN));
    assert_eq!(shift((-3, 7), Direction::Left, i64::MAX), (i64::MIN, 7));
}

#[test]
fn new_enemy_faces_up_and_has_hit_nothing() {
    let enemy = Enemy::new(75_000, (1, 2), 15_000, 15);
    assert_eq!(
        enemy,
        Enemy {
            health: 75_000,
            position: (1, 2),
            size: 15_000,
            rotation: Direction::Up,
            speed: 15,
            building_hit: None
        }
    );
}

#[test]
fn spawned_enemy_stands_on_its_side() {
    assert_eq!(
        Enemy::spawn(0, 1, false),
        Enemy::new(50_000, (-500_000, 0), 10_000, 15)
    );
    assert_eq!(
        Enemy::spawn(999, 4, true),
        Enemy::new(149_900, (-499_500, 500_000), 29_980, 15)
    );
    assert_eq!(Enemy::spawn(500, 2, false).position, (500_000, 250_000));
    assert_eq!(Enemy::spawn(500, 3, true).position, (-250_000, -500_000));
    assert_eq!(Enemy::spawn(500, 3, true).health, 100_000);
    assert_eq!(Enemy::spawn(500, 3, true).size, 20_000);
}

#[test]
fn enemy_moves_the_way_its_cell_points() {
    let grid = built_grid();
    let mut enemy = Enemy::new(100_000, (-498_000, 2_000), 20_000, 15);
    enemy.rotation = Direction::Down;
    assert!(!enemy.reach_base_check(16, &grid));
    assert_eq!(enemy.position, (-497_760, 2_000));
    assert_eq!(enemy.rotation, Direction::Right);
    assert_eq!(enemy.building_hit, None);
    assert_eq!(enemy.health, 100_000);

    let mut above = Enemy::new(100_000, (0, 400_000), 20_000, 10);
    assert!(!above.reach_base_check(100, &grid));
    assert_eq!(above.position, (0, 399_000));
    assert_eq!(above.rotation, Direction::Down);
}

#[test]
fn enemy_on_a_structure_has_reached_it() {
    let grid = built_grid();
    let mut enemy = Enemy::new(100_000, (0, 0), 20_000, 15);
    enemy.rotation = Direction::Left;
    assert!(enemy.reach_base_check(16, &grid));
    assert_eq!(enemy.building_hit, Some(4));
    assert_eq!(enemy.position, (0, 0));
    assert_eq!(enemy.rotation, Direction::Left);
}

#[test]
fn enemy_without_direction_stalls() {
    let grid = GridMap::empty();
    let mut enemy = Enemy::new(100_000, (123_456, -7), 20_000, 15);
    enemy.rotation = Direction::Left;
    assert!(!enemy.reach_base_check(16, &grid));
    assert_eq!(enemy.position, (123_456, -7));
    assert_eq!(enemy.rotation, Direction::Up);
    assert_eq!(enemy.building_hit, None);
}

#[test]
fn enemy_outside_the_battlefield_reads_the_edge_cell() {
    let grid = built_grid();
    let mut enemy = Enemy::new(100_000, (-9_000_000, 2_000), 20_000, 15);
    assert!(!enemy.reach_base_check(1_000, &grid));
    assert_eq!(enemy.position, (-8_985_000, 2_000));
    assert_eq!(enemy.rotation, Direction::Right);
}

#[test]
fn enemy_from_the_edge_reaches_the_structure_in_the_centre() {
    let grid = built_grid();
    // The middle of cell (0, 125).
    let start = GridMap::grid_to_world((0, 125));
    assert_eq!(start, (-498_000, 2_000));
    let mut enemy = Enemy::new(100_000, start, 20_000, 15);
    let tick_ms = 16;
    // 116 cells of 4 units lie between the edge and the structure.
    let bound = (116 * 4_000) / (15 * tick_ms as i64) + 2;
    let mut ticks = 0;
    while !enemy.reach_base_check(tick_ms, &grid) {
        ticks += 1;
        assert!(ticks <= bound, "no arrival after {ticks} ticks");
        assert_eq!(enemy.rotation, Direction::Right);
        assert_eq!(enemy.position.1, 2_000);
    }
    assert_eq!(enemy.building_hit, Some(4));
    assert_eq!(GridMap::convert_position_to_grid_position(enemy.position).0, 116);
    assert_eq!(ticks, 1925);
}

#[test]
fn hitbox_is_two_and_a_half_sizes_wide() {
    let enemy = Enemy::new(100_000, (10_000, -20_000), 20_000, 15);
    let hitbox = enemy.get_hitbox();
    assert_eq!(hitbox.width, 55_000);
    assert_eq!(hitbox.height, 55_000);
    assert_eq!(hitbox.bottom_left, (-15_000, -45_000));
    assert!(hitbox.contains(0, 0));
    assert!(hitbox.contains(-14_999, -44_999));
    assert!(hitbox.contains(39_999, 9_999));
    assert!(!hitbox.contains(-15_000, 0));
    assert!(!hitbox.contains(40_000, 0));
    assert!(!hitbox.contains(0, -45_000));
    assert!(!hitbox.contains(0, 10_000));
}

#[test]
fn hitbox_rounds_down_and_saturates() {
    let odd = Enemy::new(1, (0, 0), 3, 15).get_hitbox();
    assert_eq!(odd.width, 5_007);
    assert_eq!(odd.bottom_left, (-3, -3));
    let negative = Enemy::new(1, (0, 0), -2_003, 15).get_hitbox();
    assert_eq!(negative.width, -8);
    assert_eq!(negative.bottom_left, (2_504, 2_504));
    assert!(!negative.contains(2_505, 2_505));
    let huge = Enemy::new(1, (i64::MIN, i64::MAX), i64::MAX, 15).get_hitbox();
    assert_eq!(huge.width, i64::MAX);
    assert_eq!(huge.bottom_left.0, i64::MIN);
    assert_eq!(huge.bottom_left.1, -2_305_843_009_213_693_951);
    assert!(!huge.contains(0, 0));
    let tiny = Enemy::new(1, (0, 0), i64::MIN, 15).get_hitbox();
    assert_eq!(tiny.width, i64::MIN);
    assert_eq!(tiny.bottom_left, (i64::MAX, i64::MAX));
}

use last_hope::coords::{axis_to_cell, cell_to_axis, CELL_SIZE, GRID_SIZE, UNIT, WORLD_MAX, WORLD_MIN};
use last_hope::grid::GridMap;

#[test]
fn constants_describe_the_battlefield() {
    assert_eq!(GRID_SIZE, 251);
    assert_eq!(UNIT, 1_000);
    assert_eq!(WORLD_MIN, -500 * UNIT);
    assert_eq!(WORLD_MAX, 500 * UNIT);
    assert_eq!(CELL_SIZE, 4 * UNIT);
}

#[test]
fn coordinates_fall_into_cells_of_four_units() {
    assert_eq!(axis_to_cell(-500_000), 0);
    assert_eq!(axis_to_cell(-496_001), 0);
    assert_eq!(axis_to_cell(-496_000), 1);
    assert_eq!(axis_to_cell(-1), 124);
    assert_eq!(axis_to_cell(0), 125);
    assert_eq!(axis_to_cell(3_999), 125);
    assert_eq!(axis_to_cell(4_000), 126);
    assert_eq!(axis_to_cell(499_999), 249);
    assert_eq!(axis_to_cell(500_000), 250);
}

#[test]
fn coordinates_outside_the_battlefield_are_clamped() {
    assert_eq!(axis_to_cell(-500_001), 0);
    assert_eq!(axis_to_cell(-1_000_000), 0);
    assert_eq!(axis_to_cell(i64::MIN), 0);
    assert_eq!(axis_to_cell(503_999), 250);
    assert_eq!(axis_to_cell(504_000), 250);
    assert_eq!(axis_to_cell(i64::MAX), 250);
}

#[test]
fn cell_middles() {
    assert_eq!(cell_to_axis(0), -498_000);
    assert_eq!(cell_to_axis(125), 2_000);
    assert_eq!(cell_to_axis(250), 502_000);
}

#[test]
fn round_trip_stays_within_half_a_cell() {
    let mut coord = WORLD_MIN;
    while coord <= WORLD_MAX {
        let back = cell_to_axis(axis_to_cell(coord));
        assert!((back - coord).abs() <= CELL_SIZE / 2, "{coord} came back as {back}");
        assert!((back - coord).abs() <= CELL_SIZE);
        coord += 137;
    }
    let back = cell_to_axis(axis_to_cell(WORLD_MAX));
    assert_eq!(back - WORLD_MAX, 2_000);
}

#[test]
fn cell_middles_fall_back_into_their_cells() {
    for cell in 0..GRID_SIZE {
        assert_eq!(axis_to_cell(cell_to_axis(cell)), cell);
    }
}

#[test]
fn positions_convert_axis_by_axis() {
    assert_eq!(GridMap::convert_position_to_grid_position((0, 0)), (125, 125));
    assert_eq!(GridMap::convert_position_to_grid_position((-500_000, 500_000)), (0, 250));
    assert_eq!(GridMap::convert_position_to_grid_position((36_000, 24_000)), (134, 131));
    assert_eq!(GridMap::convert_position_to_grid_position((i64::MIN, i64::MAX)), (0, 250));
    assert_eq!(GridMap::grid_to_world((134, 131)), (38_000, 26_000));
    assert_eq!(GridMap::grid_to_world((0, 250)), (-498_000, 502_000));
}

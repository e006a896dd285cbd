//! World coordinates, grid coordinates, and the quantisation between them.
use vstd::prelude::*;

verus! {

/// Number of cells along each side of the grid.
pub const GRID_SIZE: usize = 251;

/// Fixed-point resolution: one world unit is this many fixed-point steps.
pub const UNIT: i64 = 1_000;

/// Smallest world coordinate of the battlefield, in fixed point.
pub const WORLD_MIN: i64 = -500_000;

/// Largest world coordinate of the battlefield, in fixed point.
pub const WORLD_MAX: i64 = 500_000;

/// Side length of one cell, in fixed point (four world units).
pub const CELL_SIZE: i64 = 4_000;

/// Whether `(x, y)` names a cell of the grid.
pub open spec fn in_grid(x: int, y: int) -> bool {
    0 <= x < GRID_SIZE && 0 <= y < GRID_SIZE
}

/// The grid index that a world coordinate falls into along one axis:
/// `floor((coord - WORLD_MIN) / CELL_SIZE)`, moved to the nearest edge cell
/// when the coordinate lies outside the battlefield.
pub open spec fn cell_of(coord: int) -> int {
    let raw = (coord - WORLD_MIN) / (CELL_SIZE as int);
    if raw < 0 {
        0
    } else if raw > GRID_SIZE - 1 {
        GRID_SIZE - 1
    } else {
        raw
    }
}

/// The world coordinate of the middle of cell `cell` along one axis.
pub open spec fn center_of(cell: int) -> int {
    WORLD_MIN + cell * CELL_SIZE + CELL_SIZE / 2
}

/// Quantises one world coordinate to a grid index, clamping to the grid.
pub fn axis_to_cell(coord: i64) -> (cell: usize)
    ensures
        cell == cell_of(coord as int),
        cell < GRID_SIZE,
{
    if coord < WORLD_MIN {
        0
    } else if coord >= WORLD_MAX {
        GRID_SIZE - 1
    } else {
        ((coord - WORLD_MIN) / CELL_SIZE) as usize
    }
}

/// The world coordinate of the middle of a cell along one axis.
pub fn cell_to_axis(cell: usize) -> (coord: i64)
    requires
        cell < GRID_SIZE,
    ensures
        coord == center_of(cell as int),
        cell_of(coord as int) == cell,
{
    WORLD_MIN + (cell as i64) * CELL_SIZE + CELL_SIZE / 2
}

/// Quantisation is lossy but bounded: inside the battlefield, the middle of
/// the cell that a coordinate falls into is at most half a cell away from the
/// coordinate, and so within one cell size of it.
pub proof fn lemma_round_trip_within_cell(coord: int)
    requires
        WORLD_MIN <= coord <= WORLD_MAX,
    ensures
        0 <= cell_of(coord) < GRID_SIZE,
        -(CELL_SIZE / 2) <= center_of(cell_of(coord)) - coord <= CELL_SIZE / 2,
        -CELL_SIZE <= center_of(cell_of(coord)) - coord <= CELL_SIZE,
{
}

} // verus!

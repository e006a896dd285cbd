//! The flow field: a direction on every cell from which a structure can be
//! reached, pointing one step along a shortest way to the nearest one.
//!
//! The field is the outcome of a propagation.  Cells are *offered* a
//! direction one after the other; a cell takes the first direction it is
//! offered, provided it is inside the grid and not occupied, and joins a
//! queue.  First the cells around each structure are offered the direction
//! into the structure.  Then each queued cell, in turn, offers its four
//! neighbours the direction back to itself.
use vstd::prelude::*;
use std::collections::VecDeque;
use crate::building::{Building, BuildingRegistry};
use crate::coords::{in_grid, GRID_SIZE};
use crate::direction::Direction;
use crate::grid::{field_wf, occupancy_matches, without_directions, GridMap, GridSpace};
use crate::nearest::{
    leads_to_nearest, lemma_flow_field_leads_to_nearest, lemma_rebuild_is_identical,
    same_occupancy,
};

verus! {

/// A moment of the propagation: the field so far, and the cells that have
/// taken a direction and have not yet made their offers, oldest first.
pub struct Spread {
    pub field: Seq<Seq<GridSpace>>,
    pub queue: Seq<(usize, usize)>,
}

/// Whether cell `(x, y)` can still take a direction.
pub open spec fn is_free(field: Seq<Seq<GridSpace>>, x: int, y: int) -> bool {
    in_grid(x, y) && field[x][y].building is None && field[x][y].direction is None
}

/// The unoccupied cell that points in `direction`.
pub open spec fn pointing(direction: Direction) -> GridSpace {
    GridSpace { building: None, direction: Some(direction) }
}

/// Offers `direction` to cell `(x, y)`.
pub open spec fn offer(s: Spread, x: int, y: int, direction: Direction) -> Spread {
    if is_free(s.field, x, y) {
        Spread {
            field: s.field.update(x, s.field[x].update(y, pointing(direction))),
            queue: s.queue.push((x as usize, y as usize)),
        }
    } else {
        s
    }
}

/// Offers `direction` to the cells `(x, y)`, `(x, y + 1)`, ... in this
/// order, `count` of them.
pub open spec fn offer_column(s: Spread, x: int, y: int, count: nat, direction: Direction) -> Spread
    decreases count,
{
    if count == 0 {
        s
    } else {
        offer(offer_column(s, x, y, (count - 1) as nat, direction), x, y + count - 1, direction)
    }
}

/// Offers `direction` to the cells `(x, y)`, `(x + 1, y)`, ... in this
/// order, `count` of them.
pub open spec fn offer_row(s: Spread, x: int, y: int, count: nat, direction: Direction) -> Spread
    decreases count,
{
    if count == 0 {
        s
    } else {
        offer(offer_row(s, x, y, (count - 1) as nat, direction), x + count - 1, y, direction)
    }
}

/// Offers the cells around the footprint of `building` the direction into
/// it: the column to its left, the row below it, the column to its right,
/// the row above it.
pub open spec fn seed_building(s: Spread, building: Building) -> Spread {
    if building.width == 0 || building.height == 0 {
        s
    } else {
        let x = building.bottom_left.0 as int;
        let y = building.bottom_left.1 as int;
        let w = building.width as nat;
        let h = building.height as nat;
        let left = offer_column(s, x - 1, y, h, Direction::Right);
        let bottom = offer_row(left, x, y - 1, w, Direction::Up);
        let right = offer_column(bottom, x + w, y, h, Direction::Left);
        offer_row(right, x, y + h, w, Direction::Down)
    }
}

/// Seeds the structures of `entries` in their order.
pub open spec fn seed_all(s: Spread, entries: Seq<(u32, Building)>) -> Spread
    decreases entries.len(),
{
    if entries.len() == 0 {
        s
    } else {
        seed_building(seed_all(s, entries.drop_last()), entries.last().1)
    }
}

/// Cell `(x, y)` offers its neighbours the direction back to itself: the
/// neighbour above, then the one to the left, the one to the right, the one
/// below.
pub open spec fn visit(s: Spread, x: int, y: int) -> Spread {
    let up = offer(s, x, y + 1, Direction::Down);
    let left = offer(up, x - 1, y, Direction::Right);
    let right = offer(left, x + 1, y, Direction::Left);
    offer(right, x, y - 1, Direction::Up)
}

/// Number of cells of `row` that can still take a direction.
pub open spec fn free_in_row(row: Seq<GridSpace>) -> nat
    decreases row.len(),
{
    if row.len() == 0 {
        0
    } else {
        free_in_row(row.drop_last()) + if row.last().building is None && row.last().direction
            is None {
            1nat
        } else {
            0nat
        }
    }
}

/// Number of cells of `field` that can still take a direction.
pub open spec fn free_count(field: Seq<Seq<GridSpace>>) -> nat
    decreases field.len(),
{
    if field.len() == 0 {
        0
    } else {
        free_count(field.drop_last()) + free_in_row(field.last())
    }
}

/// Lets the queued cells make their offers, oldest first, until none waits.
pub open spec fn spread(s: Spread) -> Seq<Seq<GridSpace>>
    decreases free_count(s.field), s.queue.len(),
    when field_wf(s.field)
    via spread_decreases
{
    if s.queue.len() == 0 {
        s.field
    } else {
        let head = s.queue[0];
        spread(
            visit(
                Spread { field: s.field, queue: s.queue.drop_first() },
                head.0 as int,
                head.1 as int,
            ),
        )
    }
}

/// The flow field for the occupancy of `field` and the structures
/// `entries`: every direction of `field` is dropped, the structures are
/// seeded in their order, and the queue is run until it is empty.
pub open spec fn flow_field(field: Seq<Seq<GridSpace>>, entries: Seq<(u32, Building)>) -> Seq<
    Seq<GridSpace>,
> {
    spread(
        seed_all(
            Spread { field: without_directions(field), queue: Seq::<(usize, usize)>::empty() },
            entries,
        ),
    )
}

/// A cell of a row that stops being free makes the row's count one less.
proof fn lemma_free_in_row_update(row: Seq<GridSpace>, y: int, cell: GridSpace)
    requires
        0 <= y < row.len(),
        row[y].building is None && row[y].direction is None,
        !(cell.building is None && cell.direction is None),
    ensures
        free_in_row(row.update(y, cell)) + 1 == free_in_row(row),
    decreases row.len(),
{
    let changed = row.update(y, cell);
    if y == row.len() - 1 {
        assert(changed.drop_last() =~= row.drop_last());
    } else {
        assert(changed.drop_last() =~= row.drop_last().update(y, cell));
        lemma_free_in_row_update(row.drop_last(), y, cell);
    }
}

/// A row that has one free cell less makes the field's count one less.
proof fn lemma_free_count_update(field: Seq<Seq<GridSpace>>, x: int, row: Seq<GridSpace>)
    requires
        0 <= x < field.len(),
        free_in_row(row) + 1 == free_in_row(field[x]),
    ensures
        free_count(field.update(x, row)) + 1 == free_count(field),
    decreases field.len(),
{
    let changed = field.update(x, row);
    if x == field.len() - 1 {
        assert(changed.drop_last() =~= field.drop_last());
    } else {
        assert(changed.drop_last() =~= field.drop_last().update(x, row));
        lemma_free_count_update(field.drop_last(), x, row);
    }
}

/// An offer keeps the field well formed, and either leaves the propagation
/// as it is or uses up a free cell and lengthens the queue by one.
pub proof fn lemma_offer_effect(s: Spread, x: int, y: int, direction: Direction)
    requires
        field_wf(s.field),
    ensures
        field_wf(offer(s, x, y, direction).field),
        offer(s, x, y, direction) == s || (free_count(offer(s, x, y, direction).field) + 1
            == free_count(s.field) && offer(s, x, y, direction).queue.len() == s.queue.len() + 1),
        free_count(offer(s, x, y, direction).field) <= free_count(s.field),
        offer(s, x, y, direction).queue.len() >= s.queue.len(),
{
    if is_free(s.field, x, y) {
        lemma_free_in_row_update(s.field[x], y, pointing(direction));
        lemma_free_count_update(s.field, x, s.field[x].update(y, pointing(direction)));
    }
}

/// A visit keeps the field well formed, and either leaves the propagation
/// as it is or uses up a free cell.
pub proof fn lemma_visit_effect(s: Spread, x: int, y: int)
    requires
        field_wf(s.field),
    ensures
        field_wf(visit(s, x, y).field),
        visit(s, x, y) == s || free_count(visit(s, x, y).field) < free_count(s.field),
{
    let up = offer(s, x, y + 1, Direction::Down);
    let left = offer(up, x - 1, y, Direction::Right);
    let right = offer(left, x + 1, y, Direction::Left);
    lemma_offer_effect(s, x, y + 1, Direction::Down);
    lemma_offer_effect(up, x - 1, y, Direction::Right);
    lemma_offer_effect(left, x + 1, y, Direction::Left);
    lemma_offer_effect(right, x, y - 1, Direction::Up);
}

/// Each round of `spread` uses up a free cell or shortens the queue.
#[via_fn]
proof fn spread_decreases(s: Spread) {
    if s.queue.len() != 0 {
        let head = s.queue[0];
        lemma_visit_effect(
            Spread { field: s.field, queue: s.queue.drop_first() },
            head.0 as int,
            head.1 as int,
        );
    }
}

/// Whether every cell of `queue` lies inside the grid.
pub open spec fn queue_in_grid(queue: Seq<(usize, usize)>) -> bool {
    forall|i: int| 0 <= i < queue.len() ==> in_grid((#[trigger] queue[i]).0 as int, queue[i].1 as int)
}

impl GridMap {
    /// Offers `direction` to cell `(x, y)`, which may lie outside the grid.
    fn offer(
        &mut self,
        queue: &mut VecDeque<(usize, usize)>,
        x: i64,
        y: i64,
        direction: Direction,
    )
        requires
            old(self).wf(),
            queue_in_grid(old(queue)@),
        ensures
            final(self).wf(),
            queue_in_grid(final(queue)@),
            (Spread { field: final(self)@, queue: final(queue)@ }) == offer(
                Spread { field: old(self)@, queue: old(queue)@ },
                x as int,
                y as int,
                direction,
            ),
    {
        if 0 <= x && x < GRID_SIZE as i64 && 0 <= y && y < GRID_SIZE as i64 {
            let cell = self.cell_at(x as usize, y as usize);
            if cell.building.is_none() && cell.direction.is_none() {
                self.put(x as usize, y as usize, GridSpace { building: None, direction: Some(direction) });
                queue.push_back((x as usize, y as usize));
            }
        }
    }

    /// Offers `direction` to `count` cells of column `x`, from row `y` upwards.
    fn offer_column(
        &mut self,
        queue: &mut VecDeque<(usize, usize)>,
        x: i64,
        y: i64,
        count: usize,
        direction: Direction,
    )
        requires
            old(self).wf(),
            queue_in_grid(old(queue)@),
            -1 <= y <= GRID_SIZE,
            count <= GRID_SIZE,
        ensures
            final(self).wf(),
            queue_in_grid(final(queue)@),
            (Spread { field: final(self)@, queue: final(queue)@ }) == offer_column(
                Spread { field: old(self)@, queue: old(queue)@ },
                x as int,
                y as int,
                count as nat,
                direction,
            ),
    {
        let mut done: usize = 0;
        while done < count
            invariant
                done <= count <= GRID_SIZE,
                -1 <= y <= GRID_SIZE,
                self.wf(),
                queue_in_grid(queue@),
                (Spread { field: self@, queue: queue@ }) == offer_column(
                    Spread { field: old(self)@, queue: old(queue)@ },
                    x as int,
                    y as int,
                    done as nat,
                    direction,
                ),
            decreases count - done,
        {
            self.offer(queue, x, y + done as i64, direction);
            done += 1;
        }
    }

    /// Offers `direction` to `count` cells of row `y`, from column `x` to the right.
    fn offer_row(
        &mut self,
        queue: &mut VecDeque<(usize, usize)>,
        x: i64,
        y: i64,
        count: usize,
        direction: Direction,
    )
        requires
            old(self).wf(),
            queue_in_grid(old(queue)@),
            -1 <= x <= GRID_SIZE,
            count <= GRID_SIZE,
        ensures
            final(self).wf(),
            queue_in_grid(final(queue)@),
            (Spread { field: final(self)@, queue: final(queue)@ }) == offer_row(
                Spread { field: old(self)@, queue: old(queue)@ },
                x as int,
                y as int,
                count as nat,
                direction,
            ),
    {
        let mut done: usize = 0;
        while done < count
            invariant
                done <= count <= GRID_SIZE,
                -1 <= x <= GRID_SIZE,
                self.wf(),
                queue_in_grid(queue@),
                (Spread { field: self@, queue: queue@ }) == offer_row(
                    Spread { field: old(self)@, queue: old(queue)@ },
                    x as int,
                    y as int,
                    done as nat,
                    direction,
                ),
            decreases count - done,
        {
            self.offer(queue, x + done as i64, y, direction);
            done += 1;
        }
    }

    /// Offers the cells around the footprint of `building` the direction
    /// into it.
    fn seed_building(&mut self, queue: &mut VecDeque<(usize, usize)>, building: &Building)
        requires
            old(self).wf(),
            queue_in_grid(old(queue)@),
            building.fits(),
        ensures
            final(self).wf(),
            queue_in_grid(final(queue)@),
            (Spread { field: final(self)@, queue: final(queue)@ }) == seed_building(
                Spread { field: old(self)@, queue: old(queue)@ },
                *building,
            ),
    {
        if building.width == 0 || building.height == 0 {
            return ;
        }
        let x = building.bottom_left.0 as i64;
        let y = building.bottom_left.1 as i64;
        let w = building.width;
        let h = building.height;
        self.offer_column(queue, x - 1, y, h, Direction::Right);
        self.offer_row(queue, x, y - 1, w, Direction::Up);
        self.offer_column(queue, x + w as i64, y, h, Direction::Left);
        self.offer_row(queue, x, y + h as i64, w, Direction::Down);
    }

    /// Cell `cell` offers its four neighbours the direction back to itself.
    fn visit(&mut self, queue: &mut VecDeque<(usize, usize)>, cell: (usize, usize))
        requires
            old(self).wf(),
            queue_in_grid(old(queue)@),
            in_grid(cell.0 as int, cell.1 as int),
        ensures
            final(self).wf(),
            queue_in_grid(final(queue)@),
            (Spread { field: final(self)@, queue: final(queue)@ }) == visit(
                Spread { field: old(self)@, queue: old(queue)@ },
                cell.0 as int,
                cell.1 as int,
            ),
    {
        let x = cell.0 as i64;
        let y = cell.1 as i64;
        self.offer(queue, x, y + 1, Direction::Down);
        self.offer(queue, x - 1, y, Direction::Right);
        self.offer(queue, x + 1, y, Direction::Left);
        self.offer(queue, x, y - 1, Direction::Up);
    }

    /// Builds the flow field for the structures `buildings`, whose
    /// footprints are the occupied cells of this grid.  Directions that the
    /// grid held before are dropped.  Afterwards a cell carries a direction
    /// exactly if a structure can be reached from it, and the direction is
    /// the first step of a shortest way to the nearest one; where several
    /// ways are shortest, the order of the structures and of the offers
    /// decides.
    pub fn build_flow_path(&mut self, buildings: &BuildingRegistry)
        requires
            old(self).wf(),
            occupancy_matches(old(self)@, buildings@),
        ensures
            final(self).wf(),
            final(self)@ == flow_field(old(self)@, buildings@),
            same_occupancy(final(self)@, old(self)@),
            occupancy_matches(final(self)@, buildings@),
            leads_to_nearest(final(self)@),
    {
        proof {
            lemma_flow_field_leads_to_nearest(old(self)@, buildings@);
            lemma_rebuild_is_identical(old(self)@, buildings@);
        }
        self.clear_directions();
        let mut spread_queue: VecDeque<(usize, usize)> = VecDeque::new();
        let ghost start = Spread { field: self@, queue: spread_queue@ };
        let mut index: usize = 0;
        assert(buildings@.take(0) =~= Seq::<(u32, Building)>::empty());
        while index < buildings.len()
            invariant
                index <= buildings@.len(),
                self.wf(),
                queue_in_grid(spread_queue@),
                forall|i: int| 0 <= i < buildings@.len() ==> (#[trigger] buildings@[i]).1.fits(),
                (Spread { field: self@, queue: spread_queue@ }) == seed_all(
                    start,
                    buildings@.take(index as int),
                ),
            decreases buildings@.len() - index,
        {
            let (_, building) = buildings.entry(index);
            proof {
                let next = buildings@.take(index + 1);
                assert(next.drop_last() =~= buildings@.take(index as int));
                assert(next.last() == buildings@[index as int]);
            }
            self.seed_building(&mut spread_queue, &building);
            index += 1;
        }
        assert(buildings@.take(index as int) =~= buildings@);
        let ghost seeded = Spread { field: self@, queue: spread_queue@ };
        while spread_queue.len() > 0
            invariant
                self.wf(),
                field_wf(seeded.field),
                queue_in_grid(spread_queue@),
                spread(Spread { field: self@, queue: spread_queue@ }) == spread(seeded),
            decreases free_count(self@), spread_queue@.len(),
        {
            let ghost before = Spread { field: self@, queue: spread_queue@ };
            match spread_queue.pop_front() {
                Some(cell) => {
                    assert(spread_queue@ =~= before.queue.drop_first());
                    proof {
                        lemma_visit_effect(
                            Spread { field: self@, queue: spread_queue@ },
                            cell.0 as int,
                            cell.1 as int,
                        );
                    }
                    self.visit(&mut spread_queue, cell);
                },
                None => {},
            }
        }
    }
}

} // verus!

//! The cell grid: which structure occupies a cell, and which way the flow
//! field points there.
use vstd::prelude::*;
use crate::building::{Building, BuildingRegistry, BuildingType, PlacementError};
use crate::coords::{axis_to_cell, cell_of, cell_to_axis, center_of, in_grid, GRID_SIZE};
use crate::direction::Direction;

verus! {

/// The mark that a structure leaves on each cell of its footprint.
#[derive(Clone, Copy, Debug, PartialEq, Eq, Structural)]
pub struct BuildingGridInfo {
    pub id: u32,
    pub typ: BuildingType,
}

/// One cell.  A cell that a structure occupies carries no direction.
#[derive(Clone, Copy, Debug, PartialEq, Eq, Structural)]
pub struct GridSpace {
    pub building: Option<BuildingGridInfo>,
    pub direction: Option<Direction>,
}

/// Whether `field` has the extent of the grid and no occupied cell carries a
/// direction.
pub open spec fn field_wf(field: Seq<Seq<GridSpace>>) -> bool {
    &&& field.len() == GRID_SIZE
    &&& forall|x: int| 0 <= x < GRID_SIZE ==> (#[trigger] field[x]).len() == GRID_SIZE
    &&& forall|x: int, y: int|
        in_grid(x, y) && (#[trigger] field[x][y]).building is Some ==> field[x][y].direction
            is None
}

/// The cell without structure and without direction.
pub open spec fn empty_space() -> GridSpace {
    GridSpace { building: None, direction: None }
}

/// The field of empty cells.
pub open spec fn empty_field() -> Seq<Seq<GridSpace>> {
    Seq::new(GRID_SIZE as nat, |x: int| Seq::new(GRID_SIZE as nat, |y: int| empty_space()))
}

/// `field` with every direction taken away.
pub open spec fn without_directions(field: Seq<Seq<GridSpace>>) -> Seq<Seq<GridSpace>> {
    Seq::new(
        GRID_SIZE as nat,
        |x: int|
            Seq::new(
                GRID_SIZE as nat,
                |y: int| GridSpace { building: field[x][y].building, direction: None },
            ),
    )
}

/// `field` with the footprint of `building` marked as occupied by `id`.
pub open spec fn with_building(field: Seq<Seq<GridSpace>>, id: u32, building: Building) -> Seq<
    Seq<GridSpace>,
> {
    Seq::new(
        GRID_SIZE as nat,
        |x: int|
            Seq::new(
                GRID_SIZE as nat,
                |y: int|
                    if building.covers(x, y) {
                        GridSpace {
                            building: Some(BuildingGridInfo { id, typ: building.building_type }),
                            direction: None,
                        }
                    } else {
                        field[x][y]
                    },
            ),
    )
}

/// `field` with every cell that `id` occupies made empty.
pub open spec fn without_building(field: Seq<Seq<GridSpace>>, id: u32) -> Seq<Seq<GridSpace>> {
    Seq::new(
        GRID_SIZE as nat,
        |x: int|
            Seq::new(
                GRID_SIZE as nat,
                |y: int|
                    if field[x][y].building matches Some(info) && info.id == id {
                        empty_space()
                    } else {
                        field[x][y]
                    },
            ),
    )
}

/// Whether no cell of the footprint of `building` is occupied in `field`.
pub open spec fn footprint_free(field: Seq<Seq<GridSpace>>, building: Building) -> bool {
    forall|x: int, y: int|
        in_grid(x, y) && building.covers(x, y) ==> (#[trigger] field[x][y]).building is None
}

/// Why `building` cannot be placed on `field`, if it cannot.
pub open spec fn placement_error(field: Seq<Seq<GridSpace>>, building: Building) -> Option<
    PlacementError,
> {
    if !building.fits() {
        Some(PlacementError::OutOfBounds)
    } else if !footprint_free(field, building) {
        Some(PlacementError::Overlap)
    } else {
        None
    }
}

/// The field that results from placing `entries` one after the other on the
/// empty field, or the reason why the first structure that cannot be placed
/// is refused.
pub open spec fn place_all(entries: Seq<(u32, Building)>) -> Result<
    Seq<Seq<GridSpace>>,
    PlacementError,
>
    decreases entries.len(),
{
    if entries.len() == 0 {
        Ok(empty_field())
    } else {
        match place_all(entries.drop_last()) {
            Err(error) => Err(error),
            Ok(field) => match placement_error(field, entries.last().1) {
                Some(error) => Err(error),
                None => Ok(with_building(field, entries.last().0, entries.last().1)),
            },
        }
    }
}

/// Whether the occupied cells of `field` are exactly the footprints of
/// `entries`, each cell marked with the identifier and kind of the structure
/// that covers it, and every footprint lies inside the grid.
pub open spec fn occupancy_matches(field: Seq<Seq<GridSpace>>, entries: Seq<(u32, Building)>) -> bool {
    &&& forall|i: int| 0 <= i < entries.len() ==> (#[trigger] entries[i]).1.fits()
    &&& forall|i: int, x: int, y: int|
        0 <= i < entries.len() && in_grid(x, y) && (#[trigger] entries[i]).1.covers(x, y) ==> (
        #[trigger] field[x][y]).building == Some(
            BuildingGridInfo { id: entries[i].0, typ: entries[i].1.building_type },
        )
    &&& forall|x: int, y: int|
        in_grid(x, y) && (#[trigger] field[x][y]).building is Some ==> exists|i: int|
            0 <= i < entries.len() && (#[trigger] entries[i]).1.covers(x, y)
}

/// The grid of cells.
pub struct GridMap {
    map: Vec<Vec<GridSpace>>,
}

impl View for GridMap {
    type V = Seq<Seq<GridSpace>>;

    closed spec fn view(&self) -> Seq<Seq<GridSpace>> {
        Seq::new(self.map@.len(), |x: int| self.map@[x]@)
    }
}

impl GridMap {
    /// The grid's invariant.
    pub open spec fn wf(&self) -> bool {
        field_wf(self@)
    }

    /// A grid of empty cells.
    pub fn empty() -> (grid: GridMap)
        ensures
            grid.wf(),
            grid@ == empty_field(),
    {
        let mut map: Vec<Vec<GridSpace>> = Vec::new();
        let mut x: usize = 0;
        while x < GRID_SIZE
            invariant
                x <= GRID_SIZE,
                map@.len() == x,
                forall|i: int| 0 <= i < x ==> (#[trigger] map@[i])@ == empty_field()[i],
            decreases GRID_SIZE - x,
        {
            let mut row: Vec<GridSpace> = Vec::new();
            let mut y: usize = 0;
            while y < GRID_SIZE
                invariant
                    y <= GRID_SIZE,
                    row@.len() == y,
                    forall|j: int| 0 <= j < y ==> #[trigger] row@[j] == empty_space(),
                decreases GRID_SIZE - y,
            {
                row.push(GridSpace { building: None, direction: None });
                y += 1;
            }
            assert(row@ =~= empty_field()[x as int]);
            map.push(row);
            x += 1;
        }
        let grid = GridMap { map };
        assert(grid@ =~= empty_field());
        grid
    }

    /// The cell at column `x`, row `y`.
    pub fn cell_at(&self, x: usize, y: usize) -> (cell: GridSpace)
        requires
            self.wf(),
            in_grid(x as int, y as int),
        ensures
            cell == self@[x as int][y as int],
    {
        assert(self@[x as int] == self.map@[x as int]@);
        self.map[x][y]
    }

    /// Overwrites the cell at column `x`, row `y`.
    pub(crate) fn put(&mut self, x: usize, y: usize, cell: GridSpace)
        requires
            old(self).wf(),
            in_grid(x as int, y as int),
            cell.building is Some ==> cell.direction is None,
        ensures
            final(self).wf(),
            final(self)@ == old(self)@.update(x as int, old(self)@[x as int].update(y as int, cell)),
    {
        assert(self@[x as int] == self.map@[x as int]@);
        self.map[x][y] = cell;
        assert(self@ =~~= old(self)@.update(
            x as int,
            old(self)@[x as int].update(y as int, cell),
        ));
    }

    /// Takes every direction off the grid.
    pub fn clear_directions(&mut self)
        requires
            old(self).wf(),
        ensures
            final(self).wf(),
            final(self)@ == without_directions(old(self)@),
    {
        let mut x: usize = 0;
        while x < GRID_SIZE
            invariant
                x <= GRID_SIZE,
                self.wf(),
                old(self).wf(),
                forall|i: int, j: int|
                    0 <= i < x && 0 <= j < GRID_SIZE ==> #[trigger] self@[i][j]
                        == without_directions(old(self)@)[i][j],
                forall|i: int| x <= i < GRID_SIZE ==> #[trigger] self@[i] == old(self)@[i],
            decreases GRID_SIZE - x,
        {
            let mut y: usize = 0;
            while y < GRID_SIZE
                invariant
                    x < GRID_SIZE,
                    y <= GRID_SIZE,
                    self.wf(),
                    old(self).wf(),
                    forall|i: int, j: int|
                        0 <= i < x && 0 <= j < GRID_SIZE ==> #[trigger] self@[i][j]
                            == without_directions(old(self)@)[i][j],
                    forall|i: int| x < i < GRID_SIZE ==> #[trigger] self@[i] == old(self)@[i],
                    forall|j: int|
                        0 <= j < y ==> #[trigger] self@[x as int][j] == without_directions(
                            old(self)@,
                        )[x as int][j],
                    forall|j: int|
                        y <= j < GRID_SIZE ==> #[trigger] self@[x as int][j] == old(
                            self,
                        )@[x as int][j],
                decreases GRID_SIZE - y,
            {
                let cell = self.cell_at(x, y);
                self.put(x, y, GridSpace { building: cell.building, direction: None });
                y += 1;
            }
            x += 1;
        }
        assert(self@ =~~= without_directions(old(self)@));
    }

    /// Whether no cell of the footprint of `building`, which lies inside the
    /// grid, is occupied.
    fn footprint_is_free(&self, building: &Building) -> (free: bool)
        requires
            self.wf(),
            building.fits(),
        ensures
            free == footprint_free(self@, *building),
    {
        let x_end = building.bottom_left.0 + building.width;
        let y_end = building.bottom_left.1 + building.height;
        let mut x: usize = building.bottom_left.0;
        while x < x_end
            invariant
                building.bottom_left.0 <= x <= x_end,
                x_end == building.bottom_left.0 + building.width,
                y_end == building.bottom_left.1 + building.height,
                building.fits(),
                self.wf(),
                forall|i: int, j: int|
                    in_grid(i, j) && building.covers(i, j) && i < x ==> (#[trigger] self@[i][j]).building
                        is None,
            decreases x_end - x,
        {
            let mut y: usize = building.bottom_left.1;
            while y < y_end
                invariant
                    building.bottom_left.0 <= x < x_end,
                    building.bottom_left.1 <= y <= y_end,
                    x_end == building.bottom_left.0 + building.width,
                    y_end == building.bottom_left.1 + building.height,
                    building.fits(),
                    self.wf(),
                    forall|i: int, j: int|
                        in_grid(i, j) && building.covers(i, j) && i < x ==> (
                        #[trigger] self@[i][j]).building is None,
                    forall|j: int|
                        building.bottom_left.1 <= j < y ==> (#[trigger] self@[x as int][j]).building
                            is None,
                decreases y_end - y,
            {
                if self.cell_at(x, y).building.is_some() {
                    assert(building.covers(x as int, y as int));
                    return false;
                }
                y += 1;
            }
            x += 1;
        }
        true
    }

    /// Marks the footprint of `building`, which lies inside the grid, as
    /// occupied by `id`.
    fn mark_footprint(&mut self, id: u32, building: &Building)
        requires
            old(self).wf(),
            building.fits(),
        ensures
            final(self).wf(),
            final(self)@ == with_building(old(self)@, id, *building),
    {
        let x_end = building.bottom_left.0 + building.width;
        let y_end = building.bottom_left.1 + building.height;
        let mark = GridSpace {
            building: Some(BuildingGridInfo { id, typ: building.building_type }),
            direction: None,
        };
        let mut x: usize = building.bottom_left.0;
        while x < x_end
            invariant
                building.bottom_left.0 <= x <= x_end,
                x_end == building.bottom_left.0 + building.width,
                y_end == building.bottom_left.1 + building.height,
                building.fits(),
                self.wf(),
                old(self).wf(),
                mark == (GridSpace {
                    building: Some(BuildingGridInfo { id, typ: building.building_type }),
                    direction: None,
                }),
                forall|i: int, j: int|
                    in_grid(i, j) ==> #[trigger] self@[i][j] == (if building.covers(i, j) && i
                        < x {
                        mark
                    } else {
                        old(self)@[i][j]
                    }),
            decreases x_end - x,
        {
            let mut y: usize = building.bottom_left.1;
            while y < y_end
                invariant
                    building.bottom_left.0 <= x < x_end,
                    building.bottom_left.1 <= y <= y_end,
                    x_end == building.bottom_left.0 + building.width,
                    y_end == building.bottom_left.1 + building.height,
                    building.fits(),
                    self.wf(),
                    old(self).wf(),
                    mark == (GridSpace {
                        building: Some(BuildingGridInfo { id, typ: building.building_type }),
                        direction: None,
                    }),
                    forall|i: int, j: int|
                        in_grid(i, j) ==> #[trigger] self@[i][j] == (if building.covers(i, j) && (i
                            < x || (i == x && j < y)) {
                            mark
                        } else {
                            old(self)@[i][j]
                        }),
                decreases y_end - y,
            {
                self.put(x, y, mark);
                y += 1;
            }
            x += 1;
        }
        assert(self@ =~~= with_building(old(self)@, id, *building));
    }

    /// Places `building` under `id`: marks its footprint as occupied and
    /// takes every direction off the grid, since the flow field no longer
    /// holds.  A structure whose footprint reaches outside the grid or covers
    /// an occupied cell is refused, and the grid stays as it was.
    pub fn add_building(&mut self, building_id: u32, building: Building) -> (placed: Result<
        (),
        PlacementError,
    >)
        requires
            old(self).wf(),
        ensures
            final(self).wf(),
            match placed {
                Ok(()) => {
                    &&& placement_error(old(self)@, building) is None
                    &&& final(self)@ == with_building(
                        without_directions(old(self)@),
                        building_id,
                        building,
                    )
                },
                Err(error) => {
                    &&& placement_error(old(self)@, building) == Some(error)
                    &&& final(self)@ == old(self)@
                },
            },
    {
        if !building.fits_in_grid() {
            return Err(PlacementError::OutOfBounds);
        }
        if !self.footprint_is_free(&building) {
            return Err(PlacementError::Overlap);
        }
        self.clear_directions();
        self.mark_footprint(building_id, &building);
        Ok(())
    }

    /// Takes the structure with identifier `building_id` off the grid: every
    /// cell that it occupies becomes empty, and every direction is taken off
    /// the grid, since the flow field no longer holds.
    pub fn remove_building(&mut self, building_id: u32)
        requires
            old(self).wf(),
        ensures
            final(self).wf(),
            final(self)@ == without_building(without_directions(old(self)@), building_id),
    {
        let mut x: usize = 0;
        while x < GRID_SIZE
            invariant
                x <= GRID_SIZE,
                self.wf(),
                old(self).wf(),
                forall|i: int, j: int|
                    0 <= i < x && 0 <= j < GRID_SIZE ==> #[trigger] self@[i][j]
                        == without_building(without_directions(old(self)@), building_id)[i][j],
                forall|i: int| x <= i < GRID_SIZE ==> #[trigger] self@[i] == old(self)@[i],
            decreases GRID_SIZE - x,
        {
            let mut y: usize = 0;
            while y < GRID_SIZE
                invariant
                    x < GRID_SIZE,
                    y <= GRID_SIZE,
                    self.wf(),
                    old(self).wf(),
                    forall|i: int, j: int|
                        0 <= i < x && 0 <= j < GRID_SIZE ==> #[trigger] self@[i][j]
                            == without_building(without_directions(old(self)@), building_id)[i][j],
                    forall|i: int| x < i < GRID_SIZE ==> #[trigger] self@[i] == old(self)@[i],
                    forall|j: int|
                        0 <= j < y ==> #[trigger] self@[x as int][j] == without_building(
                            without_directions(old(self)@),
                            building_id,
                        )[x as int][j],
                    forall|j: int|
                        y <= j < GRID_SIZE ==> #[trigger] self@[x as int][j] == old(
                            self,
                        )@[x as int][j],
                decreases GRID_SIZE - y,
            {
                let cell = self.cell_at(x, y);
                let kept = match cell.building {
                    Some(info) => if info.id == building_id {
                        None
                    } else {
                        Some(info)
                    },
                    None => None,
                };
                self.put(x, y, GridSpace { building: kept, direction: None });
                y += 1;
            }
            x += 1;
        }
        assert(self@ =~~= without_building(without_directions(old(self)@), building_id));
    }

    /// The grid that holds the structures of `buildings`, placed in their
    /// order, and no direction.  Fails with the reason for which the first
    /// structure that cannot be placed is refused.
    pub fn new(buildings: &BuildingRegistry) -> (made: Result<GridMap, PlacementError>)
        ensures
            match made {
                Ok(grid) => grid.wf() && place_all(buildings@) == Ok::<_, PlacementError>(grid@),
                Err(error) => place_all(buildings@) == Err::<Seq<Seq<GridSpace>>, _>(error),
            },
    {
        let mut grid = GridMap::empty();
        assert(without_directions(grid@) =~~= grid@);
        let mut index: usize = 0;
        while index < buildings.len()
            invariant
                index <= buildings@.len(),
                grid.wf(),
                place_all(buildings@.take(index as int)) == Ok::<_, PlacementError>(grid@),
                without_directions(grid@) == grid@,
            decreases buildings@.len() - index,
        {
            let (id, building) = buildings.entry(index);
            proof {
                let next = buildings@.take(index + 1);
                assert(next.drop_last() =~= buildings@.take(index as int));
                assert(next.last() == buildings@[index as int]);
            }
            match grid.add_building(id, building) {
                Ok(()) => {},
                Err(error) => {
                    proof {
                        lemma_place_all_fails_on(buildings@, index + 1);
                    }
                    return Err(error);
                },
            }
            assert(without_directions(grid@) =~~= grid@);
            index += 1;
        }
        assert(buildings@.take(index as int) =~= buildings@);
        Ok(grid)
    }

    /// The cell that a world position falls into.  A position outside the
    /// battlefield is moved to the nearest edge cell.
    pub fn convert_position_to_grid_position(position: (i64, i64)) -> (cell: (usize, usize))
        ensures
            cell.0 == cell_of(position.0 as int),
            cell.1 == cell_of(position.1 as int),
            in_grid(cell.0 as int, cell.1 as int),
    {
        (axis_to_cell(position.0), axis_to_cell(position.1))
    }

    /// The world position of the middle of a cell.
    pub fn grid_to_world(cell: (usize, usize)) -> (position: (i64, i64))
        requires
            in_grid(cell.0 as int, cell.1 as int),
        ensures
            position.0 == center_of(cell.0 as int),
            position.1 == center_of(cell.1 as int),
            cell_of(position.0 as int) == cell.0,
            cell_of(position.1 as int) == cell.1,
    {
        (cell_to_axis(cell.0), cell_to_axis(cell.1))
    }
}

/// Once a prefix of `entries` cannot be placed, no longer prefix can, and the
/// reason stays the same.
pub proof fn lemma_place_all_fails_on(entries: Seq<(u32, Building)>, count: int)
    requires
        0 <= count <= entries.len(),
        place_all(entries.take(count)) is Err,
    ensures
        place_all(entries) == place_all(entries.take(count)),
    decreases entries.len() - count,
{
    if count == entries.len() {
        assert(entries.take(count) =~= entries);
    } else {
        let next = entries.take(count + 1);
        assert(next.drop_last() =~= entries.take(count));
        lemma_place_all_fails_on(entries, count + 1);
    }
}

/// Placing a structure that can be placed keeps the occupied cells in step
/// with the structures.
pub proof fn lemma_place_keeps_match(
    field: Seq<Seq<GridSpace>>,
    entries: Seq<(u32, Building)>,
    id: u32,
    building: Building,
)
    requires
        field_wf(field),
        occupancy_matches(field, entries),
        placement_error(field, building) is None,
    ensures
        field_wf(with_building(without_directions(field), id, building)),
        occupancy_matches(
            with_building(without_directions(field), id, building),
            entries.push((id, building)),
        ),
{
    let after = with_building(without_directions(field), id, building);
    let longer = entries.push((id, building));
    assert forall|i: int, x: int, y: int|
        0 <= i < longer.len() && in_grid(x, y) && (#[trigger] longer[i]).1.covers(x, y) implies (
    #[trigger] after[x][y]).building == Some(
        BuildingGridInfo { id: longer[i].0, typ: longer[i].1.building_type },
    ) by {
        if i < entries.len() {
            assert(longer[i] == entries[i]);
            assert(field[x][y].building is Some);
        }
    }
    assert forall|x: int, y: int|
        in_grid(x, y) && (#[trigger] after[x][y]).building is Some implies exists|i: int|
        0 <= i < longer.len() && (#[trigger] longer[i]).1.covers(x, y) by {
        if building.covers(x, y) {
            assert(longer[entries.len() as int].1.covers(x, y));
        } else {
            assert(field[x][y].building is Some);
            let i = choose|i: int| 0 <= i < entries.len() && (#[trigger] entries[i]).1.covers(x, y);
            assert(longer[i] == entries[i]);
        }
    }
    assert forall|i: int| 0 <= i < longer.len() implies (#[trigger] longer[i]).1.fits() by {
        if i < entries.len() {
            assert(longer[i] == entries[i]);
        }
    }
}

/// Taking a structure off keeps the occupied cells in step with the
/// structures that remain.
pub proof fn lemma_remove_keeps_match(
    field: Seq<Seq<GridSpace>>,
    entries: Seq<(u32, Building)>,
    index: int,
)
    requires
        field_wf(field),
        occupancy_matches(field, entries),
        crate::building::distinct_ids(entries),
        0 <= index < entries.len(),
    ensures
        field_wf(without_building(without_directions(field), entries[index].0)),
        occupancy_matches(
            without_building(without_directions(field), entries[index].0),
            entries.remove(index),
        ),
{
    let id = entries[index].0;
    let after = without_building(without_directions(field), id);
    let fewer = entries.remove(index);
    assert forall|i: int, x: int, y: int|
        0 <= i < fewer.len() && in_grid(x, y) && (#[trigger] fewer[i]).1.covers(x, y) implies (
    #[trigger] after[x][y]).building == Some(
        BuildingGridInfo { id: fewer[i].0, typ: fewer[i].1.building_type },
    ) by {
        let j = if i < index {
            i
        } else {
            i + 1
        };
        assert(fewer[i] == entries[j]);
        assert(entries[j].0 != entries[index].0);
        assert(field[x][y].building == Some(
            BuildingGridInfo { id: entries[j].0, typ: entries[j].1.building_type },
        ));
    }
    assert forall|x: int, y: int|
        in_grid(x, y) && (#[trigger] after[x][y]).building is Some implies exists|i: int|
        0 <= i < fewer.len() && (#[trigger] fewer[i]).1.covers(x, y) by {
        assert(field[x][y].building is Some);
        let j = choose|j: int| 0 <= j < entries.len() && (#[trigger] entries[j]).1.covers(x, y);
        assert(field[x][y].building == Some(
            BuildingGridInfo { id: entries[j].0, typ: entries[j].1.building_type },
        ));
        assert(j != index);
        let i = if j < index {
            j
        } else {
            j - 1
        };
        assert(fewer[i] == entries[j]);
    }
    assert forall|i: int| 0 <= i < fewer.len() implies (#[trigger] fewer[i]).1.fits() by {
        let j = if i < index {
            i
        } else {
            i + 1
        };
        assert(fewer[i] == entries[j]);
    }
}

/// Whether `a` and `b` hold the same structures as far as the grid is
/// concerned: the same identifiers, kinds and footprints, in the same order.
pub open spec fn same_footprints(a: Seq<(u32, Building)>, b: Seq<(u32, Building)>) -> bool {
    &&& a.len() == b.len()
    &&& forall|i: int|
        0 <= i < a.len() ==> {
            &&& (#[trigger] a[i]).0 == b[i].0
            &&& a[i].1.building_type == b[i].1.building_type
            &&& a[i].1.bottom_left == b[i].1.bottom_left
            &&& a[i].1.width == b[i].1.width
            &&& a[i].1.height == b[i].1.height
        }
}

/// Whether the occupied cells are in step with the structures depends on
/// identifiers, kinds and footprints alone.
pub proof fn lemma_match_by_footprints(
    field: Seq<Seq<GridSpace>>,
    a: Seq<(u32, Building)>,
    b: Seq<(u32, Building)>,
)
    requires
        occupancy_matches(field, a),
        same_footprints(a, b),
    ensures
        occupancy_matches(field, b),
{
    assert forall|i: int| 0 <= i < b.len() implies (#[trigger] b[i]).1.fits() by {
        assert(a[i].1.fits());
    }
    assert forall|i: int, x: int, y: int|
        0 <= i < b.len() && in_grid(x, y) && (#[trigger] b[i]).1.covers(x, y) implies (
    #[trigger] field[x][y]).building == Some(
        BuildingGridInfo { id: b[i].0, typ: b[i].1.building_type },
    ) by {
        assert(a[i].1.covers(x, y));
    }
    assert forall|x: int, y: int|
        in_grid(x, y) && (#[trigger] field[x][y]).building is Some implies exists|i: int|
        0 <= i < b.len() && (#[trigger] b[i]).1.covers(x, y) by {
        let i = choose|i: int| 0 <= i < a.len() && (#[trigger] a[i]).1.covers(x, y);
        assert(b[i].1.covers(x, y));
    }
}

/// The structures of a list that can be placed occupy the cells of the
/// field that placing them gives, which is well formed and without
/// directions.
pub proof fn lemma_place_all_matches(entries: Seq<(u32, Building)>)
    requires
        place_all(entries) is Ok,
    ensures
        field_wf(place_all(entries)->Ok_0),
        occupancy_matches(place_all(entries)->Ok_0, entries),
        without_directions(place_all(entries)->Ok_0) == place_all(entries)->Ok_0,
    decreases entries.len(),
{
    if entries.len() == 0 {
        assert(without_directions(empty_field()) =~~= empty_field());
    } else {
        let before = entries.drop_last();
        lemma_place_all_matches(before);
        let field = place_all(before)->Ok_0;
        lemma_place_keeps_match(field, before, entries.last().0, entries.last().1);
        assert(before.push((entries.last().0, entries.last().1)) =~= entries);
        let after = with_building(field, entries.last().0, entries.last().1);
        assert(without_directions(after) =~~= after);
    }
}

} // verus!

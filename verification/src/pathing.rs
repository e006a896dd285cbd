//! Routes for entities with a goal of their own: a shortest way over
//! walkable cells, in steps to any of the eight neighbours, from a cell to
//! an area.
use vstd::prelude::*;
use crate::coords::{in_grid, GRID_SIZE};
use crate::grid::{GridMap, GridSpace};
use crate::nearest::walkable;

verus! {

/// Half of `v`, rounded towards zero.
pub open spec fn half(v: int) -> int {
    if v >= 0 {
        v / 2
    } else {
        -((-v) / 2)
    }
}

/// The distance between `a` and `b`.
pub open spec fn gap(a: int, b: int) -> int {
    if a >= b {
        a - b
    } else {
        b - a
    }
}

/// A rectangular area of cells: a place to go to.  The area holds the cells
/// `(x, y)` with `bottom_left.0 <= x < bottom_left.0 + scale.0` and
/// `bottom_left.1 <= y < bottom_left.1 + scale.1`.
#[derive(Clone, Copy, Debug, PartialEq, Eq)]
pub struct Pos {
    pub bottom_left: (i32, i32),
    pub scale: (i32, i32),
    pub center: (i32, i32),
}

impl Pos {
    /// The area with the given corner and extent.  Its centre lies half the
    /// extent from the corner, rounded towards the corner.
    pub fn new(bottom_left: (i32, i32), scale: (i32, i32)) -> (pos: Pos)
        requires
            i32::MIN <= bottom_left.0 + half(scale.0 as int) <= i32::MAX,
            i32::MIN <= bottom_left.1 + half(scale.1 as int) <= i32::MAX,
        ensures
            pos.bottom_left == bottom_left,
            pos.scale == scale,
            pos.center.0 == bottom_left.0 + half(scale.0 as int),
            pos.center.1 == bottom_left.1 + half(scale.1 as int),
    {
        Pos {
            bottom_left,
            scale,
            center: (bottom_left.0 + (scale.0 / 2), bottom_left.1 + (scale.1 / 2)),
        }
    }

    /// The distance from `given_point` to the centre, counted in steps up,
    /// left, right and down.
    pub fn distance_to_center(&self, given_point: (i32, i32)) -> (distance: u32)
        requires
            gap(self.center.0 as int, given_point.0 as int) + gap(
                self.center.1 as int,
                given_point.1 as int,
            ) <= u32::MAX,
        ensures
            distance == gap(self.center.0 as int, given_point.0 as int) + gap(
                self.center.1 as int,
                given_point.1 as int,
            ),
    {
        let across = if self.center.0 >= given_point.0 {
            self.center.0 as i64 - given_point.0 as i64
        } else {
            given_point.0 as i64 - self.center.0 as i64
        };
        let along = if self.center.1 >= given_point.1 {
            self.center.1 as i64 - given_point.1 as i64
        } else {
            given_point.1 as i64 - self.center.1 as i64
        };
        (across + along) as u32
    }
}

/// Whether cell `(x, y)` lies in the area at `corner` with extent `scale`.
pub open spec fn in_area(corner: (i32, i32), scale: (i32, i32), x: int, y: int) -> bool {
    &&& corner.0 <= x < corner.0 + scale.0
    &&& corner.1 <= y < corner.1 + scale.1
}

/// Whether `a` and `b` are different cells at most one apart along each
/// axis: one step, straight or diagonal.
pub open spec fn one_step(a: (i32, i32), b: (i32, i32)) -> bool {
    &&& a != b
    &&& gap(a.0 as int, b.0 as int) <= 1
    &&& gap(a.1 as int, b.1 as int) <= 1
}

/// Whether `path` is a route on `field` from `start` to the area at
/// `corner` with extent `scale`: it begins at `start`, which lies inside the
/// grid, goes on in single steps over walkable cells, and ends in the area.
pub open spec fn is_route(
    field: Seq<Seq<GridSpace>>,
    start: (i32, i32),
    corner: (i32, i32),
    scale: (i32, i32),
    path: Seq<(i32, i32)>,
) -> bool {
    &&& path.len() > 0
    &&& path[0] == start
    &&& in_grid(start.0 as int, start.1 as int)
    &&& forall|i: int|
        0 < i < path.len() ==> walkable(field, (#[trigger] path[i]).0 as int, path[i].1 as int)
            && one_step(path[i - 1], path[i])
    &&& in_area(corner, scale, path.last().0 as int, path.last().1 as int)
}

/// Whether `path` is a route and no route is shorter.
pub open spec fn is_shortest_route(
    field: Seq<Seq<GridSpace>>,
    start: (i32, i32),
    corner: (i32, i32),
    scale: (i32, i32),
    path: Seq<(i32, i32)>,
) -> bool {
    &&& is_route(field, start, corner, scale, path)
    &&& forall|other: Seq<(i32, i32)>| #[trigger]
        is_route(field, start, corner, scale, other) ==> path.len() <= other.len()
}

/// Whether no route leads from `start` to the area.
pub open spec fn no_route(
    field: Seq<Seq<GridSpace>>,
    start: (i32, i32),
    corner: (i32, i32),
    scale: (i32, i32),
) -> bool {
    forall|other: Seq<(i32, i32)>| !#[trigger] is_route(field, start, corner, scale, other)
}

/// Whether `a` and `b` lie in the same walkable region: a chain of walkable
/// cells, each one step from the one before, leads from `a` to `b`.
pub open spec fn connected(field: Seq<Seq<GridSpace>>, a: (i32, i32), b: (i32, i32)) -> bool {
    exists|chain: Seq<(i32, i32)>| #[trigger] is_chain(field, a, b, chain)
}

/// Whether `chain` is a chain of walkable cells from `a` to `b`, each one
/// step from the one before.
pub open spec fn is_chain(
    field: Seq<Seq<GridSpace>>,
    a: (i32, i32),
    b: (i32, i32),
    chain: Seq<(i32, i32)>,
) -> bool {
    &&& chain.len() > 0
    &&& chain[0] == a
    &&& chain.last() == b
    &&& forall|i: int|
        0 <= i < chain.len() ==> walkable(field, (#[trigger] chain[i]).0 as int, chain[i].1 as int)
    &&& forall|i: int| 0 < i < chain.len() ==> one_step(chain[i - 1], #[trigger] chain[i])
}

/// How far `v` lies outside the interval of length `len` that begins at
/// `low`.
pub open spec fn axis_gap(low: int, len: int, v: int) -> int {
    if v < low {
        low - v
    } else if v >= low + len {
        v - (low + len - 1)
    } else {
        0
    }
}

/// The least number of steps, straight or diagonal, from cell `(x, y)` into
/// the area at `corner` with extent `scale`, were every cell walkable.
pub open spec fn steps_to_area(corner: (i32, i32), scale: (i32, i32), x: int, y: int) -> int {
    let across = axis_gap(corner.0 as int, scale.0 as int, x);
    let along = axis_gap(corner.1 as int, scale.1 as int, y);
    if across >= along {
        across
    } else {
        along
    }
}

/// `options` with cell `(x, y)` added at unit cost, if it is walkable.
pub open spec fn with_option(
    field: Seq<Seq<GridSpace>>,
    options: Seq<((i32, i32), u32)>,
    x: int,
    y: int,
) -> Seq<((i32, i32), u32)> {
    if walkable(field, x, y) {
        options.push(((x as i32, y as i32), 1u32))
    } else {
        options
    }
}

/// The walkable cells one step from `(x, y)`, each at unit cost: first those
/// to the right, from top to bottom, then the one above and the one below,
/// then those to the left, from top to bottom.
pub open spec fn moveable_options(field: Seq<Seq<GridSpace>>, x: int, y: int) -> Seq<
    ((i32, i32), u32),
> {
    let none = Seq::<((i32, i32), u32)>::empty();
    let a = with_option(field, none, x + 1, y + 1);
    let b = with_option(field, a, x + 1, y);
    let c = with_option(field, b, x + 1, y - 1);
    let d = with_option(field, c, x, y + 1);
    let e = with_option(field, d, x, y - 1);
    let f = with_option(field, e, x - 1, y + 1);
    let g = with_option(field, f, x - 1, y);
    with_option(field, g, x - 1, y - 1)
}

impl Pos {
    /// Whether the area holds at least one cell.
    pub open spec fn nonempty(self) -> bool {
        self.scale.0 > 0 && self.scale.1 > 0
    }

    /// Whether `cell` lies in the area.
    pub fn contains(&self, cell: (i32, i32)) -> (inside: bool)
        ensures
            inside == in_area(self.bottom_left, self.scale, cell.0 as int, cell.1 as int),
    {
        let x = cell.0 as i64;
        let y = cell.1 as i64;
        self.bottom_left.0 as i64 <= x && x < self.bottom_left.0 as i64 + self.scale.0 as i64
            && self.bottom_left.1 as i64 <= y && y < self.bottom_left.1 as i64
            + self.scale.1 as i64
    }

    /// The least number of steps, straight or diagonal, from `cell` into the
    /// area, which holds at least one cell, were every cell walkable.
    pub fn steps_to(&self, cell: (i32, i32)) -> (steps: u32)
        requires
            self.nonempty(),
        ensures
            steps == steps_to_area(self.bottom_left, self.scale, cell.0 as int, cell.1 as int),
    {
        let across = axis_steps(self.bottom_left.0, self.scale.0, cell.0);
        let along = axis_steps(self.bottom_left.1, self.scale.1, cell.1);
        if across >= along {
            across
        } else {
            along
        }
    }
}

/// How far `v` lies outside the interval of length `len` that begins at `low`.
fn axis_steps(low: i32, len: i32, v: i32) -> (steps: u32)
    requires
        len > 0,
    ensures
        steps == axis_gap(low as int, len as int, v as int),
{
    let last = low as i64 + len as i64 - 1;
    if v < low {
        (low as i64 - v as i64) as u32
    } else if v as i64 > last {
        (v as i64 - last) as u32
    } else {
        0
    }
}

impl GridMap {
    /// Whether cell `(x, y)` lies inside the grid and no structure occupies it.
    pub fn is_walkable(&self, x: i64, y: i64) -> (free: bool)
        requires
            self.wf(),
        ensures
            free == walkable(self@, x as int, y as int),
    {
        if 0 <= x && x < GRID_SIZE as i64 && 0 <= y && y < GRID_SIZE as i64 {
            self.cell_at(x as usize, y as usize).building.is_none()
        } else {
            false
        }
    }

    /// Adds cell `(x, y)` to `options` at unit cost, if it is walkable.
    fn add_option(&self, options: &mut Vec<((i32, i32), u32)>, x: i64, y: i64)
        requires
            self.wf(),
        ensures
            final(options)@ == with_option(self@, old(options)@, x as int, y as int),
    {
        if self.is_walkable(x, y) {
            options.push(((x as i32, y as i32), 1));
        }
    }

    /// The walkable cells one step, straight or diagonal, from `(x, y)`,
    /// each with the cost of the step, which is one.
    pub fn find_moveable_options(&self, x: i32, y: i32) -> (options: Vec<((i32, i32), u32)>)
        requires
            self.wf(),
        ensures
            options@ == moveable_options(self@, x as int, y as int),
    {
        let x = x as i64;
        let y = y as i64;
        let mut options: Vec<((i32, i32), u32)> = Vec::new();
        self.add_option(&mut options, x + 1, y + 1);
        self.add_option(&mut options, x + 1, y);
        self.add_option(&mut options, x + 1, y - 1);
        self.add_option(&mut options, x, y + 1);
        self.add_option(&mut options, x, y - 1);
        self.add_option(&mut options, x - 1, y + 1);
        self.add_option(&mut options, x - 1, y);
        self.add_option(&mut options, x - 1, y - 1);
        options
    }
}

/// Whether `path` is a way through the search graph from `start` into the
/// area: each cell is among the moveable options of the one before.
pub open spec fn is_search_path(
    field: Seq<Seq<GridSpace>>,
    start: (i32, i32),
    corner: (i32, i32),
    scale: (i32, i32),
    path: Seq<(i32, i32)>,
) -> bool {
    &&& path.len() > 0
    &&& path[0] == start
    &&& forall|i: int|
        0 < i < path.len() ==> moveable_options(
            field,
            path[i - 1].0 as int,
            path[i - 1].1 as int,
        ).contains((#[trigger] path[i], 1u32))
    &&& in_area(corner, scale, path.last().0 as int, path.last().1 as int)
}

/// Whether the estimate `steps_to_area` never exceeds the number of steps
/// of a way through the search graph into the area.
pub open spec fn estimate_is_admissible(
    field: Seq<Seq<GridSpace>>,
    corner: (i32, i32),
    scale: (i32, i32),
) -> bool {
    forall|from: (i32, i32), path: Seq<(i32, i32)>| #[trigger]
        is_search_path(field, from, corner, scale, path) ==> steps_to_area(
            corner,
            scale,
            from.0 as int,
            from.1 as int,
        ) <= path.len() - 1
}

/// What `pathfinding::directed::astar::astar` returns for a search on
/// `field` from `start` to the area at `corner` with extent `scale`: of the
/// shortest ways, the one that the search comes upon first, and its cost.
pub uninterp spec fn astar_result(
    field: Seq<Seq<GridSpace>>,
    start: (i32, i32),
    corner: (i32, i32),
    scale: (i32, i32),
) -> Option<(Seq<(i32, i32)>, u32)>;

/// A found way as a sequence of cells, with its cost.
pub open spec fn route_view(found: Option<(Vec<(i32, i32)>, u32)>) -> Option<
    (Seq<(i32, i32)>, u32),
> {
    match found {
        Some((path, cost)) => Some((path@, cost)),
        None => None,
    }
}

/// Runs `pathfinding::directed::astar::astar` from `start`, with the
/// moveable options of a cell as its successors, `Pos::steps_to` as the
/// estimate and `Pos::contains` as the test for success.
///
/// Trusted: the search graph is finite, since every moveable option lies
/// inside the grid, so the search ends.  It returns `None` exactly if no
/// way through the search graph leads from `start` into the area.
/// Otherwise it returns such a way, beginning with `start` and ending in the
/// area, together with its cost, which is the number of its steps, each step
/// costing one.  Since the estimate never exceeds the true number of steps,
/// no way is shorter than the one returned.  Costs and estimates stay far
/// below `u32::MAX`, since the area lies inside the grid.  The search
/// draws on nothing but its arguments, so the same grid, start and area
/// give the same way.
#[verifier::external_body]
fn astar_search(map: &GridMap, start: (i32, i32), goal: &Pos) -> (found: Option<
    (Vec<(i32, i32)>, u32),
>)
    requires
        map.wf(),
        in_grid(start.0 as int, start.1 as int),
        goal.nonempty(),
        0 <= goal.bottom_left.0 && goal.bottom_left.0 + goal.scale.0 <= GRID_SIZE,
        0 <= goal.bottom_left.1 && goal.bottom_left.1 + goal.scale.1 <= GRID_SIZE,
        estimate_is_admissible(map@, goal.bottom_left, goal.scale),
    ensures
        route_view(found) == astar_result(map@, start, goal.bottom_left, goal.scale),
        match found {
            Some((path, cost)) => {
                &&& is_search_path(map@, start, goal.bottom_left, goal.scale, path@)
                &&& cost == path@.len() - 1
                &&& forall|other: Seq<(i32, i32)>| #[trigger]
                    is_search_path(map@, start, goal.bottom_left, goal.scale, other)
                        ==> path@.len() <= other.len()
            },
            None => forall|other: Seq<(i32, i32)>| !#[trigger]
                is_search_path(map@, start, goal.bottom_left, goal.scale, other),
        },
{
    pathfinding::directed::astar::astar(
        &start,
        |cell: &(i32, i32)| map.find_moveable_options(cell.0, cell.1),
        |cell: &(i32, i32)| goal.steps_to(*cell),
        |cell: &(i32, i32)| goal.contains(*cell),
    )
}

/// What `with_option` holds: what was there, and the cell added.
proof fn lemma_with_option_contains(
    field: Seq<Seq<GridSpace>>,
    options: Seq<((i32, i32), u32)>,
    x: int,
    y: int,
    entry: ((i32, i32), u32),
)
    ensures
        with_option(field, options, x, y).contains(entry) <==> options.contains(entry) || (
        walkable(field, x, y) && entry == ((x as i32, y as i32), 1u32)),
{
    let added = ((x as i32, y as i32), 1u32);
    if walkable(field, x, y) {
        let longer = options.push(added);
        assert(longer[options.len() as int] == added);
        if options.contains(entry) {
            let i = choose|i: int| 0 <= i < options.len() && options[i] == entry;
            assert(longer[i] == entry);
        }
        if longer.contains(entry) {
            let i = choose|i: int| 0 <= i < longer.len() && longer[i] == entry;
            if i < options.len() {
                assert(options[i] == entry);
            }
        }
    }
}

/// The moveable options of a cell are the walkable cells one step from it.
pub proof fn lemma_options_are_steps(
    field: Seq<Seq<GridSpace>>,
    from: (i32, i32),
    to: (i32, i32),
)
    ensures
        moveable_options(field, from.0 as int, from.1 as int).contains((to, 1u32)) <==> walkable(
            field,
            to.0 as int,
            to.1 as int,
        ) && one_step(from, to),
{
    let x = from.0 as int;
    let y = from.1 as int;
    let entry = (to, 1u32);
    let none = Seq::<((i32, i32), u32)>::empty();
    let a = with_option(field, none, x + 1, y + 1);
    let b = with_option(field, a, x + 1, y);
    let c = with_option(field, b, x + 1, y - 1);
    let d = with_option(field, c, x, y + 1);
    let e = with_option(field, d, x, y - 1);
    let f = with_option(field, e, x - 1, y + 1);
    let g = with_option(field, f, x - 1, y);
    assert(!none.contains(entry));
    lemma_with_option_contains(field, none, x + 1, y + 1, entry);
    lemma_with_option_contains(field, a, x + 1, y, entry);
    lemma_with_option_contains(field, b, x + 1, y - 1, entry);
    lemma_with_option_contains(field, c, x, y + 1, entry);
    lemma_with_option_contains(field, d, x, y - 1, entry);
    lemma_with_option_contains(field, e, x - 1, y + 1, entry);
    lemma_with_option_contains(field, f, x - 1, y, entry);
    lemma_with_option_contains(field, g, x - 1, y - 1, entry);
}

/// From a cell inside the grid, the ways through the search graph are the
/// routes.
pub proof fn lemma_search_paths_are_routes(
    field: Seq<Seq<GridSpace>>,
    start: (i32, i32),
    corner: (i32, i32),
    scale: (i32, i32),
    path: Seq<(i32, i32)>,
)
    requires
        in_grid(start.0 as int, start.1 as int),
    ensures
        is_search_path(field, start, corner, scale, path) <==> is_route(
            field,
            start,
            corner,
            scale,
            path,
        ),
{
    if is_search_path(field, start, corner, scale, path) {
        assert forall|i: int| 0 < i < path.len() implies walkable(
            field,
            (#[trigger] path[i]).0 as int,
            path[i].1 as int,
        ) && one_step(path[i - 1], path[i]) by {
            lemma_options_are_steps(field, path[i - 1], path[i]);
        }
    }
    if is_route(field, start, corner, scale, path) {
        assert forall|i: int| 0 < i < path.len() implies moveable_options(
            field,
            path[i - 1].0 as int,
            path[i - 1].1 as int,
        ).contains((#[trigger] path[i], 1u32)) by {
            lemma_options_are_steps(field, path[i - 1], path[i]);
        }
    }
}

/// The estimate never exceeds the number of steps of a way into the area:
/// a step changes each coordinate by one at most.
pub proof fn lemma_estimate_is_admissible(
    field: Seq<Seq<GridSpace>>,
    corner: (i32, i32),
    scale: (i32, i32),
    from: (i32, i32),
    path: Seq<(i32, i32)>,
)
    requires
        scale.0 > 0,
        scale.1 > 0,
        is_search_path(field, from, corner, scale, path),
    ensures
        steps_to_area(corner, scale, from.0 as int, from.1 as int) <= path.len() - 1,
    decreases path.len(),
{
    if path.len() > 1 {
        let rest = path.drop_first();
        assert forall|i: int| 0 < i < rest.len() implies moveable_options(
            field,
            rest[i - 1].0 as int,
            rest[i - 1].1 as int,
        ).contains((#[trigger] rest[i], 1u32)) by {
            assert(rest[i - 1] == path[i]);
            assert(rest[i] == path[i + 1]);
        }
        assert(rest.last() == path.last());
        assert(rest[0] == path[1]);
        lemma_estimate_is_admissible(field, corner, scale, path[1], rest);
        lemma_options_are_steps(field, path[0], path[1]);
    }
}

/// The part of the interval of length `len` from `low` that lies on the
/// grid: its first index and the index behind its last.
pub open spec fn on_grid(low: i32, len: i32) -> (int, int) {
    (
        if low > 0 {
            low as int
        } else {
            0
        },
        if low + len < GRID_SIZE {
            low + len
        } else {
            GRID_SIZE as int
        },
    )
}

/// What a search from `start` to the area at `corner` with extent `scale`
/// finds: nothing from outside the grid or for an area off the grid, and
/// else what the A* search finds for the part of the area on the grid.
pub open spec fn search_result(
    field: Seq<Seq<GridSpace>>,
    start: (i32, i32),
    corner: (i32, i32),
    scale: (i32, i32),
) -> Option<(Seq<(i32, i32)>, u32)> {
    let across = on_grid(corner.0, scale.0);
    let along = on_grid(corner.1, scale.1);
    if !in_grid(start.0 as int, start.1 as int) || across.0 >= across.1 || along.0 >= along.1 {
        None
    } else {
        astar_result(
            field,
            start,
            (across.0 as i32, along.0 as i32),
            ((across.1 - across.0) as i32, (along.1 - along.0) as i32),
        )
    }
}

/// A shortest route from `start_location` to the area at
/// `goal_bottom_left` with extent `goal_scale`, together with the number of
/// its steps; `None` exactly if there is no route.  A route begins at
/// `start_location`, which must lie inside the grid, and goes in single
/// steps, straight or diagonal, over walkable cells.
pub fn build_path_star(
    map: &GridMap,
    start_location: (i32, i32),
    goal_bottom_left: (i32, i32),
    goal_scale: (i32, i32),
) -> (found: Option<(Vec<(i32, i32)>, u32)>)
    requires
        map.wf(),
    ensures
        route_view(found) == search_result(map@, start_location, goal_bottom_left, goal_scale),
        match found {
            Some((path, cost)) => {
                &&& is_shortest_route(map@, start_location, goal_bottom_left, goal_scale, path@)
                &&& cost == path@.len() - 1
            },
            None => no_route(map@, start_location, goal_bottom_left, goal_scale),
        },
{
    let size = GRID_SIZE as i64;
    let x = start_location.0 as i64;
    let y = start_location.1 as i64;
    if !(0 <= x && x < size && 0 <= y && y < size) {
        return None;
    }
    let left = if goal_bottom_left.0 > 0 {
        goal_bottom_left.0 as i64
    } else {
        0
    };
    let low = if goal_bottom_left.1 > 0 {
        goal_bottom_left.1 as i64
    } else {
        0
    };
    let right = if goal_bottom_left.0 as i64 + (goal_scale.0 as i64) < size {
        goal_bottom_left.0 as i64 + goal_scale.0 as i64
    } else {
        size
    };
    let high = if goal_bottom_left.1 as i64 + (goal_scale.1 as i64) < size {
        goal_bottom_left.1 as i64 + goal_scale.1 as i64
    } else {
        size
    };
    if left >= right || low >= high {
        proof {
            assert forall|other: Seq<(i32, i32)>| !#[trigger] is_route(
                map@,
                start_location,
                goal_bottom_left,
                goal_scale,
                other,
            ) by {
                if is_route(map@, start_location, goal_bottom_left, goal_scale, other) {
                    lemma_route_ends_in_grid(
                        map@,
                        start_location,
                        goal_bottom_left,
                        goal_scale,
                        other,
                    );
                }
            }
        }
        return None;
    }
    let corner = (left as i32, low as i32);
    let scale = ((right - left) as i32, (high - low) as i32);
    let goal = Pos::new(corner, scale);
    proof {
        assert forall|from: (i32, i32), path: Seq<(i32, i32)>| #[trigger]
            is_search_path(map@, from, corner, scale, path) implies steps_to_area(
            corner,
            scale,
            from.0 as int,
            from.1 as int,
        ) <= path.len() - 1 by {
            lemma_estimate_is_admissible(map@, corner, scale, from, path);
        }
        assert forall|other: Seq<(i32, i32)>|
            is_route(map@, start_location, goal_bottom_left, goal_scale, other) == is_search_path(
                map@,
                start_location,
                corner,
                scale,
                other,
            ) by {
            lemma_search_paths_are_routes(map@, start_location, corner, scale, other);
            if is_route(map@, start_location, goal_bottom_left, goal_scale, other) {
                lemma_route_ends_in_grid(
                    map@,
                    start_location,
                    goal_bottom_left,
                    goal_scale,
                    other,
                );
            }
            if is_route(map@, start_location, corner, scale, other) {
                lemma_route_ends_in_grid(map@, start_location, corner, scale, other);
            }
        }
    }
    astar_search(map, start_location, &goal)
}

/// A route ends inside the grid.
pub proof fn lemma_route_ends_in_grid(
    field: Seq<Seq<GridSpace>>,
    start: (i32, i32),
    corner: (i32, i32),
    scale: (i32, i32),
    path: Seq<(i32, i32)>,
)
    requires
        is_route(field, start, corner, scale, path),
    ensures
        in_grid(path.last().0 as int, path.last().1 as int),
{
    if path.len() > 1 {
        assert(walkable(
            field,
            path[path.len() - 1].0 as int,
            path[path.len() - 1].1 as int,
        ));
    }
}

/// A found path as a sequence of cells.
pub open spec fn path_view(found: Option<Vec<(i32, i32)>>) -> Option<Seq<(i32, i32)>> {
    match found {
        Some(path) => Some(path@),
        None => None,
    }
}

/// The path that a search from `start` to the cell `goal` finds.
pub open spec fn found_path(field: Seq<Seq<GridSpace>>, start: (i32, i32), goal: (i32, i32)) -> Option<
    Seq<(i32, i32)>,
> {
    match search_result(field, start, goal, (1i32, 1i32)) {
        Some((path, _)) => Some(path),
        None => None,
    }
}

/// A shortest route from `start` to the cell `goal`; `None` exactly if
/// there is no route.  From a cell inside the grid to itself the route is
/// the cell alone.  Between walkable cells there is a route exactly if the
/// two lie in the same walkable region.
pub fn find_path(map: &GridMap, start: (i32, i32), goal: (i32, i32)) -> (found: Option<
    Vec<(i32, i32)>,
>)
    requires
        map.wf(),
    ensures
        path_view(found) == found_path(map@, start, goal),
        match found {
            Some(path) => is_shortest_route(map@, start, goal, (1i32, 1i32), path@),
            None => no_route(map@, start, goal, (1i32, 1i32)),
        },
        start == goal && in_grid(start.0 as int, start.1 as int) ==> (found matches Some(path)
            && path@ == seq![start]),
        walkable(map@, start.0 as int, start.1 as int) && walkable(
            map@,
            goal.0 as int,
            goal.1 as int,
        ) ==> (found is None <==> !connected(map@, start, goal)),
{
    let found = build_path_star(map, start, goal, (1, 1));
    proof {
        if start == goal && in_grid(start.0 as int, start.1 as int) {
            lemma_route_to_itself(map@, start);
        }
        if walkable(map@, start.0 as int, start.1 as int) && walkable(
            map@,
            goal.0 as int,
            goal.1 as int,
        ) {
            lemma_routes_connect(map@, start, goal);
        }
    }
    match found {
        Some((path, _)) => {
            proof {
                if start == goal && in_grid(start.0 as int, start.1 as int) {
                    assert(path@ =~= seq![start]);
                }
            }
            Some(path)
        },
        None => None,
    }
}

/// From a cell inside the grid to itself there is a route, the cell alone,
/// and so none is shorter.
pub proof fn lemma_route_to_itself(field: Seq<Seq<GridSpace>>, cell: (i32, i32))
    requires
        in_grid(cell.0 as int, cell.1 as int),
    ensures
        is_shortest_route(field, cell, cell, (1i32, 1i32), seq![cell]),
{
    assert(seq![cell].last() == cell);
}

/// Between walkable cells there is a route exactly if the two lie in the
/// same walkable region.
pub proof fn lemma_routes_connect(field: Seq<Seq<GridSpace>>, start: (i32, i32), goal: (i32, i32))
    requires
        walkable(field, start.0 as int, start.1 as int),
        walkable(field, goal.0 as int, goal.1 as int),
    ensures
        no_route(field, start, goal, (1i32, 1i32)) <==> !connected(field, start, goal),
{
    if connected(field, start, goal) {
        let chain = choose|chain: Seq<(i32, i32)>| #[trigger] is_chain(field, start, goal, chain);
        assert(is_route(field, start, goal, (1i32, 1i32), chain));
    }
    if !no_route(field, start, goal, (1i32, 1i32)) {
        let path = choose|path: Seq<(i32, i32)>| #[trigger]
            is_route(field, start, goal, (1i32, 1i32), path);
        assert(path.last() == goal);
        assert forall|i: int| 0 <= i < path.len() implies walkable(
            field,
            (#[trigger] path[i]).0 as int,
            path[i].1 as int,
        ) by {}
        assert(is_chain(field, start, goal, path));
    }
}

} // verus!

//! Why the propagation gives a field that leads to the nearest structure.
//!
//! The proof follows the propagation offer by offer.  While the cells
//! around the structures are seeded, every cell with a direction lies on a
//! perimeter and points into a structure.  While the queue is run, the
//! cells wait in the order of their distance from the nearest perimeter,
//! the distances in the queue differ by one at most, and every cell that is
//! nearer than the first in the queue has its direction already.
use vstd::prelude::*;
use crate::building::Building;
use crate::coords::in_grid;
use crate::direction::Direction;
use crate::flow::{
    free_count, is_free, lemma_visit_effect, offer, offer_column, offer_row, pointing, seed_all,
    seed_building, spread, visit, Spread,
};
use crate::grid::{field_wf, occupancy_matches, without_directions, GridSpace};
use crate::nearest::{
    adjacent, beside_structure, has_direction, hops_are, leads_to_nearest,
    lemma_within_more, lemma_within_same_occupancy, occupied, points_closer, same_occupancy,
    walkable, within,
};

verus! {

// ---------------------------------------------------------------------------
// The propagation, seen from the cell that is making its offers.
//
// `base` fixes the occupied cells.  `full` lists the cells that have taken a
// direction and have not finished their offers: its first cell is the one
// making offers now, `done` of which are made.
// ---------------------------------------------------------------------------

/// Whether cell `(x, y)` carries a direction if it is walkable.
spec fn settled(base: Seq<Seq<GridSpace>>, field: Seq<Seq<GridSpace>>, x: int, y: int) -> bool {
    walkable(base, x, y) ==> has_direction(field, x, y)
}

/// Whether the first `done` neighbours of cell `(x, y)`, in the order of
/// the offers, are settled.
spec fn neighbours_settled(
    base: Seq<Seq<GridSpace>>,
    field: Seq<Seq<GridSpace>>,
    x: int,
    y: int,
    done: int,
) -> bool {
    &&& done > 0 ==> settled(base, field, x, y + 1)
    &&& done > 1 ==> settled(base, field, x - 1, y)
    &&& done > 2 ==> settled(base, field, x + 1, y)
    &&& done > 3 ==> settled(base, field, x, y - 1)
}

/// Whether cell `(x, y)`, which is `n` steps from the nearest perimeter,
/// points into a structure if `n` is nothing, and else at a cell that is
/// within `n - 1` steps and carries a direction.
spec fn aims_closer(
    base: Seq<Seq<GridSpace>>,
    field: Seq<Seq<GridSpace>>,
    x: int,
    y: int,
    n: nat,
) -> bool {
    match field[x][y].direction {
        Some(d) => if n == 0 {
            occupied(base, x + d.dx(), y + d.dy())
        } else {
            within(base, x + d.dx(), y + d.dy(), (n - 1) as nat) && has_direction(
                field,
                x + d.dx(),
                y + d.dy(),
            )
        },
        None => false,
    }
}

/// Every waiting cell carries a direction.
spec fn inv_queue(field: Seq<Seq<GridSpace>>, full: Seq<(usize, usize)>) -> bool {
    forall|i: int|
        0 <= i < full.len() ==> has_direction(field, (#[trigger] full[i]).0 as int, full[i].1 as int)
}

/// From every cell with a direction a perimeter can be reached.
spec fn inv_reach(base: Seq<Seq<GridSpace>>, field: Seq<Seq<GridSpace>>) -> bool {
    forall|x: int, y: int| #[trigger]
        has_direction(field, x, y) ==> exists|n: nat| within(base, x, y, n)
}

/// Every cell with a direction aims closer.
spec fn inv_points(base: Seq<Seq<GridSpace>>, field: Seq<Seq<GridSpace>>) -> bool {
    forall|x: int, y: int, n: nat|
        has_direction(field, x, y) && #[trigger] hops_are(base, x, y, n) ==> aims_closer(
            base,
            field,
            x,
            y,
            n,
        )
}

/// No waiting cell is nearer to a perimeter than one that waits before it.
spec fn inv_sorted(base: Seq<Seq<GridSpace>>, full: Seq<(usize, usize)>) -> bool {
    forall|i: int, j: int, n: nat|
        0 <= i <= j < full.len() && #[trigger] within(base, full[j].0 as int, full[j].1 as int, n)
            ==> #[trigger] within(base, full[i].0 as int, full[i].1 as int, n)
}

/// No waiting cell is more than one step farther from a perimeter than the
/// first.
spec fn inv_span(base: Seq<Seq<GridSpace>>, full: Seq<(usize, usize)>) -> bool {
    forall|j: int, n: nat|
        0 <= j < full.len() && #[trigger] within(base, full[0].0 as int, full[0].1 as int, n)
            ==> within(base, (#[trigger] full[j]).0 as int, full[j].1 as int, n + 1)
}

/// Every cell with a direction that waits no longer has its neighbours
/// settled, and the first waiting cell has made `done` of its offers.
spec fn inv_closed(
    base: Seq<Seq<GridSpace>>,
    field: Seq<Seq<GridSpace>>,
    full: Seq<(usize, usize)>,
    done: int,
) -> bool {
    &&& forall|x: int, y: int|
        #[trigger] has_direction(field, x, y) && !full.contains((x as usize, y as usize))
            ==> neighbours_settled(base, field, x, y, 4)
    &&& full.len() > 0 ==> neighbours_settled(
        base,
        field,
        full[0].0 as int,
        full[0].1 as int,
        done,
    )
}

/// Every cell that is no farther from a perimeter than the first waiting
/// cell carries a direction.
spec fn inv_front(
    base: Seq<Seq<GridSpace>>,
    field: Seq<Seq<GridSpace>>,
    full: Seq<(usize, usize)>,
) -> bool {
    full.len() > 0 ==> forall|x: int, y: int, n: nat|
        #[trigger] within(base, x, y, n) && (n == 0 || !within(
            base,
            full[0].0 as int,
            full[0].1 as int,
            (n - 1) as nat,
        )) ==> has_direction(field, x, y)
}

/// Every cell on a perimeter carries a direction.
spec fn inv_seeded(base: Seq<Seq<GridSpace>>, field: Seq<Seq<GridSpace>>) -> bool {
    forall|x: int, y: int| #[trigger] beside_structure(base, x, y) ==> has_direction(field, x, y)
}

/// No cell with a direction is more than one step farther from a perimeter
/// than the first waiting cell.
spec fn inv_near(
    base: Seq<Seq<GridSpace>>,
    field: Seq<Seq<GridSpace>>,
    full: Seq<(usize, usize)>,
) -> bool {
    full.len() > 0 ==> forall|x: int, y: int, n: nat|
        has_direction(field, x, y) && #[trigger] within(
            base,
            full[0].0 as int,
            full[0].1 as int,
            n,
        ) ==> #[trigger] within(base, x, y, n + 1)
}

/// What holds while the queue is run.
#[verifier::opaque]
spec fn inv(
    base: Seq<Seq<GridSpace>>,
    field: Seq<Seq<GridSpace>>,
    full: Seq<(usize, usize)>,
    done: int,
) -> bool {
    &&& field_wf(base)
    &&& field_wf(field)
    &&& same_occupancy(field, base)
    &&& inv_queue(field, full)
    &&& inv_reach(base, field)
    &&& inv_points(base, field)
    &&& inv_sorted(base, full)
    &&& inv_span(base, full)
    &&& inv_closed(base, field, full, done)
    &&& inv_front(base, field, full)
    &&& inv_seeded(base, field)
    &&& inv_near(base, field, full)
}

/// The field after cell `(x, y)` has taken `direction`.
spec fn taken(field: Seq<Seq<GridSpace>>, x: int, y: int, direction: Direction) -> Seq<
    Seq<GridSpace>,
> {
    field.update(x, field[x].update(y, pointing(direction)))
}

/// What a field is like after a free cell has taken a direction.
proof fn lemma_taken(field: Seq<Seq<GridSpace>>, x: int, y: int, direction: Direction)
    requires
        field_wf(field),
        is_free(field, x, y),
    ensures
        field_wf(taken(field, x, y, direction)),
        same_occupancy(taken(field, x, y, direction), field),
        has_direction(taken(field, x, y, direction), x, y),
        taken(field, x, y, direction)[x][y] == pointing(direction),
        forall|a: int, b: int|
            in_grid(a, b) && !(a == x && b == y) ==> #[trigger] taken(field, x, y, direction)[a][b]
                == field[a][b],
        forall|a: int, b: int|
            has_direction(field, a, b) ==> #[trigger] has_direction(
                taken(field, x, y, direction),
                a,
                b,
            ),
{
    let after = taken(field, x, y, direction);
    assert forall|a: int, b: int| in_grid(a, b) && !(a == x && b == y) implies #[trigger] after[a][b]
        == field[a][b] by {
        assert(field[a].len() == crate::coords::GRID_SIZE);
    }
    assert(field[x].len() == crate::coords::GRID_SIZE);
    assert forall|a: int| 0 <= a < crate::coords::GRID_SIZE implies (#[trigger] after[a]).len()
        == crate::coords::GRID_SIZE by {
        assert(field[a].len() == crate::coords::GRID_SIZE);
    }
    assert forall|a: int, b: int| in_grid(a, b) && (#[trigger] after[a][b]).building is Some implies after[a][b].direction is None by {
        if !(a == x && b == y) {
            assert(after[a][b] == field[a][b]);
        }
    }
    assert forall|a: int, b: int| in_grid(a, b) implies (#[trigger] after[a][b]).building
        == field[a][b].building by {
        if !(a == x && b == y) {
            assert(after[a][b] == field[a][b]);
        }
    }
    assert forall|a: int, b: int| has_direction(field, a, b) implies #[trigger] has_direction(
        after,
        a,
        b,
    ) by {
        if !(a == x && b == y) {
            assert(after[a][b] == field[a][b]);
        }
    }
}

/// Whether cell `(x, y)` is at least one step farther from the perimeter
/// than cell `(hx, hy)`.
spec fn farther(base: Seq<Seq<GridSpace>>, x: int, y: int, hx: int, hy: int) -> bool {
    forall|n: nat| #[trigger]
        within(base, x, y, n) ==> n > 0 && within(base, hx, hy, (n - 1) as nat)
}

/// Whether cell `(x, y)` is at most one step farther from the perimeter
/// than cell `(hx, hy)`.
spec fn no_farther(base: Seq<Seq<GridSpace>>, x: int, y: int, hx: int, hy: int) -> bool {
    forall|n: nat| #[trigger] within(base, hx, hy, n) ==> within(base, x, y, n + 1)
}

/// A cell without direction is farther from a perimeter than the first
/// waiting cell.
proof fn lemma_farther(
    base: Seq<Seq<GridSpace>>,
    field: Seq<Seq<GridSpace>>,
    full: Seq<(usize, usize)>,
    x: int,
    y: int,
)
    requires
        inv_front(base, field, full),
        full.len() > 0,
        !has_direction(field, x, y),
    ensures
        farther(base, x, y, full[0].0 as int, full[0].1 as int),
{
    let hx = full[0].0 as int;
    let hy = full[0].1 as int;
    assert forall|n: nat| #[trigger] within(base, x, y, n) implies n > 0 && within(
        base,
        hx,
        hy,
        (n - 1) as nat,
    ) by {
        if n == 0 || !within(base, hx, hy, (n - 1) as nat) {
            assert(has_direction(field, x, y));
        }
    }
}

/// A walkable cell is at most one step farther from a perimeter than the
/// cell beside it.
proof fn lemma_no_farther(base: Seq<Seq<GridSpace>>, x: int, y: int, hx: int, hy: int)
    requires
        walkable(base, x, y),
        adjacent(x, y, hx, hy),
    ensures
        no_farther(base, x, y, hx, hy),
{
    assert forall|n: nat| #[trigger] within(base, hx, hy, n) implies within(base, x, y, n + 1) by {
        assert(((n + 1) - 1) as nat == n);
    }
}

/// A cell that takes a direction and joins the queue keeps `inv_queue`.
proof fn lemma_claim_queue(
    field: Seq<Seq<GridSpace>>,
    full: Seq<(usize, usize)>,
    x: int,
    y: int,
    d: Direction,
)
    requires
        field_wf(field),
        inv_queue(field, full),
        is_free(field, x, y),
    ensures
        inv_queue(taken(field, x, y, d), full.push((x as usize, y as usize))),
{
    let after = taken(field, x, y, d);
    let longer = full.push((x as usize, y as usize));
    lemma_taken(field, x, y, d);
    assert forall|i: int| 0 <= i < longer.len() implies has_direction(
        after,
        (#[trigger] longer[i]).0 as int,
        longer[i].1 as int,
    ) by {
        if i < full.len() {
            assert(longer[i] == full[i]);
            assert(has_direction(field, full[i].0 as int, full[i].1 as int));
        }
    }
}

/// A cell that takes the direction back to a cell beside it keeps
/// `inv_reach`.
proof fn lemma_claim_reach(
    base: Seq<Seq<GridSpace>>,
    field: Seq<Seq<GridSpace>>,
    x: int,
    y: int,
    d: Direction,
    hx: int,
    hy: int,
)
    requires
        field_wf(field),
        inv_reach(base, field),
        is_free(field, x, y),
        has_direction(field, hx, hy),
        no_farther(base, x, y, hx, hy),
    ensures
        inv_reach(base, taken(field, x, y, d)),
{
    let after = taken(field, x, y, d);
    lemma_taken(field, x, y, d);
    assert forall|a: int, b: int| #[trigger] has_direction(after, a, b) implies exists|n: nat|
        within(base, a, b, n) by {
        if a == x && b == y {
            let n = choose|n: nat| within(base, hx, hy, n);
            assert(within(base, hx, hy, n));
            assert(within(base, x, y, n + 1));
        } else {
            assert(after[a][b] == field[a][b]);
            assert(has_direction(field, a, b));
        }
    }
}

/// A cell that takes the direction back to the first waiting cell keeps
/// `inv_points`.
proof fn lemma_claim_points(
    base: Seq<Seq<GridSpace>>,
    field: Seq<Seq<GridSpace>>,
    x: int,
    y: int,
    d: Direction,
    hx: int,
    hy: int,
)
    requires
        field_wf(field),
        inv_points(base, field),
        is_free(field, x, y),
        has_direction(field, hx, hy),
        x + d.dx() == hx,
        y + d.dy() == hy,
        farther(base, x, y, hx, hy),
    ensures
        inv_points(base, taken(field, x, y, d)),
{
    let after = taken(field, x, y, d);
    lemma_taken(field, x, y, d);
    assert forall|a: int, b: int, n: nat|
        has_direction(after, a, b) && #[trigger] hops_are(base, a, b, n) implies aims_closer(
        base,
        after,
        a,
        b,
        n,
    ) by {
        if a == x && b == y {
            assert(within(base, x, y, n));
            assert(has_direction(after, hx, hy));
            assert(after[x][y].direction == Some(d));
        } else {
            assert(after[a][b] == field[a][b]);
            assert(has_direction(field, a, b));
            assert(aims_closer(base, field, a, b, n));
            let t = field[a][b].direction->Some_0;
            if n > 0 {
                assert(has_direction(field, a + t.dx(), b + t.dy()));
                assert(has_direction(after, a + t.dx(), b + t.dy()));
            }
        }
    }
}

/// A cell that joins the queue behind the others, one step farther than
/// the first, keeps the order of the queue.
proof fn lemma_claim_sorted(base: Seq<Seq<GridSpace>>, full: Seq<(usize, usize)>, x: int, y: int)
    requires
        inv_sorted(base, full),
        inv_span(base, full),
        full.len() > 0,
        in_grid(x, y),
        farther(base, x, y, full[0].0 as int, full[0].1 as int),
        no_farther(base, x, y, full[0].0 as int, full[0].1 as int),
    ensures
        inv_sorted(base, full.push((x as usize, y as usize))),
        inv_span(base, full.push((x as usize, y as usize))),
{
    let longer = full.push((x as usize, y as usize));
    assert forall|i: int, j: int, n: nat|
        0 <= i <= j < longer.len() && #[trigger] within(
            base,
            longer[j].0 as int,
            longer[j].1 as int,
            n,
        ) implies #[trigger] within(base, longer[i].0 as int, longer[i].1 as int, n) by {
        if j < full.len() {
            assert(longer[i] == full[i] && longer[j] == full[j]);
            assert(within(base, full[j].0 as int, full[j].1 as int, n));
        } else if i < full.len() {
            assert(longer[i] == full[i]);
            assert(within(base, x, y, n));
            let k = (n - 1) as nat;
            assert(within(base, full[0].0 as int, full[0].1 as int, k));
            assert(within(base, full[i].0 as int, full[i].1 as int, k + 1));
        }
    }
    assert forall|j: int, n: nat|
        0 <= j < longer.len() && #[trigger] within(
            base,
            longer[0].0 as int,
            longer[0].1 as int,
            n,
        ) implies within(base, (#[trigger] longer[j]).0 as int, longer[j].1 as int, n + 1) by {
        assert(longer[0] == full[0]);
        if j < full.len() {
            assert(longer[j] == full[j]);
        }
    }
}

/// A cell that takes a direction and joins the queue keeps `inv_closed`.
proof fn lemma_claim_closed(
    base: Seq<Seq<GridSpace>>,
    field: Seq<Seq<GridSpace>>,
    full: Seq<(usize, usize)>,
    done: int,
    x: int,
    y: int,
    d: Direction,
)
    requires
        field_wf(field),
        inv_closed(base, field, full, done),
        full.len() > 0,
        is_free(field, x, y),
    ensures
        inv_closed(base, taken(field, x, y, d), full.push((x as usize, y as usize)), done),
{
    let after = taken(field, x, y, d);
    let cell = (x as usize, y as usize);
    let longer = full.push(cell);
    lemma_taken(field, x, y, d);
    assert forall|a: int, b: int|
        #[trigger] has_direction(after, a, b) && !longer.contains(
            (a as usize, b as usize),
        ) implies neighbours_settled(base, after, a, b, 4) by {
        assert(longer[full.len() as int] == cell);
        assert(!(a == x && b == y));
        assert(after[a][b] == field[a][b]);
        assert(has_direction(field, a, b));
        if full.contains((a as usize, b as usize)) {
            let i = choose|i: int| 0 <= i < full.len() && full[i] == (a as usize, b as usize);
            assert(longer[i] == (a as usize, b as usize));
        }
        assert(neighbours_settled(base, field, a, b, 4));
        lemma_settled_stays(base, field, after, a, b, 4);
    }
    assert(longer[0] == full[0]);
    lemma_settled_stays(base, field, after, full[0].0 as int, full[0].1 as int, done);
}

/// Whether every cell that carries a direction in `before` carries one in
/// `after`.
spec fn keeps_directions(before: Seq<Seq<GridSpace>>, after: Seq<Seq<GridSpace>>) -> bool {
    forall|a: int, b: int| has_direction(before, a, b) ==> #[trigger] has_direction(after, a, b)
}

/// Settled neighbours stay settled when no direction is lost.
proof fn lemma_settled_stays(
    base: Seq<Seq<GridSpace>>,
    before: Seq<Seq<GridSpace>>,
    after: Seq<Seq<GridSpace>>,
    x: int,
    y: int,
    done: int,
)
    requires
        keeps_directions(before, after),
        neighbours_settled(base, before, x, y, done),
    ensures
        neighbours_settled(base, after, x, y, done),
{
    if has_direction(before, x, y + 1) {
        assert(has_direction(after, x, y + 1));
    }
    if has_direction(before, x - 1, y) {
        assert(has_direction(after, x - 1, y));
    }
    if has_direction(before, x + 1, y) {
        assert(has_direction(after, x + 1, y));
    }
    if has_direction(before, x, y - 1) {
        assert(has_direction(after, x, y - 1));
    }
}

/// A cell that takes a direction and joins the queue keeps what is left
/// of the invariant.
proof fn lemma_claim_rest(
    base: Seq<Seq<GridSpace>>,
    field: Seq<Seq<GridSpace>>,
    full: Seq<(usize, usize)>,
    x: int,
    y: int,
    d: Direction,
)
    requires
        field_wf(field),
        same_occupancy(field, base),
        inv_front(base, field, full),
        inv_seeded(base, field),
        inv_near(base, field, full),
        full.len() > 0,
        is_free(field, x, y),
        no_farther(base, x, y, full[0].0 as int, full[0].1 as int),
    ensures
        same_occupancy(taken(field, x, y, d), base),
        inv_front(base, taken(field, x, y, d), full.push((x as usize, y as usize))),
        inv_seeded(base, taken(field, x, y, d)),
        inv_near(base, taken(field, x, y, d), full.push((x as usize, y as usize))),
{
    let after = taken(field, x, y, d);
    let longer = full.push((x as usize, y as usize));
    lemma_taken(field, x, y, d);
    assert(longer[0] == full[0]);
    assert forall|a: int, b: int| in_grid(a, b) implies (#[trigger] after[a][b]).building
        == base[a][b].building by {
        assert(after[a][b].building == field[a][b].building);
    }
    assert forall|a: int, b: int, n: nat|
        #[trigger] within(base, a, b, n) && (n == 0 || !within(
            base,
            longer[0].0 as int,
            longer[0].1 as int,
            (n - 1) as nat,
        )) implies has_direction(after, a, b) by {
        assert(has_direction(field, a, b));
    }
    assert forall|a: int, b: int| #[trigger] beside_structure(base, a, b) implies has_direction(
        after,
        a,
        b,
    ) by {
        assert(has_direction(field, a, b));
    }
    assert forall|a: int, b: int, n: nat|
        has_direction(after, a, b) && #[trigger] within(
            base,
            longer[0].0 as int,
            longer[0].1 as int,
            n,
        ) implies #[trigger] within(base, a, b, n + 1) by {
        if !(a == x && b == y) {
            assert(after[a][b] == field[a][b]);
            assert(has_direction(field, a, b));
        }
    }
}

/// A free neighbour of the cell that is making its offers takes the
/// direction back to it.
proof fn lemma_claim(
    base: Seq<Seq<GridSpace>>,
    field: Seq<Seq<GridSpace>>,
    full: Seq<(usize, usize)>,
    done: int,
    x: int,
    y: int,
    d: Direction,
)
    requires
        inv(base, field, full, done),
        full.len() > 0,
        is_free(field, x, y),
        x + d.dx() == full[0].0,
        y + d.dy() == full[0].1,
    ensures
        inv(base, taken(field, x, y, d), full.push((x as usize, y as usize)), done),
{
    reveal(inv);
    let hx = full[0].0 as int;
    let hy = full[0].1 as int;
    lemma_taken(field, x, y, d);
    assert(has_direction(field, hx, hy));
    assert(field[x][y].building == base[x][y].building);
    lemma_farther(base, field, full, x, y);
    lemma_no_farther(base, x, y, hx, hy);
    lemma_claim_queue(field, full, x, y, d);
    lemma_claim_reach(base, field, x, y, d, hx, hy);
    lemma_claim_points(base, field, x, y, d, hx, hy);
    lemma_claim_sorted(base, full, x, y);
    lemma_claim_closed(base, field, full, done, x, y, d);
    lemma_claim_rest(base, field, full, x, y, d);
}

/// The cell that is making its offers makes the next one, to cell `(x, y)`.
proof fn lemma_offer_step(
    base: Seq<Seq<GridSpace>>,
    s: Spread,
    head: (usize, usize),
    done: int,
    x: int,
    y: int,
    d: Direction,
)
    requires
        inv(base, s.field, seq![head] + s.queue, done),
        0 <= done < 4,
        x + d.dx() == head.0,
        y + d.dy() == head.1,
        done == 0 ==> x == head.0 && y == head.1 + 1,
        done == 1 ==> x == head.0 - 1 && y == head.1,
        done == 2 ==> x == head.0 + 1 && y == head.1,
        done == 3 ==> x == head.0 && y == head.1 - 1,
    ensures
        inv(base, offer(s, x, y, d).field, seq![head] + offer(s, x, y, d).queue, done + 1),
{
    reveal(inv);
    let full = seq![head] + s.queue;
    assert(full[0] == head);
    let hx = head.0 as int;
    let hy = head.1 as int;
    if is_free(s.field, x, y) {
        let after = taken(s.field, x, y, d);
        let longer = full.push((x as usize, y as usize));
        lemma_claim(base, s.field, full, done, x, y, d);
        lemma_taken(s.field, x, y, d);
        assert(seq![head] + offer(s, x, y, d).queue =~= longer);
        assert(offer(s, x, y, d).field == after);
        assert(longer[0] == head);
        assert(neighbours_settled(base, after, hx, hy, done));
        assert(has_direction(after, x, y));
        assert(neighbours_settled(base, after, hx, hy, done + 1));
    } else {
        assert(neighbours_settled(base, s.field, hx, hy, done));
        if walkable(base, x, y) {
            assert(s.field[x][y].building == base[x][y].building);
            assert(has_direction(s.field, x, y));
        }
        assert(neighbours_settled(base, s.field, hx, hy, done + 1));
    }
}

/// The queue without its first cell keeps its order.
proof fn lemma_pop_order(base: Seq<Seq<GridSpace>>, field: Seq<Seq<GridSpace>>, full: Seq<(usize, usize)>)
    requires
        inv_queue(field, full),
        inv_sorted(base, full),
        inv_span(base, full),
        inv_near(base, field, full),
        full.len() > 0,
    ensures
        inv_queue(field, full.drop_first()),
        inv_sorted(base, full.drop_first()),
        inv_span(base, full.drop_first()),
        inv_near(base, field, full.drop_first()),
{
    let rest = full.drop_first();
    assert forall|i: int| 0 <= i < rest.len() implies has_direction(
        field,
        (#[trigger] rest[i]).0 as int,
        rest[i].1 as int,
    ) by {
        assert(rest[i] == full[i + 1]);
    }
    assert forall|i: int, j: int, n: nat|
        0 <= i <= j < rest.len() && #[trigger] within(
            base,
            rest[j].0 as int,
            rest[j].1 as int,
            n,
        ) implies #[trigger] within(base, rest[i].0 as int, rest[i].1 as int, n) by {
        assert(rest[i] == full[i + 1] && rest[j] == full[j + 1]);
        assert(within(base, full[j + 1].0 as int, full[j + 1].1 as int, n));
    }
    if rest.len() > 0 {
        assert(rest[0] == full[1]);
        assert forall|j: int, n: nat|
            0 <= j < rest.len() && #[trigger] within(
                base,
                rest[0].0 as int,
                rest[0].1 as int,
                n,
            ) implies within(base, (#[trigger] rest[j]).0 as int, rest[j].1 as int, n + 1) by {
            assert(rest[j] == full[j + 1]);
            assert(within(base, full[1].0 as int, full[1].1 as int, n));
            assert(within(base, full[0].0 as int, full[0].1 as int, n));
        }
        assert forall|x: int, y: int, n: nat|
            has_direction(field, x, y) && #[trigger] within(
                base,
                rest[0].0 as int,
                rest[0].1 as int,
                n,
            ) implies #[trigger] within(base, x, y, n + 1) by {
            assert(within(base, full[1].0 as int, full[1].1 as int, n));
            assert(within(base, full[0].0 as int, full[0].1 as int, n));
        }
    }
}

/// When the first cell has made its four offers and leaves the queue,
/// `inv_closed` holds of the rest.
proof fn lemma_pop_closed(
    base: Seq<Seq<GridSpace>>,
    field: Seq<Seq<GridSpace>>,
    full: Seq<(usize, usize)>,
)
    requires
        inv_queue(field, full),
        inv_closed(base, field, full, 4),
        full.len() > 0,
    ensures
        inv_closed(base, field, full.drop_first(), 0),
{
    let rest = full.drop_first();
    assert(has_direction(field, full[0].0 as int, full[0].1 as int));
    assert forall|x: int, y: int|
        #[trigger] has_direction(field, x, y) && !rest.contains(
            (x as usize, y as usize),
        ) implies neighbours_settled(base, field, x, y, 4) by {
        let cell = (x as usize, y as usize);
        if full.contains(cell) {
            let i = choose|i: int| 0 <= i < full.len() && full[i] == cell;
            if i > 0 {
                assert(rest[i - 1] == cell);
            }
            assert(i == 0);
            assert(x == full[0].0 && y == full[0].1);
        }
    }
}

/// Whether the first cell of `full` is exactly `m` steps from the
/// perimeter and the second one farther.
spec fn level_ends(base: Seq<Seq<GridSpace>>, full: Seq<(usize, usize)>, m: nat) -> bool {
    &&& full.len() > 1
    &&& within(base, full[0].0 as int, full[0].1 as int, m)
    &&& !within(base, full[1].0 as int, full[1].1 as int, m)
}

/// When the level of the queue's first cell ends with it, every cell of
/// that level has finished its offers.
proof fn lemma_level_done(
    base: Seq<Seq<GridSpace>>,
    field: Seq<Seq<GridSpace>>,
    full: Seq<(usize, usize)>,
    m: nat,
    x: int,
    y: int,
)
    requires
        inv_queue(field, full),
        inv_sorted(base, full),
        inv_span(base, full),
        inv_front(base, field, full),
        inv_closed(base, field, full.drop_first(), 0),
        level_ends(base, full, m),
        within(base, x, y, m),
    ensures
        has_direction(field, x, y),
        neighbours_settled(base, field, x, y, 4),
{
    let rest = full.drop_first();
    let hx = full[0].0 as int;
    let hy = full[0].1 as int;
    if m > 0 && within(base, hx, hy, (m - 1) as nat) {
        assert(within(base, full[1].0 as int, full[1].1 as int, ((m - 1) as nat) + 1));
        assert(false);
    }
    assert(has_direction(field, x, y));
    let cell = (x as usize, y as usize);
    if rest.contains(cell) {
        let j = choose|j: int| 0 <= j < rest.len() && rest[j] == cell;
        assert(full[j + 1] == cell);
        assert(within(base, full[j + 1].0 as int, full[j + 1].1 as int, m));
        assert(within(base, full[1].0 as int, full[1].1 as int, m));
        assert(false);
    }
}

/// When the first cell leaves the queue, every cell that is no farther
/// than the next carries a direction.
proof fn lemma_pop_front(
    base: Seq<Seq<GridSpace>>,
    field: Seq<Seq<GridSpace>>,
    full: Seq<(usize, usize)>,
)
    requires
        inv_queue(field, full),
        inv_sorted(base, full),
        inv_span(base, full),
        inv_front(base, field, full),
        inv_seeded(base, field),
        inv_closed(base, field, full.drop_first(), 0),
        full.len() > 0,
    ensures
        inv_front(base, field, full.drop_first()),
{
    let rest = full.drop_first();
    if rest.len() > 0 {
        assert(rest[0] == full[1]);
        let hx = full[0].0 as int;
        let hy = full[0].1 as int;
        let qx = full[1].0 as int;
        let qy = full[1].1 as int;
        assert forall|x: int, y: int, n: nat|
            #[trigger] within(base, x, y, n) && (n == 0 || !within(
                base,
                rest[0].0 as int,
                rest[0].1 as int,
                (n - 1) as nat,
            )) implies has_direction(field, x, y) by {
            if n == 0 || !within(base, hx, hy, (n - 1) as nat) {
                assert(has_direction(field, x, y));
            } else {
                let m = (n - 1) as nat;
                assert(level_ends(base, full, m));
                if beside_structure(base, x, y) {
                    assert(has_direction(field, x, y));
                } else if within(base, x, y + 1, m) {
                    lemma_level_done(base, field, full, m, x, y + 1);
                } else if within(base, x - 1, y, m) {
                    lemma_level_done(base, field, full, m, x - 1, y);
                } else if within(base, x + 1, y, m) {
                    lemma_level_done(base, field, full, m, x + 1, y);
                } else {
                    assert(within(base, x, y - 1, m));
                    lemma_level_done(base, field, full, m, x, y - 1);
                }
            }
        }
    }
}

/// The cell that was making its offers has made all four and leaves.
proof fn lemma_pop(base: Seq<Seq<GridSpace>>, field: Seq<Seq<GridSpace>>, full: Seq<(usize, usize)>)
    requires
        inv(base, field, full, 4),
        full.len() > 0,
    ensures
        inv(base, field, full.drop_first(), 0),
{
    reveal(inv);
    lemma_pop_order(base, field, full);
    lemma_pop_closed(base, field, full);
    lemma_pop_front(base, field, full);
}

/// With no cell waiting, the field is complete.
proof fn lemma_done(base: Seq<Seq<GridSpace>>, field: Seq<Seq<GridSpace>>)
    requires
        inv(base, field, Seq::<(usize, usize)>::empty(), 0),
    ensures
        complete(base, field),
{
    reveal(inv);
    reveal(complete);
    assert forall|x: int, y: int, n: nat| #[trigger] within(base, x, y, n) implies has_direction(
        field,
        x,
        y,
    ) by {
        lemma_all_reached(base, field, x, y, n);
    }
}

/// The invariant keeps the field well formed.
proof fn lemma_inv_wf(
    base: Seq<Seq<GridSpace>>,
    field: Seq<Seq<GridSpace>>,
    full: Seq<(usize, usize)>,
    done: int,
)
    requires
        inv(base, field, full, done),
    ensures
        field_wf(field),
{
    reveal(inv);
}

/// Once no cell waits, every cell from which a perimeter can be reached
/// carries a direction.
proof fn lemma_all_reached(base: Seq<Seq<GridSpace>>, field: Seq<Seq<GridSpace>>, x: int, y: int, n: nat)
    requires
        inv_seeded(base, field),
        inv_closed(base, field, Seq::<(usize, usize)>::empty(), 0),
        within(base, x, y, n),
    ensures
        has_direction(field, x, y),
    decreases n,
{
    let none = Seq::<(usize, usize)>::empty();
    if beside_structure(base, x, y) {
        assert(has_direction(field, x, y));
    } else {
        let m = (n - 1) as nat;
        if within(base, x, y + 1, m) {
            lemma_all_reached(base, field, x, y + 1, m);
            assert(!none.contains((x as usize, (y + 1) as usize)));
            assert(neighbours_settled(base, field, x, y + 1, 4));
        } else if within(base, x - 1, y, m) {
            lemma_all_reached(base, field, x - 1, y, m);
            assert(!none.contains(((x - 1) as usize, y as usize)));
            assert(neighbours_settled(base, field, x - 1, y, 4));
        } else if within(base, x + 1, y, m) {
            lemma_all_reached(base, field, x + 1, y, m);
            assert(!none.contains(((x + 1) as usize, y as usize)));
            assert(neighbours_settled(base, field, x + 1, y, 4));
        } else {
            lemma_all_reached(base, field, x, y - 1, m);
            assert(!none.contains((x as usize, (y - 1) as usize)));
            assert(neighbours_settled(base, field, x, y - 1, 4));
        }
    }
}

/// Whether `field`, over the occupied cells of `base`, is complete: it
/// carries a direction on exactly the cells from which a perimeter can be
/// reached, each the first step of a shortest way.
#[verifier::opaque]
spec fn complete(base: Seq<Seq<GridSpace>>, field: Seq<Seq<GridSpace>>) -> bool {
    &&& field_wf(field)
    &&& same_occupancy(field, base)
    &&& inv_reach(base, field)
    &&& inv_points(base, field)
    &&& forall|x: int, y: int, n: nat| #[trigger] within(base, x, y, n) ==> has_direction(field, x, y)
}

/// Running the queue until it is empty completes the field.
proof fn lemma_spread_completes(base: Seq<Seq<GridSpace>>, s: Spread)
    requires
        inv(base, s.field, s.queue, 0),
    ensures
        complete(base, spread(s)),
    decreases free_count(s.field), s.queue.len(),
{
    lemma_inv_wf(base, s.field, s.queue, 0);
    if s.queue.len() == 0 {
        assert(s.queue =~= Seq::<(usize, usize)>::empty());
        lemma_done(base, s.field);
    } else {
        let head = s.queue[0];
        let hx = head.0 as int;
        let hy = head.1 as int;
        let rest = Spread { field: s.field, queue: s.queue.drop_first() };
        assert(seq![head] + rest.queue =~= s.queue);
        let up = offer(rest, hx, hy + 1, Direction::Down);
        lemma_offer_step(base, rest, head, 0, hx, hy + 1, Direction::Down);
        let left = offer(up, hx - 1, hy, Direction::Right);
        lemma_offer_step(base, up, head, 1, hx - 1, hy, Direction::Right);
        let right = offer(left, hx + 1, hy, Direction::Left);
        lemma_offer_step(base, left, head, 2, hx + 1, hy, Direction::Left);
        let down = offer(right, hx, hy - 1, Direction::Up);
        lemma_offer_step(base, right, head, 3, hx, hy - 1, Direction::Up);
        assert(down == visit(rest, hx, hy));
        lemma_pop(base, down.field, seq![head] + down.queue);
        assert((seq![head] + down.queue).drop_first() =~= down.queue);
        lemma_visit_effect(rest, hx, hy);
        lemma_spread_completes(base, down);
    }
}

// ---------------------------------------------------------------------------
// Seeding: the cells around the structures take the direction into them.
// ---------------------------------------------------------------------------

/// Whether cell `(x, y)` points into a structure.
spec fn aims_into(base: Seq<Seq<GridSpace>>, field: Seq<Seq<GridSpace>>, x: int, y: int) -> bool {
    match field[x][y].direction {
        Some(d) => occupied(base, x + d.dx(), y + d.dy()),
        None => false,
    }
}

/// What holds while the structures are seeded: every cell with a direction
/// waits in the queue, lies on a perimeter, and points into a structure.
spec fn inv_seed(base: Seq<Seq<GridSpace>>, field: Seq<Seq<GridSpace>>, queue: Seq<(usize, usize)>) -> bool {
    &&& field_wf(base)
    &&& field_wf(field)
    &&& same_occupancy(field, base)
    &&& inv_queue(field, queue)
    &&& forall|x: int, y: int| #[trigger]
        has_direction(field, x, y) ==> queue.contains((x as usize, y as usize))
            && beside_structure(base, x, y) && aims_into(base, field, x, y)
}

/// Keeping directions carries over two changes.
proof fn lemma_keeps_directions_chain(
    a: Seq<Seq<GridSpace>>,
    b: Seq<Seq<GridSpace>>,
    c: Seq<Seq<GridSpace>>,
)
    requires
        keeps_directions(a, b),
        keeps_directions(b, c),
    ensures
        keeps_directions(a, c),
{
    assert forall|x: int, y: int| has_direction(a, x, y) implies #[trigger] has_direction(
        c,
        x,
        y,
    ) by {
        assert(has_direction(b, x, y));
    }
}

/// Offering a cell beside a structure the direction into it keeps
/// `inv_seed` and settles the cell.
proof fn lemma_seed_offer(base: Seq<Seq<GridSpace>>, s: Spread, x: int, y: int, d: Direction)
    requires
        inv_seed(base, s.field, s.queue),
        walkable(base, x, y) ==> occupied(base, x + d.dx(), y + d.dy()),
    ensures
        inv_seed(base, offer(s, x, y, d).field, offer(s, x, y, d).queue),
        keeps_directions(s.field, offer(s, x, y, d).field),
        settled(base, offer(s, x, y, d).field, x, y),
{
    if is_free(s.field, x, y) {
        let after = taken(s.field, x, y, d);
        let cell = (x as usize, y as usize);
        let longer = s.queue.push(cell);
        lemma_taken(s.field, x, y, d);
        lemma_claim_queue(s.field, s.queue, x, y, d);
        assert(s.field[x][y].building == base[x][y].building);
        assert(walkable(base, x, y));
        assert forall|a: int, b: int| in_grid(a, b) implies (#[trigger] after[a][b]).building
            == base[a][b].building by {
            assert(after[a][b].building == s.field[a][b].building);
        }
        assert forall|a: int, b: int| #[trigger] has_direction(after, a, b) implies longer.contains(
            (a as usize, b as usize),
        ) && beside_structure(base, a, b) && aims_into(base, after, a, b) by {
            if a == x && b == y {
                assert(longer[s.queue.len() as int] == cell);
                assert(after[x][y].direction == Some(d));
            } else {
                assert(after[a][b] == s.field[a][b]);
                assert(has_direction(s.field, a, b));
                let i = choose|i: int|
                    0 <= i < s.queue.len() && s.queue[i] == (a as usize, b as usize);
                assert(longer[i] == (a as usize, b as usize));
            }
        }
    } else {
        if walkable(base, x, y) {
            assert(s.field[x][y].building == base[x][y].building);
        }
    }
}

/// Offering a column beside a structure the direction into it keeps
/// `inv_seed` and settles the column.
proof fn lemma_seed_column(
    base: Seq<Seq<GridSpace>>,
    s: Spread,
    x: int,
    y: int,
    count: nat,
    d: Direction,
)
    requires
        inv_seed(base, s.field, s.queue),
        forall|b: int|
            y <= b < y + count && #[trigger] walkable(base, x, b) ==> occupied(
                base,
                x + d.dx(),
                b + d.dy(),
            ),
    ensures
        inv_seed(
            base,
            offer_column(s, x, y, count, d).field,
            offer_column(s, x, y, count, d).queue,
        ),
        keeps_directions(s.field, offer_column(s, x, y, count, d).field),
        forall|b: int|
            y <= b < y + count ==> #[trigger] settled(
                base,
                offer_column(s, x, y, count, d).field,
                x,
                b,
            ),
    decreases count,
{
    if count == 0 {
        assert forall|a: int, b: int| has_direction(s.field, a, b) implies #[trigger] has_direction(
            s.field,
            a,
            b,
        ) by {}
    } else {
        let fewer = (count - 1) as nat;
        let before = offer_column(s, x, y, fewer, d);
        let after = offer(before, x, y + count - 1, d);
        lemma_seed_column(base, s, x, y, fewer, d);
        assert(walkable(base, x, y + fewer) ==> occupied(base, x + d.dx(), y + fewer + d.dy()));
        lemma_seed_offer(base, before, x, y + count - 1, d);
        lemma_keeps_directions_chain(s.field, before.field, after.field);
        assert forall|b: int| y <= b < y + count implies #[trigger] settled(
            base,
            after.field,
            x,
            b,
        ) by {
            if b < y + fewer {
                assert(settled(base, before.field, x, b));
                if has_direction(before.field, x, b) {
                    assert(has_direction(after.field, x, b));
                }
            }
        }
    }
}

/// Offering a row beside a structure the direction into it keeps
/// `inv_seed` and settles the row.
proof fn lemma_seed_row(
    base: Seq<Seq<GridSpace>>,
    s: Spread,
    x: int,
    y: int,
    count: nat,
    d: Direction,
)
    requires
        inv_seed(base, s.field, s.queue),
        forall|a: int|
            x <= a < x + count && #[trigger] walkable(base, a, y) ==> occupied(
                base,
                a + d.dx(),
                y + d.dy(),
            ),
    ensures
        inv_seed(base, offer_row(s, x, y, count, d).field, offer_row(s, x, y, count, d).queue),
        keeps_directions(s.field, offer_row(s, x, y, count, d).field),
        forall|a: int|
            x <= a < x + count ==> #[trigger] settled(
                base,
                offer_row(s, x, y, count, d).field,
                a,
                y,
            ),
    decreases count,
{
    if count == 0 {
        assert forall|a: int, b: int| has_direction(s.field, a, b) implies #[trigger] has_direction(
            s.field,
            a,
            b,
        ) by {}
    } else {
        let fewer = (count - 1) as nat;
        let before = offer_row(s, x, y, fewer, d);
        let after = offer(before, x + count - 1, y, d);
        lemma_seed_row(base, s, x, y, fewer, d);
        assert(walkable(base, x + fewer, y) ==> occupied(base, x + fewer + d.dx(), y + d.dy()));
        lemma_seed_offer(base, before, x + count - 1, y, d);
        lemma_keeps_directions_chain(s.field, before.field, after.field);
        assert forall|a: int| x <= a < x + count implies #[trigger] settled(
            base,
            after.field,
            a,
            y,
        ) by {
            if a < x + fewer {
                assert(settled(base, before.field, a, y));
                if has_direction(before.field, a, y) {
                    assert(has_direction(after.field, a, y));
                }
            }
        }
    }
}

/// Whether every cell of the footprint of `building` is occupied in `base`.
spec fn footprint_occupied(base: Seq<Seq<GridSpace>>, building: Building) -> bool {
    forall|x: int, y: int| #[trigger] building.covers(x, y) ==> occupied(base, x, y)
}

/// Whether every walkable cell one step from the footprint of `building`
/// carries a direction.
spec fn ringed(base: Seq<Seq<GridSpace>>, field: Seq<Seq<GridSpace>>, building: Building) -> bool {
    forall|cx: int, cy: int, x: int, y: int|
        #[trigger] building.covers(cx, cy) && #[trigger] adjacent(x, y, cx, cy) ==> settled(
            base,
            field,
            x,
            y,
        )
}

/// A ringed structure stays ringed when no direction is lost.
proof fn lemma_ringed_stays(
    base: Seq<Seq<GridSpace>>,
    before: Seq<Seq<GridSpace>>,
    after: Seq<Seq<GridSpace>>,
    building: Building,
)
    requires
        ringed(base, before, building),
        keeps_directions(before, after),
    ensures
        ringed(base, after, building),
{
    assert forall|cx: int, cy: int, x: int, y: int|
        #[trigger] building.covers(cx, cy) && #[trigger] adjacent(x, y, cx, cy) implies settled(
        base,
        after,
        x,
        y,
    ) by {
        assert(settled(base, before, x, y));
        if has_direction(before, x, y) {
            assert(has_direction(after, x, y));
        }
    }
}

/// Seeding a structure keeps `inv_seed` and rings the structure.
proof fn lemma_seed_building(base: Seq<Seq<GridSpace>>, s: Spread, building: Building)
    requires
        inv_seed(base, s.field, s.queue),
        footprint_occupied(base, building),
    ensures
        inv_seed(base, seed_building(s, building).field, seed_building(s, building).queue),
        keeps_directions(s.field, seed_building(s, building).field),
        ringed(base, seed_building(s, building).field, building),
{
    if building.width == 0 || building.height == 0 {
        assert forall|a: int, b: int| has_direction(s.field, a, b) implies #[trigger] has_direction(
            s.field,
            a,
            b,
        ) by {}
    } else {
        let x = building.bottom_left.0 as int;
        let y = building.bottom_left.1 as int;
        let w = building.width as nat;
        let h = building.height as nat;
        let left = offer_column(s, x - 1, y, h, Direction::Right);
        let bottom = offer_row(left, x, y - 1, w, Direction::Up);
        let right = offer_column(bottom, x + w, y, h, Direction::Left);
        let top = offer_row(right, x, y + h, w, Direction::Down);
        assert forall|b: int| y <= b < y + h && #[trigger] walkable(base, x - 1, b) implies occupied(
            base,
            x - 1 + Direction::Right.dx(),
            b + Direction::Right.dy(),
        ) by {
            assert(building.covers(x, b));
        }
        assert forall|a: int| x <= a < x + w && #[trigger] walkable(base, a, y - 1) implies occupied(
            base,
            a + Direction::Up.dx(),
            y - 1 + Direction::Up.dy(),
        ) by {
            assert(building.covers(a, y));
        }
        assert forall|b: int| y <= b < y + h && #[trigger] walkable(base, x + w, b) implies occupied(
            base,
            x + w + Direction::Left.dx(),
            b + Direction::Left.dy(),
        ) by {
            assert(building.covers(x + w - 1, b));
        }
        assert forall|a: int| x <= a < x + w && #[trigger] walkable(base, a, y + h) implies occupied(
            base,
            a + Direction::Down.dx(),
            y + h + Direction::Down.dy(),
        ) by {
            assert(building.covers(a, y + h - 1));
        }
        lemma_seed_column(base, s, x - 1, y, h, Direction::Right);
        lemma_seed_row(base, left, x, y - 1, w, Direction::Up);
        lemma_seed_column(base, bottom, x + w, y, h, Direction::Left);
        lemma_seed_row(base, right, x, y + h, w, Direction::Down);
        lemma_keeps_directions_chain(s.field, left.field, bottom.field);
        lemma_keeps_directions_chain(s.field, bottom.field, right.field);
        lemma_keeps_directions_chain(s.field, right.field, top.field);
        lemma_keeps_directions_chain(left.field, bottom.field, right.field);
        lemma_keeps_directions_chain(left.field, right.field, top.field);
        lemma_keeps_directions_chain(bottom.field, right.field, top.field);
        assert forall|cx: int, cy: int, a: int, b: int|
            #[trigger] building.covers(cx, cy) && #[trigger] adjacent(a, b, cx, cy) implies settled(
            base,
            top.field,
            a,
            b,
        ) by {
            if walkable(base, a, b) {
                if building.covers(a, b) {
                    assert(occupied(base, a, b));
                }
                if a == x - 1 {
                    assert(settled(base, left.field, x - 1, b));
                    assert(has_direction(left.field, a, b));
                    assert(has_direction(top.field, a, b));
                } else if b == y - 1 {
                    assert(settled(base, bottom.field, a, y - 1));
                    assert(has_direction(bottom.field, a, b));
                    assert(has_direction(top.field, a, b));
                } else if a == x + w {
                    assert(settled(base, right.field, x + w, b));
                    assert(has_direction(right.field, a, b));
                    assert(has_direction(top.field, a, b));
                } else {
                    assert(b == y + h);
                    assert(settled(base, top.field, a, y + h));
                }
            }
        }
    }
}

/// Seeding the first `count` structures keeps `inv_seed` and rings each of
/// them.
proof fn lemma_seed_all(
    base: Seq<Seq<GridSpace>>,
    s: Spread,
    entries: Seq<(u32, Building)>,
    count: int,
)
    requires
        inv_seed(base, s.field, s.queue),
        0 <= count <= entries.len(),
        forall|i: int| 0 <= i < entries.len() ==> footprint_occupied(base, (#[trigger] entries[i]).1),
    ensures
        inv_seed(
            base,
            seed_all(s, entries.take(count)).field,
            seed_all(s, entries.take(count)).queue,
        ),
        keeps_directions(s.field, seed_all(s, entries.take(count)).field),
        forall|i: int|
            0 <= i < count ==> ringed(
                base,
                seed_all(s, entries.take(count)).field,
                (#[trigger] entries[i]).1,
            ),
    decreases count,
{
    if count == 0 {
        assert(entries.take(0) =~= Seq::<(u32, Building)>::empty());
        assert forall|a: int, b: int| has_direction(s.field, a, b) implies #[trigger] has_direction(
            s.field,
            a,
            b,
        ) by {}
    } else {
        let taken_now = entries.take(count);
        assert(taken_now.drop_last() =~= entries.take(count - 1));
        assert(taken_now.last() == entries[count - 1]);
        let before = seed_all(s, entries.take(count - 1));
        let after = seed_building(before, entries[count - 1].1);
        assert(after == seed_all(s, taken_now));
        lemma_seed_all(base, s, entries, count - 1);
        lemma_seed_building(base, before, entries[count - 1].1);
        lemma_keeps_directions_chain(s.field, before.field, after.field);
        assert forall|i: int| 0 <= i < count implies ringed(
            base,
            after.field,
            (#[trigger] entries[i]).1,
        ) by {
            if i < count - 1 {
                lemma_ringed_stays(base, before.field, after.field, entries[i].1);
            }
        }
    }
}

/// Once every perimeter cell carries the direction into its structure, the
/// queue of those cells is ready to be run.
proof fn lemma_seeded_ready(
    base: Seq<Seq<GridSpace>>,
    field: Seq<Seq<GridSpace>>,
    queue: Seq<(usize, usize)>,
)
    requires
        inv_seed(base, field, queue),
        inv_seeded(base, field),
    ensures
        inv(base, field, queue, 0),
{
    reveal(inv);
    assert forall|i: int| 0 <= i < queue.len() implies beside_structure(
        base,
        (#[trigger] queue[i]).0 as int,
        queue[i].1 as int,
    ) by {
        assert(has_direction(field, queue[i].0 as int, queue[i].1 as int));
    }
    assert(inv_reach(base, field)) by {
        assert forall|x: int, y: int| #[trigger] has_direction(field, x, y) implies exists|n: nat|
            within(base, x, y, n) by {
            assert(within(base, x, y, 0));
        }
    }
    assert(inv_points(base, field)) by {
        assert forall|x: int, y: int, n: nat|
            has_direction(field, x, y) && #[trigger] hops_are(base, x, y, n) implies aims_closer(
            base,
            field,
            x,
            y,
            n,
        ) by {
            assert(aims_into(base, field, x, y));
            assert(within(base, x, y, 0));
            if n > 0 {
                lemma_within_more(base, x, y, 0, (n - 1) as nat);
            }
        }
    }
    assert(inv_sorted(base, queue)) by {
        assert forall|i: int, j: int, n: nat|
            0 <= i <= j < queue.len() && #[trigger] within(
                base,
                queue[j].0 as int,
                queue[j].1 as int,
                n,
            ) implies #[trigger] within(base, queue[i].0 as int, queue[i].1 as int, n) by {
            assert(beside_structure(base, queue[i].0 as int, queue[i].1 as int));
        }
    }
    assert(inv_span(base, queue)) by {
        assert forall|j: int, n: nat|
            0 <= j < queue.len() && #[trigger] within(
                base,
                queue[0].0 as int,
                queue[0].1 as int,
                n,
            ) implies within(base, (#[trigger] queue[j]).0 as int, queue[j].1 as int, n + 1) by {
            assert(beside_structure(base, queue[j].0 as int, queue[j].1 as int));
        }
    }
    assert(inv_front(base, field, queue)) by {
        if queue.len() > 0 {
            assert(beside_structure(base, queue[0].0 as int, queue[0].1 as int));
            assert forall|x: int, y: int, n: nat|
                #[trigger] within(base, x, y, n) && (n == 0 || !within(
                    base,
                    queue[0].0 as int,
                    queue[0].1 as int,
                    (n - 1) as nat,
                )) implies has_direction(field, x, y) by {
                assert(n == 0);
                assert(beside_structure(base, x, y));
            }
        }
    }
    assert(inv_near(base, field, queue)) by {
        if queue.len() > 0 {
            assert forall|x: int, y: int, n: nat|
                has_direction(field, x, y) && #[trigger] within(
                    base,
                    queue[0].0 as int,
                    queue[0].1 as int,
                    n,
                ) implies #[trigger] within(base, x, y, n + 1) by {
                assert(beside_structure(base, x, y));
            }
        }
    }
}

/// A complete field leads to the nearest structure.
proof fn lemma_complete_leads(base: Seq<Seq<GridSpace>>, field: Seq<Seq<GridSpace>>)
    requires
        complete(base, field),
    ensures
        field_wf(field),
        same_occupancy(field, base),
        leads_to_nearest(field),
{
    reveal(complete);
    assert forall|x: int, y: int| in_grid(x, y) implies (#[trigger] has_direction(field, x, y)
        <==> exists|n: nat| within(field, x, y, n)) by {
        if has_direction(field, x, y) {
            let n = choose|n: nat| within(base, x, y, n);
            lemma_within_same_occupancy(field, base, x, y, n);
            assert(within(field, x, y, n));
        }
        if exists|n: nat| within(field, x, y, n) {
            let n = choose|n: nat| within(field, x, y, n);
            lemma_within_same_occupancy(field, base, x, y, n);
            assert(within(base, x, y, n));
        }
    }
    assert forall|x: int, y: int, n: nat| #[trigger] hops_are(field, x, y, n) implies points_closer(
        field,
        x,
        y,
        n,
    ) by {
        lemma_within_same_occupancy(field, base, x, y, n);
        if n > 0 {
            lemma_within_same_occupancy(field, base, x, y, (n - 1) as nat);
        }
        assert(hops_are(base, x, y, n));
        assert(has_direction(field, x, y));
        assert(aims_closer(base, field, x, y, n));
        let d = field[x][y].direction->Some_0;
        let tx = x + d.dx();
        let ty = y + d.dy();
        if n == 0 {
            assert(field[tx][ty].building == base[tx][ty].building);
        } else {
            let m = (n - 1) as nat;
            lemma_within_same_occupancy(field, base, tx, ty, m);
            if m > 0 {
                let l = (m - 1) as nat;
                lemma_within_same_occupancy(field, base, tx, ty, l);
                if within(base, tx, ty, l) {
                    assert(within(base, x, y, m));
                }
            }
        }
    }
}

/// On a field without directions whose occupied cells are the footprints of
/// `entries`, seeding the structures and running the queue gives a field
/// that leads to the nearest structure and has the same occupied cells.
pub proof fn lemma_propagation_leads_to_nearest(
    base: Seq<Seq<GridSpace>>,
    entries: Seq<(u32, Building)>,
)
    requires
        field_wf(base),
        base == without_directions(base),
        occupancy_matches(base, entries),
    ensures
        field_wf(spread(seed_all(Spread { field: base, queue: Seq::empty() }, entries))),
        same_occupancy(spread(seed_all(Spread { field: base, queue: Seq::empty() }, entries)), base),
        leads_to_nearest(spread(seed_all(Spread { field: base, queue: Seq::empty() }, entries))),
{
    let start = Spread { field: base, queue: Seq::<(usize, usize)>::empty() };
    let seeded = seed_all(start, entries);
    assert forall|i: int| 0 <= i < entries.len() implies footprint_occupied(
        base,
        (#[trigger] entries[i]).1,
    ) by {
        let building = entries[i].1;
        assert(building.fits());
        assert forall|x: int, y: int| #[trigger] building.covers(x, y) implies occupied(
            base,
            x,
            y,
        ) by {
            assert(in_grid(x, y));
            assert(base[x][y].building is Some);
        }
    }
    assert(inv_seed(base, start.field, start.queue)) by {
        assert forall|x: int, y: int| in_grid(x, y) implies (#[trigger] base[x][y]).direction
            is None by {
            assert(without_directions(base)[x][y].direction is None);
        }
    }
    lemma_seed_all(base, start, entries, entries.len() as int);
    assert(entries.take(entries.len() as int) =~= entries);
    assert(inv_seeded(base, seeded.field)) by {
        assert forall|x: int, y: int| #[trigger] beside_structure(base, x, y) implies has_direction(
            seeded.field,
            x,
            y,
        ) by {
            let (ox, oy) = if occupied(base, x, y + 1) {
                (x, y + 1)
            } else if occupied(base, x - 1, y) {
                (x - 1, y)
            } else if occupied(base, x + 1, y) {
                (x + 1, y)
            } else {
                (x, y - 1)
            };
            assert(occupied(base, ox, oy));
            let i = choose|i: int| 0 <= i < entries.len() && (#[trigger] entries[i]).1.covers(ox, oy);
            assert(ringed(base, seeded.field, entries[i].1));
            assert(entries[i].1.covers(ox, oy) && adjacent(x, y, ox, oy));
            assert(settled(base, seeded.field, x, y));
        }
    }
    lemma_seeded_ready(base, seeded.field, seeded.queue);
    lemma_spread_completes(base, seeded);
    lemma_complete_leads(base, spread(seeded));
}

} // verus!

//! What the flow field means: every cell from which a structure can be
//! reached points one step along a shortest way to the nearest structure.
use vstd::prelude::*;
use crate::building::Building;
use crate::coords::in_grid;
use crate::direction::Direction;
use crate::flow::{flow_field, seed_all, Spread};
use crate::grid::{field_wf, occupancy_matches, without_directions, GridSpace};
use crate::propagation::lemma_propagation_leads_to_nearest;

verus! {

/// Whether a structure occupies cell `(x, y)`.
pub open spec fn occupied(field: Seq<Seq<GridSpace>>, x: int, y: int) -> bool {
    in_grid(x, y) && field[x][y].building is Some
}

/// Whether cell `(x, y)` lies inside the grid and no structure occupies it.
pub open spec fn walkable(field: Seq<Seq<GridSpace>>, x: int, y: int) -> bool {
    in_grid(x, y) && field[x][y].building is None
}

/// Whether cell `(x, y)` carries a direction.
pub open spec fn has_direction(field: Seq<Seq<GridSpace>>, x: int, y: int) -> bool {
    in_grid(x, y) && field[x][y].direction is Some
}

/// Whether cell `(x, y)` is walkable and has an occupied cell above, to the
/// left, to the right or below: it lies on the perimeter of a structure.
pub open spec fn beside_structure(field: Seq<Seq<GridSpace>>, x: int, y: int) -> bool {
    &&& walkable(field, x, y)
    &&& (occupied(field, x, y + 1) || occupied(field, x - 1, y) || occupied(field, x + 1, y)
        || occupied(field, x, y - 1))
}

/// Whether the perimeter of some structure can be reached from cell
/// `(x, y)` in at most `n` steps, each to a walkable cell above, to the
/// left, to the right or below.
pub open spec fn within(field: Seq<Seq<GridSpace>>, x: int, y: int, n: nat) -> bool
    decreases n,
{
    &&& walkable(field, x, y)
    &&& (beside_structure(field, x, y) || (n > 0 && (within(field, x, y + 1, (n - 1) as nat)
        || within(field, x - 1, y, (n - 1) as nat) || within(field, x + 1, y, (n - 1) as nat)
        || within(field, x, y - 1, (n - 1) as nat))))
}

/// Whether `n` is the number of steps from cell `(x, y)` to the nearest
/// perimeter: it can be reached in `n` steps and in no fewer.
pub open spec fn hops_are(field: Seq<Seq<GridSpace>>, x: int, y: int, n: nat) -> bool {
    within(field, x, y, n) && (n == 0 || !within(field, x, y, (n - 1) as nat))
}

/// Whether cell `(x, y)`, which is `n` steps from the nearest perimeter,
/// points at a cell that is one step nearer: into a structure when it lies
/// on a perimeter itself.
pub open spec fn points_closer(field: Seq<Seq<GridSpace>>, x: int, y: int, n: nat) -> bool {
    match field[x][y].direction {
        Some(d) => if n == 0 {
            occupied(field, x + d.dx(), y + d.dy())
        } else {
            hops_are(field, x + d.dx(), y + d.dy(), (n - 1) as nat)
        },
        None => false,
    }
}

/// Whether `field` leads to the nearest structure: a cell carries a
/// direction exactly if the perimeter of a structure can be reached from it,
/// and the direction is then the first step of a shortest way there.
pub open spec fn leads_to_nearest(field: Seq<Seq<GridSpace>>) -> bool {
    &&& forall|x: int, y: int|
        in_grid(x, y) ==> (#[trigger] has_direction(field, x, y) <==> exists|n: nat|
            within(field, x, y, n))
    &&& forall|x: int, y: int, n: nat| #[trigger]
        hops_are(field, x, y, n) ==> points_closer(field, x, y, n)
}

/// Whether the same cells are occupied in `a` and in `b`, by the same
/// structures.
pub open spec fn same_occupancy(a: Seq<Seq<GridSpace>>, b: Seq<Seq<GridSpace>>) -> bool {
    forall|x: int, y: int| in_grid(x, y) ==> (#[trigger] a[x][y]).building == b[x][y].building
}

/// How far the perimeter is depends on the occupied cells alone.
pub proof fn lemma_within_same_occupancy(
    a: Seq<Seq<GridSpace>>,
    b: Seq<Seq<GridSpace>>,
    x: int,
    y: int,
    n: nat,
)
    requires
        same_occupancy(a, b),
    ensures
        within(a, x, y, n) == within(b, x, y, n),
    decreases n,
{
    assert(in_grid(x, y) ==> a[x][y].building == b[x][y].building);
    assert(in_grid(x, y + 1) ==> a[x][y + 1].building == b[x][y + 1].building);
    assert(in_grid(x - 1, y) ==> a[x - 1][y].building == b[x - 1][y].building);
    assert(in_grid(x + 1, y) ==> a[x + 1][y].building == b[x + 1][y].building);
    assert(in_grid(x, y - 1) ==> a[x][y - 1].building == b[x][y - 1].building);
    if n > 0 {
        lemma_within_same_occupancy(a, b, x, y + 1, (n - 1) as nat);
        lemma_within_same_occupancy(a, b, x - 1, y, (n - 1) as nat);
        lemma_within_same_occupancy(a, b, x + 1, y, (n - 1) as nat);
        lemma_within_same_occupancy(a, b, x, y - 1, (n - 1) as nat);
    }
}

/// A perimeter that can be reached in `n` steps can be reached in any
/// larger number of steps.
pub proof fn lemma_within_more(field: Seq<Seq<GridSpace>>, x: int, y: int, n: nat, m: nat)
    requires
        within(field, x, y, n),
        n <= m,
    ensures
        within(field, x, y, m),
    decreases n,
{
    if !beside_structure(field, x, y) {
        let k = (n - 1) as nat;
        let l = (m - 1) as nat;
        if within(field, x, y + 1, k) {
            lemma_within_more(field, x, y + 1, k, l);
        } else if within(field, x - 1, y, k) {
            lemma_within_more(field, x - 1, y, k, l);
        } else if within(field, x + 1, y, k) {
            lemma_within_more(field, x + 1, y, k, l);
        } else {
            lemma_within_more(field, x, y - 1, k, l);
        }
    }
}

/// Whether `(ax, ay)` and `(bx, by)` are one step apart.
pub open spec fn adjacent(ax: int, ay: int, bx: int, by: int) -> bool {
    (ax == bx && (ay == by + 1 || ay + 1 == by)) || (ay == by && (ax == bx + 1 || ax + 1 == bx))
}

/// The flow field leads to the nearest structure: on a grid whose occupied
/// cells are the footprints of `entries`, a cell carries a direction exactly
/// if the perimeter of a structure can be reached from it over walkable
/// cells, and the direction is the first step of a shortest way there.  The
/// occupied cells stay as they are.
pub proof fn lemma_flow_field_leads_to_nearest(
    field: Seq<Seq<GridSpace>>,
    entries: Seq<(u32, Building)>,
)
    requires
        field_wf(field),
        occupancy_matches(field, entries),
    ensures
        field_wf(flow_field(field, entries)),
        same_occupancy(flow_field(field, entries), field),
        leads_to_nearest(flow_field(field, entries)),
{
    let base = without_directions(field);
    assert forall|x: int, y: int| in_grid(x, y) implies (#[trigger] base[x][y]).building
        == field[x][y].building by {}
    assert(occupancy_matches(base, entries)) by {
        assert forall|i: int, x: int, y: int|
            0 <= i < entries.len() && in_grid(x, y) && (#[trigger] entries[i]).1.covers(
                x,
                y,
            ) implies (#[trigger] base[x][y]).building == Some(
            crate::grid::BuildingGridInfo { id: entries[i].0, typ: entries[i].1.building_type },
        ) by {
            assert(field[x][y].building is Some);
        }
        assert forall|x: int, y: int|
            in_grid(x, y) && (#[trigger] base[x][y]).building is Some implies exists|i: int|
            0 <= i < entries.len() && (#[trigger] entries[i]).1.covers(x, y) by {
            assert(field[x][y].building is Some);
        }
    }
    assert(without_directions(base) =~~= base);
    lemma_propagation_leads_to_nearest(base, entries);
    let result = flow_field(field, entries);
    assert forall|x: int, y: int| in_grid(x, y) implies (#[trigger] result[x][y]).building
        == field[x][y].building by {
        assert(result[x][y].building == base[x][y].building);
        assert(base[x][y].building == field[x][y].building);
    }
}

/// Building the flow field again, with nothing changed in between, gives
/// the same field, cell for cell: the field depends on the occupied cells
/// and on the order of the structures alone.
pub proof fn lemma_rebuild_is_identical(field: Seq<Seq<GridSpace>>, entries: Seq<(u32, Building)>)
    requires
        field_wf(field),
        occupancy_matches(field, entries),
    ensures
        occupancy_matches(flow_field(field, entries), entries),
        flow_field(flow_field(field, entries), entries) == flow_field(field, entries),
{
    let built = flow_field(field, entries);
    lemma_flow_field_leads_to_nearest(field, entries);
    assert(without_directions(built) =~~= without_directions(field)) by {
        assert forall|x: int, y: int| in_grid(x, y) implies without_directions(built)[x][y]
            == without_directions(field)[x][y] by {
            assert(built[x][y].building == field[x][y].building);
        }
    }
    assert(occupancy_matches(built, entries)) by {
        assert forall|i: int, x: int, y: int|
            0 <= i < entries.len() && in_grid(x, y) && (#[trigger] entries[i]).1.covers(
                x,
                y,
            ) implies (#[trigger] built[x][y]).building == Some(
            crate::grid::BuildingGridInfo { id: entries[i].0, typ: entries[i].1.building_type },
        ) by {
            assert(built[x][y].building == field[x][y].building);
        }
        assert forall|x: int, y: int|
            in_grid(x, y) && (#[trigger] built[x][y]).building is Some implies exists|i: int|
            0 <= i < entries.len() && (#[trigger] entries[i]).1.covers(x, y) by {
            assert(built[x][y].building == field[x][y].building);
        }
    }
}

/// Seeding depends on the footprints of the structures and on their order
/// alone.
proof fn lemma_seed_all_by_footprints(
    s: Spread,
    a: Seq<(u32, Building)>,
    b: Seq<(u32, Building)>,
)
    requires
        crate::grid::same_footprints(a, b),
    ensures
        seed_all(s, a) == seed_all(s, b),
    decreases a.len(),
{
    if a.len() > 0 {
        assert(crate::grid::same_footprints(a.drop_last(), b.drop_last())) by {
            assert forall|i: int| 0 <= i < a.drop_last().len() implies {
                &&& (#[trigger] a.drop_last()[i]).0 == b.drop_last()[i].0
                &&& a.drop_last()[i].1.building_type == b.drop_last()[i].1.building_type
                &&& a.drop_last()[i].1.bottom_left == b.drop_last()[i].1.bottom_left
                &&& a.drop_last()[i].1.width == b.drop_last()[i].1.width
                &&& a.drop_last()[i].1.height == b.drop_last()[i].1.height
            } by {
                assert(a.drop_last()[i] == a[i]);
                assert(b.drop_last()[i] == b[i]);
            }
        }
        lemma_seed_all_by_footprints(s, a.drop_last(), b.drop_last());
        assert(a.last() == a[a.len() - 1]);
        assert(b.last() == b[a.len() - 1]);
    }
}

/// The flow field depends on the footprints of the structures and on their
/// order, not on what else is known of them.
pub proof fn lemma_flow_field_by_footprints(
    field: Seq<Seq<GridSpace>>,
    a: Seq<(u32, Building)>,
    b: Seq<(u32, Building)>,
)
    requires
        crate::grid::same_footprints(a, b),
    ensures
        flow_field(field, a) == flow_field(field, b),
{
    lemma_seed_all_by_footprints(
        Spread { field: without_directions(field), queue: Seq::<(usize, usize)>::empty() },
        a,
        b,
    );
}

/// The cell that an entity comes to when it sets out from cell `(x, y)`
/// and follows the directions of `field` for `steps` steps, cell by cell.
/// It stays where there is no direction.
pub open spec fn followed(field: Seq<Seq<GridSpace>>, x: int, y: int, steps: nat) -> (int, int)
    decreases steps,
{
    if steps == 0 {
        (x, y)
    } else {
        match field[x][y].direction {
            Some(d) => followed(field, x + d.dx(), y + d.dy(), (steps - 1) as nat),
            None => (x, y),
        }
    }
}

/// On a field that leads to the nearest structure, an entity that follows
/// the directions from a cell `n` steps from the nearest perimeter stands on
/// a structure after `n + 1` steps.
pub proof fn lemma_following_arrives(field: Seq<Seq<GridSpace>>, x: int, y: int, n: nat)
    requires
        field_wf(field),
        leads_to_nearest(field),
        hops_are(field, x, y, n),
    ensures
        occupied(field, followed(field, x, y, n + 1).0, followed(field, x, y, n + 1).1),
    decreases n,
{
    assert(points_closer(field, x, y, n));
    let d = field[x][y].direction->Some_0;
    let tx = x + d.dx();
    let ty = y + d.dy();
    assert(((n + 1) - 1) as nat == n);
    assert(followed(field, x, y, n + 1) == followed(field, tx, ty, n));
    if n == 0 {
        assert(followed(field, tx, ty, 0) == (tx, ty));
    } else {
        lemma_following_arrives(field, tx, ty, (n - 1) as nat);
        assert((((n - 1) as nat) + 1) as nat == n);
    }
}

/// On a field that leads to the nearest structure, a walkable cell with an
/// occupied cell on exactly one side points into that cell.
pub proof fn lemma_perimeter_points_in(field: Seq<Seq<GridSpace>>, x: int, y: int, d: Direction)
    requires
        field_wf(field),
        leads_to_nearest(field),
        walkable(field, x, y),
        forall|other: Direction|
            occupied(field, x + other.dx(), y + other.dy()) <==> other == d,
    ensures
        field[x][y].direction == Some(d),
{
    assert(occupied(field, x + d.dx(), y + d.dy()));
    assert(beside_structure(field, x, y));
    assert(hops_are(field, x, y, 0));
    assert(points_closer(field, x, y, 0));
}

} // verus!

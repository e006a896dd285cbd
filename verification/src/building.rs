//! Structures and the registry that owns them.
use vstd::prelude::*;
use crate::coords::GRID_SIZE;

verus! {

/// What a structure is used for.
#[derive(Clone, Copy, Debug, PartialEq, Eq, Structural)]
pub enum BuildingType {
    Sentry,
    Barricade,
}

/// A placed structure.  Its footprint is the rectangle of cells whose lower
/// left corner is `bottom_left` and which is `width` cells wide and `height`
/// cells high.  Health is in fixed point.
#[derive(Clone, Copy, Debug, PartialEq, Eq)]
pub struct Building {
    pub building_type: BuildingType,
    pub bottom_left: (usize, usize),
    pub width: usize,
    pub height: usize,
    pub max_health: i64,
    pub health: i64,
}

impl Building {
    /// Whether cell `(x, y)` lies in the footprint.
    pub open spec fn covers(self, x: int, y: int) -> bool {
        &&& self.bottom_left.0 <= x < self.bottom_left.0 + self.width
        &&& self.bottom_left.1 <= y < self.bottom_left.1 + self.height
    }

    /// Whether the footprint lies inside the grid.
    pub open spec fn fits(self) -> bool {
        &&& self.bottom_left.0 + self.width <= GRID_SIZE
        &&& self.bottom_left.1 + self.height <= GRID_SIZE
    }

    /// Whether the footprint lies inside the grid.
    pub fn fits_in_grid(&self) -> (inside: bool)
        ensures
            inside == self.fits(),
    {
        self.bottom_left.0 <= GRID_SIZE && self.width <= GRID_SIZE - self.bottom_left.0
            && self.bottom_left.1 <= GRID_SIZE && self.height <= GRID_SIZE - self.bottom_left.1
    }
}

/// Why a structure cannot be placed.
#[derive(Clone, Copy, Debug, PartialEq, Eq, Structural)]
pub enum PlacementError {
    /// The footprint reaches outside the grid.
    OutOfBounds,
    /// The footprint covers a cell that another structure occupies.
    Overlap,
    /// The identifier is taken by another structure.
    DuplicateId,
}

/// Whether no identifier occurs twice in `entries`.
pub open spec fn distinct_ids(entries: Seq<(u32, Building)>) -> bool {
    forall|i: int, j: int|
        0 <= i < j < entries.len() ==> (#[trigger] entries[i]).0 != (#[trigger] entries[j]).0
}

/// Whether some entry of `entries` carries identifier `id`.
pub open spec fn has_id(entries: Seq<(u32, Building)>, id: u32) -> bool {
    exists|i: int| 0 <= i < entries.len() && (#[trigger] entries[i]).0 == id
}

/// Place in `entries` of the entry that carries identifier `id`, if some
/// entry does.
pub open spec fn index_of(entries: Seq<(u32, Building)>, id: u32) -> int {
    choose|i: int| 0 <= i < entries.len() && (#[trigger] entries[i]).0 == id
}

/// The structure that `entries` holds under `id`.
pub open spec fn lookup(entries: Seq<(u32, Building)>, id: u32) -> Option<Building> {
    if has_id(entries, id) {
        Some(entries[index_of(entries, id)].1)
    } else {
        None
    }
}

/// `entries` without the entry under `id`.
pub open spec fn removed(entries: Seq<(u32, Building)>, id: u32) -> Seq<(u32, Building)> {
    if has_id(entries, id) {
        entries.remove(index_of(entries, id))
    } else {
        entries
    }
}

/// `entries` with the health of the structure under `id` set to `health`.
pub open spec fn with_health(entries: Seq<(u32, Building)>, id: u32, health: i64) -> Seq<
    (u32, Building),
> {
    if has_id(entries, id) {
        entries.update(
            index_of(entries, id),
            (id, (Building { health, ..entries[index_of(entries, id)].1 })),
        )
    } else {
        entries
    }
}

/// Where no identifier occurs twice, an entry that carries `id` is the
/// entry under `id`.
pub proof fn lemma_index_of(entries: Seq<(u32, Building)>, id: u32, index: int)
    requires
        distinct_ids(entries),
        0 <= index < entries.len(),
        entries[index].0 == id,
    ensures
        has_id(entries, id),
        index_of(entries, id) == index,
{
    let found = index_of(entries, id);
    assert(0 <= found < entries.len() && entries[found].0 == id);
    if found < index {
        assert(entries[found].0 != entries[index].0);
    } else if index < found {
        assert(entries[index].0 != entries[found].0);
    }
}

/// The structures in play, each under its identifier, in the order in which
/// they were placed.  No identifier occurs twice.
pub struct BuildingRegistry {
    entries: Vec<(u32, Building)>,
}

impl View for BuildingRegistry {
    type V = Seq<(u32, Building)>;

    closed spec fn view(&self) -> Seq<(u32, Building)> {
        self.entries@
    }
}

impl BuildingRegistry {
    /// The registry's invariant.
    pub open spec fn wf(&self) -> bool {
        distinct_ids(self@)
    }

    /// A registry without structures.
    pub fn new() -> (registry: BuildingRegistry)
        ensures
            registry.wf(),
            registry@ == Seq::<(u32, Building)>::empty(),
    {
        BuildingRegistry { entries: Vec::new() }
    }

    /// Number of structures.
    pub fn len(&self) -> (count: usize)
        ensures
            count == self@.len(),
    {
        self.entries.len()
    }

    /// The structure at `index` in placement order, with its identifier.
    pub fn entry(&self, index: usize) -> (found: (u32, Building))
        requires
            index < self@.len(),
        ensures
            found == self@[index as int],
    {
        self.entries[index]
    }

    /// Place in the order of the structure with identifier `id`.
    pub fn position(&self, id: u32) -> (found: Option<usize>)
        requires
            self.wf(),
        ensures
            match found {
                Some(index) => has_id(self@, id) && index == index_of(self@, id),
                None => !has_id(self@, id),
            },
    {
        let mut index: usize = 0;
        while index < self.entries.len()
            invariant
                self.wf(),
                index <= self.entries@.len(),
                forall|k: int| 0 <= k < index ==> (#[trigger] self.entries@[k]).0 != id,
            decreases self.entries@.len() - index,
        {
            if self.entries[index].0 == id {
                proof {
                    lemma_index_of(self@, id, index as int);
                }
                return Some(index);
            }
            index += 1;
        }
        None
    }

    /// The structure with identifier `id`.
    pub fn get(&self, id: u32) -> (found: Option<Building>)
        requires
            self.wf(),
        ensures
            found == lookup(self@, id),
    {
        match self.position(id) {
            Some(index) => Some(self.entries[index].1),
            None => None,
        }
    }

    /// Adds `building` under `id` behind the structures already there.
    /// Refuses, and changes nothing, when `id` is taken.
    pub fn insert(&mut self, id: u32, building: Building) -> (added: bool)
        requires
            old(self).wf(),
        ensures
            final(self).wf(),
            added == !has_id(old(self)@, id),
            added ==> final(self)@ == old(self)@.push((id, building)),
            !added ==> final(self)@ == old(self)@,
    {
        match self.position(id) {
            Some(_) => false,
            None => {
                self.entries.push((id, building));
                true
            },
        }
    }

    /// Takes the structure with identifier `id` out; the others keep their order.
    pub fn remove(&mut self, id: u32) -> (taken: Option<Building>)
        requires
            old(self).wf(),
        ensures
            final(self).wf(),
            taken == lookup(old(self)@, id),
            final(self)@ == removed(old(self)@, id),
            !has_id(final(self)@, id),
    {
        match self.position(id) {
            Some(index) => {
                let taken = self.entries.remove(index);
                proof {
                    let fewer = old(self)@.remove(index as int);
                    assert forall|i: int| 0 <= i < fewer.len() implies (#[trigger] fewer[i]).0
                        != id by {
                        if i < index {
                            assert(fewer[i] == old(self)@[i]);
                            assert(old(self)@[i].0 != old(self)@[index as int].0);
                        } else {
                            assert(fewer[i] == old(self)@[i + 1]);
                            assert(old(self)@[index as int].0 != old(self)@[i + 1].0);
                        }
                    }
                    assert forall|i: int, j: int| 0 <= i < j < fewer.len() implies (
                    #[trigger] fewer[i]).0 != (#[trigger] fewer[j]).0 by {
                        let a = if i < index { i } else { i + 1 };
                        let b = if j < index { j } else { j + 1 };
                        assert(fewer[i] == old(self)@[a]);
                        assert(fewer[j] == old(self)@[b]);
                        assert(old(self)@[a].0 != old(self)@[b].0);
                    }
                }
                Some(taken.1)
            },
            None => None,
        }
    }

    /// Sets the health of the structure with identifier `id`, if there is one.
    pub fn set_health(&mut self, id: u32, health: i64) -> (changed: bool)
        requires
            old(self).wf(),
        ensures
            final(self).wf(),
            changed == has_id(old(self)@, id),
            final(self)@ == with_health(old(self)@, id, health),
    {
        match self.position(id) {
            Some(index) => {
                let entry = self.entries[index];
                self.entries[index] = (id, Building { health, ..entry.1 });
                proof {
                    let after = self.entries@;
                    assert forall|i: int, j: int| 0 <= i < j < after.len() implies (
                    #[trigger] after[i]).0 != (#[trigger] after[j]).0 by {
                        assert(after[i].0 == old(self)@[i].0);
                        assert(after[j].0 == old(self)@[j].0);
                        assert(old(self)@[i].0 != old(self)@[j].0);
                    }
                }
                true
            },
            None => false,
        }
    }
}

} // verus!
